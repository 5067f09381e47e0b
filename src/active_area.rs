//! Level 5 active area offsets derived from the canvas and image aspect ratios.
use vstd::prelude::*;

use crate::error::RpuError;
use crate::levels::ExtMetadataBlockLevel5;

verus! {

/// An aspect ratio as the fraction `num / den`, such as 16/9 or 239/100.
#[derive(Debug, Clone, Copy, PartialEq, Eq, Structural)]
pub struct AspectRatio {
    pub num: u16,
    pub den: u16,
}

/// The canvas size that the offsets are measured on.
#[derive(Debug, Clone, Copy, PartialEq, Eq, Structural, Default)]
pub struct XmlParserOpts {
    pub canvas_width: Option<u16>,
    pub canvas_height: Option<u16>,
}

/// `n / d` rounded to the nearest integer, halves away from zero.
pub open spec fn round_div(n: nat, d: nat) -> nat {
    (2 * n + d) / (2 * d)
}

/// The image height or width, in pixels, that `side` pixels of canvas hold when the
/// image is narrower than the canvas in that direction: `side * a / b` for the
/// fractions `a = an / ad` and `b = bn / bd`, rounded.
pub open spec fn scaled_side(side: nat, an: nat, ad: nat, bn: nat, bd: nat) -> nat {
    round_div(side * an * bd, ad * bn)
}

/// The offsets (left, right, top, bottom) that frame an image of aspect `image_ar`
/// on a `cw` by `ch` canvas of aspect `canvas_ar`: none for equal ratios, top and
/// bottom bars for a wider image, left and right bars for a narrower one. Each pair
/// splits the difference, the smaller half first.
pub open spec fn active_area_offsets(cw: nat, ch: nat, canvas_ar: AspectRatio, image_ar: AspectRatio) -> (
    nat,
    nat,
    nat,
    nat,
) {
    let (cn, cd, i_n, id) = (
        canvas_ar.num as nat,
        canvas_ar.den as nat,
        image_ar.num as nat,
        image_ar.den as nat,
    );
    if cn * id == i_n * cd {
        (0, 0, 0, 0)
    } else if i_n * cd > cn * id {
        let diff = (ch - scaled_side(ch, cn, cd, i_n, id)) as nat;
        (0, 0, diff / 2, (diff - diff / 2) as nat)
    } else {
        let diff = (cw - scaled_side(cw, i_n, id, cn, cd)) as nat;
        (diff / 2, (diff - diff / 2) as nat, 0, 0)
    }
}

proof fn lemma_scaled_side_le(side: nat, an: nat, ad: nat, bn: nat, bd: nat)
    requires
        ad > 0,
        bn > 0,
        an * bd < bn * ad,
    ensures
        scaled_side(side, an, ad, bn, bd) <= side,
{
    let n = side * an * bd;
    let d = ad * bn;
    assert(an * bd <= bn * ad - 1);
    assert(n <= side * (d - 1)) by (nonlinear_arith)
        requires
            n == side * an * bd,
            d == ad * bn,
            an * bd <= bn * ad - 1,
    ;
    assert((2 * n + d) / (2 * d) <= side) by (nonlinear_arith)
        requires
            n <= side * (d - 1),
            d > 0,
    ;
}

/// Computes the level 5 offsets for an image of aspect `image_ar` on the canvas of
/// `opts`, of aspect `canvas_ar`.
pub fn calculate_level5_metadata(
    opts: &XmlParserOpts,
    canvas_ar: AspectRatio,
    image_ar: AspectRatio,
) -> (res: Result<ExtMetadataBlockLevel5, RpuError>)
    requires
        canvas_ar.num > 0,
        canvas_ar.den > 0,
        image_ar.num > 0,
        image_ar.den > 0,
    ensures
        opts.canvas_width is None || opts.canvas_height is None <==> res is Err,
        res is Err ==> res->Err_0 == RpuError::MissingCanvasDimensions,
        res is Ok ==> {
            let l5 = res->Ok_0;
            let (l, r, t, b) = active_area_offsets(
                opts.canvas_width->0 as nat,
                opts.canvas_height->0 as nat,
                canvas_ar,
                image_ar,
            );
            &&& l5.active_area_left_offset == l
            &&& l5.active_area_right_offset == r
            &&& l5.active_area_top_offset == t
            &&& l5.active_area_bottom_offset == b
        },
{
    let cw = match opts.canvas_width {
        Some(w) => w as u64,
        None => {
            return Err(RpuError::MissingCanvasDimensions);
        },
    };
    let ch = match opts.canvas_height {
        Some(h) => h as u64,
        None => {
            return Err(RpuError::MissingCanvasDimensions);
        },
    };
    let cn = canvas_ar.num as u64;
    let cd = canvas_ar.den as u64;
    let i_n = image_ar.num as u64;
    let id = image_ar.den as u64;
    assert(cn * id <= 0xffff * 0xffff) by (nonlinear_arith)
        requires
            cn <= 0xffff,
            id <= 0xffff,
    ;
    assert(i_n * cd <= 0xffff * 0xffff) by (nonlinear_arith)
        requires
            i_n <= 0xffff,
            cd <= 0xffff,
    ;
    let mut l5 = ExtMetadataBlockLevel5::from_offsets(0, 0, 0, 0);
    if cn * id == i_n * cd {
        // equal aspect ratios: no bars
    } else if i_n * cd > cn * id {
        assert(ch * cn <= 0xffff * 0xffff && ch * cn * id <= 0xffff * 0xffff * 0xffff) by (nonlinear_arith)
            requires
                ch <= 0xffff,
                cn <= 0xffff,
                id <= 0xffff,
        ;
        assert(cd * i_n <= 0xffff * 0xffff) by (nonlinear_arith)
            requires
                i_n * cd <= 0xffff * 0xffff,
        ;
        let n = ch * cn * id;
        let d = cd * i_n;
        let image_h = (2 * n + d) / (2 * d);
        proof {
            lemma_scaled_side_le(ch as nat, cn as nat, cd as nat, i_n as nat, id as nat);
        }
        let diff = ch - image_h;
        let top = diff / 2;
        l5.active_area_top_offset = top as u16;
        l5.active_area_bottom_offset = (diff - top) as u16;
    } else {
        assert(cw * i_n <= 0xffff * 0xffff && cw * i_n * cd <= 0xffff * 0xffff * 0xffff) by (nonlinear_arith)
            requires
                cw <= 0xffff,
                i_n <= 0xffff,
                cd <= 0xffff,
        ;
        assert(id * cn <= 0xffff * 0xffff) by (nonlinear_arith)
            requires
                cn * id <= 0xffff * 0xffff,
        ;
        let n = cw * i_n * cd;
        let d = id * cn;
        let image_w = (2 * n + d) / (2 * d);
        proof {
            lemma_scaled_side_le(cw as nat, i_n as nat, id as nat, cn as nat, cd as nat);
        }
        let diff = cw - image_w;
        let left = diff / 2;
        l5.active_area_left_offset = left as u16;
        l5.active_area_right_offset = (diff - left) as u16;
    }
    Ok(l5)
}

/// Active area derivation: equal ratios give no offsets; a wider image gives only top
/// and bottom offsets, which sum to the canvas height less the rounded image height
/// and differ by at most one; a narrower image gives the same on the left and right.
pub proof fn lemma_active_area_offsets(
    cw: nat,
    ch: nat,
    canvas_ar: AspectRatio,
    image_ar: AspectRatio,
)
    requires
        canvas_ar.num > 0,
        canvas_ar.den > 0,
        image_ar.num > 0,
        image_ar.den > 0,
    ensures
        ({
            let (l, r, t, b) = active_area_offsets(cw, ch, canvas_ar, image_ar);
            let (cn, cd, i_n, id) = (
                canvas_ar.num as nat,
                canvas_ar.den as nat,
                image_ar.num as nat,
                image_ar.den as nat,
            );
            &&& cn * id == i_n * cd ==> l == 0 && r == 0 && t == 0 && b == 0
            &&& i_n * cd > cn * id ==> l == 0 && r == 0 && t + b == ch - scaled_side(
                ch,
                cn,
                cd,
                i_n,
                id,
            ) && (t == b || t + 1 == b)
            &&& i_n * cd < cn * id ==> t == 0 && b == 0 && l + r == cw - scaled_side(
                cw,
                i_n,
                id,
                cn,
                cd,
            ) && (l == r || l + 1 == r)
        }),
{
    let (cn, cd, i_n, id) = (
        canvas_ar.num as nat,
        canvas_ar.den as nat,
        image_ar.num as nat,
        image_ar.den as nat,
    );
    if i_n * cd > cn * id {
        lemma_scaled_side_le(ch, cn, cd, i_n, id);
    } else if i_n * cd < cn * id {
        lemma_scaled_side_le(cw, i_n, id, cn, cd);
    }
}

} // verus!
