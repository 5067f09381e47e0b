//! Composition of per-frame metadata from a generation config: default blocks with
//! the config's L5 and L6, shot blocks and frame edits overlaid in turn, the CM v4.0
//! markers, and an L2 trim for each L8 trim at the peak of its target display.
use vstd::prelude::*;

use crate::block_set::{find_key, has_key, lemma_stable_sort_members, sort_blocks, stable_sort};
use crate::blocks::ExtMetadataBlock;
use crate::dm_data::{allowed_level, is_allowed_level, CmVersion, DmData};
use crate::error::RpuError;
use crate::levels::{
    ExtMetadataBlockLevel11, ExtMetadataBlockLevel2, ExtMetadataBlockLevel254,
    ExtMetadataBlockLevel5, ExtMetadataBlockLevel6,
};
use crate::level8::ExtMetadataBlockLevel8;

verus! {

/// Blocks that replace those of a shot on one frame of it.
#[derive(Debug, Clone, Default)]
pub struct ShotFrameEdit {
    pub edit_offset: usize,
    pub metadata_blocks: Vec<ExtMetadataBlock>,
}

/// A run of frames that share metadata blocks.
#[derive(Debug, Clone, Default)]
pub struct VideoShot {
    pub start: usize,
    pub duration: usize,
    pub metadata_blocks: Vec<ExtMetadataBlock>,
    pub frame_edits: Vec<ShotFrameEdit>,
}

/// A target display that trims are authored for: its index and its peak luminance in
/// nits.
#[derive(Debug, Clone, Copy, PartialEq, Eq, Structural, Default)]
pub struct TargetDisplay {
    pub target_display_index: u8,
    pub peak_nits: u16,
}

/// What a sequence of frames' metadata is made from.
#[derive(Debug, Clone, Default)]
pub struct GenerateConfig {
    pub cm_version: CmVersion,
    pub length: usize,
    pub source_min_pq: Option<u16>,
    pub source_max_pq: Option<u16>,
    pub level5: ExtMetadataBlockLevel5,
    pub level6: ExtMetadataBlockLevel6,
    pub default_metadata_blocks: Vec<ExtMetadataBlock>,
    pub shots: Vec<VideoShot>,
    pub target_displays: Vec<TargetDisplay>,
}

/// The metadata of one frame: the CM v2.9 envelope and, for CM v4.0, the CM v4.0 one.
#[derive(Debug)]
pub struct GeneratedFrame {
    pub scene_refresh_flag: u8,
    pub source_min_pq: u16,
    pub source_max_pq: u16,
    pub cmv29_metadata: DmData,
    pub cmv40_metadata: Option<DmData>,
}

pub open spec fn unique_keys(s: Seq<ExtMetadataBlock>) -> bool {
    forall|i: int, j: int|
        0 <= i < s.len() && 0 <= j < s.len() && i != j ==> #[trigger] s[i].spec_sort_key()
            != #[trigger] s[j].spec_sort_key()
}

/// No reserved block: every block is of a level with a codec.
pub open spec fn all_known(s: Seq<ExtMetadataBlock>) -> bool {
    forall|i: int| 0 <= i < s.len() ==> !(#[trigger] s[i] is Reserved)
}

/// `b` replaces the block of its key, or joins at the end where there is none.
pub open spec fn overlay(s: Seq<ExtMetadataBlock>, b: ExtMetadataBlock) -> Seq<ExtMetadataBlock> {
    if has_key(s, b.spec_sort_key()) {
        s.update(
            choose|i: int| 0 <= i < s.len() && #[trigger] s[i].spec_sort_key() == b.spec_sort_key(),
            b,
        )
    } else {
        s.push(b)
    }
}

/// Each block of `bs` overlaid in turn; reserved blocks are not composed.
pub open spec fn overlay_all(s: Seq<ExtMetadataBlock>, bs: Seq<ExtMetadataBlock>) -> Seq<
    ExtMetadataBlock,
>
    decreases bs.len(),
{
    if bs.len() == 0 {
        s
    } else if bs.last() is Reserved {
        overlay_all(s, bs.drop_last())
    } else {
        overlay(overlay_all(s, bs.drop_last()), bs.last())
    }
}

/// The blocks of every edit at offset `offset`, overlaid in order.
pub open spec fn edits_overlay(s: Seq<ExtMetadataBlock>, edits: Seq<ShotFrameEdit>, offset: nat) -> Seq<
    ExtMetadataBlock,
>
    decreases edits.len(),
{
    if edits.len() == 0 {
        s
    } else if edits.last().edit_offset == offset {
        overlay_all(edits_overlay(s, edits.drop_last(), offset), edits.last().metadata_blocks@)
    } else {
        edits_overlay(s, edits.drop_last(), offset)
    }
}

pub open spec fn shot_contains(shot: VideoShot, f: nat) -> bool {
    shot.start <= f < shot.start + shot.duration
}

/// The first shot that holds frame `f`.
pub open spec fn first_shot(shots: Seq<VideoShot>, f: nat) -> Option<nat>
    decreases shots.len(),
{
    if shots.len() == 0 {
        None
    } else {
        match first_shot(shots.drop_last(), f) {
            Some(i) => Some(i),
            None => if shot_contains(shots.last(), f) {
                Some((shots.len() - 1) as nat)
            } else {
                None
            },
        }
    }
}

/// `b` added where no block has its key.
pub open spec fn push_if_new(s: Seq<ExtMetadataBlock>, b: ExtMetadataBlock) -> Seq<ExtMetadataBlock> {
    if has_key(s, b.spec_sort_key()) {
        s
    } else {
        s.push(b)
    }
}

/// The peak PQ of the target display `index`: that of its L10 block, else `fallback`.
pub open spec fn target_pq(s: Seq<ExtMetadataBlock>, index: u8, fallback: Option<u16>) -> Option<
    u16,
>
    decreases s.len(),
{
    if s.len() == 0 {
        fallback
    } else {
        match s.last() {
            ExtMetadataBlock::Level10(b) => if b.target_display_index == index {
                Some(b.target_max_pq)
            } else {
                target_pq(s.drop_last(), index, fallback)
            },
            _ => target_pq(s.drop_last(), index, fallback),
        }
    }
}

/// The PQ codeword of the peak of a configured target display `index`, where its peak
/// is a standard luminance.
pub open spec fn display_pq(displays: Seq<TargetDisplay>, index: u8) -> Option<u16>
    decreases displays.len(),
{
    if displays.len() == 0 {
        None
    } else if displays.last().target_display_index == index {
        standard_max_pq(displays.last().peak_nits)
    } else {
        display_pq(displays.drop_last(), index)
    }
}

/// The peak PQ of the target display of an L8 trim, where it is known.
pub open spec fn l8_target_pq(src: Seq<ExtMetadataBlock>, displays: Seq<TargetDisplay>, index: u8) -> Option<
    u16,
> {
    target_pq(src, index, display_pq(displays, index))
}

/// Every L8 trim of `src` has a known target display peak.
pub open spec fn all_targets_known(src: Seq<ExtMetadataBlock>, displays: Seq<TargetDisplay>) -> bool {
    forall|i: int|
        0 <= i < src.len() && (#[trigger] src[i]) is Level8 ==> l8_target_pq(
            src,
            displays,
            src[i]->Level8_0.target_display_index,
        ) is Some
}

/// The L2 trim of peak `pq` that carries the trims of an L8 block.
pub open spec fn l2_from_l8(b: ExtMetadataBlockLevel8, pq: u16) -> ExtMetadataBlockLevel2 {
    ExtMetadataBlockLevel2 {
        target_max_pq: pq,
        trim_slope: b.trim_slope,
        trim_offset: b.trim_offset,
        trim_power: b.trim_power,
        trim_chroma_weight: b.trim_chroma_weight,
        trim_saturation_gain: b.trim_saturation_gain,
        ms_weight: if b.ms_weight <= 4095 {
            b.ms_weight as i16
        } else {
            4095
        },
    }
}

/// For each L8 of `l8s`, in order, its L2 trim added where none has that peak.
pub open spec fn derive_l2s(
    s: Seq<ExtMetadataBlock>,
    l8s: Seq<ExtMetadataBlock>,
    src: Seq<ExtMetadataBlock>,
    displays: Seq<TargetDisplay>,
) -> Seq<ExtMetadataBlock>
    decreases l8s.len(),
{
    if l8s.len() == 0 {
        s
    } else {
        let t = derive_l2s(s, l8s.drop_last(), src, displays);
        match l8s.last() {
            ExtMetadataBlock::Level8(b) => match l8_target_pq(src, displays, b.target_display_index) {
                Some(pq) => push_if_new(t, ExtMetadataBlock::Level2(l2_from_l8(b, pq))),
                None => t,
            },
            _ => t,
        }
    }
}

/// The PQ codeword of a minimum mastering luminance, in 0.0001 nits, for the
/// standard values.
pub open spec fn standard_min_pq(lum: u16) -> Option<u16> {
    if lum == 0 {
        Some(0u16)
    } else if lum == 1 {
        Some(7u16)
    } else if lum == 5 {
        Some(17u16)
    } else if lum == 10 {
        Some(26u16)
    } else if lum == 50 {
        Some(62u16)
    } else if lum == 100 {
        Some(88u16)
    } else if lum == 500 {
        Some(189u16)
    } else {
        None
    }
}

/// The PQ codeword of a peak luminance, in nits, for the standard values.
pub open spec fn standard_max_pq(nits: u16) -> Option<u16> {
    if nits == 100 {
        Some(2081u16)
    } else if nits == 300 {
        Some(2547u16)
    } else if nits == 600 {
        Some(2851u16)
    } else if nits == 1000 {
        Some(3079u16)
    } else if nits == 2000 {
        Some(3388u16)
    } else if nits == 4000 {
        Some(3696u16)
    } else if nits == 10000 {
        Some(4095u16)
    } else {
        None
    }
}

impl GenerateConfig {
    pub open spec fn spec_source_min_pq(&self) -> Option<u16> {
        match self.source_min_pq {
            Some(v) => Some(v),
            None => standard_min_pq(self.level6.min_display_mastering_luminance),
        }
    }

    pub open spec fn spec_source_max_pq(&self) -> Option<u16> {
        match self.source_max_pq {
            Some(v) => Some(v),
            None => standard_max_pq(self.level6.max_display_mastering_luminance),
        }
    }

    /// Frame `f` can be generated: the source PQ range is known and, for CM v4.0, the
    /// peak of every L8 trim's target display.
    pub open spec fn frame_ok(&self, f: nat) -> bool {
        &&& self.spec_source_min_pq() is Some
        &&& self.spec_source_max_pq() is Some
        &&& (self.cm_version == CmVersion::V40 ==> all_targets_known(
            self.cmv40_base(f),
            self.target_displays@,
        ))
    }

    /// The defaults with the config's L5 and L6 laid on them, then the blocks of the
    /// shot of frame `f` and of its edits on that frame.
    pub open spec fn framed_blocks(&self, f: nat) -> Seq<ExtMetadataBlock> {
        let base = overlay(
            overlay(
                overlay_all(Seq::empty(), self.default_metadata_blocks@),
                ExtMetadataBlock::Level5(self.level5),
            ),
            ExtMetadataBlock::Level6(self.level6),
        );
        match first_shot(self.shots@, f) {
            Some(i) => edits_overlay(
                overlay_all(base, self.shots@[i as int].metadata_blocks@),
                self.shots@[i as int].frame_edits@,
                (f - self.shots@[i as int].start) as nat,
            ),
            None => base,
        }
    }

    /// For CM v4.0, the framed blocks with an L254 and an L11 where they have none.
    pub open spec fn cmv40_base(&self, f: nat) -> Seq<ExtMetadataBlock> {
        push_if_new(
            push_if_new(
                self.framed_blocks(f),
                ExtMetadataBlock::Level254(ExtMetadataBlockLevel254 { dm_mode: 0, dm_version_index: 2 }),
            ),
            ExtMetadataBlock::Level11(
                ExtMetadataBlockLevel11 {
                    content_type: 1,
                    whitepoint: 0,
                    reference_mode_flag: true,
                    sharpness: 0,
                    noise_reduction: 0,
                    mpeg_noise_reduction: 0,
                    frame_rate_conversion: 0,
                    brightness: 0,
                    color: 0,
                },
            ),
        )
    }

    /// The blocks of frame `f` before they are sorted into envelopes; for CM v4.0,
    /// with an L2 trim derived from each L8 trim.
    pub open spec fn frame_blocks(&self, f: nat) -> Seq<ExtMetadataBlock> {
        if self.cm_version == CmVersion::V40 {
            let s1 = self.cmv40_base(f);
            derive_l2s(s1, s1, s1, self.target_displays@)
        } else {
            self.framed_blocks(f)
        }
    }

    /// 1 on the first frame of a shot (on the first frame when there are no shots).
    pub open spec fn spec_scene_refresh_flag(&self, f: nat) -> u8 {
        if self.shots@.len() == 0 {
            if f == 0 {
                1
            } else {
                0
            }
        } else {
            match first_shot(self.shots@, f) {
                Some(i) => if f == self.shots@[i as int].start {
                    1
                } else {
                    0
                },
                None => 0,
            }
        }
    }
}

/// Whether a block of `level` goes to the CM v4.0 envelope of a frame of version `v`.
pub open spec fn in_cmv40(v: CmVersion, level: u8) -> bool {
    v == CmVersion::V40 && allowed_level(CmVersion::V40, level)
}

/// Whether a block of `level` goes to the CM v2.9 envelope of a frame of version `v`.
pub open spec fn in_cmv29(v: CmVersion, level: u8) -> bool {
    allowed_level(CmVersion::V29, level) && !in_cmv40(v, level)
}

/// The blocks of `s` that go to one envelope, in order.
pub open spec fn select(s: Seq<ExtMetadataBlock>, v: CmVersion, cmv40: bool) -> Seq<ExtMetadataBlock>
    decreases s.len(),
{
    if s.len() == 0 {
        s
    } else {
        let t = select(s.drop_last(), v, cmv40);
        let l = s.last().spec_level();
        if (cmv40 && in_cmv40(v, l)) || (!cmv40 && in_cmv29(v, l)) {
            t.push(s.last())
        } else {
            t
        }
    }
}

proof fn lemma_push_if_new(s: Seq<ExtMetadataBlock>, b: ExtMetadataBlock)
    requires
        unique_keys(s),
    ensures
        unique_keys(push_if_new(s, b)),
        has_key(push_if_new(s, b), b.spec_sort_key()),
        push_if_new(s, b).len() >= s.len(),
        forall|i: int| 0 <= i < s.len() ==> #[trigger] push_if_new(s, b)[i] == s[i],
        forall|i: int| s.len() <= i < push_if_new(s, b).len() ==> #[trigger] push_if_new(s, b)[i] == b,
{
    let r = push_if_new(s, b);
    if !has_key(s, b.spec_sort_key()) {
        assert(r[s.len() as int].spec_sort_key() == b.spec_sort_key());
    }
}

proof fn lemma_derive_l2s(
    s: Seq<ExtMetadataBlock>,
    l8s: Seq<ExtMetadataBlock>,
    src: Seq<ExtMetadataBlock>,
    displays: Seq<TargetDisplay>,
)
    requires
        unique_keys(s),
    ensures
        unique_keys(derive_l2s(s, l8s, src, displays)),
        derive_l2s(s, l8s, src, displays).len() >= s.len(),
        forall|i: int| 0 <= i < s.len() ==> #[trigger] derive_l2s(s, l8s, src, displays)[i] == s[i],
        forall|i: int|
            s.len() <= i < derive_l2s(s, l8s, src, displays).len() ==> #[trigger] derive_l2s(
                s,
                l8s,
                src,
                displays,
            )[i] is Level2,
        forall|k: int|
            0 <= k < l8s.len() && (#[trigger] l8s[k]) is Level8 && l8_target_pq(
                src,
                displays,
                l8s[k]->Level8_0.target_display_index,
            ) is Some ==> has_key(
                derive_l2s(s, l8s, src, displays),
                (2u8, l8_target_pq(src, displays, l8s[k]->Level8_0.target_display_index)->0),
            ),
    decreases l8s.len(),
{
    if l8s.len() > 0 {
        let t = derive_l2s(s, l8s.drop_last(), src, displays);
        lemma_derive_l2s(s, l8s.drop_last(), src, displays);
        let r = derive_l2s(s, l8s, src, displays);
        match l8s.last() {
            ExtMetadataBlock::Level8(b) => {
                match l8_target_pq(src, displays, b.target_display_index) {
                    Some(pq) => {
                        lemma_push_if_new(t, ExtMetadataBlock::Level2(l2_from_l8(b, pq)));
                    },
                    None => {},
                }
            },
            _ => {},
        }
        assert forall|k: int|
            0 <= k < l8s.len() && (#[trigger] l8s[k]) is Level8 && l8_target_pq(
                src,
                displays,
                l8s[k]->Level8_0.target_display_index,
            ) is Some implies has_key(
            r,
            (2u8, l8_target_pq(src, displays, l8s[k]->Level8_0.target_display_index)->0),
        ) by {
            if k < l8s.len() - 1 {
                assert(l8s.drop_last()[k] == l8s[k]);
                let key = (2u8, l8_target_pq(src, displays, l8s[k]->Level8_0.target_display_index)->0);
                let j = choose|j: int| 0 <= j < t.len() && #[trigger] t[j].spec_sort_key() == key;
                assert(r[j] == t[j]);
            }
        }
    }
}

/// L2 from L8: after the derivation on a list of distinct keys whose L8 trims all have
/// a known target display peak, every L8 trim has exactly one block for its target
/// display, the L2 trim whose key is the L2 level and that display's peak PQ.
pub proof fn lemma_one_l2_per_l8(s: Seq<ExtMetadataBlock>, displays: Seq<TargetDisplay>)
    requires
        unique_keys(s),
        all_targets_known(s, displays),
    ensures
        ({
            let r = derive_l2s(s, s, s, displays);
            forall|i: int|
                0 <= i < r.len() && (#[trigger] r[i]) is Level8 ==> {
                    let k = (2u8, l8_target_pq(s, displays, r[i]->Level8_0.target_display_index)->0);
                    &&& exists|j: int| 0 <= j < r.len() && (#[trigger] r[j]).spec_sort_key() == k
                    &&& forall|j1: int, j2: int|
                        0 <= j1 < r.len() && 0 <= j2 < r.len() && (#[trigger] r[j1]).spec_sort_key()
                            == k && (#[trigger] r[j2]).spec_sort_key() == k ==> j1 == j2
                }
        }),
{
    lemma_derive_l2s(s, s, s, displays);
    let r = derive_l2s(s, s, s, displays);
    assert forall|i: int| 0 <= i < r.len() && (#[trigger] r[i]) is Level8 implies {
        let k = (2u8, l8_target_pq(s, displays, r[i]->Level8_0.target_display_index)->0);
        &&& exists|j: int| 0 <= j < r.len() && (#[trigger] r[j]).spec_sort_key() == k
        &&& forall|j1: int, j2: int|
            0 <= j1 < r.len() && 0 <= j2 < r.len() && (#[trigger] r[j1]).spec_sort_key() == k
                && (#[trigger] r[j2]).spec_sort_key() == k ==> j1 == j2
    } by {
        assert(i < s.len());
        assert(r[i] == s[i]);
    }
}

/// A copy of a block of a known level; none for a reserved block.
fn copy_known(b: &ExtMetadataBlock) -> (r: Option<ExtMetadataBlock>)
    ensures
        r is None <==> b is Reserved,
        r is Some ==> r->0 == *b,
{
    match b {
        ExtMetadataBlock::Level1(x) => Some(ExtMetadataBlock::Level1(*x)),
        ExtMetadataBlock::Level2(x) => Some(ExtMetadataBlock::Level2(*x)),
        ExtMetadataBlock::Level3(x) => Some(ExtMetadataBlock::Level3(*x)),
        ExtMetadataBlock::Level4(x) => Some(ExtMetadataBlock::Level4(*x)),
        ExtMetadataBlock::Level5(x) => Some(ExtMetadataBlock::Level5(*x)),
        ExtMetadataBlock::Level6(x) => Some(ExtMetadataBlock::Level6(*x)),
        ExtMetadataBlock::Level8(x) => Some(ExtMetadataBlock::Level8(*x)),
        ExtMetadataBlock::Level9(x) => Some(ExtMetadataBlock::Level9(*x)),
        ExtMetadataBlock::Level10(x) => Some(ExtMetadataBlock::Level10(*x)),
        ExtMetadataBlock::Level11(x) => Some(ExtMetadataBlock::Level11(*x)),
        ExtMetadataBlock::Level254(x) => Some(ExtMetadataBlock::Level254(*x)),
        ExtMetadataBlock::Reserved(_) => None,
    }
}

/// Overlays `b` on `v`.
fn overlay_block(v: &mut Vec<ExtMetadataBlock>, b: ExtMetadataBlock)
    requires
        unique_keys(old(v)@),
        all_known(old(v)@),
        !(b is Reserved),
    ensures
        final(v)@ == overlay(old(v)@, b),
        unique_keys(final(v)@),
        all_known(final(v)@),
{
    match find_key(v, b.sort_key()) {
        Some(i) => {
            let ghost j = choose|j: int|
                0 <= j < v@.len() && #[trigger] v@[j].spec_sort_key() == b.spec_sort_key();
            assert(j == i as int);
            v.set(i, b);
        },
        None => {
            v.push(b);
        },
    }
}

/// Adds `b` to `v` where no block has its key.
fn push_block_if_new(v: &mut Vec<ExtMetadataBlock>, b: ExtMetadataBlock)
    requires
        unique_keys(old(v)@),
        all_known(old(v)@),
        !(b is Reserved),
    ensures
        final(v)@ == push_if_new(old(v)@, b),
        unique_keys(final(v)@),
        all_known(final(v)@),
{
    if find_key(v, b.sort_key()).is_none() {
        v.push(b);
    }
}

/// Overlays each known block of `bs` on `v`, in order.
fn overlay_blocks(v: &mut Vec<ExtMetadataBlock>, bs: &Vec<ExtMetadataBlock>)
    requires
        unique_keys(old(v)@),
        all_known(old(v)@),
    ensures
        all_known(final(v)@),
        final(v)@ == overlay_all(old(v)@, bs@),
        unique_keys(final(v)@),
{
    let mut i: usize = 0;
    assert(bs@.subrange(0, 0) =~= Seq::<ExtMetadataBlock>::empty());
    while i < bs.len()
        invariant
            i <= bs@.len(),
            unique_keys(v@),
            all_known(v@),
            v@ == overlay_all(old(v)@, bs@.subrange(0, i as int)),
        decreases bs.len() - i,
    {
        let ghost t = bs@.subrange(0, i + 1);
        assert(t.drop_last() =~= bs@.subrange(0, i as int));
        assert(t.last() == bs@[i as int]);
        match copy_known(&bs[i]) {
            Some(c) => overlay_block(v, c),
            None => {},
        }
        i = i + 1;
    }
    assert(bs@.subrange(0, bs@.len() as int) =~= bs@);
}

/// Overlays the blocks of every edit at `offset`, in order.
fn overlay_edits(v: &mut Vec<ExtMetadataBlock>, edits: &Vec<ShotFrameEdit>, offset: usize)
    requires
        unique_keys(old(v)@),
        all_known(old(v)@),
    ensures
        all_known(final(v)@),
        final(v)@ == edits_overlay(old(v)@, edits@, offset as nat),
        unique_keys(final(v)@),
{
    let mut i: usize = 0;
    assert(edits@.subrange(0, 0) =~= Seq::<ShotFrameEdit>::empty());
    while i < edits.len()
        invariant
            i <= edits@.len(),
            unique_keys(v@),
            all_known(v@),
            v@ == edits_overlay(old(v)@, edits@.subrange(0, i as int), offset as nat),
        decreases edits.len() - i,
    {
        let ghost t = edits@.subrange(0, i + 1);
        assert(t.drop_last() =~= edits@.subrange(0, i as int));
        assert(t.last() == edits@[i as int]);
        if edits[i].edit_offset == offset {
            overlay_blocks(v, &edits[i].metadata_blocks);
        }
        i = i + 1;
    }
    assert(edits@.subrange(0, edits@.len() as int) =~= edits@);
}

fn find_shot(shots: &Vec<VideoShot>, f: usize) -> (r: Option<usize>)
    ensures
        r is Some <==> first_shot(shots@, f as nat) is Some,
        r is Some ==> r->0 as nat == first_shot(shots@, f as nat)->0 && r->0 < shots@.len()
            && shot_contains(shots@[r->0 as int], f as nat),
{
    let mut i: usize = 0;
    assert(shots@.subrange(0, 0) =~= Seq::<VideoShot>::empty());
    while i < shots.len()
        invariant
            i <= shots@.len(),
            first_shot(shots@.subrange(0, i as int), f as nat) is None,
        decreases shots.len() - i,
    {
        let ghost t = shots@.subrange(0, i + 1);
        assert(t.drop_last() =~= shots@.subrange(0, i as int));
        assert(t.last() == shots@[i as int]);
        if shots[i].start <= f && f - shots[i].start < shots[i].duration {
            proof {
                lemma_first_shot_prefix(shots@, (i + 1) as nat, f as nat);
            }
            return Some(i);
        }
        i = i + 1;
    }
    assert(shots@.subrange(0, shots@.len() as int) =~= shots@);
    None
}

/// A shot found in a prefix is the first shot of the whole list.
proof fn lemma_first_shot_prefix(shots: Seq<VideoShot>, n: nat, f: nat)
    requires
        n <= shots.len(),
        first_shot(shots.subrange(0, n as int), f) is Some,
    ensures
        first_shot(shots, f) == first_shot(shots.subrange(0, n as int), f),
    decreases shots.len(),
{
    if n < shots.len() {
        let t = shots.drop_last();
        assert(t.subrange(0, n as int) =~= shots.subrange(0, n as int));
        lemma_first_shot_prefix(t, n, f);
    } else {
        assert(shots.subrange(0, n as int) =~= shots);
    }
}

fn target_pq_of(v: &Vec<ExtMetadataBlock>, index: u8, fallback: Option<u16>) -> (pq: Option<u16>)
    ensures
        pq == target_pq(v@, index, fallback),
{
    let mut i: usize = v.len();
    let mut found: Option<u16> = None;
    assert(v@.subrange(0, i as int) =~= v@);
    loop
        invariant_except_break
            found is None,
        invariant
            i <= v@.len(),
            target_pq(v@, index, fallback) == target_pq(v@.subrange(0, i as int), index, fallback),
        ensures
            found is Some ==> found == target_pq(v@, index, fallback),
            found is None ==> i == 0 && target_pq(v@, index, fallback) == target_pq(
                v@.subrange(0, 0),
                index,
                fallback,
            ),
        decreases i,
    {
        if i == 0 {
            break;
        }
        let ghost t = v@.subrange(0, i as int);
        assert(t.drop_last() =~= v@.subrange(0, i - 1));
        assert(t.last() == v@[i - 1]);
        if let ExtMetadataBlock::Level10(b) = &v[i - 1] {
            if b.target_display_index == index {
                assert(target_pq(t, index, fallback) == Some(b.target_max_pq));
                found = Some(b.target_max_pq);
                break;
            }
        }
        i = i - 1;
    }
    match found {
        Some(pq) => Some(pq),
        None => {
            assert(v@.subrange(0, 0) =~= Seq::<ExtMetadataBlock>::empty());
            fallback
        },
    }
}

fn display_pq_of(displays: &Vec<TargetDisplay>, index: u8) -> (pq: Option<u16>)
    ensures
        pq == display_pq(displays@, index),
{
    let mut i: usize = displays.len();
    assert(displays@.subrange(0, i as int) =~= displays@);
    while i > 0
        invariant
            i <= displays@.len(),
            display_pq(displays@, index) == display_pq(displays@.subrange(0, i as int), index),
        decreases i,
    {
        let ghost t = displays@.subrange(0, i as int);
        assert(t.drop_last() =~= displays@.subrange(0, i - 1));
        assert(t.last() == displays@[i - 1]);
        if displays[i - 1].target_display_index == index {
            return standard_max_pq_of(displays[i - 1].peak_nits);
        }
        i = i - 1;
    }
    assert(displays@.subrange(0, 0) =~= Seq::<TargetDisplay>::empty());
    None
}

fn l2_from_l8_exec(b: &ExtMetadataBlockLevel8, pq: u16) -> (r: ExtMetadataBlockLevel2)
    ensures
        r == l2_from_l8(*b, pq),
{
    ExtMetadataBlockLevel2 {
        target_max_pq: pq,
        trim_slope: b.trim_slope,
        trim_offset: b.trim_offset,
        trim_power: b.trim_power,
        trim_chroma_weight: b.trim_chroma_weight,
        trim_saturation_gain: b.trim_saturation_gain,
        ms_weight: if b.ms_weight <= 4095 {
            b.ms_weight as i16
        } else {
            4095
        },
    }
}

/// Adds the L2 trim of each L8 block of `src`; fails where the peak of an L8 trim's
/// target display is not known.
fn add_derived_l2s(
    v: &mut Vec<ExtMetadataBlock>,
    src: &Vec<ExtMetadataBlock>,
    displays: &Vec<TargetDisplay>,
) -> (res: Result<(), RpuError>)
    requires
        unique_keys(old(v)@),
        all_known(old(v)@),
    ensures
        res is Ok <==> all_targets_known(src@, displays@),
        res is Err ==> res->Err_0 == RpuError::FieldOutOfRange,
        res is Ok ==> final(v)@ == derive_l2s(old(v)@, src@, src@, displays@) && unique_keys(
            final(v)@,
        ) && all_known(final(v)@),
{
    let mut i: usize = 0;
    assert(src@.subrange(0, 0) =~= Seq::<ExtMetadataBlock>::empty());
    while i < src.len()
        invariant
            i <= src@.len(),
            unique_keys(v@),
            all_known(v@),
            v@ == derive_l2s(old(v)@, src@.subrange(0, i as int), src@, displays@),
            forall|k: int|
                0 <= k < i && (#[trigger] src@[k]) is Level8 ==> l8_target_pq(
                    src@,
                    displays@,
                    src@[k]->Level8_0.target_display_index,
                ) is Some,
        decreases src.len() - i,
    {
        let ghost t = src@.subrange(0, i + 1);
        assert(t.drop_last() =~= src@.subrange(0, i as int));
        assert(t.last() == src@[i as int]);
        if let ExtMetadataBlock::Level8(b) = &src[i] {
            let fallback = display_pq_of(displays, b.target_display_index);
            match target_pq_of(src, b.target_display_index, fallback) {
                Some(pq) => {
                    let l2 = l2_from_l8_exec(b, pq);
                    push_block_if_new(v, ExtMetadataBlock::Level2(l2));
                },
                None => {
                    return Err(RpuError::FieldOutOfRange);
                },
            }
        }
        i = i + 1;
    }
    assert(src@.subrange(0, src@.len() as int) =~= src@);
    Ok(())
}

fn standard_min_pq_of(lum: u16) -> (pq: Option<u16>)
    ensures
        pq == standard_min_pq(lum),
{
    if lum == 0 {
        Some(0)
    } else if lum == 1 {
        Some(7)
    } else if lum == 5 {
        Some(17)
    } else if lum == 10 {
        Some(26)
    } else if lum == 50 {
        Some(62)
    } else if lum == 100 {
        Some(88)
    } else if lum == 500 {
        Some(189)
    } else {
        None
    }
}

fn standard_max_pq_of(nits: u16) -> (pq: Option<u16>)
    ensures
        pq == standard_max_pq(nits),
{
    if nits == 100 {
        Some(2081)
    } else if nits == 300 {
        Some(2547)
    } else if nits == 600 {
        Some(2851)
    } else if nits == 1000 {
        Some(3079)
    } else if nits == 2000 {
        Some(3388)
    } else if nits == 4000 {
        Some(3696)
    } else if nits == 10000 {
        Some(4095)
    } else {
        None
    }
}

/// The blocks of `s` that go to one envelope, sorted.
fn select_sorted(s: &Vec<ExtMetadataBlock>, v: CmVersion, cmv40: bool) -> (r: Vec<ExtMetadataBlock>)
    requires
        all_known(s@),
    ensures
        r@ == stable_sort(select(s@, v, cmv40)),
        forall|i: int| 0 <= i < r@.len() ==> (#[trigger] r@[i]).wf(),
{
    let mut out: Vec<ExtMetadataBlock> = Vec::new();
    let mut i: usize = 0;
    assert(s@.subrange(0, 0) =~= Seq::<ExtMetadataBlock>::empty());
    while i < s.len()
        invariant
            i <= s@.len(),
            all_known(s@),
            out@ == select(s@.subrange(0, i as int), v, cmv40),
            all_known(out@),
        decreases s.len() - i,
    {
        let ghost t = s@.subrange(0, i + 1);
        assert(t.drop_last() =~= s@.subrange(0, i as int));
        assert(t.last() == s@[i as int]);
        let l = s[i].level();
        let to40 = v == CmVersion::V40 && is_allowed_level(CmVersion::V40, l);
        let to29 = is_allowed_level(CmVersion::V29, l) && !to40;
        if (cmv40 && to40) || (!cmv40 && to29) {
            match copy_known(&s[i]) {
                Some(c) => out.push(c),
                None => {},
            }
        }
        i = i + 1;
    }
    assert(s@.subrange(0, s@.len() as int) =~= s@);
    let ghost before = out@;
    sort_blocks(&mut out);
    proof {
        lemma_stable_sort_members(before);
        assert forall|i: int| 0 <= i < out@.len() implies (#[trigger] out@[i]).wf() by {
            assert(before.contains(out@[i]));
        }
    }
    out
}

/// What the metadata of frame `f` of `c` holds, as `generate_frame` makes it.
pub open spec fn frame_matches(c: GenerateConfig, f: nat, frame: GeneratedFrame) -> bool {
    &&& frame.scene_refresh_flag == c.spec_scene_refresh_flag(f)
    &&& frame.source_min_pq == c.spec_source_min_pq()->0
    &&& frame.source_max_pq == c.spec_source_max_pq()->0
    &&& frame.cmv29_metadata.version() == CmVersion::V29
    &&& frame.cmv29_metadata.wf()
    &&& frame.cmv29_metadata.blocks() == stable_sort(select(c.frame_blocks(f), c.cm_version, false))
    &&& (frame.cmv40_metadata is Some <==> c.cm_version == CmVersion::V40)
    &&& (frame.cmv40_metadata is Some ==> {
        let d = frame.cmv40_metadata->0;
        &&& d.version() == CmVersion::V40
        &&& d.wf()
        &&& d.blocks() == stable_sort(select(c.frame_blocks(f), c.cm_version, true))
    })
}

impl GenerateConfig {
    /// The source minimum PQ: the configured one, else that of the mastering display's
    /// minimum luminance where it is a standard value.
    pub fn source_min_pq_value(&self) -> (pq: Option<u16>)
        ensures
            pq == self.spec_source_min_pq(),
    {
        match self.source_min_pq {
            Some(v) => Some(v),
            None => standard_min_pq_of(self.level6.min_display_mastering_luminance),
        }
    }

    /// The source maximum PQ: the configured one, else that of the mastering display's
    /// peak luminance where it is a standard value.
    pub fn source_max_pq_value(&self) -> (pq: Option<u16>)
        ensures
            pq == self.spec_source_max_pq(),
    {
        match self.source_max_pq {
            Some(v) => Some(v),
            None => standard_max_pq_of(self.level6.max_display_mastering_luminance),
        }
    }

    /// The blocks of frame `f`, before they are sorted into envelopes. For CM v4.0 it
    /// fails where the peak of an L8 trim's target display is not known.
    pub fn compose_frame_blocks(&self, f: usize) -> (res: Result<Vec<ExtMetadataBlock>, RpuError>)
        ensures
            res is Err <==> self.cm_version == CmVersion::V40 && !all_targets_known(
                self.cmv40_base(f as nat),
                self.target_displays@,
            ),
            res is Err ==> res->Err_0 == RpuError::FieldOutOfRange,
            res is Ok ==> {
                let v = res->Ok_0@;
                &&& v == self.frame_blocks(f as nat)
                &&& unique_keys(v)
                &&& all_known(v)
                &&& self.cm_version == CmVersion::V40 ==> forall|i: int|
                    0 <= i < v.len() && (#[trigger] v[i]) is Level8 ==> {
                        let k = (
                            2u8,
                            l8_target_pq(
                                self.cmv40_base(f as nat),
                                self.target_displays@,
                                v[i]->Level8_0.target_display_index,
                            )->0,
                        );
                        &&& exists|j: int| 0 <= j < v.len() && (#[trigger] v[j]).spec_sort_key() == k
                        &&& forall|j1: int, j2: int|
                            0 <= j1 < v.len() && 0 <= j2 < v.len() && (#[trigger] v[j1]).spec_sort_key()
                                == k && (#[trigger] v[j2]).spec_sort_key() == k ==> j1 == j2
                    }
            },
    {
        let mut v: Vec<ExtMetadataBlock> = Vec::new();
        overlay_blocks(&mut v, &self.default_metadata_blocks);
        overlay_block(&mut v, ExtMetadataBlock::Level5(self.level5));
        overlay_block(&mut v, ExtMetadataBlock::Level6(self.level6));
        match find_shot(&self.shots, f) {
            Some(i) => {
                let shot = &self.shots[i];
                overlay_blocks(&mut v, &shot.metadata_blocks);
                overlay_edits(&mut v, &shot.frame_edits, f - shot.start);
            },
            None => {},
        }
        if self.cm_version == CmVersion::V40 {
            push_block_if_new(&mut v, ExtMetadataBlock::Level254(ExtMetadataBlockLevel254::cmv402_default()));
            push_block_if_new(
                &mut v,
                ExtMetadataBlock::Level11(ExtMetadataBlockLevel11::default_reference_cinema()),
            );
            let mut src: Vec<ExtMetadataBlock> = Vec::new();
            let mut i: usize = 0;
            while i < v.len()
                invariant
                    i <= v@.len(),
                    all_known(v@),
                    src@ == v@.subrange(0, i as int),
                decreases v.len() - i,
            {
                match copy_known(&v[i]) {
                    Some(c) => src.push(c),
                    None => {},
                }
                assert(src@ =~= v@.subrange(0, i + 1));
                i = i + 1;
            }
            assert(v@.subrange(0, v@.len() as int) =~= v@);
            add_derived_l2s(&mut v, &src, &self.target_displays)?;
            proof {
                lemma_one_l2_per_l8(src@, self.target_displays@);
            }
        }
        Ok(v)
    }

    /// The metadata of frame `f`. It fails where the source PQ range or, for CM v4.0, the
    /// peak of an L8 trim's target display is not known.
    pub fn generate_frame(&self, f: usize) -> (res: Result<GeneratedFrame, RpuError>)
        ensures
            res is Err <==> !self.frame_ok(f as nat),
            res is Err ==> res->Err_0 == RpuError::FieldOutOfRange,
            res is Ok ==> frame_matches(*self, f as nat, res->Ok_0),
    {
        let source_min_pq = match self.source_min_pq_value() {
            Some(v) => v,
            None => {
                return Err(RpuError::FieldOutOfRange);
            },
        };
        let source_max_pq = match self.source_max_pq_value() {
            Some(v) => v,
            None => {
                return Err(RpuError::FieldOutOfRange);
            },
        };
        let blocks = self.compose_frame_blocks(f)?;
        let v29 = select_sorted(&blocks, self.cm_version, false);
        let cmv29_metadata = DmData::from_blocks(CmVersion::V29, v29);
        let cmv40_metadata = if self.cm_version == CmVersion::V40 {
            let v40 = select_sorted(&blocks, self.cm_version, true);
            Some(DmData::from_blocks(CmVersion::V40, v40))
        } else {
            None
        };
        let scene_refresh_flag: u8 = if self.shots.len() == 0 {
            if f == 0 {
                1
            } else {
                0
            }
        } else {
            match find_shot(&self.shots, f) {
                Some(i) => if f == self.shots[i].start {
                    1
                } else {
                    0
                },
                None => 0,
            }
        };
        Ok(GeneratedFrame {
            scene_refresh_flag,
            source_min_pq,
            source_max_pq,
            cmv29_metadata,
            cmv40_metadata,
        })
    }

    /// The metadata of every frame, `length` of them; fails where a frame cannot be
    /// generated.
    pub fn generate_rpu_list(&self) -> (res: Result<Vec<GeneratedFrame>, RpuError>)
        ensures
            res is Err <==> exists|f: nat| f < self.length && !#[trigger] self.frame_ok(f),
            res is Err ==> res->Err_0 == RpuError::FieldOutOfRange,
            res is Ok ==> res->Ok_0@.len() == self.length && forall|f: int|
                0 <= f < self.length ==> frame_matches(*self, f as nat, #[trigger] res->Ok_0@[f]),
    {
        let mut frames: Vec<GeneratedFrame> = Vec::new();
        let mut f: usize = 0;
        while f < self.length
            invariant
                f <= self.length,
                frames@.len() == f,
                forall|k: nat| k < f ==> #[trigger] self.frame_ok(k),
                forall|k: int| 0 <= k < f ==> frame_matches(*self, k as nat, #[trigger] frames@[k]),
            decreases self.length - f,
        {
            let frame = self.generate_frame(f)?;
            frames.push(frame);
            f = f + 1;
        }
        Ok(frames)
    }
}

} // verus!
