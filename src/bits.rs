//! Bit-level reading and writing, MSB first, over the bit buffers of `bitvec_helpers`.
use vstd::prelude::*;
use vstd::arithmetic::div_mod::lemma_mod_breakdown;
use bitvec_helpers::bitvec_reader::BitVecReader;
use bitvec_helpers::bitvec_writer::BitVecWriter;

use crate::error::RpuError;

verus! {

#[verifier::external_type_specification]
#[verifier::external_body]
pub struct ExBitVecReader(BitVecReader);

#[verifier::external_type_specification]
#[verifier::external_body]
pub struct ExBitVecWriter(BitVecWriter);

/// The bits that a reader holds, first bit first.
pub uninterp spec fn reader_bits(r: BitVecReader) -> Seq<bool>;

/// The index of the next bit that a reader hands out.
pub uninterp spec fn reader_pos(r: BitVecReader) -> nat;

/// The bits written so far, first bit first.
pub uninterp spec fn writer_bits(w: BitVecWriter) -> Seq<bool>;

/// A reader whose position lies within its bits.
pub open spec fn reader_ok(r: BitVecReader) -> bool {
    &&& reader_pos(r) <= reader_bits(r).len()
    &&& reader_bits(r).len() <= usize::MAX
}

/// The bits that a reader has not handed out yet.
pub open spec fn remaining(r: BitVecReader) -> Seq<bool> {
    reader_bits(r).subrange(reader_pos(r) as int, reader_bits(r).len() as int)
}

/// `r1` is `r0` after handing out the bits `s`.
pub open spec fn advanced_by(r0: BitVecReader, r1: BitVecReader, s: Seq<bool>) -> bool {
    &&& reader_ok(r1)
    &&& reader_bits(r1) == reader_bits(r0)
    &&& reader_pos(r1) == reader_pos(r0) + s.len()
    &&& reader_bits(r0).subrange(reader_pos(r0) as int, reader_pos(r1) as int) == s
}

pub open spec fn pow2(n: nat) -> nat
    decreases n,
{
    if n == 0 {
        1
    } else {
        2 * pow2((n - 1) as nat)
    }
}

/// The low `n` bits of `v`, most significant first.
pub open spec fn bits_be(v: nat, n: nat) -> Seq<bool>
    decreases n,
{
    if n == 0 {
        Seq::empty()
    } else {
        bits_be(v / 2, (n - 1) as nat).push(v % 2 == 1)
    }
}

/// The number that a bit string spells, most significant bit first.
pub open spec fn be_value(s: Seq<bool>) -> nat
    decreases s.len(),
{
    if s.len() == 0 {
        0
    } else {
        2 * be_value(s.drop_last()) + if s.last() {
            1nat
        } else {
            0nat
        }
    }
}

pub open spec fn zeros(n: nat) -> Seq<bool> {
    Seq::new(n, |i: int| false)
}

/// The bits of a byte string, each byte most significant bit first.
pub open spec fn bytes_to_bits(s: Seq<u8>) -> Seq<bool>
    decreases s.len(),
{
    if s.len() == 0 {
        Seq::empty()
    } else {
        bytes_to_bits(s.drop_last()) + bits_be(s.last() as nat, 8)
    }
}

/// The largest `k` with `2^k <= x`, for `x >= 1`.
pub open spec fn log2(x: nat) -> nat
    decreases x,
{
    if x <= 1 {
        0
    } else {
        1 + log2(x / 2)
    }
}

/// The unsigned Exp-Golomb code of `v`: `k` zeros, a one, and the low `k` bits of
/// `v + 1`, where `k` is the position of the leading one of `v + 1`.
pub open spec fn ue_bits(v: nat) -> Seq<bool> {
    let k = log2(v + 1);
    zeros(k) + seq![true] + bits_be((v + 1 - pow2(k)) as nat, k)
}

/// How many zero bits open `s`.
pub open spec fn leading_zeros(s: Seq<bool>) -> nat
    decreases s.len(),
{
    if s.len() == 0 || s[0] {
        0
    } else {
        1 + leading_zeros(s.drop_first())
    }
}

/// Decodes one Exp-Golomb code at the start of `s`: the value and the number of
/// bits that it takes. A code with 64 or more leading zeros does not fit in 64 bits.
pub open spec fn ue_decode(s: Seq<bool>) -> Result<(nat, nat), RpuError> {
    let k = leading_zeros(s);
    if k >= 64 {
        Err(RpuError::FieldOutOfRange)
    } else if 2 * k + 1 > s.len() {
        Err(RpuError::TruncatedStream)
    } else {
        Ok(((pow2(k) - 1 + be_value(s.subrange((k + 1) as int, (2 * k + 1) as int))) as nat, 2 * k + 1))
    }
}

pub proof fn lemma_pow2_facts(n: nat)
    ensures
        pow2(n) >= 1,
    decreases n,
{
    if n > 0 {
        lemma_pow2_facts((n - 1) as nat);
    }
}

pub proof fn lemma_pow2_64()
    ensures
        pow2(63) == 0x8000_0000_0000_0000,
        pow2(64) == 0x1_0000_0000_0000_0000,
{
    reveal_with_fuel(pow2, 65);
}

pub proof fn lemma_pow2_mono(a: nat, b: nat)
    requires
        a <= b,
    ensures
        pow2(a) <= pow2(b),
    decreases b,
{
    if a < b {
        lemma_pow2_mono(a, (b - 1) as nat);
    }
}

pub broadcast proof fn lemma_bits_be_len(v: nat, n: nat)
    ensures
        #[trigger] bits_be(v, n).len() == n,
    decreases n,
{
    if n > 0 {
        lemma_bits_be_len(v / 2, (n - 1) as nat);
    }
}

pub proof fn lemma_be_value_bound(s: Seq<bool>)
    ensures
        be_value(s) < pow2(s.len()),
    decreases s.len(),
{
    if s.len() > 0 {
        lemma_be_value_bound(s.drop_last());
    }
}

/// Reading back `n` bits written from `v` gives `v` modulo `2^n`.
pub proof fn lemma_be_value_of_bits(v: nat, n: nat)
    ensures
        be_value(bits_be(v, n)) == v % pow2(n),
    decreases n,
{
    lemma_pow2_facts(n);
    if n > 0 {
        let p = pow2((n - 1) as nat);
        lemma_pow2_facts((n - 1) as nat);
        lemma_be_value_of_bits(v / 2, (n - 1) as nat);
        lemma_bits_be_len(v / 2, (n - 1) as nat);
        let s = bits_be(v, n);
        assert(s.drop_last() =~= bits_be(v / 2, (n - 1) as nat));
        lemma_mod_breakdown(v as int, 2, p as int);
    }
}

pub proof fn lemma_be_value_small(v: nat, n: nat)
    requires
        v < pow2(n),
    ensures
        be_value(bits_be(v, n)) == v,
{
    lemma_be_value_of_bits(v, n);
    vstd::arithmetic::div_mod::lemma_small_mod(v, pow2(n));
}

/// Writing back the value of a bit string with its own width gives the string.
pub proof fn lemma_bits_of_be_value(s: Seq<bool>)
    ensures
        bits_be(be_value(s), s.len()) == s,
    decreases s.len(),
{
    if s.len() > 0 {
        let t = s.drop_last();
        lemma_bits_of_be_value(t);
        let b: nat = if s.last() {
            1
        } else {
            0
        };
        assert((2 * be_value(t) + b) / 2 == be_value(t));
        assert(bits_be(be_value(s), s.len()) =~= t.push(s.last()));
        assert(t.push(s.last()) =~= s);
    }
}

proof fn lemma_leading_zeros_prefix(s: Seq<bool>, k: nat)
    requires
        k <= s.len(),
        forall|i: int| 0 <= i < k ==> !#[trigger] s[i],
    ensures
        leading_zeros(s) >= k,
        k < s.len() && s[k as int] ==> leading_zeros(s) == k,
        k == s.len() ==> leading_zeros(s) == k,
    decreases k,
{
    if k > 0 {
        let t = s.drop_first();
        assert forall|i: int| 0 <= i < k - 1 implies !#[trigger] t[i] by {
            assert(t[i] == s[i + 1]);
        }
        lemma_leading_zeros_prefix(t, (k - 1) as nat);
    }
}

proof fn lemma_log2_bounds(x: nat)
    requires
        x >= 1,
    ensures
        pow2(log2(x)) <= x < 2 * pow2(log2(x)),
    decreases x,
{
    if x > 1 {
        lemma_log2_bounds(x / 2);
    }
}

pub proof fn lemma_ue_bits_len(v: nat)
    ensures
        ue_bits(v).len() == 2 * log2(v + 1) + 1,
{
    let k = log2(v + 1);
    lemma_bits_be_len((v + 1 - pow2(k)) as nat, k);
}

proof fn lemma_log2_unique(y: nat, k: nat)
    requires
        pow2(k) <= y < 2 * pow2(k),
    ensures
        log2(y) == k,
    decreases k,
{
    if k > 0 {
        lemma_log2_unique(y / 2, (k - 1) as nat);
    }
}

/// What one Exp-Golomb decode consumes is the code of the value it gives.
pub proof fn lemma_ue_decode_bits(s: Seq<bool>)
    requires
        ue_decode(s) is Ok,
    ensures
        s.subrange(0, ue_decode(s)->Ok_0.1 as int) == ue_bits(ue_decode(s)->Ok_0.0),
{
    let k = leading_zeros(s);
    lemma_leading_zeros_facts(s);
    let t = s.subrange((k + 1) as int, (2 * k + 1) as int);
    let x = be_value(t);
    lemma_be_value_bound(t);
    lemma_pow2_facts(k);
    let v = (pow2(k) - 1 + x) as nat;
    lemma_log2_unique(v + 1, k);
    lemma_bits_of_be_value(t);
    lemma_bits_be_len(x, k);
    assert(s.subrange(0, (2 * k + 1) as int) =~= ue_bits(v));
}

proof fn lemma_leading_zeros_facts(s: Seq<bool>)
    ensures
        leading_zeros(s) <= s.len(),
        forall|i: int| 0 <= i < leading_zeros(s) ==> !#[trigger] s[i],
        leading_zeros(s) < s.len() ==> s[leading_zeros(s) as int],
    decreases s.len(),
{
    if s.len() > 0 && !s[0] {
        let t = s.drop_first();
        lemma_leading_zeros_facts(t);
        assert forall|i: int| 0 <= i < leading_zeros(s) implies !#[trigger] s[i] by {
            if i > 0 {
                assert(s[i] == t[i - 1]);
            }
        }
    }
}

/// Reading `s1` and then `s2` reads `s1 + s2`.
pub proof fn lemma_advance_trans(
    r0: BitVecReader,
    r1: BitVecReader,
    r2: BitVecReader,
    s1: Seq<bool>,
    s2: Seq<bool>,
)
    requires
        advanced_by(r0, r1, s1),
        advanced_by(r1, r2, s2),
    ensures
        advanced_by(r0, r2, s1 + s2),
{
    let b = reader_bits(r0);
    assert(b.subrange(reader_pos(r0) as int, reader_pos(r2) as int) =~= b.subrange(
        reader_pos(r0) as int,
        reader_pos(r1) as int,
    ) + b.subrange(reader_pos(r1) as int, reader_pos(r2) as int));
}

/// Nothing read, nothing consumed.
pub proof fn lemma_advance_none(r0: BitVecReader)
    requires
        reader_ok(r0),
    ensures
        advanced_by(r0, r0, Seq::empty()),
{
    assert(reader_bits(r0).subrange(reader_pos(r0) as int, reader_pos(r0) as int) =~= Seq::<
        bool,
    >::empty());
}

/// After handing out `s`, a reader has left what followed `s`.
pub proof fn lemma_advance_rest(r0: BitVecReader, r1: BitVecReader, s: Seq<bool>, tail: Seq<bool>)
    requires
        reader_ok(r0),
        advanced_by(r0, r1, s),
        remaining(r0) == s + tail,
    ensures
        remaining(r1) == tail,
{
    let b = reader_bits(r0);
    assert(remaining(r1) =~= remaining(r0).subrange(s.len() as int, remaining(r0).len() as int));
    assert((s + tail).subrange(s.len() as int, (s + tail).len() as int) =~= tail);
}

/// What a reader had left is what it handed out, then what it has left.
pub proof fn lemma_advance_split(r0: BitVecReader, r1: BitVecReader, s: Seq<bool>)
    requires
        reader_ok(r0),
        advanced_by(r0, r1, s),
    ensures
        remaining(r0) == s + remaining(r1),
{
    assert(remaining(r0) =~= s + remaining(r1));
}

/// Unsigned Exp-Golomb round trip: decoding the code of `u`, whatever follows it,
/// gives back `u` and the length of the code.
pub proof fn lemma_ue_round_trip(u: u64, rest: Seq<bool>)
    requires
        u < u64::MAX,
    ensures
        ue_decode(ue_bits(u as nat) + rest) == Ok::<(nat, nat), RpuError>((u as nat, ue_bits(u as nat).len())),
{
    let v = u as nat;
    let k = log2(v + 1);
    let s = ue_bits(v) + rest;
    lemma_log2_bounds(v + 1);
    lemma_ue_bits_len(v);
    lemma_bits_be_len((v + 1 - pow2(k)) as nat, k);
    assert(s[k as int]);
    assert forall|i: int| 0 <= i < k implies !#[trigger] s[i] by {}
    lemma_leading_zeros_prefix(s, k);
    // k < 64, since 2^64 > v + 1
    if k >= 64 {
        lemma_pow2_mono(64, k);
        lemma_pow2_64();
        assert(false);
    }
    lemma_pow2_facts(k);
    assert(s.subrange((k + 1) as int, (2 * k + 1) as int) =~= bits_be((v + 1 - pow2(k)) as nat, k));
    lemma_be_value_small((v + 1 - pow2(k)) as nat, k);
}

/// A reader made from `n` bytes holds `8 * n` bits, so it is well formed wherever that
/// count fits in a `usize`.
pub proof fn lemma_bytes_to_bits_len(s: Seq<u8>)
    ensures
        bytes_to_bits(s).len() == 8 * s.len(),
    decreases s.len(),
{
    if s.len() > 0 {
        lemma_bytes_to_bits_len(s.drop_last());
        lemma_bits_be_len(s.last() as nat, 8);
    }
}

/// Relies on BitVecReader::new: the reader holds the bits of `data`, most significant
/// bit of each byte first, and starts at the first of them.
#[verifier::external_body]
pub fn reader_new(data: Vec<u8>) -> (r: BitVecReader)
    ensures
        reader_bits(r) == bytes_to_bits(data@),
        reader_pos(r) == 0,
{
    BitVecReader::new(data)
}

/// Relies on BitVecReader::available: the number of bits not yet read.
#[verifier::external_body]
fn reader_available(r: &BitVecReader) -> (n: usize)
    requires
        reader_ok(*r),
    ensures
        n == reader_bits(*r).len() - reader_pos(*r),
{
    BitVecReader::available(r)
}

/// Relies on BitVecReader::is_aligned: whether the position is a multiple of 8.
#[verifier::external_body]
fn reader_is_aligned(r: &BitVecReader) -> (b: bool)
    ensures
        b == (reader_pos(*r) % 8 == 0),
{
    BitVecReader::is_aligned(r)
}

/// Relies on BitVecReader::get: the next bit, or an error at the end of the bits.
#[verifier::external_body]
fn reader_get(r: &mut BitVecReader) -> (b: Option<bool>)
    ensures
        reader_bits(*final(r)) == reader_bits(*old(r)),
        reader_pos(*old(r)) < reader_bits(*old(r)).len() ==> b == Some(
            reader_bits(*old(r))[reader_pos(*old(r)) as int],
        ) && reader_pos(*final(r)) == reader_pos(*old(r)) + 1,
        reader_pos(*old(r)) >= reader_bits(*old(r)).len() ==> b is None && reader_pos(*final(r))
            == reader_pos(*old(r)),
{
    BitVecReader::get(r).ok()
}

/// Relies on BitVecReader::get_n: the next `n` bits as a big-endian number. It panics
/// when fewer than `n` bits are left, and the load when `n` is 0 or over 64.
#[verifier::external_body]
fn reader_get_n(r: &mut BitVecReader, n: usize) -> (v: u64)
    requires
        1 <= n <= 64,
        reader_ok(*old(r)),
        reader_pos(*old(r)) + n <= reader_bits(*old(r)).len(),
    ensures
        reader_bits(*final(r)) == reader_bits(*old(r)),
        reader_pos(*final(r)) == reader_pos(*old(r)) + n,
        v as nat == be_value(
            reader_bits(*old(r)).subrange(reader_pos(*old(r)) as int, reader_pos(*old(r)) + n),
        ),
{
    BitVecReader::get_n::<u64>(r, n)
}

/// The number of bits that `r` has left.
pub fn bits_left(r: &BitVecReader) -> (n: usize)
    requires
        reader_ok(*r),
    ensures
        n == remaining(*r).len(),
{
    reader_available(r)
}

/// Whether the reader stands on a byte boundary.
pub fn read_is_aligned(r: &BitVecReader) -> (b: bool)
    ensures
        b == (reader_pos(*r) % 8 == 0),
{
    reader_is_aligned(r)
}

/// Reads one bit.
pub fn read_bit(r: &mut BitVecReader) -> (res: Result<bool, RpuError>)
    requires
        reader_ok(*old(r)),
    ensures
        reader_ok(*final(r)),
        reader_bits(*final(r)) == reader_bits(*old(r)),
        remaining(*old(r)).len() == 0 ==> res == Err::<bool, RpuError>(RpuError::TruncatedStream)
            && reader_pos(*final(r)) == reader_pos(*old(r)),
        remaining(*old(r)).len() > 0 ==> res == Ok::<bool, RpuError>(remaining(*old(r))[0])
            && reader_pos(*final(r)) == reader_pos(*old(r)) + 1,
        res is Ok ==> advanced_by(*old(r), *final(r), seq![res->Ok_0]),
{
    match reader_get(r) {
        Some(b) => {
            assert(reader_bits(*old(r)).subrange(
                reader_pos(*old(r)) as int,
                reader_pos(*r) as int,
            ) =~= seq![b]);
            Ok(b)
        },
        None => Err(RpuError::TruncatedStream),
    }
}

/// Reads `n` bits, `n` at most 64, as a big-endian number.
pub fn read_bits(r: &mut BitVecReader, n: usize) -> (res: Result<u64, RpuError>)
    requires
        reader_ok(*old(r)),
        n <= 64,
    ensures
        reader_ok(*final(r)),
        reader_bits(*final(r)) == reader_bits(*old(r)),
        remaining(*old(r)).len() < n ==> res == Err::<u64, RpuError>(RpuError::TruncatedStream)
            && reader_pos(*final(r)) == reader_pos(*old(r)),
        remaining(*old(r)).len() >= n ==> {
            &&& res is Ok
            &&& reader_pos(*final(r)) == reader_pos(*old(r)) + n
            &&& res->Ok_0 as nat == be_value(remaining(*old(r)).subrange(0, n as int))
            &&& (res->Ok_0 as nat) < pow2(n as nat)
            &&& remaining(*old(r)).subrange(0, n as int) == bits_be(res->Ok_0 as nat, n as nat)
            &&& advanced_by(*old(r), *final(r), bits_be(res->Ok_0 as nat, n as nat))
        },
{
    let ghost s = remaining(*r);
    if reader_available(r) < n {
        return Err(RpuError::TruncatedStream);
    }
    let ghost p = reader_pos(*r) as int;
    let v: u64 = if n == 0 {
        0
    } else {
        reader_get_n(r, n)
    };
    proof {
        let t = s.subrange(0, n as int);
        assert(t =~= reader_bits(*old(r)).subrange(p, p + n));
        lemma_be_value_bound(t);
        lemma_bits_of_be_value(t);
    }
    assert(reader_bits(*old(r)).subrange(p, reader_pos(*r) as int) =~= s.subrange(0, n as int));
    Ok(v)
}

/// Reads one unsigned Exp-Golomb code.
pub fn read_ue(r: &mut BitVecReader) -> (res: Result<u64, RpuError>)
    requires
        reader_ok(*old(r)),
    ensures
        reader_ok(*final(r)),
        reader_bits(*final(r)) == reader_bits(*old(r)),
        match ue_decode(remaining(*old(r))) {
            Ok((v, n)) => res == Ok::<u64, RpuError>(v as u64) && reader_pos(*final(r))
                == reader_pos(*old(r)) + n && v <= u64::MAX && advanced_by(
                *old(r),
                *final(r),
                ue_bits(v),
            ),
            Err(e) => res == Err::<u64, RpuError>(e),
        },
{
    let ghost s = remaining(*r);
    let ghost p0 = reader_pos(*r);
    let mut k: usize = 0;
    loop
        invariant_except_break
            reader_pos(*r) == p0 + k,
        invariant
            reader_ok(*r),
            reader_bits(*r) == reader_bits(*old(r)),
            s == remaining(*old(r)),
            p0 == reader_pos(*old(r)),
            k < 64,
            k <= s.len(),
            forall|i: int| 0 <= i < k ==> !#[trigger] s[i],
        ensures
            k < s.len(),
            s[k as int],
            reader_pos(*r) == p0 + k + 1,
        decreases 64 - k,
    {
        let b = read_bit(r);
        match b {
            Err(e) => {
                proof {
                    lemma_leading_zeros_prefix(s, k as nat);
                }
                return Err(e);
            },
            Ok(bit) => {
                assert(bit == s[k as int]);
                if bit {
                    break;
                }
                k = k + 1;
                if k == 64 {
                    proof {
                        lemma_leading_zeros_prefix(s, k as nat);
                    }
                    return Err(RpuError::FieldOutOfRange);
                }
            },
        }
    }
    proof {
        lemma_leading_zeros_prefix(s, k as nat);
    }
    let ghost mid = remaining(*r);
    assert(mid =~= s.subrange(k + 1, s.len() as int));
    let x = read_bits(r, k);
    match x {
        Err(e) => Err(e),
        Ok(x) => {
            assert(mid.subrange(0, k as int) =~= s.subrange((k + 1) as int, (2 * k + 1) as int));
            let mut p: u64 = 1;
            let mut i: usize = 0;
            while i < k
                invariant
                    i <= k < 64,
                    p as nat == pow2(i as nat),
                decreases k - i,
            {
                proof {
                    lemma_pow2_mono((i + 1) as nat, 63);
                    lemma_pow2_64();
                }
                p = p * 2;
                i = i + 1;
            }
            proof {
                lemma_pow2_mono(k as nat, 63);
                lemma_pow2_64();
                lemma_ue_decode_bits(s);
                assert(reader_bits(*old(r)).subrange(p0 as int, reader_pos(*r) as int) =~= s.subrange(
                    0,
                    2 * k + 1,
                ));
            }
            Ok(p - 1 + x)
        },
    }
}

/// The powers of two that the field widths use.
pub proof fn lemma_pow2_small()
    ensures
        pow2(1) == 2,
        pow2(2) == 4,
        pow2(4) == 16,
        pow2(7) == 128,
        pow2(8) == 256,
        pow2(12) == 4096,
        pow2(13) == 8192,
        pow2(16) == 65536,
{
    reveal_with_fuel(pow2, 17);
}

/// Reads `n` bits that are known to be there; what was read spells `v` in `n` bits.
pub fn read_field(r: &mut BitVecReader, n: usize) -> (v: u64)
    requires
        reader_ok(*old(r)),
        n <= 64,
        remaining(*old(r)).len() >= n,
    ensures
        reader_ok(*final(r)),
        reader_bits(*final(r)) == reader_bits(*old(r)),
        reader_pos(*final(r)) == reader_pos(*old(r)) + n,
        (v as nat) < pow2(n as nat),
        reader_bits(*old(r)).subrange(reader_pos(*old(r)) as int, reader_pos(*old(r)) + n)
            == bits_be(v as nat, n as nat),
{
    let ghost s = remaining(*r);
    let ghost p = reader_pos(*r) as int;
    let res = read_bits(r, n);
    match res {
        Ok(v) => {
            assert(s.subrange(0, n as int) =~= reader_bits(*old(r)).subrange(p, p + n));
            v
        },
        Err(_) => 0,
    }
}

/// Relies on BitVecWriter::new: an empty writer.
#[verifier::external_body]
pub fn writer_new() -> (w: BitVecWriter)
    ensures
        writer_bits(w) == Seq::<bool>::empty(),
{
    BitVecWriter::new()
}

/// Relies on BitVecWriter::write: appends one bit.
#[verifier::external_body]
pub fn write_bit(w: &mut BitVecWriter, b: bool)
    ensures
        writer_bits(*final(w)) == writer_bits(*old(w)).push(b),
{
    BitVecWriter::write(w, b)
}

/// Relies on BitVecWriter::write_n: appends the last `n` bits of the big-endian bytes
/// of `v`.
#[verifier::external_body]
pub fn write_bits(w: &mut BitVecWriter, v: u64, n: usize)
    requires
        n <= 64,
    ensures
        writer_bits(*final(w)) == writer_bits(*old(w)) + bits_be(v as nat, n as nat),
{
    BitVecWriter::write_n(w, &v.to_be_bytes(), n)
}

/// Relies on BitVecWriter::write_ue: appends the unsigned Exp-Golomb code of `v`
/// (it computes `v + 1`, so `v` stays below the largest `u64`).
#[verifier::external_body]
pub fn write_ue(w: &mut BitVecWriter, v: u64)
    requires
        v < u64::MAX,
    ensures
        writer_bits(*final(w)) == writer_bits(*old(w)) + ue_bits(v as nat),
{
    BitVecWriter::write_ue(w, v)
}

/// Relies on BitVecWriter::is_aligned: whether the bits written fill whole bytes.
#[verifier::external_body]
pub fn write_is_aligned(w: &BitVecWriter) -> (b: bool)
    ensures
        b == (writer_bits(*w).len() % 8 == 0),
{
    BitVecWriter::is_aligned(w)
}

/// Relies on BitVecWriter::as_slice: the bytes that hold the bits written.
#[verifier::external_body]
pub fn writer_bytes(w: &BitVecWriter) -> (v: Vec<u8>)
    ensures
        writer_bits(*w).len() % 8 == 0 ==> bytes_to_bits(v@) == writer_bits(*w),
{
    BitVecWriter::as_slice(w).to_vec()
}

} // verus!
