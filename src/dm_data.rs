//! The DM data envelope: a count of extension blocks, alignment, and each block
//! framed by its length and level, with zero padding up to its declared length.
use vstd::prelude::*;
use bitvec_helpers::bitvec_reader::BitVecReader;
use bitvec_helpers::bitvec_writer::BitVecWriter;

use crate::bits::{
    advanced_by, be_value, bits_be, bits_left, lemma_advance_none, lemma_advance_rest, lemma_advance_split,
    lemma_advance_trans, lemma_pow2_small, lemma_ue_bits_len, lemma_ue_round_trip, read_bit,
    read_bits, read_is_aligned, read_ue, reader_bits, reader_ok, reader_pos, remaining, ue_bits,
    ue_decode, write_bit, write_bits, write_is_aligned, write_ue, writer_bits, zeros,
};
use crate::block_set::{
    find_key, has_key, lemma_stable_sort_members, lemma_stable_sort_permutes,
    lemma_stable_sort_sorted, lemma_without_level_len, retain_other_levels, sort_blocks,
    sorted_by_key, stable_sort, without_level,
};
use crate::blocks::{level_byte_sizes, level_required_bits, ExtMetadataBlock};
use crate::error::RpuError;
use crate::level10::ExtMetadataBlockLevel10;
use crate::level8::{l8_required_bits_at, opt12_bits, opt_vector_bits, ExtMetadataBlockLevel8};
use crate::level9::{opt_primaries_bits, ExtMetadataBlockLevel9};
use crate::levels::{
    ExtMetadataBlockLevel1, ExtMetadataBlockLevel11, ExtMetadataBlockLevel2,
    ExtMetadataBlockLevel254, ExtMetadataBlockLevel3, ExtMetadataBlockLevel4,
    ExtMetadataBlockLevel5, ExtMetadataBlockLevel6,
};

verus! {

/// The content mapping version of an envelope.
#[derive(Debug, Clone, Copy, PartialEq, Eq, Structural, Default)]
pub enum CmVersion {
    V29,
    #[default]
    V40,
}

/// The block levels that an envelope of version `v` may carry.
pub open spec fn allowed_level(v: CmVersion, level: u8) -> bool {
    match v {
        CmVersion::V29 => 1 <= level <= 6,
        CmVersion::V40 => level == 3 || level == 8 || level == 9 || level == 10 || level == 11
            || level == 254,
    }
}

/// The block levels that have more than one legal size in an envelope of version `v`.
pub open spec fn variable_length_level(v: CmVersion, level: u8) -> bool {
    v == CmVersion::V40 && (level == 8 || level == 9 || level == 10)
}

pub fn is_allowed_level(v: CmVersion, level: u8) -> (b: bool)
    ensures
        b == allowed_level(v, level),
{
    match v {
        CmVersion::V29 => 1 <= level && level <= 6,
        CmVersion::V40 => level == 3 || level == 8 || level == 9 || level == 10 || level == 11
            || level == 254,
    }
}

pub fn is_variable_length_level(v: CmVersion, level: u8) -> (b: bool)
    ensures
        b == variable_length_level(v, level),
{
    match v {
        CmVersion::V29 => false,
        CmVersion::V40 => level == 8 || level == 9 || level == 10,
    }
}

/// The variable-length levels of a version are those of its levels that have more
/// than one legal size.
pub proof fn lemma_variable_length_levels(v: CmVersion, level: u8)
    requires
        allowed_level(v, level),
    ensures
        variable_length_level(v, level) <==> level_byte_sizes(level).len() > 1,
{
}

/// The payload bits that a block of `level` declared `length` bytes long carries,
/// for a legal length.
pub open spec fn required_bits_at(level: u8, length: u64) -> nat {
    if level == 8 {
        l8_required_bits_at(length)
    } else if level == 9 {
        if length == 1 {
            8
        } else {
            136
        }
    } else if level == 10 {
        if length == 5 {
            40
        } else {
            168
        }
    } else {
        level_required_bits(level)[0] as nat
    }
}

/// The zero bits that bring a position `p` to a byte boundary.
pub open spec fn align_pad(p: nat) -> nat {
    if p % 8 == 0 {
        0
    } else {
        (8 - p % 8) as nat
    }
}

proof fn lemma_align_pad(p: nat, j: nat)
    requires
        j <= align_pad(p),
    ensures
        (p + j) % 8 == 0 <==> j == align_pad(p),
        align_pad(p) < 8,
{
}

/// A block on the wire: its length in bytes, its level, its payload, and zero bits up
/// to its length.
pub open spec fn block_frame(b: ExtMetadataBlock) -> Seq<bool> {
    ue_bits(b.spec_length_bytes()) + bits_be(b.spec_level() as nat, 8) + b.encode() + zeros(
        (8 * b.spec_length_bytes() - b.spec_required_bits()) as nat,
    )
}

/// The frames of a list of blocks, one after the other.
pub open spec fn blocks_bits(s: Seq<ExtMetadataBlock>) -> Seq<bool>
    decreases s.len(),
{
    if s.len() == 0 {
        Seq::empty()
    } else {
        blocks_bits(s.drop_last()) + block_frame(s.last())
    }
}

/// A CM v2.9 envelope.
#[derive(Debug, Clone)]
pub struct CmV29DmData {
    pub num_ext_blocks: u64,
    pub ext_metadata_blocks: Vec<ExtMetadataBlock>,
}

/// A CM v4.0 envelope.
#[derive(Debug, Clone)]
pub struct CmV40DmData {
    pub num_ext_blocks: u64,
    pub ext_metadata_blocks: Vec<ExtMetadataBlock>,
}

/// An envelope of extension metadata blocks.
#[derive(Debug, Clone)]
pub enum DmData {
    V29(CmV29DmData),
    V40(CmV40DmData),
}

impl DmData {
    pub open spec fn version(&self) -> CmVersion {
        match self {
            DmData::V29(_) => CmVersion::V29,
            DmData::V40(_) => CmVersion::V40,
        }
    }

    pub open spec fn blocks(&self) -> Seq<ExtMetadataBlock> {
        match self {
            DmData::V29(d) => d.ext_metadata_blocks@,
            DmData::V40(d) => d.ext_metadata_blocks@,
        }
    }

    pub open spec fn count(&self) -> u64 {
        match self {
            DmData::V29(d) => d.num_ext_blocks,
            DmData::V40(d) => d.num_ext_blocks,
        }
    }

    /// The count matches the blocks, and every block's sizes can be counted.
    pub open spec fn wf(&self) -> bool {
        &&& self.count() == self.blocks().len()
        &&& forall|i: int| 0 <= i < self.blocks().len() ==> (#[trigger] self.blocks()[i]).wf()
    }

    /// The bits of the envelope when it starts at bit position `start`.
    pub open spec fn encode(&self, start: nat) -> Seq<bool> {
        ue_bits(self.count() as nat) + zeros(
            align_pad(start + ue_bits(self.count() as nat).len()),
        ) + blocks_bits(self.blocks())
    }

    pub fn blocks_ref(&self) -> (v: &Vec<ExtMetadataBlock>)
        ensures
            v@ == self.blocks(),
    {
        match self {
            DmData::V29(d) => &d.ext_metadata_blocks,
            DmData::V40(d) => &d.ext_metadata_blocks,
        }
    }

    pub fn num_ext_blocks(&self) -> (n: u64)
        ensures
            n == self.count(),
    {
        match self {
            DmData::V29(d) => d.num_ext_blocks,
            DmData::V40(d) => d.num_ext_blocks,
        }
    }

    pub fn cm_version(&self) -> (v: CmVersion)
        ensures
            v == self.version(),
    {
        match self {
            DmData::V29(_) => CmVersion::V29,
            DmData::V40(_) => CmVersion::V40,
        }
    }

    /// An envelope of version `version` that holds `blocks`.
    pub fn from_blocks(version: CmVersion, blocks: Vec<ExtMetadataBlock>) -> (d: Self)
        ensures
            d.version() == version,
            d.blocks() == blocks@,
            d.count() == blocks@.len(),
    {
        let n = blocks.len() as u64;
        match version {
            CmVersion::V29 => DmData::V29(CmV29DmData { num_ext_blocks: n, ext_metadata_blocks: blocks }),
            CmVersion::V40 => DmData::V40(CmV40DmData { num_ext_blocks: n, ext_metadata_blocks: blocks }),
        }
    }

    /// Adds a block of a level that the version allows, then sorts the blocks by key
    /// and updates the count. A block of another level is refused, and so is a block
    /// whose sort key a block already has: one block per level, or per level and
    /// target display.
    pub fn add_block(&mut self, meta: ExtMetadataBlock) -> (res: Result<(), RpuError>)
        requires
            old(self).wf(),
            meta.wf(),
        ensures
            final(self).wf(),
            final(self).version() == old(self).version(),
            res is Err <==> !allowed_level(old(self).version(), meta.spec_level()) || has_key(
                old(self).blocks(),
                meta.spec_sort_key(),
            ),
            res is Err ==> final(self).blocks() == old(self).blocks(),
            !allowed_level(old(self).version(), meta.spec_level()) ==> res == Err::<(), RpuError>(
                RpuError::BlockLevelNotAllowed,
            ),
            allowed_level(old(self).version(), meta.spec_level()) && has_key(
                old(self).blocks(),
                meta.spec_sort_key(),
            ) ==> res == Err::<(), RpuError>(RpuError::DuplicateBlock),
            res is Ok ==> final(self).blocks() == stable_sort(old(self).blocks().push(meta)),
            res is Ok ==> sorted_by_key(final(self).blocks()),
            res is Ok ==> final(self).blocks().to_multiset() == old(self).blocks().to_multiset().insert(
                meta,
            ),
    {
        if !is_allowed_level(self.cm_version(), meta.level()) {
            return Err(RpuError::BlockLevelNotAllowed);
        }
        if find_key(self.blocks_ref(), meta.sort_key()).is_some() {
            return Err(RpuError::DuplicateBlock);
        }
        match self {
            DmData::V29(d) => add_and_sort(&mut d.ext_metadata_blocks, &mut d.num_ext_blocks, meta),
            DmData::V40(d) => add_and_sort(&mut d.ext_metadata_blocks, &mut d.num_ext_blocks, meta),
        }
        Ok(())
    }

    /// Drops every block of level `level`, then sorts the blocks by key and updates the
    /// count.
    pub fn remove_level(&mut self, level: u8)
        requires
            old(self).wf(),
        ensures
            final(self).wf(),
            final(self).version() == old(self).version(),
            final(self).blocks() == stable_sort(without_level(old(self).blocks(), level)),
            sorted_by_key(final(self).blocks()),
            final(self).blocks().to_multiset() == without_level(old(self).blocks(), level).to_multiset(),
    {
        match self {
            DmData::V29(d) => remove_and_sort(&mut d.ext_metadata_blocks, &mut d.num_ext_blocks, level),
            DmData::V40(d) => remove_and_sort(&mut d.ext_metadata_blocks, &mut d.num_ext_blocks, level),
        }
    }

    /// Checks every block: its fields, and that the version allows its level.
    pub fn validate(&self) -> (res: Result<(), RpuError>)
        ensures
            res is Ok <==> forall|i: int|
                0 <= i < self.blocks().len() ==> (#[trigger] self.blocks()[i]).error() is None
                    && allowed_level(self.version(), self.blocks()[i].spec_level()),
    {
        let blocks = self.blocks_ref();
        let version = self.cm_version();
        let mut i: usize = 0;
        while i < blocks.len()
            invariant
                blocks@ == self.blocks(),
                version == self.version(),
                i <= blocks@.len(),
                forall|k: int|
                    0 <= k < i ==> (#[trigger] blocks@[k]).error() is None && allowed_level(
                        version,
                        blocks@[k].spec_level(),
                    ),
            decreases blocks.len() - i,
        {
            blocks[i].validate()?;
            if !is_allowed_level(version, blocks[i].level()) {
                return Err(RpuError::BlockLevelNotAllowed);
            }
            i = i + 1;
        }
        Ok(())
    }

    /// The first block of level `level`, if there is one.
    pub fn get_block(&self, level: u8) -> (res: Option<&ExtMetadataBlock>)
        ensures
            res is None <==> forall|i: int|
                0 <= i < self.blocks().len() ==> (#[trigger] self.blocks()[i]).spec_level() != level,
            res is Some ==> exists|i: int|
                0 <= i < self.blocks().len() && self.blocks()[i] == *res->0 && (forall|k: int|
                    0 <= k < i ==> (#[trigger] self.blocks()[k]).spec_level() != level)
                    && self.blocks()[i].spec_level() == level,
    {
        let blocks = self.blocks_ref();
        let mut i: usize = 0;
        while i < blocks.len()
            invariant
                blocks@ == self.blocks(),
                i <= blocks@.len(),
                forall|k: int| 0 <= k < i ==> (#[trigger] blocks@[k]).spec_level() != level,
            decreases blocks.len() - i,
        {
            if blocks[i].level() == level {
                return Some(&blocks[i]);
            }
            i = i + 1;
        }
        None
    }

    /// Validates every block, then writes the count, the alignment zero bits and each
    /// block framed by its length and level and padded with zero bits to its length.
    /// Nothing is written when a block fails validation.
    pub fn write(&self, w: &mut BitVecWriter) -> (res: Result<(), RpuError>)
        requires
            self.wf(),
        ensures
            res is Err <==> self.count() == u64::MAX || exists|i: int|
                0 <= i < self.blocks().len() && (#[trigger] self.blocks()[i]).error() is Some,
            res is Err ==> writer_bits(*final(w)) == writer_bits(*old(w)),
            res is Err && self.count() < u64::MAX ==> exists|i: int|
                0 <= i < self.blocks().len() && (#[trigger] self.blocks()[i]).error() == Some(
                    res->Err_0,
                ),
            res is Err && self.count() == u64::MAX ==> res->Err_0 == RpuError::FieldOutOfRange,
            res is Ok ==> writer_bits(*final(w)) == writer_bits(*old(w)) + self.encode(
                writer_bits(*old(w)).len(),
            ),
    {
        if self.num_ext_blocks() == u64::MAX {
            return Err(RpuError::FieldOutOfRange);
        }
        let blocks = self.blocks_ref();
        let mut i: usize = 0;
        while i < blocks.len()
            invariant
                blocks@ == self.blocks(),
                self.count() < u64::MAX,
                i <= blocks@.len(),
                writer_bits(*w) == writer_bits(*old(w)),
                forall|k: int| 0 <= k < i ==> (#[trigger] blocks@[k]).error() is None,
            decreases blocks.len() - i,
        {
            match blocks[i].validate() {
                Err(e) => {
                    return Err(e);
                },
                Ok(()) => {},
            }
            i = i + 1;
        }
        let ghost w0 = writer_bits(*w);
        let n = self.num_ext_blocks();
        write_ue(w, n);
        proof {
            lemma_ue_bits_len(n as nat);
        }
        let ghost p1 = writer_bits(*w).len();
        // dm_alignment_zero_bit
        let ghost mut j: nat = 0;
        assert(writer_bits(*w) =~= w0 + ue_bits(n as nat) + zeros(0));
        while !write_is_aligned(w)
            invariant
                w0 == writer_bits(*old(w)),
                p1 == w0.len() + ue_bits(n as nat).len(),
                j <= align_pad(p1),
                writer_bits(*w) == w0 + ue_bits(n as nat) + zeros(j),
            decreases 8 - j,
        {
            proof {
                lemma_align_pad(p1, j);
            }
            assert(j < align_pad(p1));
            write_bit(w, false);
            proof {
                assert(zeros(j) + seq![false] =~= zeros(j + 1));
                assert(writer_bits(*w) =~= w0 + ue_bits(n as nat) + zeros(j + 1));
                j = j + 1;
            }
        }
        proof {
            lemma_align_pad(p1, j);
        }
        let ghost head = ue_bits(n as nat) + zeros(j);
        assert(writer_bits(*w) == w0 + head + blocks_bits(blocks@.subrange(0, 0)));
        let mut i: usize = 0;
        while i < blocks.len()
            invariant
                w0 == writer_bits(*old(w)),
                blocks@ == self.blocks(),
                self.wf(),
                i <= blocks@.len(),
                forall|k: int| 0 <= k < blocks@.len() ==> (#[trigger] blocks@[k]).error() is None,
                writer_bits(*w) == w0 + head + blocks_bits(blocks@.subrange(0, i as int)),
            decreases blocks.len() - i,
        {
            let b = &blocks[i];
            assert(b.wf());
            proof {
                crate::blocks::lemma_length_agreement(*b);
            }
            let ghost before = writer_bits(*w);
            let length = b.length_bytes();
            let required = b.required_bits();
            write_ue(w, length);
            write_bits(w, b.level() as u64, 8);
            let written = b.write(w);
            assert(written is Ok);
            let padding = 8 * length - required;
            let mut k: u64 = 0;
            let ghost mid = writer_bits(*w);
            assert(mid =~= mid + zeros(0));
            while k < padding
                invariant
                    k <= padding,
                    writer_bits(*w) == mid + zeros(k as nat),
                decreases padding - k,
            {
                write_bit(w, false);
                assert(zeros(k as nat) + seq![false] =~= zeros((k + 1) as nat));
                assert(writer_bits(*w) =~= mid + zeros((k + 1) as nat));
                k = k + 1;
            }
            proof {
                let t = blocks@.subrange(0, i + 1);
                assert(t.drop_last() =~= blocks@.subrange(0, i as int));
                assert(t.last() == *b);
                assert(writer_bits(*w) =~= before + block_frame(*b));
            }
            i = i + 1;
        }
        assert(blocks@.subrange(0, blocks@.len() as int) =~= blocks@);
        proof {
            lemma_align_pad(p1, j);
        }
        assert(writer_bits(*w) =~= w0 + self.encode(w0.len()));
        Ok(())
    }

    /// Reads an envelope of version `version`: the count, the alignment zero bits, and
    /// that many blocks, in stream order. What it read is the encoding of the envelope
    /// it returns; it fails exactly where `envelope_error` finds an error, with that
    /// error, and so succeeds wherever the bits begin with the encoding of an envelope
    /// that it can read.
    #[verifier::spinoff_prover]
    #[verifier::rlimit(60)]
    pub fn parse(r: &mut BitVecReader, version: CmVersion) -> (res: Result<DmData, RpuError>)
        requires
            reader_ok(*old(r)),
        ensures
            reader_ok(*final(r)),
            reader_bits(*final(r)) == reader_bits(*old(r)),
            res is Ok ==> {
                let d = res->Ok_0;
                &&& d.version() == version
                &&& d.wf()
                &&& advanced_by(*old(r), *final(r), d.encode(reader_pos(*old(r))))
                &&& forall|i: int|
                    0 <= i < d.blocks().len() ==> allowed_level(
                        version,
                        (#[trigger] d.blocks()[i]).spec_level(),
                    )
                &&& readable_envelope(d)
                &&& forall|i: int| 0 <= i < d.blocks().len() ==> (#[trigger] d.blocks()[i]).fits()
            },
            res is Err <==> envelope_error(remaining(*old(r)), reader_pos(*old(r)), version) is Some,
            res is Err ==> res->Err_0 == envelope_error(
                remaining(*old(r)),
                reader_pos(*old(r)),
                version,
            )->0,
            (exists|d: DmData, rest: Seq<bool>|
                d.version() == version && readable_envelope(d) && #[trigger] (d.encode(
                    reader_pos(*old(r)),
                ) + rest) == remaining(*old(r))) ==> res is Ok,
    {
        let ghost r0 = *r;
        proof {
            assert forall|d: DmData, rest: Seq<bool>|
                d.version() == version && readable_envelope(d) && #[trigger] (d.encode(
                    reader_pos(r0),
                ) + rest) == remaining(r0) implies envelope_error(
                remaining(r0),
                reader_pos(r0),
                version,
            ) is None by {
                lemma_envelope_reads(d, reader_pos(r0), rest);
            }
        }
        let num_ext_blocks = read_ue(r)?;
        let ghost r1 = *r;
        proof {
            lemma_ue_bits_len(num_ext_blocks as nat);
        }
        proof {
            let s0 = remaining(r0);
            let n = ue_decode(s0)->Ok_0.1;
            let pad = align_pad(reader_pos(r1));
            assert(reader_pos(r1) == reader_pos(r0) + n);
            assert(remaining(r1) =~= s0.subrange(n as int, s0.len() as int));
            if exists|j: int| 0 <= j < pad && j < remaining(r1).len() && #[trigger] remaining(r1)[j] {
                let j = choose|j: int|
                    0 <= j < pad && j < remaining(r1).len() && #[trigger] remaining(r1)[j];
                assert(s0[n + j]);
            }
            if exists|j: int| n <= j < n + pad && j < s0.len() && #[trigger] s0[j] {
                let j = choose|j: int| n <= j < n + pad && j < s0.len() && #[trigger] s0[j];
                assert(remaining(r1)[j - n]);
            }
        }
        read_alignment_zeros(r)?;
        let ghost r2 = *r;
        proof {
            let s0 = remaining(r0);
            let n = ue_decode(s0)->Ok_0.1;
            assert(remaining(r2) =~= s0.subrange(
                (n + align_pad(reader_pos(r1))) as int,
                s0.len() as int,
            ));
        }
        proof {
            lemma_advance_trans(
                r0,
                r1,
                r2,
                ue_bits(num_ext_blocks as nat),
                zeros(align_pad(reader_pos(r1))),
            );
        }
        if num_ext_blocks == u64::MAX {
            return Err(RpuError::FieldOutOfRange);
        }
        let blocks = parse_blocks(r, version, num_ext_blocks);
        let blocks = match blocks {
            Ok(b) => b,
            Err(e) => {
                return Err(e);
            },
        };
        let d = DmData::from_blocks(version, blocks);
        proof {
            lemma_advance_trans(
                r0,
                r2,
                *r,
                ue_bits(num_ext_blocks as nat) + zeros(align_pad(reader_pos(r1))),
                blocks_bits(d.blocks()),
            );
        }
        Ok(d)
    }
}

/// Round trip: writing an envelope that parsing returned gives back the bits that
/// parsing read, where the writer stands at the same offset within a byte as the
/// reader did. Parsing hands back an envelope whose encoding is what it read, and a
/// write that succeeds appends that same encoding.
pub proof fn lemma_round_trip(
    r0: BitVecReader,
    r1: BitVecReader,
    d: DmData,
    w0: BitVecWriter,
    w1: BitVecWriter,
)
    requires
        advanced_by(r0, r1, d.encode(reader_pos(r0))),
        writer_bits(w1) == writer_bits(w0) + d.encode(writer_bits(w0).len()),
        reader_pos(r0) % 8 == writer_bits(w0).len() % 8,
    ensures
        writer_bits(w1).subrange(writer_bits(w0).len() as int, writer_bits(w1).len() as int)
            == reader_bits(r0).subrange(reader_pos(r0) as int, reader_pos(r1) as int),
{
    lemma_encode_offset(d, reader_pos(r0), writer_bits(w0).len());
    let e = d.encode(writer_bits(w0).len());
    let a = writer_bits(w0);
    assert((a + e).subrange(a.len() as int, (a + e).len() as int) =~= e);
}

/// The encoding of an envelope depends on its start only within a byte.
proof fn lemma_encode_offset(d: DmData, a: nat, b: nat)
    requires
        a % 8 == b % 8,
    ensures
        d.encode(a) == d.encode(b),
{
    let n = ue_bits(d.count() as nat).len();
    assert((a + n) % 8 == (b + n) % 8);
    assert(align_pad(a + n) == align_pad(b + n));
}

fn add_and_sort(blocks: &mut Vec<ExtMetadataBlock>, count: &mut u64, meta: ExtMetadataBlock)
    requires
        meta.wf(),
        forall|i: int| 0 <= i < old(blocks)@.len() ==> (#[trigger] old(blocks)@[i]).wf(),
    ensures
        final(blocks)@ == stable_sort(old(blocks)@.push(meta)),
        sorted_by_key(final(blocks)@),
        final(blocks)@.to_multiset() == old(blocks)@.to_multiset().insert(meta),
        *final(count) == final(blocks)@.len(),
        forall|i: int| 0 <= i < final(blocks)@.len() ==> (#[trigger] final(blocks)@[i]).wf(),
{
    let ghost s = old(blocks)@.push(meta);
    blocks.push(meta);
    sort_blocks(blocks);
    *count = blocks.len() as u64;
    proof {
        lemma_stable_sort_sorted(s);
        lemma_stable_sort_members(s);
        lemma_stable_sort_permutes(s);
        old(blocks)@.to_multiset_ensures();
        assert forall|i: int| 0 <= i < blocks@.len() implies (#[trigger] blocks@[i]).wf() by {
            assert(s.contains(blocks@[i]));
        }
    }
}

fn remove_and_sort(blocks: &mut Vec<ExtMetadataBlock>, count: &mut u64, level: u8)
    requires
        forall|i: int| 0 <= i < old(blocks)@.len() ==> (#[trigger] old(blocks)@[i]).wf(),
    ensures
        final(blocks)@ == stable_sort(without_level(old(blocks)@, level)),
        sorted_by_key(final(blocks)@),
        final(blocks)@.to_multiset() == without_level(old(blocks)@, level).to_multiset(),
        *final(count) == final(blocks)@.len(),
        forall|i: int| 0 <= i < final(blocks)@.len() ==> (#[trigger] final(blocks)@[i]).wf(),
{
    let ghost s = without_level(old(blocks)@, level);
    retain_other_levels(blocks, level);
    sort_blocks(blocks);
    *count = blocks.len() as u64;
    proof {
        lemma_without_level_len(old(blocks)@, level);
        lemma_stable_sort_sorted(s);
        lemma_stable_sort_members(s);
        lemma_stable_sort_permutes(s);
        assert forall|i: int| 0 <= i < blocks@.len() implies (#[trigger] blocks@[i]).wf() by {
            assert(s.contains(blocks@[i]));
            let j = choose|j: int| 0 <= j < s.len() && s[j] == blocks@[i];
            assert(old(blocks)@.contains(s[j]));
        }
    }
}

/// A block that parsing gives back from its frame: of a level with a codec that the
/// version allows, of a legal length whose payload size is its own.
pub open spec fn readable_block(b: ExtMetadataBlock, version: CmVersion) -> bool {
    &&& !(b is Reserved)
    &&& allowed_level(version, b.spec_level())
    &&& spec_legal_length(b.spec_level(), b.spec_length_bytes() as u64)
    &&& b.spec_required_bits() == required_bits_at(b.spec_level(), b.spec_length_bytes() as u64)
}

/// An envelope that parsing gives back from its encoding.
pub open spec fn readable_envelope(d: DmData) -> bool {
    &&& d.wf()
    &&& d.count() < u64::MAX
    &&& forall|i: int|
        0 <= i < d.blocks().len() ==> readable_block(#[trigger] d.blocks()[i], d.version())
}

/// The payload of a block of a known level has its required size.
pub proof fn lemma_encode_len(b: ExtMetadataBlock)
    requires
        !(b is Reserved),
    ensures
        b.encode().len() == b.spec_required_bits(),
{
    broadcast use crate::bits::lemma_bits_be_len;

    match b {
        ExtMetadataBlock::Level8(l) => {
            assert(opt12_bits(l.target_mid_contrast).len() == if l.target_mid_contrast is Some {
                12nat
            } else {
                0nat
            });
            assert(opt12_bits(l.clip_trim).len() == if l.clip_trim is Some {
                12nat
            } else {
                0nat
            });
            assert(opt_vector_bits(l.saturation_vector).len() == if l.saturation_vector is Some {
                48nat
            } else {
                0nat
            });
            assert(opt_vector_bits(l.hue_vector).len() == if l.hue_vector is Some {
                48nat
            } else {
                0nat
            });
        },
        ExtMetadataBlock::Level9(l) => {
            assert(opt_primaries_bits(l.source_primaries).len() == if l.source_primaries is Some {
                128nat
            } else {
                0nat
            });
        },
        ExtMetadataBlock::Level10(l) => {
            assert(opt_primaries_bits(l.target_primaries).len() == if l.target_primaries is Some {
                128nat
            } else {
                0nat
            });
        },
        _ => {},
    }
}

/// The payload of a legal length fits in it.
proof fn lemma_required_fits(level: u8, length: u64)
    requires
        spec_legal_length(level, length),
    ensures
        required_bits_at(level, length) <= 8 * length,
        length <= 25,
{
}

/// A frame is its length code, 8 level bits and as many bytes as its length says.
proof fn lemma_frame_len(b: ExtMetadataBlock)
    requires
        b.encode().len() == b.spec_required_bits(),
        b.spec_required_bits() <= 8 * b.spec_length_bytes(),
    ensures
        block_frame(b).len() == ue_bits(b.spec_length_bytes()).len() + 8 + 8 * b.spec_length_bytes(),
{
    broadcast use crate::bits::lemma_bits_be_len;

}

/// Two frames that open the same bits have the same length: the length code decides.
proof fn lemma_frames_align(b1: ExtMetadataBlock, b2: ExtMetadataBlock, t1: Seq<bool>, t2: Seq<bool>)
    requires
        block_frame(b1) + t1 == block_frame(b2) + t2,
        b1.encode().len() == b1.spec_required_bits(),
        b1.spec_required_bits() <= 8 * b1.spec_length_bytes(),
        b1.spec_length_bytes() < u64::MAX,
        b2.encode().len() == b2.spec_required_bits(),
        b2.spec_required_bits() <= 8 * b2.spec_length_bytes(),
        b2.spec_length_bytes() < u64::MAX,
    ensures
        t1 == t2,
{
    let l1 = b1.spec_length_bytes();
    let l2 = b2.spec_length_bytes();
    let x1 = bits_be(b1.spec_level() as nat, 8) + b1.encode() + zeros((8 * l1 - b1.spec_required_bits()) as nat) + t1;
    let x2 = bits_be(b2.spec_level() as nat, 8) + b2.encode() + zeros((8 * l2 - b2.spec_required_bits()) as nat) + t2;
    assert(block_frame(b1) + t1 =~= ue_bits(l1) + x1);
    assert(block_frame(b2) + t2 =~= ue_bits(l2) + x2);
    lemma_ue_round_trip(l1 as u64, x1);
    lemma_ue_round_trip(l2 as u64, x2);
    assert(l1 == l2);
    lemma_frame_len(b1);
    lemma_frame_len(b2);
    let n = block_frame(b1).len() as int;
    assert(t1 =~= (block_frame(b1) + t1).subrange(n, (block_frame(b1) + t1).len() as int));
    assert(t2 =~= (block_frame(b2) + t2).subrange(n, (block_frame(b2) + t2).len() as int));
}

/// The frames of a list start with the frame of its first block.
proof fn lemma_blocks_bits_front(s: Seq<ExtMetadataBlock>)
    requires
        s.len() > 0,
    ensures
        blocks_bits(s) == block_frame(s[0]) + blocks_bits(s.drop_first()),
    decreases s.len(),
{
    if s.len() == 1 {
        assert(s.drop_last() =~= Seq::<ExtMetadataBlock>::empty());
        assert(s.drop_first() =~= Seq::<ExtMetadataBlock>::empty());
        assert(blocks_bits(s) =~= block_frame(s[0]) + blocks_bits(s.drop_first()));
    } else {
        lemma_blocks_bits_front(s.drop_last());
        assert(s.drop_last().drop_first() =~= s.drop_first().drop_last());
        assert(s.drop_first().last() == s.last());
        assert(blocks_bits(s) =~= block_frame(s[0]) + blocks_bits(s.drop_first()));
    }
}

/// Reads the zero bits up to the next byte boundary.
fn read_alignment_zeros(r: &mut BitVecReader) -> (res: Result<(), RpuError>)
    requires
        reader_ok(*old(r)),
    ensures
        reader_ok(*final(r)),
        reader_bits(*final(r)) == reader_bits(*old(r)),
        res is Ok ==> advanced_by(*old(r), *final(r), zeros(align_pad(reader_pos(*old(r))))),
        forall|tail: Seq<bool>|
            #[trigger] (zeros(align_pad(reader_pos(*old(r)))) + tail) == remaining(*old(r)) ==> res is Ok
                && remaining(*final(r)) == tail,
        res is Err <==> (exists|j: int|
            0 <= j < align_pad(reader_pos(*old(r))) && j < remaining(*old(r)).len()
                && #[trigger] remaining(*old(r))[j]) || remaining(*old(r)).len() < align_pad(
            reader_pos(*old(r)),
        ),
        res is Err ==> res->Err_0 == if exists|j: int|
            0 <= j < align_pad(reader_pos(*old(r))) && j < remaining(*old(r)).len()
                && #[trigger] remaining(*old(r))[j] {
            RpuError::AlignmentNonZero
        } else {
            RpuError::TruncatedStream
        },
        res is Ok ==> reader_pos(*final(r)) == reader_pos(*old(r)) + align_pad(reader_pos(*old(r))),
{
    let ghost r1 = *r;
    let ghost p1 = reader_pos(r1);
    let ghost pad = align_pad(p1);
    proof {
        lemma_advance_none(r1);
        assert(zeros(0) =~= Seq::<bool>::empty());
        assert forall|tail: Seq<bool>| #[trigger] (zeros(pad) + tail) == remaining(r1) implies remaining(
            r1,
        ) == zeros((pad - 0) as nat) + tail by {}
    }
    let ghost mut j: nat = 0;
    while !read_is_aligned(r)
        invariant
            r1 == *old(r),
            p1 == reader_pos(r1),
            pad == align_pad(p1),
            reader_ok(*r),
            reader_bits(*r) == reader_bits(r1),
            advanced_by(r1, *r, zeros(j)),
            j <= pad,
            forall|tail: Seq<bool>|
                #[trigger] (zeros(pad) + tail) == remaining(r1) ==> remaining(*r) == zeros(
                    (pad - j) as nat,
                ) + tail,
            forall|i: int| 0 <= i < j ==> !#[trigger] remaining(r1)[i],
        decreases pad - j,
    {
        assert(reader_pos(*r) == p1 + j);
        proof {
            assert(remaining(*r).len() == remaining(r1).len() - j);
            if remaining(r1).len() > j {
                assert(remaining(*r)[0] == remaining(r1)[j as int]);
            }
        }
        proof {
            lemma_align_pad(p1, j);
        }
        assert(j < pad);
        let ghost before = *r;
        proof {
            assert forall|tail: Seq<bool>| #[trigger] (zeros(pad) + tail) == remaining(r1) implies remaining(
                before,
            ).len() > 0 && remaining(before)[0] == false by {
                assert(remaining(before) == zeros((pad - j) as nat) + tail);
            }
        }
        let bit = read_bit(r)?;
        if bit {
            return Err(RpuError::AlignmentNonZero);
        }
        proof {
            lemma_advance_trans(r1, before, *r, zeros(j), seq![false]);
            assert(zeros(j) + seq![false] =~= zeros(j + 1));
            assert forall|tail: Seq<bool>| #[trigger] (zeros(pad) + tail) == remaining(r1) implies remaining(
                *r,
            ) == zeros((pad - (j + 1)) as nat) + tail by {
                assert(zeros((pad - j) as nat) + tail =~= seq![false] + (zeros((pad - j - 1) as nat)
                    + tail));
                lemma_advance_rest(before, *r, seq![false], zeros((pad - j - 1) as nat) + tail);
            }
            j = j + 1;
        }
    }
    proof {
        assert(reader_pos(*r) == p1 + j);
        lemma_align_pad(p1, j);
        assert forall|tail: Seq<bool>| #[trigger] (zeros(pad) + tail) == remaining(r1) implies remaining(
            *r,
        ) == tail by {
            assert(zeros(0) + tail =~= tail);
        }
    }
    Ok(())
}

/// Reads `n` framed blocks of an envelope of version `version`.
fn parse_blocks(r: &mut BitVecReader, version: CmVersion, n: u64) -> (res: Result<
    Vec<ExtMetadataBlock>,
    RpuError,
>)
    requires
        reader_ok(*old(r)),
    ensures
        reader_ok(*final(r)),
        reader_bits(*final(r)) == reader_bits(*old(r)),
        res is Ok ==> {
            let v = res->Ok_0@;
            &&& v.len() == n
            &&& advanced_by(*old(r), *final(r), blocks_bits(v))
            &&& forall|k: int| 0 <= k < v.len() ==> (#[trigger] v[k]).wf()
            &&& forall|k: int| 0 <= k < v.len() ==> allowed_level(version, (#[trigger] v[k]).spec_level())
            &&& forall|k: int|
                0 <= k < v.len() ==> readable_block(#[trigger] v[k], version) && v[k].fits()
        },
        res is Err <==> blocks_error(remaining(*old(r)), n as nat, version) is Some,
        res is Err ==> res->Err_0 == blocks_error(remaining(*old(r)), n as nat, version)->0,
{
    let ghost r0 = *r;
    let mut blocks: Vec<ExtMetadataBlock> = Vec::new();
    let mut i: u64 = 0;
    proof {
        lemma_advance_none(r0);
        assert(blocks_bits(blocks@) =~= Seq::<bool>::empty());
    }
    while i < n
        invariant
            r0 == *old(r),
            reader_ok(*r),
            reader_bits(*r) == reader_bits(r0),
            advanced_by(r0, *r, blocks_bits(blocks@)),
            i <= n,
            blocks@.len() == i,
            forall|k: int| 0 <= k < blocks@.len() ==> (#[trigger] blocks@[k]).wf(),
            forall|k: int|
                0 <= k < blocks@.len() ==> allowed_level(version, (#[trigger] blocks@[k]).spec_level()),
            forall|k: int|
                0 <= k < blocks@.len() ==> readable_block(#[trigger] blocks@[k], version)
                    && blocks@[k].fits(),
            blocks_error(remaining(r0), n as nat, version) == blocks_error(
                remaining(*r),
                (n - i) as nat,
                version,
            ),
        decreases n - i,
    {
        let ghost before = *r;
        proof {
            lemma_blocks_error_step(remaining(before), (n - i) as nat, version);
        }
        let b = parse_block(r, version)?;
        proof {
            lemma_advance_trans(r0, before, *r, blocks_bits(blocks@), block_frame(b));
            assert(remaining(*r) =~= remaining(before).subrange(
                block_frame_len(remaining(before)) as int,
                remaining(before).len() as int,
            ));
        }
        let ghost old_blocks = blocks@;
        blocks.push(b);
        assert(blocks@.drop_last() =~= old_blocks);
        i = i + 1;
    }
    Ok(blocks)
}

/// The error, if any, that reading one block frame from the bits `s` meets, in the
/// order of reading: the length code, the level byte, the declared length against the
/// bits left, the level against the version, the length against the level's legal
/// sizes, and the padding bits after the payload.
pub open spec fn block_error(s: Seq<bool>, version: CmVersion) -> Option<RpuError> {
    match ue_decode(s) {
        Err(e) => Some(e),
        Ok((len, n)) => if s.len() < n + 8 {
            Some(RpuError::TruncatedStream)
        } else {
            let level = be_value(s.subrange(n as int, (n + 8) as int)) as u8;
            if len > (s.len() - n - 8) / 8 {
                Some(RpuError::TruncatedStream)
            } else if !allowed_level(version, level) {
                Some(RpuError::BlockLevelNotAllowed)
            } else if !spec_legal_length(level, len as u64) {
                Some(RpuError::InvalidBlockLength)
            } else if exists|i: int|
                n + 8 + required_bits_at(level, len as u64) <= i < n + 8 + 8 * len && #[trigger] s[i] {
                Some(RpuError::AlignmentNonZero)
            } else {
                None
            }
        },
    }
}

/// The bits of the frame that opens `s`, going by its length code.
pub open spec fn block_frame_len(s: Seq<bool>) -> nat {
    match ue_decode(s) {
        Ok((len, n)) => n + 8 + 8 * len,
        Err(_) => 0,
    }
}

/// The error, if any, that reading `count` block frames one after another from `s`
/// meets: that of the first frame that fails.
pub open spec fn blocks_error(s: Seq<bool>, count: nat, version: CmVersion) -> Option<RpuError>
    decreases count,
{
    if count == 0 {
        None
    } else {
        match block_error(s, version) {
            Some(e) => Some(e),
            None => blocks_error(
                s.subrange(block_frame_len(s) as int, s.len() as int),
                (count - 1) as nat,
                version,
            ),
        }
    }
}

/// One step of reading frames: the first frame's error, else the rest's.
proof fn lemma_blocks_error_step(s: Seq<bool>, count: nat, version: CmVersion)
    requires
        count > 0,
    ensures
        block_error(s, version) is Some ==> blocks_error(s, count, version) == block_error(
            s,
            version,
        ),
        block_error(s, version) is None ==> blocks_error(s, count, version) == blocks_error(
            s.subrange(block_frame_len(s) as int, s.len() as int),
            (count - 1) as nat,
            version,
        ),
{
}

/// The error, if any, that reading an envelope of version `version` from `s`, which
/// starts at bit position `start`, meets: the count's code; an alignment bit of one,
/// else the bits running out before the byte boundary; then the blocks.
pub open spec fn envelope_error(s: Seq<bool>, start: nat, version: CmVersion) -> Option<RpuError> {
    match ue_decode(s) {
        Err(e) => Some(e),
        Ok((count, n)) => {
            let pad = align_pad(start + n);
            if exists|j: int| n <= j < n + pad && j < s.len() && #[trigger] s[j] {
                Some(RpuError::AlignmentNonZero)
            } else if s.len() < n + pad {
                Some(RpuError::TruncatedStream)
            } else if count == u64::MAX {
                Some(RpuError::FieldOutOfRange)
            } else {
                blocks_error(s.subrange((n + pad) as int, s.len() as int), count, version)
            }
        },
    }
}

/// The bits that a reader has left.
pub open spec fn bits_left_spec(r: BitVecReader) -> nat {
    remaining(r).len()
}

/// The frame of a readable block reads without error, and takes its own length.
pub proof fn lemma_frame_reads(b: ExtMetadataBlock, rest: Seq<bool>, version: CmVersion)
    requires
        readable_block(b, version),
    ensures
        block_error(block_frame(b) + rest, version) is None,
        block_frame_len(block_frame(b) + rest) == block_frame(b).len(),
        (block_frame(b) + rest).subrange(
            block_frame(b).len() as int,
            (block_frame(b) + rest).len() as int,
        ) == rest,
{
    broadcast use crate::bits::lemma_bits_be_len;

    let l = b.spec_length_bytes();
    let req = b.spec_required_bits();
    let lvl = b.spec_level();
    lemma_required_fits(lvl, l as u64);
    lemma_encode_len(b);
    lemma_pow2_small();
    let z = zeros((8 * l - req) as nat);
    let tail = bits_be(lvl as nat, 8) + b.encode() + z + rest;
    let s = block_frame(b) + rest;
    assert(s =~= ue_bits(l) + tail);
    lemma_ue_round_trip(l as u64, tail);
    let n = ue_bits(l).len();
    assert(s.subrange(n as int, (n + 8) as int) =~= bits_be(lvl as nat, 8));
    crate::bits::lemma_be_value_small(lvl as nat, 8);
    assert forall|i: int| n + 8 + req <= i < n + 8 + 8 * l implies !#[trigger] s[i] by {
        assert(s[i] == z[i - (n + 8 + req)]);
    }
    lemma_frame_len(b);
    assert(s.subrange(block_frame(b).len() as int, s.len() as int) =~= rest);
}

/// The frames of readable blocks read one after another without error.
pub proof fn lemma_blocks_read(bs: Seq<ExtMetadataBlock>, rest: Seq<bool>, version: CmVersion)
    requires
        forall|k: int| 0 <= k < bs.len() ==> readable_block(#[trigger] bs[k], version),
    ensures
        blocks_error(blocks_bits(bs) + rest, bs.len(), version) is None,
    decreases bs.len(),
{
    if bs.len() > 0 {
        lemma_blocks_bits_front(bs);
        let t = bs.drop_first();
        let x = blocks_bits(t) + rest;
        let s = blocks_bits(bs) + rest;
        assert(s =~= block_frame(bs[0]) + x);
        assert(readable_block(bs[0], version));
        lemma_frame_reads(bs[0], x, version);
        lemma_blocks_error_step(s, bs.len(), version);
        assert forall|k: int| 0 <= k < t.len() implies readable_block(#[trigger] t[k], version) by {
            assert(t[k] == bs[k + 1]);
        }
        lemma_blocks_read(t, rest, version);
    }
}

/// The encoding of a readable envelope reads without error.
pub proof fn lemma_envelope_reads(d: DmData, start: nat, rest: Seq<bool>)
    requires
        readable_envelope(d),
    ensures
        envelope_error(d.encode(start) + rest, start, d.version()) is None,
{
    let c = d.count();
    let u = ue_bits(c as nat);
    let pad = align_pad(start + u.len());
    let bb = blocks_bits(d.blocks()) + rest;
    let s = d.encode(start) + rest;
    assert(s =~= u + (zeros(pad) + bb));
    lemma_ue_round_trip(c, zeros(pad) + bb);
    let n = u.len();
    assert forall|j: int| n <= j < n + pad && j < s.len() implies !#[trigger] s[j] by {
        assert(s[j] == zeros(pad)[j - n]);
    }
    assert(s.subrange((n + pad) as int, s.len() as int) =~= bb);
    lemma_blocks_read(d.blocks(), rest, d.version());
}

/// Two frames of readable blocks that open the same bits carry the same level and the
/// same payload bits, and what follows them is the same.
pub proof fn lemma_frame_parts(
    b1: ExtMetadataBlock,
    b2: ExtMetadataBlock,
    t1: Seq<bool>,
    t2: Seq<bool>,
    version: CmVersion,
)
    requires
        readable_block(b1, version),
        readable_block(b2, version),
        block_frame(b1) + t1 == block_frame(b2) + t2,
    ensures
        b1.spec_level() == b2.spec_level(),
        b1.encode() == b2.encode(),
        t1 == t2,
{
    broadcast use crate::bits::lemma_bits_be_len;

    lemma_required_fits(b1.spec_level(), b1.spec_length_bytes() as u64);
    lemma_required_fits(b2.spec_level(), b2.spec_length_bytes() as u64);
    lemma_encode_len(b1);
    lemma_encode_len(b2);
    lemma_frames_align(b1, b2, t1, t2);
    let f1 = block_frame(b1);
    let f2 = block_frame(b2);
    lemma_frame_len(b1);
    lemma_frame_len(b2);
    let l1 = b1.spec_length_bytes();
    let l2 = b2.spec_length_bytes();
    let x1 = bits_be(b1.spec_level() as nat, 8) + b1.encode() + zeros(
        (8 * l1 - b1.spec_required_bits()) as nat,
    );
    let x2 = bits_be(b2.spec_level() as nat, 8) + b2.encode() + zeros(
        (8 * l2 - b2.spec_required_bits()) as nat,
    );
    assert(f1 =~= ue_bits(l1) + x1);
    assert(f2 =~= ue_bits(l2) + x2);
    assert(f1 + t1 =~= ue_bits(l1) + (x1 + t1));
    assert(f2 + t2 =~= ue_bits(l2) + (x2 + t2));
    lemma_ue_round_trip(l1 as u64, x1 + t1);
    lemma_ue_round_trip(l2 as u64, x2 + t2);
    assert(l1 == l2);
    assert(f1.len() == f2.len());
    assert(f1 =~= (f1 + t1).subrange(0, f1.len() as int));
    assert(f2 =~= (f2 + t2).subrange(0, f2.len() as int));
    assert(f1 == f2);
    let n = ue_bits(l1).len() as int;
    lemma_pow2_small();
    assert(f1.subrange(n, n + 8) =~= bits_be(b1.spec_level() as nat, 8));
    assert(f2.subrange(n, n + 8) =~= bits_be(b2.spec_level() as nat, 8));
    crate::bits::lemma_be_value_small(b1.spec_level() as nat, 8);
    crate::bits::lemma_be_value_small(b2.spec_level() as nat, 8);
    let m = b1.encode().len() as int;
    assert(f1.subrange(n + 8, n + 8 + m) =~= b1.encode());
    assert(f2.subrange(n + 8, n + 8 + m) =~= b2.encode());
}

/// A frame of a fixed-size level determines its block: two readable blocks of levels
/// 1 to 6, 11 or 254 whose fields fit their widths and whose frames open the same bits
/// are the same block, and what follows is the same.
pub proof fn lemma_fixed_frame_determined(
    b1: ExtMetadataBlock,
    b2: ExtMetadataBlock,
    t1: Seq<bool>,
    t2: Seq<bool>,
    version: CmVersion,
)
    requires
        readable_block(b1, version),
        readable_block(b2, version),
        b1.fits(),
        b2.fits(),
        b1.spec_level() != 8 && b1.spec_level() != 9 && b1.spec_level() != 10,
        block_frame(b1) + t1 == block_frame(b2) + t2,
    ensures
        b1 == b2,
        t1 == t2,
{
    lemma_frame_parts(b1, b2, t1, t2, version);
    match (b1, b2) {
        (ExtMetadataBlock::Level1(a), ExtMetadataBlock::Level1(b)) => {
            crate::levels::lemma_level1_determined(a, b);
        },
        (ExtMetadataBlock::Level2(a), ExtMetadataBlock::Level2(b)) => {
            crate::levels::lemma_level2_determined(a, b);
        },
        (ExtMetadataBlock::Level3(a), ExtMetadataBlock::Level3(b)) => {
            crate::levels::lemma_level3_determined(a, b);
        },
        (ExtMetadataBlock::Level4(a), ExtMetadataBlock::Level4(b)) => {
            crate::levels::lemma_level4_determined(a, b);
        },
        (ExtMetadataBlock::Level5(a), ExtMetadataBlock::Level5(b)) => {
            crate::levels::lemma_level5_determined(a, b);
        },
        (ExtMetadataBlock::Level6(a), ExtMetadataBlock::Level6(b)) => {
            crate::levels::lemma_level6_determined(a, b);
        },
        (ExtMetadataBlock::Level11(a), ExtMetadataBlock::Level11(b)) => {
            crate::levels::lemma_level11_determined(a, b);
        },
        (ExtMetadataBlock::Level254(a), ExtMetadataBlock::Level254(b)) => {
            crate::levels::lemma_level254_determined(a, b);
        },
        _ => {},
    }
}

/// Reads the head of a block frame: the length code and the level byte.
fn parse_block_header(r: &mut BitVecReader) -> (res: Result<(u64, u8), RpuError>)
    requires
        reader_ok(*old(r)),
    ensures
        reader_ok(*final(r)),
        reader_bits(*final(r)) == reader_bits(*old(r)),
        res is Ok ==> advanced_by(
            *old(r),
            *final(r),
            ue_bits(res->Ok_0.0 as nat) + bits_be(res->Ok_0.1 as nat, 8),
        ),
        forall|length: u64, level: u8, tail: Seq<bool>|
            length < u64::MAX && #[trigger] (ue_bits(length as nat) + bits_be(level as nat, 8) + tail)
                == remaining(*old(r)) ==> res == Ok::<(u64, u8), RpuError>((length, level))
                && remaining(*final(r)) == tail,
        match ue_decode(remaining(*old(r))) {
            Err(e) => res == Err::<(u64, u8), RpuError>(e),
            Ok((v, n)) => if remaining(*old(r)).len() < n + 8 {
                res == Err::<(u64, u8), RpuError>(RpuError::TruncatedStream)
            } else {
                res == Ok::<(u64, u8), RpuError>(
                    (v as u64, be_value(remaining(*old(r)).subrange(n as int, (n + 8) as int)) as u8),
                ) && reader_pos(*final(r)) == reader_pos(*old(r)) + n + 8 && v <= u64::MAX
            },
        },
{
    broadcast use crate::bits::lemma_bits_be_len;

    proof {
        lemma_pow2_small();
    }
    let ghost r0 = *r;
    proof {
        assert forall|l: u64, v: u8, tail: Seq<bool>|
            l < u64::MAX && #[trigger] (ue_bits(l as nat) + bits_be(v as nat, 8) + tail) == remaining(
                r0,
            ) implies ue_decode(remaining(r0)) == Ok::<(nat, nat), RpuError>(
            (l as nat, ue_bits(l as nat).len()),
        ) by {
            let x = bits_be(v as nat, 8) + tail;
            assert(remaining(r0) =~= ue_bits(l as nat) + x);
            lemma_ue_round_trip(l, x);
        }
    }
    let length = read_ue(r)?;
    let ghost r1 = *r;
    proof {
        let n = ue_decode(remaining(r0))->Ok_0.1;
        assert(remaining(r1) =~= remaining(r0).subrange(n as int, remaining(r0).len() as int));
        if remaining(r1).len() >= 8 {
            assert(remaining(r1).subrange(0, 8) =~= remaining(r0).subrange(n as int, (n + 8) as int));
        }
        assert forall|l: u64, v: u8, tail: Seq<bool>|
            l < u64::MAX && #[trigger] (ue_bits(l as nat) + bits_be(v as nat, 8) + tail) == remaining(
                r0,
            ) implies length == l && remaining(r1) == bits_be(v as nat, 8) + tail by {
            let x = bits_be(v as nat, 8) + tail;
            assert(remaining(r0) =~= ue_bits(l as nat) + x);
            lemma_advance_rest(r0, r1, ue_bits(l as nat), x);
        }
    }
    let level_bits = read_bits(r, 8)?;
    let level = level_bits as u8;
    proof {
        lemma_advance_trans(r0, r1, *r, ue_bits(length as nat), bits_be(level_bits as nat, 8));
        assert forall|l: u64, v: u8, tail: Seq<bool>|
            l < u64::MAX && #[trigger] (ue_bits(l as nat) + bits_be(v as nat, 8) + tail) == remaining(
                r0,
            ) implies length == l && level == v && remaining(*r) == tail by {
            assert(remaining(r1) == bits_be(v as nat, 8) + tail);
            assert(remaining(r1).subrange(0, 8) =~= bits_be(v as nat, 8));
            crate::bits::lemma_be_value_small(v as nat, 8);
            lemma_advance_rest(r1, *r, bits_be(v as nat, 8), tail);
        }
    }
    Ok((length, level))
}

/// Reads the payload of a block of `level` declared `length` bytes long.
fn parse_block_payload(r: &mut BitVecReader, level: u8, length: u64, version: CmVersion) -> (b:
    ExtMetadataBlock)
    requires
        reader_ok(*old(r)),
        allowed_level(version, level),
        spec_legal_length(level, length),
        remaining(*old(r)).len() >= 8 * length,
    ensures
        advanced_by(*old(r), *final(r), b.encode()),
        b.wf(),
        !(b is Reserved),
        b.fits(),
        b.spec_level() == level,
        b.spec_length_bytes() == length,
        b.spec_required_bits() == required_bits_at(level, length),
        b.encode().len() == b.spec_required_bits(),
        b.spec_required_bits() <= 8 * length,
{
    proof {
        lemma_required_fits(level, length);
    }
    match level {
        1 => ExtMetadataBlockLevel1::parse(r),
        2 => ExtMetadataBlockLevel2::parse(r),
        3 => ExtMetadataBlockLevel3::parse(r),
        4 => ExtMetadataBlockLevel4::parse(r),
        5 => ExtMetadataBlockLevel5::parse(r),
        6 => ExtMetadataBlockLevel6::parse(r),
        8 => ExtMetadataBlockLevel8::parse(length, r),
        9 => ExtMetadataBlockLevel9::parse(length, r),
        10 => ExtMetadataBlockLevel10::parse(length, r),
        11 => ExtMetadataBlockLevel11::parse(r),
        _ => ExtMetadataBlockLevel254::parse(r),
    }
}

/// Reads `n` bits that must all be zero.
fn read_zero_bits(r: &mut BitVecReader, n: u64) -> (res: Result<(), RpuError>)
    requires
        reader_ok(*old(r)),
    ensures
        reader_ok(*final(r)),
        reader_bits(*final(r)) == reader_bits(*old(r)),
        res is Ok ==> advanced_by(*old(r), *final(r), zeros(n as nat)),
        forall|tail: Seq<bool>|
            #[trigger] (zeros(n as nat) + tail) == remaining(*old(r)) ==> res is Ok && remaining(
                *final(r),
            ) == tail,
        remaining(*old(r)).len() >= n ==> (res is Err <==> exists|i: int|
            0 <= i < n && #[trigger] remaining(*old(r))[i]),
        res is Err && remaining(*old(r)).len() >= n ==> res->Err_0 == RpuError::AlignmentNonZero,
{
    let ghost r0 = *r;
    let mut k: u64 = 0;
    proof {
        lemma_advance_none(r0);
        assert(zeros(0) =~= Seq::<bool>::empty());
    }
    while k < n
        invariant
            r0 == *old(r),
            reader_ok(*r),
            reader_bits(*r) == reader_bits(r0),
            k <= n,
            advanced_by(r0, *r, zeros(k as nat)),
            forall|tail: Seq<bool>|
                #[trigger] (zeros(n as nat) + tail) == remaining(r0) ==> remaining(*r) == zeros(
                    (n - k) as nat,
                ) + tail,
            forall|i: int| 0 <= i < k ==> !#[trigger] remaining(r0)[i],
        decreases n - k,
    {
        let ghost before = *r;
        proof {
            assert(reader_pos(before) == reader_pos(r0) + k);
            if remaining(r0).len() > k {
                assert(remaining(before)[0] == remaining(r0)[k as int]);
            }
            assert(remaining(before).len() == remaining(r0).len() - k);
            assert forall|tail: Seq<bool>| #[trigger] (zeros(n as nat) + tail) == remaining(r0) implies remaining(
                before,
            ).len() > 0 && remaining(before)[0] == false by {
                assert(remaining(before) == zeros((n - k) as nat) + tail);
            }
        }
        let bit = read_bit(r)?;
        if bit {
            return Err(RpuError::AlignmentNonZero);
        }
        proof {
            lemma_advance_trans(r0, before, *r, zeros(k as nat), seq![false]);
            assert(zeros(k as nat) + seq![false] =~= zeros((k + 1) as nat));
            assert forall|tail: Seq<bool>| #[trigger] (zeros(n as nat) + tail) == remaining(r0) implies remaining(
                *r,
            ) == zeros((n - (k + 1)) as nat) + tail by {
                assert(zeros((n - k) as nat) + tail =~= seq![false] + (zeros((n - k - 1) as nat) + tail));
                lemma_advance_rest(before, *r, seq![false], zeros((n - k - 1) as nat) + tail);
            }
        }
        k = k + 1;
    }
    proof {
        assert forall|tail: Seq<bool>| #[trigger] (zeros(n as nat) + tail) == remaining(r0) implies remaining(
            *r,
        ) == tail by {
            assert(zeros(0) + tail =~= tail);
        }
    }
    Ok(())
}

/// Reads one framed block of an envelope of version `version`: its length, its level,
/// its payload and the zero bits up to its length. It fails exactly where
/// `block_error` finds an error, with that error, so it succeeds wherever the bits
/// begin with the frame of a readable block (`lemma_frame_reads`).
pub fn parse_block(r: &mut BitVecReader, version: CmVersion) -> (res: Result<
    ExtMetadataBlock,
    RpuError,
>)
    requires
        reader_ok(*old(r)),
    ensures
        reader_ok(*final(r)),
        reader_bits(*final(r)) == reader_bits(*old(r)),
        res is Ok ==> {
            let b = res->Ok_0;
            &&& advanced_by(*old(r), *final(r), block_frame(b))
            &&& b.wf()
            &&& allowed_level(version, b.spec_level())
            &&& spec_legal_length(b.spec_level(), b.spec_length_bytes() as u64)
            &&& b.spec_required_bits() == required_bits_at(
                b.spec_level(),
                b.spec_length_bytes() as u64,
            )
            &&& b.encode().len() == b.spec_required_bits()
            &&& !(b is Reserved)
            &&& b.fits()
            &&& reader_pos(*final(r)) == reader_pos(*old(r)) + block_frame_len(remaining(*old(r)))
        },
        res is Err <==> block_error(remaining(*old(r)), version) is Some,
        res is Err ==> res->Err_0 == block_error(remaining(*old(r)), version)->0,
{
    let ghost r0 = *r;
    let ghost s0 = remaining(r0);
    let (length, level) = parse_block_header(r)?;
    let ghost r2 = *r;
    let ghost n = ue_decode(s0)->Ok_0.1;
    proof {
        assert(remaining(r2) =~= s0.subrange((n + 8) as int, s0.len() as int));
        assert(ue_decode(s0) is Ok);
        assert(s0.len() >= n + 8);
        assert(length as nat == ue_decode(s0)->Ok_0.0);
        assert(level == be_value(s0.subrange(n as int, (n + 8) as int)) as u8);
        assert(bits_left_spec(*r) == s0.len() - n - 8);
    }
    if length > (bits_left(r) / 8) as u64 {
        return Err(RpuError::TruncatedStream);
    }
    if !is_allowed_level(version, level) {
        return Err(RpuError::BlockLevelNotAllowed);
    }
    if !legal_length(level, length) {
        return Err(RpuError::InvalidBlockLength);
    }
    let block = parse_block_payload(r, level, length, version);
    let ghost r3 = *r;
    proof {
        lemma_advance_trans(
            r0,
            r2,
            r3,
            ue_bits(length as nat) + bits_be(level as nat, 8),
            block.encode(),
        );
    }
    // ext_dm_alignment_zero_bit
    let padding = 8 * length - block.required_bits();
    proof {
        let req = block.spec_required_bits();
        let lo = n + 8 + req;
        lemma_advance_split(r2, r3, block.encode());
        assert(remaining(r3) =~= s0.subrange(lo as int, s0.len() as int));
        if exists|j: int| 0 <= j < padding && #[trigger] remaining(r3)[j] {
            let j = choose|j: int| 0 <= j < padding && #[trigger] remaining(r3)[j];
            assert(s0[lo + j]);
        }
        if exists|i: int| lo <= i < n + 8 + 8 * length && #[trigger] s0[i] {
            let i = choose|i: int| lo <= i < n + 8 + 8 * length && #[trigger] s0[i];
            assert(remaining(r3)[i - lo]);
        }
    }
    read_zero_bits(r, padding)?;
    proof {
        lemma_advance_trans(
            r0,
            r3,
            *r,
            ue_bits(length as nat) + bits_be(level as nat, 8) + block.encode(),
            zeros(padding as nat),
        );
    }
    Ok(block)
}

/// Whether `length` is a legal size of `level`'s blocks.
pub open spec fn spec_legal_length(level: u8, length: u64) -> bool {
    if level == 1 || level == 3 {
        length == 5
    } else if level == 2 {
        length == 11
    } else if level == 4 {
        length == 3
    } else if level == 5 {
        length == 7
    } else if level == 6 {
        length == 8
    } else if level == 8 {
        length == 10 || length == 12 || length == 13 || length == 19 || length == 25
    } else if level == 9 {
        length == 1 || length == 17
    } else if level == 10 {
        length == 5 || length == 21
    } else if level == 11 {
        length == 4
    } else if level == 254 {
        length == 2
    } else {
        false
    }
}

/// The legal sizes are those that the size table of the level lists.
pub proof fn lemma_legal_length_listed(level: u8, length: u64)
    ensures
        spec_legal_length(level, length) <==> level_byte_sizes(level).contains(length),
{
    let s = level_byte_sizes(level);
    if spec_legal_length(level, length) {
        if level == 8 {
            if length == 10 {
                assert(s[0] == length);
            } else if length == 12 {
                assert(s[1] == length);
            } else if length == 13 {
                assert(s[2] == length);
            } else if length == 19 {
                assert(s[3] == length);
            } else {
                assert(s[4] == length);
            }
        } else if level == 9 || level == 10 {
            if s[0] == length {
            } else {
                assert(s[1] == length);
            }
        } else {
            assert(s[0] == length);
        }
    }
}

fn legal_length(level: u8, length: u64) -> (b: bool)
    ensures
        b == spec_legal_length(level, length),
        b ==> length <= 25,
{
    if level == 1 || level == 3 {
        length == 5
    } else if level == 2 {
        length == 11
    } else if level == 4 {
        length == 3
    } else if level == 5 {
        length == 7
    } else if level == 6 {
        length == 8
    } else if level == 8 {
        length == 10 || length == 12 || length == 13 || length == 19 || length == 25
    } else if level == 9 {
        length == 1 || length == 17
    } else if level == 10 {
        length == 5 || length == 21
    } else if level == 11 {
        length == 4
    } else if level == 254 {
        length == 2
    } else {
        false
    }
}

} // verus!
