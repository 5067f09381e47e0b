//! The tagged union of extension metadata blocks, and what every level shares:
//! its level code, its sizes, its sort key, validation and writing.
use vstd::prelude::*;
use bitvec_helpers::bitvec_writer::BitVecWriter;

use crate::bits::{bytes_to_bits, write_bits, writer_bits};
use crate::error::RpuError;
use crate::level10::ExtMetadataBlockLevel10;
use crate::level8::ExtMetadataBlockLevel8;
use crate::level9::ExtMetadataBlockLevel9;
use crate::levels::{
    ExtMetadataBlockLevel1, ExtMetadataBlockLevel11, ExtMetadataBlockLevel2,
    ExtMetadataBlockLevel254, ExtMetadataBlockLevel3, ExtMetadataBlockLevel4,
    ExtMetadataBlockLevel5, ExtMetadataBlockLevel6,
};

verus! {

/// A block of a level that this library does not know: its level code and its raw
/// payload bytes, written back unchanged.
#[derive(Debug, Clone)]
pub struct ReservedExtMetadataBlock {
    pub ext_block_level: u8,
    pub data: Vec<u8>,
}

/// One extension metadata block.
#[derive(Debug, Clone)]
pub enum ExtMetadataBlock {
    Level1(ExtMetadataBlockLevel1),
    Level2(ExtMetadataBlockLevel2),
    Level3(ExtMetadataBlockLevel3),
    Level4(ExtMetadataBlockLevel4),
    Level5(ExtMetadataBlockLevel5),
    Level6(ExtMetadataBlockLevel6),
    Level8(ExtMetadataBlockLevel8),
    Level9(ExtMetadataBlockLevel9),
    Level10(ExtMetadataBlockLevel10),
    Level11(ExtMetadataBlockLevel11),
    Level254(ExtMetadataBlockLevel254),
    Reserved(ReservedExtMetadataBlock),
}

/// The legal byte sizes of a level's blocks; for a level without a codec, none.
pub open spec fn level_byte_sizes(level: u8) -> Seq<u64> {
    if level == 1 || level == 3 {
        seq![5u64]
    } else if level == 2 {
        seq![11u64]
    } else if level == 4 {
        seq![3u64]
    } else if level == 5 {
        seq![7u64]
    } else if level == 6 {
        seq![8u64]
    } else if level == 8 {
        seq![10u64, 12, 13, 19, 25]
    } else if level == 9 {
        seq![1u64, 17]
    } else if level == 10 {
        seq![5u64, 21]
    } else if level == 11 {
        seq![4u64]
    } else if level == 254 {
        seq![2u64]
    } else {
        Seq::empty()
    }
}

/// The payload bits of each legal byte size, in the same order.
pub open spec fn level_required_bits(level: u8) -> Seq<u64> {
    if level == 1 || level == 3 {
        seq![36u64]
    } else if level == 2 {
        seq![85u64]
    } else if level == 4 {
        seq![24u64]
    } else if level == 5 {
        seq![52u64]
    } else if level == 6 {
        seq![64u64]
    } else if level == 8 {
        seq![80u64, 92, 104, 152, 200]
    } else if level == 9 {
        seq![8u64, 136]
    } else if level == 10 {
        seq![40u64, 168]
    } else if level == 11 {
        seq![32u64]
    } else if level == 254 {
        seq![16u64]
    } else {
        Seq::empty()
    }
}

/// The largest payload, in bytes, of a reserved block.
pub const MAX_RESERVED_BYTES: usize = 0x0fff_ffff;

impl ExtMetadataBlock {
    /// Sizes can be counted in bits without overflow.
    pub open spec fn wf(&self) -> bool {
        match self {
            ExtMetadataBlock::Reserved(b) => b.data.len() <= MAX_RESERVED_BYTES,
            _ => true,
        }
    }

    pub open spec fn spec_level(&self) -> u8 {
        match self {
            ExtMetadataBlock::Level1(b) => 1u8,
            ExtMetadataBlock::Level2(b) => 2u8,
            ExtMetadataBlock::Level3(b) => 3u8,
            ExtMetadataBlock::Level4(b) => 4u8,
            ExtMetadataBlock::Level5(b) => 5u8,
            ExtMetadataBlock::Level6(b) => 6u8,
            ExtMetadataBlock::Level8(b) => 8u8,
            ExtMetadataBlock::Level9(b) => 9u8,
            ExtMetadataBlock::Level10(b) => 10u8,
            ExtMetadataBlock::Level11(b) => 11u8,
            ExtMetadataBlock::Level254(b) => 254u8,
            ExtMetadataBlock::Reserved(b) => b.ext_block_level,
        }
    }

    /// The level, then the target display for the levels that have one (the peak PQ
    /// of an L2 trim), else 0.
    pub open spec fn spec_sort_key(&self) -> (u8, u16) {
        match self {
            ExtMetadataBlock::Level1(b) => (1u8, 0u16),
            ExtMetadataBlock::Level2(b) => (2u8, b.target_max_pq),
            ExtMetadataBlock::Level3(b) => (3u8, 0u16),
            ExtMetadataBlock::Level4(b) => (4u8, 0u16),
            ExtMetadataBlock::Level5(b) => (5u8, 0u16),
            ExtMetadataBlock::Level6(b) => (6u8, 0u16),
            ExtMetadataBlock::Level8(b) => (8u8, b.target_display_index as u16),
            ExtMetadataBlock::Level9(b) => (9u8, 0u16),
            ExtMetadataBlock::Level10(b) => (10u8, b.target_display_index as u16),
            ExtMetadataBlock::Level11(b) => (11u8, 0u16),
            ExtMetadataBlock::Level254(b) => (254u8, 0u16),
            ExtMetadataBlock::Reserved(b) => (b.ext_block_level, 0u16),
        }
    }

    pub open spec fn spec_required_bits(&self) -> nat {
        match self {
            ExtMetadataBlock::Level1(b) => 36,
            ExtMetadataBlock::Level2(b) => 85,
            ExtMetadataBlock::Level3(b) => 36,
            ExtMetadataBlock::Level4(b) => 24,
            ExtMetadataBlock::Level5(b) => 52,
            ExtMetadataBlock::Level6(b) => 64,
            ExtMetadataBlock::Level8(b) => b.spec_required_bits(),
            ExtMetadataBlock::Level9(b) => b.spec_required_bits(),
            ExtMetadataBlock::Level10(b) => b.spec_required_bits(),
            ExtMetadataBlock::Level11(b) => 32,
            ExtMetadataBlock::Level254(b) => 16,
            ExtMetadataBlock::Reserved(b) => (8 * b.data.len()) as nat,
        }
    }

    pub open spec fn spec_length_bytes(&self) -> nat {
        match self {
            ExtMetadataBlock::Level1(b) => 5,
            ExtMetadataBlock::Level2(b) => 11,
            ExtMetadataBlock::Level3(b) => 5,
            ExtMetadataBlock::Level4(b) => 3,
            ExtMetadataBlock::Level5(b) => 7,
            ExtMetadataBlock::Level6(b) => 8,
            ExtMetadataBlock::Level8(b) => b.spec_bytes_size(),
            ExtMetadataBlock::Level9(b) => b.spec_bytes_size(),
            ExtMetadataBlock::Level10(b) => b.spec_bytes_size(),
            ExtMetadataBlock::Level11(b) => 4,
            ExtMetadataBlock::Level254(b) => 2,
            ExtMetadataBlock::Reserved(b) => b.data.len() as nat,
        }
    }

    pub open spec fn spec_possible_length_bytes(&self) -> Seq<u64> {
        match self {
            ExtMetadataBlock::Reserved(b) => seq![b.data.len() as u64],
            _ => level_byte_sizes(self.spec_level()),
        }
    }

    pub open spec fn spec_possible_required_bits(&self) -> Seq<u64> {
        match self {
            ExtMetadataBlock::Reserved(b) => seq![(8 * b.data.len()) as u64],
            _ => level_required_bits(self.spec_level()),
        }
    }

    /// The payload bits, without the padding that follows them.
    pub open spec fn encode(&self) -> Seq<bool> {
        match self {
            ExtMetadataBlock::Level1(b) => b.encode(),
            ExtMetadataBlock::Level2(b) => b.encode(),
            ExtMetadataBlock::Level3(b) => b.encode(),
            ExtMetadataBlock::Level4(b) => b.encode(),
            ExtMetadataBlock::Level5(b) => b.encode(),
            ExtMetadataBlock::Level6(b) => b.encode(),
            ExtMetadataBlock::Level8(b) => b.encode(),
            ExtMetadataBlock::Level9(b) => b.encode(),
            ExtMetadataBlock::Level10(b) => b.encode(),
            ExtMetadataBlock::Level11(b) => b.encode(),
            ExtMetadataBlock::Level254(b) => b.encode(),
            ExtMetadataBlock::Reserved(b) => bytes_to_bits(b.data@),
        }
    }

    /// Every field fits in its bit width, so that the payload bits determine it.
    pub open spec fn fits(&self) -> bool {
        match self {
            ExtMetadataBlock::Level1(b) => b.fits(),
            ExtMetadataBlock::Level2(b) => b.fits(),
            ExtMetadataBlock::Level3(b) => b.fits(),
            ExtMetadataBlock::Level4(b) => b.fits(),
            ExtMetadataBlock::Level5(b) => b.fits(),
            ExtMetadataBlock::Level6(b) => b.fits(),
            ExtMetadataBlock::Level8(b) => b.fits(),
            ExtMetadataBlock::Level9(_) => true,
            ExtMetadataBlock::Level10(b) => b.fits(),
            ExtMetadataBlock::Level11(b) => b.fits(),
            ExtMetadataBlock::Level254(b) => b.fits(),
            ExtMetadataBlock::Reserved(_) => true,
        }
    }

    /// Why the block cannot be written, if it cannot.
    pub open spec fn error(&self) -> Option<RpuError> {
        match self {
            ExtMetadataBlock::Level1(b) => b.error(),
            ExtMetadataBlock::Level2(b) => b.error(),
            ExtMetadataBlock::Level3(b) => b.error(),
            ExtMetadataBlock::Level4(b) => b.error(),
            ExtMetadataBlock::Level5(b) => b.error(),
            ExtMetadataBlock::Level6(b) => b.error(),
            ExtMetadataBlock::Level8(b) => b.error(),
            ExtMetadataBlock::Level9(b) => None,
            ExtMetadataBlock::Level10(b) => b.error(),
            ExtMetadataBlock::Level11(b) => b.error(),
            ExtMetadataBlock::Level254(b) => None,
            ExtMetadataBlock::Reserved(b) => None,
        }
    }

    pub fn level(&self) -> (l: u8)
        ensures
            l == self.spec_level(),
    {
        match self {
            ExtMetadataBlock::Level1(b) => 1,
            ExtMetadataBlock::Level2(b) => 2,
            ExtMetadataBlock::Level3(b) => 3,
            ExtMetadataBlock::Level4(b) => 4,
            ExtMetadataBlock::Level5(b) => 5,
            ExtMetadataBlock::Level6(b) => 6,
            ExtMetadataBlock::Level8(b) => 8,
            ExtMetadataBlock::Level9(b) => 9,
            ExtMetadataBlock::Level10(b) => 10,
            ExtMetadataBlock::Level11(b) => 11,
            ExtMetadataBlock::Level254(b) => 254,
            ExtMetadataBlock::Reserved(b) => b.ext_block_level,
        }
    }

    pub fn sort_key(&self) -> (k: (u8, u16))
        ensures
            k == self.spec_sort_key(),
    {
        match self {
            ExtMetadataBlock::Level1(b) => (1, 0),
            ExtMetadataBlock::Level2(b) => (2, b.target_max_pq),
            ExtMetadataBlock::Level3(b) => (3, 0),
            ExtMetadataBlock::Level4(b) => (4, 0),
            ExtMetadataBlock::Level5(b) => (5, 0),
            ExtMetadataBlock::Level6(b) => (6, 0),
            ExtMetadataBlock::Level8(b) => (8, b.target_display_index as u16),
            ExtMetadataBlock::Level9(b) => (9, 0),
            ExtMetadataBlock::Level10(b) => (10, b.target_display_index as u16),
            ExtMetadataBlock::Level11(b) => (11, 0),
            ExtMetadataBlock::Level254(b) => (254, 0),
            ExtMetadataBlock::Reserved(b) => (b.ext_block_level, 0),
        }
    }

    pub fn required_bits(&self) -> (n: u64)
        requires
            self.wf(),
        ensures
            n == self.spec_required_bits(),
    {
        match self {
            ExtMetadataBlock::Level1(b) => 36,
            ExtMetadataBlock::Level2(b) => 85,
            ExtMetadataBlock::Level3(b) => 36,
            ExtMetadataBlock::Level4(b) => 24,
            ExtMetadataBlock::Level5(b) => 52,
            ExtMetadataBlock::Level6(b) => 64,
            ExtMetadataBlock::Level8(b) => b.required_bits(),
            ExtMetadataBlock::Level9(b) => b.required_bits(),
            ExtMetadataBlock::Level10(b) => b.required_bits(),
            ExtMetadataBlock::Level11(b) => 32,
            ExtMetadataBlock::Level254(b) => 16,
            ExtMetadataBlock::Reserved(b) => 8 * b.data.len() as u64,
        }
    }

    pub fn length_bytes(&self) -> (n: u64)
        ensures
            n == self.spec_length_bytes(),
    {
        match self {
            ExtMetadataBlock::Level1(b) => 5,
            ExtMetadataBlock::Level2(b) => 11,
            ExtMetadataBlock::Level3(b) => 5,
            ExtMetadataBlock::Level4(b) => 3,
            ExtMetadataBlock::Level5(b) => 7,
            ExtMetadataBlock::Level6(b) => 8,
            ExtMetadataBlock::Level8(b) => b.bytes_size(),
            ExtMetadataBlock::Level9(b) => b.bytes_size(),
            ExtMetadataBlock::Level10(b) => b.bytes_size(),
            ExtMetadataBlock::Level11(b) => 4,
            ExtMetadataBlock::Level254(b) => 2,
            ExtMetadataBlock::Reserved(b) => b.data.len() as u64,
        }
    }

    pub fn length_bits(&self) -> (n: u64)
        requires
            self.wf(),
        ensures
            n == 8 * self.spec_length_bytes(),
    {
        8 * self.length_bytes()
    }

    pub fn possible_length_bytes(&self) -> (v: Vec<u64>)
        ensures
            v@ == self.spec_possible_length_bytes(),
    {
        let v = match self {
            ExtMetadataBlock::Reserved(b) => vec![b.data.len() as u64],
            _ => level_byte_sizes_vec(self.level()),
        };
        assert(v@ =~= self.spec_possible_length_bytes());
        v
    }

    pub fn possible_required_bits(&self) -> (v: Vec<u64>)
        requires
            self.wf(),
        ensures
            v@ == self.spec_possible_required_bits(),
    {
        let v = match self {
            ExtMetadataBlock::Reserved(b) => vec![8 * b.data.len() as u64],
            _ => level_required_bits_vec(self.level()),
        };
        assert(v@ =~= self.spec_possible_required_bits());
        v
    }

    pub fn possible_length_bits(&self) -> (v: Vec<u64>)
        requires
            self.wf(),
        ensures
            v@.len() == self.spec_possible_length_bytes().len(),
            forall|i: int|
                0 <= i < v@.len() ==> #[trigger] v@[i] == 8 * self.spec_possible_length_bytes()[i],
    {
        let bytes = self.possible_length_bytes();
        let mut v: Vec<u64> = Vec::new();
        let mut i: usize = 0;
        while i < bytes.len()
            invariant
                bytes@ == self.spec_possible_length_bytes(),
                self.wf(),
                i <= bytes.len(),
                v@.len() == i,
                forall|j: int| 0 <= j < i ==> #[trigger] v@[j] == 8 * bytes@[j],
            decreases bytes.len() - i,
        {
            proof {
                lemma_possible_sizes_small(self);
            }
            v.push(8 * bytes[i]);
            i = i + 1;
        }
        v
    }

    /// Checks the fields of the block against their ranges.
    pub fn validate(&self) -> (res: Result<(), RpuError>)
        ensures
            res is Err <==> self.error() is Some,
            res is Err ==> res->Err_0 == self.error()->0,
    {
        match self {
            ExtMetadataBlock::Level1(b) => b.validate(),
            ExtMetadataBlock::Level2(b) => b.validate(),
            ExtMetadataBlock::Level3(b) => b.validate(),
            ExtMetadataBlock::Level4(b) => b.validate(),
            ExtMetadataBlock::Level5(b) => b.validate(),
            ExtMetadataBlock::Level6(b) => b.validate(),
            ExtMetadataBlock::Level8(b) => b.validate(),
            ExtMetadataBlock::Level9(b) => Ok(()),
            ExtMetadataBlock::Level10(b) => b.validate(),
            ExtMetadataBlock::Level11(b) => b.validate(),
            ExtMetadataBlock::Level254(b) => Ok(()),
            ExtMetadataBlock::Reserved(b) => Ok(()),
        }
    }

    /// Validates the block, then writes its payload bits.
    pub fn write(&self, w: &mut BitVecWriter) -> (res: Result<(), RpuError>)
        ensures
            res is Err <==> self.error() is Some,
            res is Err ==> res->Err_0 == self.error()->0 && writer_bits(*final(w)) == writer_bits(
                *old(w),
            ),
            res is Ok ==> writer_bits(*final(w)) == writer_bits(*old(w)) + self.encode(),
    {
        match self {
            ExtMetadataBlock::Level1(b) => b.write(w),
            ExtMetadataBlock::Level2(b) => b.write(w),
            ExtMetadataBlock::Level3(b) => b.write(w),
            ExtMetadataBlock::Level4(b) => b.write(w),
            ExtMetadataBlock::Level5(b) => b.write(w),
            ExtMetadataBlock::Level6(b) => b.write(w),
            ExtMetadataBlock::Level8(b) => b.write(w),
            ExtMetadataBlock::Level9(b) => b.write(w),
            ExtMetadataBlock::Level10(b) => b.write(w),
            ExtMetadataBlock::Level11(b) => b.write(w),
            ExtMetadataBlock::Level254(b) => b.write(w),
            ExtMetadataBlock::Reserved(b) => {
                write_bytes(w, &b.data);
                Ok(())
            },
        }
    }
}

/// Length agreement: a block that can be written declares one of its level's legal
/// byte sizes, and its payload bits fit in that many bytes.
pub proof fn lemma_length_agreement(b: ExtMetadataBlock)
    requires
        b.wf(),
        b.error() is None,
    ensures
        b.spec_possible_length_bytes().contains(b.spec_length_bytes() as u64),
        8 * b.spec_length_bytes() >= b.spec_required_bits(),
        b.spec_length_bytes() <= MAX_RESERVED_BYTES,
{
    let s = b.spec_possible_length_bytes();
    let n = b.spec_length_bytes() as u64;
    match b {
        ExtMetadataBlock::Level8(l) => {
            if l.target_mid_contrast is None {
                assert(s[0] == n);
            } else if l.clip_trim is None {
                assert(s[1] == n);
            } else if l.saturation_vector is None {
                assert(s[2] == n);
            } else if l.hue_vector is None {
                assert(s[3] == n);
            } else {
                assert(s[4] == n);
            }
        },
        ExtMetadataBlock::Level9(l) => {
            if l.source_primaries is None {
                assert(s[0] == n);
            } else {
                assert(s[1] == n);
            }
        },
        ExtMetadataBlock::Level10(l) => {
            if l.target_primaries is None {
                assert(s[0] == n);
            } else {
                assert(s[1] == n);
            }
        },
        _ => {
            assert(s[0] == n);
        },
    }
}

fn level_byte_sizes_vec(level: u8) -> (v: Vec<u64>)
    ensures
        v@ == level_byte_sizes(level),
{
    let v = if level == 1 || level == 3 {
        vec![5]
    } else if level == 2 {
        vec![11]
    } else if level == 4 {
        vec![3]
    } else if level == 5 {
        vec![7]
    } else if level == 6 {
        vec![8]
    } else if level == 8 {
        vec![10, 12, 13, 19, 25]
    } else if level == 9 {
        vec![1, 17]
    } else if level == 10 {
        vec![5, 21]
    } else if level == 11 {
        vec![4]
    } else if level == 254 {
        vec![2]
    } else {
        Vec::new()
    };
    assert(v@ =~= level_byte_sizes(level));
    v
}

fn level_required_bits_vec(level: u8) -> (v: Vec<u64>)
    ensures
        v@ == level_required_bits(level),
{
    let v = if level == 1 || level == 3 {
        vec![36]
    } else if level == 2 {
        vec![85]
    } else if level == 4 {
        vec![24]
    } else if level == 5 {
        vec![52]
    } else if level == 6 {
        vec![64]
    } else if level == 8 {
        vec![80, 92, 104, 152, 200]
    } else if level == 9 {
        vec![8, 136]
    } else if level == 10 {
        vec![40, 168]
    } else if level == 11 {
        vec![32]
    } else if level == 254 {
        vec![16]
    } else {
        Vec::new()
    };
    assert(v@ =~= level_required_bits(level));
    v
}

proof fn lemma_possible_sizes_small(b: &ExtMetadataBlock)
    requires
        b.wf(),
    ensures
        forall|i: int|
            0 <= i < b.spec_possible_length_bytes().len() ==> #[trigger] b.spec_possible_length_bytes()[i]
                <= MAX_RESERVED_BYTES,
{
}

/// Writes bytes, each most significant bit first.
fn write_bytes(w: &mut BitVecWriter, data: &Vec<u8>)
    ensures
        writer_bits(*final(w)) == writer_bits(*old(w)) + bytes_to_bits(data@),
{
    let mut i: usize = 0;
    while i < data.len()
        invariant
            i <= data.len(),
            writer_bits(*w) == writer_bits(*old(w)) + bytes_to_bits(data@.subrange(0, i as int)),
        decreases data.len() - i,
    {
        let ghost before = writer_bits(*w);
        write_bits(w, data[i] as u64, 8);
        proof {
            let t = data@.subrange(0, i + 1);
            assert(t.drop_last() =~= data@.subrange(0, i as int));
            assert(t.last() == data@[i as int]);
        }
        assert(writer_bits(*w) =~= writer_bits(*old(w)) + bytes_to_bits(
            data@.subrange(0, i + 1),
        ));
        i = i + 1;
    }
    assert(data@.subrange(0, data.len() as int) =~= data@);
}

/// What every block level tells of itself: its level code, its sizes and its sort key.
pub trait ExtMetadataBlockInfo {
    spec fn info_level(&self) -> u8;

    spec fn info_bytes_size(&self) -> nat;

    spec fn info_required_bits(&self) -> nat;

    spec fn info_possible_bytes_size(&self) -> Seq<u64>;

    spec fn info_possible_required_bits(&self) -> Seq<u64>;

    spec fn info_sort_key(&self) -> (u8, u16);

    fn level(&self) -> (l: u8)
        ensures
            l == self.info_level(),
    ;

    /// The bytes that the block takes, padding included.
    fn bytes_size(&self) -> (n: u64)
        ensures
            n == self.info_bytes_size(),
    ;

    /// The payload bits of the block as its fields stand.
    fn required_bits(&self) -> (n: u64)
        ensures
            n == self.info_required_bits(),
    ;

    /// The legal byte sizes of the level.
    fn possible_bytes_size(&self) -> (v: Vec<u64>)
        ensures
            v@ == self.info_possible_bytes_size(),
    ;

    /// The payload bits of each legal byte size, in the same order.
    fn possible_required_bits(&self) -> (v: Vec<u64>)
        ensures
            v@ == self.info_possible_required_bits(),
    ;

    fn sort_key(&self) -> (k: (u8, u16))
        ensures
            k == self.info_sort_key(),
    ;
}

impl ExtMetadataBlockInfo for ExtMetadataBlockLevel1 {
    open spec fn info_level(&self) -> u8 {
        1
    }

    open spec fn info_bytes_size(&self) -> nat {
        5
    }

    open spec fn info_required_bits(&self) -> nat {
        36
    }

    open spec fn info_possible_bytes_size(&self) -> Seq<u64> {
        level_byte_sizes(1)
    }

    open spec fn info_possible_required_bits(&self) -> Seq<u64> {
        level_required_bits(1)
    }

    open spec fn info_sort_key(&self) -> (u8, u16) {
        (1u8, 0u16)
    }

    fn level(&self) -> (l: u8) {
        1
    }

    fn bytes_size(&self) -> (n: u64) {
        5
    }

    fn required_bits(&self) -> (n: u64) {
        36
    }

    fn possible_bytes_size(&self) -> (v: Vec<u64>) {
        level_byte_sizes_vec(1)
    }

    fn possible_required_bits(&self) -> (v: Vec<u64>) {
        level_required_bits_vec(1)
    }

    fn sort_key(&self) -> (k: (u8, u16)) {
        (1, 0)
    }
}

impl ExtMetadataBlockInfo for ExtMetadataBlockLevel2 {
    open spec fn info_level(&self) -> u8 {
        2
    }

    open spec fn info_bytes_size(&self) -> nat {
        11
    }

    open spec fn info_required_bits(&self) -> nat {
        85
    }

    open spec fn info_possible_bytes_size(&self) -> Seq<u64> {
        level_byte_sizes(2)
    }

    open spec fn info_possible_required_bits(&self) -> Seq<u64> {
        level_required_bits(2)
    }

    open spec fn info_sort_key(&self) -> (u8, u16) {
        (2u8, self.target_max_pq as u16)
    }

    fn level(&self) -> (l: u8) {
        2
    }

    fn bytes_size(&self) -> (n: u64) {
        11
    }

    fn required_bits(&self) -> (n: u64) {
        85
    }

    fn possible_bytes_size(&self) -> (v: Vec<u64>) {
        level_byte_sizes_vec(2)
    }

    fn possible_required_bits(&self) -> (v: Vec<u64>) {
        level_required_bits_vec(2)
    }

    fn sort_key(&self) -> (k: (u8, u16)) {
        (2, self.target_max_pq)
    }
}

impl ExtMetadataBlockInfo for ExtMetadataBlockLevel3 {
    open spec fn info_level(&self) -> u8 {
        3
    }

    open spec fn info_bytes_size(&self) -> nat {
        5
    }

    open spec fn info_required_bits(&self) -> nat {
        36
    }

    open spec fn info_possible_bytes_size(&self) -> Seq<u64> {
        level_byte_sizes(3)
    }

    open spec fn info_possible_required_bits(&self) -> Seq<u64> {
        level_required_bits(3)
    }

    open spec fn info_sort_key(&self) -> (u8, u16) {
        (3u8, 0u16)
    }

    fn level(&self) -> (l: u8) {
        3
    }

    fn bytes_size(&self) -> (n: u64) {
        5
    }

    fn required_bits(&self) -> (n: u64) {
        36
    }

    fn possible_bytes_size(&self) -> (v: Vec<u64>) {
        level_byte_sizes_vec(3)
    }

    fn possible_required_bits(&self) -> (v: Vec<u64>) {
        level_required_bits_vec(3)
    }

    fn sort_key(&self) -> (k: (u8, u16)) {
        (3, 0)
    }
}

impl ExtMetadataBlockInfo for ExtMetadataBlockLevel4 {
    open spec fn info_level(&self) -> u8 {
        4
    }

    open spec fn info_bytes_size(&self) -> nat {
        3
    }

    open spec fn info_required_bits(&self) -> nat {
        24
    }

    open spec fn info_possible_bytes_size(&self) -> Seq<u64> {
        level_byte_sizes(4)
    }

    open spec fn info_possible_required_bits(&self) -> Seq<u64> {
        level_required_bits(4)
    }

    open spec fn info_sort_key(&self) -> (u8, u16) {
        (4u8, 0u16)
    }

    fn level(&self) -> (l: u8) {
        4
    }

    fn bytes_size(&self) -> (n: u64) {
        3
    }

    fn required_bits(&self) -> (n: u64) {
        24
    }

    fn possible_bytes_size(&self) -> (v: Vec<u64>) {
        level_byte_sizes_vec(4)
    }

    fn possible_required_bits(&self) -> (v: Vec<u64>) {
        level_required_bits_vec(4)
    }

    fn sort_key(&self) -> (k: (u8, u16)) {
        (4, 0)
    }
}

impl ExtMetadataBlockInfo for ExtMetadataBlockLevel5 {
    open spec fn info_level(&self) -> u8 {
        5
    }

    open spec fn info_bytes_size(&self) -> nat {
        7
    }

    open spec fn info_required_bits(&self) -> nat {
        52
    }

    open spec fn info_possible_bytes_size(&self) -> Seq<u64> {
        level_byte_sizes(5)
    }

    open spec fn info_possible_required_bits(&self) -> Seq<u64> {
        level_required_bits(5)
    }

    open spec fn info_sort_key(&self) -> (u8, u16) {
        (5u8, 0u16)
    }

    fn level(&self) -> (l: u8) {
        5
    }

    fn bytes_size(&self) -> (n: u64) {
        7
    }

    fn required_bits(&self) -> (n: u64) {
        52
    }

    fn possible_bytes_size(&self) -> (v: Vec<u64>) {
        level_byte_sizes_vec(5)
    }

    fn possible_required_bits(&self) -> (v: Vec<u64>) {
        level_required_bits_vec(5)
    }

    fn sort_key(&self) -> (k: (u8, u16)) {
        (5, 0)
    }
}

impl ExtMetadataBlockInfo for ExtMetadataBlockLevel6 {
    open spec fn info_level(&self) -> u8 {
        6
    }

    open spec fn info_bytes_size(&self) -> nat {
        8
    }

    open spec fn info_required_bits(&self) -> nat {
        64
    }

    open spec fn info_possible_bytes_size(&self) -> Seq<u64> {
        level_byte_sizes(6)
    }

    open spec fn info_possible_required_bits(&self) -> Seq<u64> {
        level_required_bits(6)
    }

    open spec fn info_sort_key(&self) -> (u8, u16) {
        (6u8, 0u16)
    }

    fn level(&self) -> (l: u8) {
        6
    }

    fn bytes_size(&self) -> (n: u64) {
        8
    }

    fn required_bits(&self) -> (n: u64) {
        64
    }

    fn possible_bytes_size(&self) -> (v: Vec<u64>) {
        level_byte_sizes_vec(6)
    }

    fn possible_required_bits(&self) -> (v: Vec<u64>) {
        level_required_bits_vec(6)
    }

    fn sort_key(&self) -> (k: (u8, u16)) {
        (6, 0)
    }
}

impl ExtMetadataBlockInfo for ExtMetadataBlockLevel11 {
    open spec fn info_level(&self) -> u8 {
        11
    }

    open spec fn info_bytes_size(&self) -> nat {
        4
    }

    open spec fn info_required_bits(&self) -> nat {
        32
    }

    open spec fn info_possible_bytes_size(&self) -> Seq<u64> {
        level_byte_sizes(11)
    }

    open spec fn info_possible_required_bits(&self) -> Seq<u64> {
        level_required_bits(11)
    }

    open spec fn info_sort_key(&self) -> (u8, u16) {
        (11u8, 0u16)
    }

    fn level(&self) -> (l: u8) {
        11
    }

    fn bytes_size(&self) -> (n: u64) {
        4
    }

    fn required_bits(&self) -> (n: u64) {
        32
    }

    fn possible_bytes_size(&self) -> (v: Vec<u64>) {
        level_byte_sizes_vec(11)
    }

    fn possible_required_bits(&self) -> (v: Vec<u64>) {
        level_required_bits_vec(11)
    }

    fn sort_key(&self) -> (k: (u8, u16)) {
        (11, 0)
    }
}

impl ExtMetadataBlockInfo for ExtMetadataBlockLevel254 {
    open spec fn info_level(&self) -> u8 {
        254
    }

    open spec fn info_bytes_size(&self) -> nat {
        2
    }

    open spec fn info_required_bits(&self) -> nat {
        16
    }

    open spec fn info_possible_bytes_size(&self) -> Seq<u64> {
        level_byte_sizes(254)
    }

    open spec fn info_possible_required_bits(&self) -> Seq<u64> {
        level_required_bits(254)
    }

    open spec fn info_sort_key(&self) -> (u8, u16) {
        (254u8, 0u16)
    }

    fn level(&self) -> (l: u8) {
        254
    }

    fn bytes_size(&self) -> (n: u64) {
        2
    }

    fn required_bits(&self) -> (n: u64) {
        16
    }

    fn possible_bytes_size(&self) -> (v: Vec<u64>) {
        level_byte_sizes_vec(254)
    }

    fn possible_required_bits(&self) -> (v: Vec<u64>) {
        level_required_bits_vec(254)
    }

    fn sort_key(&self) -> (k: (u8, u16)) {
        (254, 0)
    }
}

impl ExtMetadataBlockInfo for ExtMetadataBlockLevel8 {
    open spec fn info_level(&self) -> u8 {
        8
    }

    open spec fn info_bytes_size(&self) -> nat {
        self.spec_bytes_size()
    }

    open spec fn info_required_bits(&self) -> nat {
        self.spec_required_bits()
    }

    open spec fn info_possible_bytes_size(&self) -> Seq<u64> {
        level_byte_sizes(8)
    }

    open spec fn info_possible_required_bits(&self) -> Seq<u64> {
        level_required_bits(8)
    }

    open spec fn info_sort_key(&self) -> (u8, u16) {
        (8u8, self.target_display_index as u16)
    }

    fn level(&self) -> (l: u8) {
        8
    }

    fn bytes_size(&self) -> (n: u64) {
        let mut n: u64 = 10;
        if self.target_mid_contrast.is_some() {
            n = n + 2;
        }
        if self.clip_trim.is_some() {
            n = n + 1;
        }
        if self.saturation_vector.is_some() {
            n = n + 6;
        }
        if self.hue_vector.is_some() {
            n = n + 6;
        }
        n
    }

    fn required_bits(&self) -> (n: u64) {
        let mut n: u64 = 80;
        if self.target_mid_contrast.is_some() {
            n = n + 12;
        }
        if self.clip_trim.is_some() {
            n = n + 12;
        }
        if self.saturation_vector.is_some() {
            n = n + 48;
        }
        if self.hue_vector.is_some() {
            n = n + 48;
        }
        n
    }

    fn possible_bytes_size(&self) -> (v: Vec<u64>) {
        level_byte_sizes_vec(8)
    }

    fn possible_required_bits(&self) -> (v: Vec<u64>) {
        level_required_bits_vec(8)
    }

    fn sort_key(&self) -> (k: (u8, u16)) {
        (8, self.target_display_index as u16)
    }
}

impl ExtMetadataBlockInfo for ExtMetadataBlockLevel9 {
    open spec fn info_level(&self) -> u8 {
        9
    }

    open spec fn info_bytes_size(&self) -> nat {
        self.spec_bytes_size()
    }

    open spec fn info_required_bits(&self) -> nat {
        self.spec_required_bits()
    }

    open spec fn info_possible_bytes_size(&self) -> Seq<u64> {
        level_byte_sizes(9)
    }

    open spec fn info_possible_required_bits(&self) -> Seq<u64> {
        level_required_bits(9)
    }

    open spec fn info_sort_key(&self) -> (u8, u16) {
        (9u8, 0u16)
    }

    fn level(&self) -> (l: u8) {
        9
    }

    fn bytes_size(&self) -> (n: u64) {
        if self.source_primaries.is_some() {
            17
        } else {
            1
        }
    }

    fn required_bits(&self) -> (n: u64) {
        if self.source_primaries.is_some() {
            136
        } else {
            8
        }
    }

    fn possible_bytes_size(&self) -> (v: Vec<u64>) {
        level_byte_sizes_vec(9)
    }

    fn possible_required_bits(&self) -> (v: Vec<u64>) {
        level_required_bits_vec(9)
    }

    fn sort_key(&self) -> (k: (u8, u16)) {
        (9, 0)
    }
}

impl ExtMetadataBlockInfo for ExtMetadataBlockLevel10 {
    open spec fn info_level(&self) -> u8 {
        10
    }

    open spec fn info_bytes_size(&self) -> nat {
        self.spec_bytes_size()
    }

    open spec fn info_required_bits(&self) -> nat {
        self.spec_required_bits()
    }

    open spec fn info_possible_bytes_size(&self) -> Seq<u64> {
        level_byte_sizes(10)
    }

    open spec fn info_possible_required_bits(&self) -> Seq<u64> {
        level_required_bits(10)
    }

    open spec fn info_sort_key(&self) -> (u8, u16) {
        (10u8, self.target_display_index as u16)
    }

    fn level(&self) -> (l: u8) {
        10
    }

    fn bytes_size(&self) -> (n: u64) {
        if self.target_primaries.is_some() {
            21
        } else {
            5
        }
    }

    fn required_bits(&self) -> (n: u64) {
        if self.target_primaries.is_some() {
            168
        } else {
            40
        }
    }

    fn possible_bytes_size(&self) -> (v: Vec<u64>) {
        level_byte_sizes_vec(10)
    }

    fn possible_required_bits(&self) -> (v: Vec<u64>) {
        level_required_bits_vec(10)
    }

    fn sort_key(&self) -> (k: (u8, u16)) {
        (10, self.target_display_index as u16)
    }
}

} // verus!
