//! The fixed-size extension metadata blocks: levels 1 to 6, 11 and 254, and the
//! reserved block that carries an unknown level as raw bytes.
use vstd::prelude::*;
use bitvec_helpers::bitvec_reader::BitVecReader;
use bitvec_helpers::bitvec_writer::BitVecWriter;

use crate::bits::{
    advanced_by, bits_be, lemma_bits_be_len, lemma_pow2_small, read_field, reader_bits, reader_ok, reader_pos, remaining, write_bits,
    writer_bits,
};
use crate::blocks::ExtMetadataBlock;
use crate::error::RpuError;

verus! {

/// The largest value of a 12-bit field.
pub const MAX_12_BIT_VALUE: u16 = 4095;

/// The largest luminance, in nits, of a mastering display.
pub const MAX_PQ_LUMINANCE: u16 = 10000;

/// The 13-bit two's complement code of a signed weight.
pub open spec fn ms_code(v: i16) -> nat {
    if v < 0 {
        (v + 8192) as nat
    } else {
        v as nat
    }
}

/// Six 8-bit values, the first first.
pub open spec fn vector_bits(a: [u8; 6]) -> Seq<bool> {
    bits_be(a[0] as nat, 8) + bits_be(a[1] as nat, 8) + bits_be(a[2] as nat, 8) + bits_be(
        a[3] as nat,
        8,
    ) + bits_be(a[4] as nat, 8) + bits_be(a[5] as nat, 8)
}

/// Eight 16-bit chromaticity coordinates: red, green, blue and white, x before y.
pub open spec fn primaries_bits(a: [u16; 8]) -> Seq<bool> {
    bits_be(a[0] as nat, 16) + bits_be(a[1] as nat, 16) + bits_be(a[2] as nat, 16) + bits_be(
        a[3] as nat,
        16,
    ) + bits_be(a[4] as nat, 16) + bits_be(a[5] as nat, 16) + bits_be(a[6] as nat, 16)
        + bits_be(a[7] as nat, 16)
}

pub fn read_vector(r: &mut BitVecReader) -> (a: [u8; 6])
    requires
        reader_ok(*old(r)),
        remaining(*old(r)).len() >= 48,
    ensures
        advanced_by(*old(r), *final(r), vector_bits(a)),
        vector_bits(a).len() == 48,
{
    proof {
        lemma_pow2_small();
    }
    let ghost p = reader_pos(*r) as int;
    let a0 = read_field(r, 8) as u8;
    let a1 = read_field(r, 8) as u8;
    let a2 = read_field(r, 8) as u8;
    let a3 = read_field(r, 8) as u8;
    let a4 = read_field(r, 8) as u8;
    let a5 = read_field(r, 8) as u8;
    let a = [a0, a1, a2, a3, a4, a5];
    proof {
        lemma_bits_be_len(a0 as nat, 8);
        lemma_bits_be_len(a1 as nat, 8);
        lemma_bits_be_len(a2 as nat, 8);
        lemma_bits_be_len(a3 as nat, 8);
        lemma_bits_be_len(a4 as nat, 8);
        lemma_bits_be_len(a5 as nat, 8);
    }
    assert(reader_bits(*r).subrange(p, reader_pos(*r) as int) =~= vector_bits(a));
    a
}

pub fn write_vector(w: &mut BitVecWriter, a: &[u8; 6])
    ensures
        writer_bits(*final(w)) == writer_bits(*old(w)) + vector_bits(*a),
{
    write_bits(w, a[0] as u64, 8);
    write_bits(w, a[1] as u64, 8);
    write_bits(w, a[2] as u64, 8);
    write_bits(w, a[3] as u64, 8);
    write_bits(w, a[4] as u64, 8);
    write_bits(w, a[5] as u64, 8);
    assert(writer_bits(*w) =~= writer_bits(*old(w)) + vector_bits(*a));
}

pub fn read_primaries(r: &mut BitVecReader) -> (a: [u16; 8])
    requires
        reader_ok(*old(r)),
        remaining(*old(r)).len() >= 128,
    ensures
        advanced_by(*old(r), *final(r), primaries_bits(a)),
        primaries_bits(a).len() == 128,
{
    proof {
        lemma_pow2_small();
    }
    let ghost p = reader_pos(*r) as int;
    let a0 = read_field(r, 16) as u16;
    let a1 = read_field(r, 16) as u16;
    let a2 = read_field(r, 16) as u16;
    let a3 = read_field(r, 16) as u16;
    let a4 = read_field(r, 16) as u16;
    let a5 = read_field(r, 16) as u16;
    let a6 = read_field(r, 16) as u16;
    let a7 = read_field(r, 16) as u16;
    let a = [a0, a1, a2, a3, a4, a5, a6, a7];
    proof {
        lemma_bits_be_len(a0 as nat, 16);
        lemma_bits_be_len(a1 as nat, 16);
        lemma_bits_be_len(a2 as nat, 16);
        lemma_bits_be_len(a3 as nat, 16);
        lemma_bits_be_len(a4 as nat, 16);
        lemma_bits_be_len(a5 as nat, 16);
        lemma_bits_be_len(a6 as nat, 16);
        lemma_bits_be_len(a7 as nat, 16);
    }
    assert(reader_bits(*r).subrange(p, reader_pos(*r) as int) =~= primaries_bits(a));
    a
}

pub fn write_primaries(w: &mut BitVecWriter, a: &[u16; 8])
    ensures
        writer_bits(*final(w)) == writer_bits(*old(w)) + primaries_bits(*a),
{
    write_bits(w, a[0] as u64, 16);
    write_bits(w, a[1] as u64, 16);
    write_bits(w, a[2] as u64, 16);
    write_bits(w, a[3] as u64, 16);
    write_bits(w, a[4] as u64, 16);
    write_bits(w, a[5] as u64, 16);
    write_bits(w, a[6] as u64, 16);
    write_bits(w, a[7] as u64, 16);
    assert(writer_bits(*w) =~= writer_bits(*old(w)) + primaries_bits(*a));
}

/// Per-shot luminance statistics, 12-bit PQ codewords.
#[derive(Debug, Clone, Copy, PartialEq, Eq, Structural, Default)]
pub struct ExtMetadataBlockLevel1 {
    pub min_pq: u16,
    pub max_pq: u16,
    pub avg_pq: u16,
}

impl ExtMetadataBlockLevel1 {
    /// Every field fits in its bit width.
    pub open spec fn fits(self) -> bool {
        self.min_pq < 4096
            && self.max_pq < 4096
            && self.avg_pq < 4096
    }

    /// The 36 payload bits, in the order of the wire.
    pub open spec fn encode(self) -> Seq<bool> {
        bits_be(self.min_pq as nat, 12)
            + bits_be(self.max_pq as nat, 12)
            + bits_be(self.avg_pq as nat, 12)
    }

    pub open spec fn error(self) -> Option<RpuError> {
        if self.min_pq > 4095
            || self.max_pq > 4095
            || self.avg_pq > 4095 {
            Some(RpuError::FieldOutOfRange)
        } else {
            None
        }
    }

    pub fn from_stats(min_pq: u16, max_pq: u16, avg_pq: u16) -> (b: Self)
        ensures
            b == (Self { min_pq, max_pq, avg_pq }),
    {
        Self { min_pq, max_pq, avg_pq }
    }

    pub fn validate(&self) -> (res: Result<(), RpuError>)
        ensures
            res is Err <==> self.error() is Some,
            res is Err ==> res->Err_0 == self.error()->0,
    {
        if self.min_pq > MAX_12_BIT_VALUE
            || self.max_pq > MAX_12_BIT_VALUE
            || self.avg_pq > MAX_12_BIT_VALUE {
            return Err(RpuError::FieldOutOfRange);
        }
        Ok(())
    }

    pub fn parse(r: &mut BitVecReader) -> (b: ExtMetadataBlock)
        requires
            reader_ok(*old(r)),
            remaining(*old(r)).len() >= 36,
        ensures
            b is Level1,
            b->Level1_0.fits(),
            advanced_by(*old(r), *final(r), b.encode()),
            b.encode().len() == 36,
    {
        proof {
            lemma_pow2_small();
        }
        let ghost p = reader_pos(*r) as int;
        let min_pq = read_field(r, 12) as u16;
        let max_pq = read_field(r, 12) as u16;
        let avg_pq = read_field(r, 12) as u16;
        let b = Self { min_pq, max_pq, avg_pq };
        proof {
            lemma_bits_be_len(min_pq as nat, 12);
            lemma_bits_be_len(max_pq as nat, 12);
            lemma_bits_be_len(avg_pq as nat, 12);
        }
        assert(reader_bits(*r).subrange(p, reader_pos(*r) as int) =~= b.encode());
        ExtMetadataBlock::Level1(b)
    }

    /// Validates the block, then writes its payload bits.
    pub fn write(&self, w: &mut BitVecWriter) -> (res: Result<(), RpuError>)
        ensures
            res is Err <==> self.error() is Some,
            res is Err ==> res->Err_0 == self.error()->0 && writer_bits(*final(w)) == writer_bits(
                *old(w),
            ),
            res is Ok ==> writer_bits(*final(w)) == writer_bits(*old(w)) + self.encode(),
    {
        self.validate()?;
        write_bits(w, self.min_pq as u64, 12);
        write_bits(w, self.max_pq as u64, 12);
        write_bits(w, self.avg_pq as u64, 12);
        assert(writer_bits(*w) =~= writer_bits(*old(w)) + self.encode());
        Ok(())
    }
}

/// A trim pass for one target display, identified by its peak PQ.
#[derive(Debug, Clone, Copy, PartialEq, Eq, Structural, Default)]
pub struct ExtMetadataBlockLevel2 {
    pub target_max_pq: u16,
    pub trim_slope: u16,
    pub trim_offset: u16,
    pub trim_power: u16,
    pub trim_chroma_weight: u16,
    pub trim_saturation_gain: u16,
    pub ms_weight: i16,
}

impl ExtMetadataBlockLevel2 {
    /// Every field fits in its bit width.
    pub open spec fn fits(self) -> bool {
        self.target_max_pq < 4096
            && self.trim_slope < 4096
            && self.trim_offset < 4096
            && self.trim_power < 4096
            && self.trim_chroma_weight < 4096
            && self.trim_saturation_gain < 4096
            && -4096 <= self.ms_weight <= 4095
    }

    /// The 85 payload bits, in the order of the wire.
    pub open spec fn encode(self) -> Seq<bool> {
        bits_be(self.target_max_pq as nat, 12)
            + bits_be(self.trim_slope as nat, 12)
            + bits_be(self.trim_offset as nat, 12)
            + bits_be(self.trim_power as nat, 12)
            + bits_be(self.trim_chroma_weight as nat, 12)
            + bits_be(self.trim_saturation_gain as nat, 12)
            + bits_be(ms_code(self.ms_weight), 13)
    }

    pub open spec fn error(self) -> Option<RpuError> {
        if self.target_max_pq > 4095
            || self.trim_slope > 4095
            || self.trim_offset > 4095
            || self.trim_power > 4095
            || self.trim_chroma_weight > 4095
            || self.trim_saturation_gain > 4095
            || self.ms_weight < -4096 || self.ms_weight > 4095 {
            Some(RpuError::FieldOutOfRange)
        } else {
            None
        }
    }

    /// A neutral trim pass for the target display of peak `target_max_pq`.
    pub fn from_pq(target_max_pq: u16) -> (b: Self)
        ensures
            b == (Self {
                target_max_pq,
                trim_slope: 2048,
                trim_offset: 2048,
                trim_power: 2048,
                trim_chroma_weight: 2048,
                trim_saturation_gain: 2048,
                ms_weight: 2048,
            }),
    {
        Self {
            target_max_pq,
            trim_slope: 2048,
            trim_offset: 2048,
            trim_power: 2048,
            trim_chroma_weight: 2048,
            trim_saturation_gain: 2048,
            ms_weight: 2048,
        }
    }

    pub fn validate(&self) -> (res: Result<(), RpuError>)
        ensures
            res is Err <==> self.error() is Some,
            res is Err ==> res->Err_0 == self.error()->0,
    {
        if self.target_max_pq > MAX_12_BIT_VALUE
            || self.trim_slope > MAX_12_BIT_VALUE
            || self.trim_offset > MAX_12_BIT_VALUE
            || self.trim_power > MAX_12_BIT_VALUE
            || self.trim_chroma_weight > MAX_12_BIT_VALUE
            || self.trim_saturation_gain > MAX_12_BIT_VALUE
            || self.ms_weight < -4096 || self.ms_weight > 4095 {
            return Err(RpuError::FieldOutOfRange);
        }
        Ok(())
    }

    pub fn parse(r: &mut BitVecReader) -> (b: ExtMetadataBlock)
        requires
            reader_ok(*old(r)),
            remaining(*old(r)).len() >= 85,
        ensures
            b is Level2,
            b->Level2_0.fits(),
            advanced_by(*old(r), *final(r), b.encode()),
            b.encode().len() == 85,
    {
        proof {
            lemma_pow2_small();
        }
        let ghost p = reader_pos(*r) as int;
        let target_max_pq = read_field(r, 12) as u16;
        let trim_slope = read_field(r, 12) as u16;
        let trim_offset = read_field(r, 12) as u16;
        let trim_power = read_field(r, 12) as u16;
        let trim_chroma_weight = read_field(r, 12) as u16;
        let trim_saturation_gain = read_field(r, 12) as u16;
        let x = read_field(r, 13);
        let ms_weight: i16 = if x < 4096 { x as i16 } else { (x as i32 - 8192) as i16 };
        let b = Self { target_max_pq, trim_slope, trim_offset, trim_power, trim_chroma_weight, trim_saturation_gain, ms_weight };
        proof {
            lemma_bits_be_len(target_max_pq as nat, 12);
            lemma_bits_be_len(trim_slope as nat, 12);
            lemma_bits_be_len(trim_offset as nat, 12);
            lemma_bits_be_len(trim_power as nat, 12);
            lemma_bits_be_len(trim_chroma_weight as nat, 12);
            lemma_bits_be_len(trim_saturation_gain as nat, 12);
            lemma_bits_be_len(ms_code(ms_weight), 13);
        }
        assert(reader_bits(*r).subrange(p, reader_pos(*r) as int) =~= b.encode());
        ExtMetadataBlock::Level2(b)
    }

    /// Validates the block, then writes its payload bits.
    pub fn write(&self, w: &mut BitVecWriter) -> (res: Result<(), RpuError>)
        ensures
            res is Err <==> self.error() is Some,
            res is Err ==> res->Err_0 == self.error()->0 && writer_bits(*final(w)) == writer_bits(
                *old(w),
            ),
            res is Ok ==> writer_bits(*final(w)) == writer_bits(*old(w)) + self.encode(),
    {
        self.validate()?;
        write_bits(w, self.target_max_pq as u64, 12);
        write_bits(w, self.trim_slope as u64, 12);
        write_bits(w, self.trim_offset as u64, 12);
        write_bits(w, self.trim_power as u64, 12);
        write_bits(w, self.trim_chroma_weight as u64, 12);
        write_bits(w, self.trim_saturation_gain as u64, 12);
        write_bits(w, if self.ms_weight < 0 { (self.ms_weight as i32 + 8192) as u64 } else { self.ms_weight as u64 }, 13);
        assert(writer_bits(*w) =~= writer_bits(*old(w)) + self.encode());
        Ok(())
    }
}

/// Offsets to the level 1 statistics, 12-bit each.
#[derive(Debug, Clone, Copy, PartialEq, Eq, Structural, Default)]
pub struct ExtMetadataBlockLevel3 {
    pub min_pq_offset: u16,
    pub max_pq_offset: u16,
    pub avg_pq_offset: u16,
}

impl ExtMetadataBlockLevel3 {
    /// Every field fits in its bit width.
    pub open spec fn fits(self) -> bool {
        self.min_pq_offset < 4096
            && self.max_pq_offset < 4096
            && self.avg_pq_offset < 4096
    }

    /// The 36 payload bits, in the order of the wire.
    pub open spec fn encode(self) -> Seq<bool> {
        bits_be(self.min_pq_offset as nat, 12)
            + bits_be(self.max_pq_offset as nat, 12)
            + bits_be(self.avg_pq_offset as nat, 12)
    }

    pub open spec fn error(self) -> Option<RpuError> {
        if self.min_pq_offset > 4095
            || self.max_pq_offset > 4095
            || self.avg_pq_offset > 4095 {
            Some(RpuError::FieldOutOfRange)
        } else {
            None
        }
    }

    pub fn validate(&self) -> (res: Result<(), RpuError>)
        ensures
            res is Err <==> self.error() is Some,
            res is Err ==> res->Err_0 == self.error()->0,
    {
        if self.min_pq_offset > MAX_12_BIT_VALUE
            || self.max_pq_offset > MAX_12_BIT_VALUE
            || self.avg_pq_offset > MAX_12_BIT_VALUE {
            return Err(RpuError::FieldOutOfRange);
        }
        Ok(())
    }

    pub fn parse(r: &mut BitVecReader) -> (b: ExtMetadataBlock)
        requires
            reader_ok(*old(r)),
            remaining(*old(r)).len() >= 36,
        ensures
            b is Level3,
            b->Level3_0.fits(),
            advanced_by(*old(r), *final(r), b.encode()),
            b.encode().len() == 36,
    {
        proof {
            lemma_pow2_small();
        }
        let ghost p = reader_pos(*r) as int;
        let min_pq_offset = read_field(r, 12) as u16;
        let max_pq_offset = read_field(r, 12) as u16;
        let avg_pq_offset = read_field(r, 12) as u16;
        let b = Self { min_pq_offset, max_pq_offset, avg_pq_offset };
        proof {
            lemma_bits_be_len(min_pq_offset as nat, 12);
            lemma_bits_be_len(max_pq_offset as nat, 12);
            lemma_bits_be_len(avg_pq_offset as nat, 12);
        }
        assert(reader_bits(*r).subrange(p, reader_pos(*r) as int) =~= b.encode());
        ExtMetadataBlock::Level3(b)
    }

    /// Validates the block, then writes its payload bits.
    pub fn write(&self, w: &mut BitVecWriter) -> (res: Result<(), RpuError>)
        ensures
            res is Err <==> self.error() is Some,
            res is Err ==> res->Err_0 == self.error()->0 && writer_bits(*final(w)) == writer_bits(
                *old(w),
            ),
            res is Ok ==> writer_bits(*final(w)) == writer_bits(*old(w)) + self.encode(),
    {
        self.validate()?;
        write_bits(w, self.min_pq_offset as u64, 12);
        write_bits(w, self.max_pq_offset as u64, 12);
        write_bits(w, self.avg_pq_offset as u64, 12);
        assert(writer_bits(*w) =~= writer_bits(*old(w)) + self.encode());
        Ok(())
    }
}

/// Anchor PQ and anchor power, 12-bit each.
#[derive(Debug, Clone, Copy, PartialEq, Eq, Structural, Default)]
pub struct ExtMetadataBlockLevel4 {
    pub anchor_pq: u16,
    pub anchor_power: u16,
}

impl ExtMetadataBlockLevel4 {
    /// Every field fits in its bit width.
    pub open spec fn fits(self) -> bool {
        self.anchor_pq < 4096
            && self.anchor_power < 4096
    }

    /// The 24 payload bits, in the order of the wire.
    pub open spec fn encode(self) -> Seq<bool> {
        bits_be(self.anchor_pq as nat, 12)
            + bits_be(self.anchor_power as nat, 12)
    }

    pub open spec fn error(self) -> Option<RpuError> {
        if self.anchor_pq > 4095
            || self.anchor_power > 4095 {
            Some(RpuError::FieldOutOfRange)
        } else {
            None
        }
    }

    pub fn validate(&self) -> (res: Result<(), RpuError>)
        ensures
            res is Err <==> self.error() is Some,
            res is Err ==> res->Err_0 == self.error()->0,
    {
        if self.anchor_pq > MAX_12_BIT_VALUE
            || self.anchor_power > MAX_12_BIT_VALUE {
            return Err(RpuError::FieldOutOfRange);
        }
        Ok(())
    }

    pub fn parse(r: &mut BitVecReader) -> (b: ExtMetadataBlock)
        requires
            reader_ok(*old(r)),
            remaining(*old(r)).len() >= 24,
        ensures
            b is Level4,
            b->Level4_0.fits(),
            advanced_by(*old(r), *final(r), b.encode()),
            b.encode().len() == 24,
    {
        proof {
            lemma_pow2_small();
        }
        let ghost p = reader_pos(*r) as int;
        let anchor_pq = read_field(r, 12) as u16;
        let anchor_power = read_field(r, 12) as u16;
        let b = Self { anchor_pq, anchor_power };
        proof {
            lemma_bits_be_len(anchor_pq as nat, 12);
            lemma_bits_be_len(anchor_power as nat, 12);
        }
        assert(reader_bits(*r).subrange(p, reader_pos(*r) as int) =~= b.encode());
        ExtMetadataBlock::Level4(b)
    }

    /// Validates the block, then writes its payload bits.
    pub fn write(&self, w: &mut BitVecWriter) -> (res: Result<(), RpuError>)
        ensures
            res is Err <==> self.error() is Some,
            res is Err ==> res->Err_0 == self.error()->0 && writer_bits(*final(w)) == writer_bits(
                *old(w),
            ),
            res is Ok ==> writer_bits(*final(w)) == writer_bits(*old(w)) + self.encode(),
    {
        self.validate()?;
        write_bits(w, self.anchor_pq as u64, 12);
        write_bits(w, self.anchor_power as u64, 12);
        assert(writer_bits(*w) =~= writer_bits(*old(w)) + self.encode());
        Ok(())
    }
}

/// Active area offsets, 13-bit each.
#[derive(Debug, Clone, Copy, PartialEq, Eq, Structural, Default)]
pub struct ExtMetadataBlockLevel5 {
    pub active_area_left_offset: u16,
    pub active_area_right_offset: u16,
    pub active_area_top_offset: u16,
    pub active_area_bottom_offset: u16,
}

impl ExtMetadataBlockLevel5 {
    /// Every field fits in its bit width.
    pub open spec fn fits(self) -> bool {
        self.active_area_left_offset < 8192
            && self.active_area_right_offset < 8192
            && self.active_area_top_offset < 8192
            && self.active_area_bottom_offset < 8192
    }

    /// The 52 payload bits, in the order of the wire.
    pub open spec fn encode(self) -> Seq<bool> {
        bits_be(self.active_area_left_offset as nat, 13)
            + bits_be(self.active_area_right_offset as nat, 13)
            + bits_be(self.active_area_top_offset as nat, 13)
            + bits_be(self.active_area_bottom_offset as nat, 13)
    }

    pub open spec fn error(self) -> Option<RpuError> {
        if self.active_area_left_offset > 8191
            || self.active_area_right_offset > 8191
            || self.active_area_top_offset > 8191
            || self.active_area_bottom_offset > 8191 {
            Some(RpuError::FieldOutOfRange)
        } else {
            None
        }
    }

    pub fn from_offsets(left: u16, right: u16, top: u16, bottom: u16) -> (b: Self)
        ensures
            b == (Self {
                active_area_left_offset: left,
                active_area_right_offset: right,
                active_area_top_offset: top,
                active_area_bottom_offset: bottom,
            }),
    {
        Self {
            active_area_left_offset: left,
            active_area_right_offset: right,
            active_area_top_offset: top,
            active_area_bottom_offset: bottom,
        }
    }

    /// The offsets as (left, right, top, bottom).
    pub fn get_offsets(&self) -> (o: (u16, u16, u16, u16))
        ensures
            o == (
                self.active_area_left_offset,
                self.active_area_right_offset,
                self.active_area_top_offset,
                self.active_area_bottom_offset,
            ),
    {
        (
            self.active_area_left_offset,
            self.active_area_right_offset,
            self.active_area_top_offset,
            self.active_area_bottom_offset,
        )
    }

    pub fn validate(&self) -> (res: Result<(), RpuError>)
        ensures
            res is Err <==> self.error() is Some,
            res is Err ==> res->Err_0 == self.error()->0,
    {
        if self.active_area_left_offset > 8191
            || self.active_area_right_offset > 8191
            || self.active_area_top_offset > 8191
            || self.active_area_bottom_offset > 8191 {
            return Err(RpuError::FieldOutOfRange);
        }
        Ok(())
    }

    pub fn parse(r: &mut BitVecReader) -> (b: ExtMetadataBlock)
        requires
            reader_ok(*old(r)),
            remaining(*old(r)).len() >= 52,
        ensures
            b is Level5,
            b->Level5_0.fits(),
            advanced_by(*old(r), *final(r), b.encode()),
            b.encode().len() == 52,
    {
        proof {
            lemma_pow2_small();
        }
        let ghost p = reader_pos(*r) as int;
        let active_area_left_offset = read_field(r, 13) as u16;
        let active_area_right_offset = read_field(r, 13) as u16;
        let active_area_top_offset = read_field(r, 13) as u16;
        let active_area_bottom_offset = read_field(r, 13) as u16;
        let b = Self { active_area_left_offset, active_area_right_offset, active_area_top_offset, active_area_bottom_offset };
        proof {
            lemma_bits_be_len(active_area_left_offset as nat, 13);
            lemma_bits_be_len(active_area_right_offset as nat, 13);
            lemma_bits_be_len(active_area_top_offset as nat, 13);
            lemma_bits_be_len(active_area_bottom_offset as nat, 13);
        }
        assert(reader_bits(*r).subrange(p, reader_pos(*r) as int) =~= b.encode());
        ExtMetadataBlock::Level5(b)
    }

    /// Validates the block, then writes its payload bits.
    pub fn write(&self, w: &mut BitVecWriter) -> (res: Result<(), RpuError>)
        ensures
            res is Err <==> self.error() is Some,
            res is Err ==> res->Err_0 == self.error()->0 && writer_bits(*final(w)) == writer_bits(
                *old(w),
            ),
            res is Ok ==> writer_bits(*final(w)) == writer_bits(*old(w)) + self.encode(),
    {
        self.validate()?;
        write_bits(w, self.active_area_left_offset as u64, 13);
        write_bits(w, self.active_area_right_offset as u64, 13);
        write_bits(w, self.active_area_top_offset as u64, 13);
        write_bits(w, self.active_area_bottom_offset as u64, 13);
        assert(writer_bits(*w) =~= writer_bits(*old(w)) + self.encode());
        Ok(())
    }
}

/// ST.2086 mastering display and content light levels, 16-bit each.
#[derive(Debug, Clone, Copy, PartialEq, Eq, Structural, Default)]
pub struct ExtMetadataBlockLevel6 {
    pub max_display_mastering_luminance: u16,
    pub min_display_mastering_luminance: u16,
    pub max_content_light_level: u16,
    pub max_frame_average_light_level: u16,
}

impl ExtMetadataBlockLevel6 {
    /// Every field fits in its bit width.
    pub open spec fn fits(self) -> bool {
        true
    }

    /// The 64 payload bits, in the order of the wire.
    pub open spec fn encode(self) -> Seq<bool> {
        bits_be(self.max_display_mastering_luminance as nat, 16)
            + bits_be(self.min_display_mastering_luminance as nat, 16)
            + bits_be(self.max_content_light_level as nat, 16)
            + bits_be(self.max_frame_average_light_level as nat, 16)
    }

    pub open spec fn error(self) -> Option<RpuError> {
        if self.max_display_mastering_luminance > 10000
            || self.min_display_mastering_luminance > 10000
            || self.max_content_light_level > 10000
            || self.max_frame_average_light_level > 10000 {
            Some(RpuError::FieldOutOfRange)
        } else {
            None
        }
    }

    pub fn validate(&self) -> (res: Result<(), RpuError>)
        ensures
            res is Err <==> self.error() is Some,
            res is Err ==> res->Err_0 == self.error()->0,
    {
        if self.max_display_mastering_luminance > MAX_PQ_LUMINANCE
            || self.min_display_mastering_luminance > MAX_PQ_LUMINANCE
            || self.max_content_light_level > MAX_PQ_LUMINANCE
            || self.max_frame_average_light_level > MAX_PQ_LUMINANCE {
            return Err(RpuError::FieldOutOfRange);
        }
        Ok(())
    }

    pub fn parse(r: &mut BitVecReader) -> (b: ExtMetadataBlock)
        requires
            reader_ok(*old(r)),
            remaining(*old(r)).len() >= 64,
        ensures
            b is Level6,
            b->Level6_0.fits(),
            advanced_by(*old(r), *final(r), b.encode()),
            b.encode().len() == 64,
    {
        proof {
            lemma_pow2_small();
        }
        let ghost p = reader_pos(*r) as int;
        let max_display_mastering_luminance = read_field(r, 16) as u16;
        let min_display_mastering_luminance = read_field(r, 16) as u16;
        let max_content_light_level = read_field(r, 16) as u16;
        let max_frame_average_light_level = read_field(r, 16) as u16;
        let b = Self { max_display_mastering_luminance, min_display_mastering_luminance, max_content_light_level, max_frame_average_light_level };
        proof {
            lemma_bits_be_len(max_display_mastering_luminance as nat, 16);
            lemma_bits_be_len(min_display_mastering_luminance as nat, 16);
            lemma_bits_be_len(max_content_light_level as nat, 16);
            lemma_bits_be_len(max_frame_average_light_level as nat, 16);
        }
        assert(reader_bits(*r).subrange(p, reader_pos(*r) as int) =~= b.encode());
        ExtMetadataBlock::Level6(b)
    }

    /// Validates the block, then writes its payload bits.
    pub fn write(&self, w: &mut BitVecWriter) -> (res: Result<(), RpuError>)
        ensures
            res is Err <==> self.error() is Some,
            res is Err ==> res->Err_0 == self.error()->0 && writer_bits(*final(w)) == writer_bits(
                *old(w),
            ),
            res is Ok ==> writer_bits(*final(w)) == writer_bits(*old(w)) + self.encode(),
    {
        self.validate()?;
        write_bits(w, self.max_display_mastering_luminance as u64, 16);
        write_bits(w, self.min_display_mastering_luminance as u64, 16);
        write_bits(w, self.max_content_light_level as u64, 16);
        write_bits(w, self.max_frame_average_light_level as u64, 16);
        assert(writer_bits(*w) =~= writer_bits(*old(w)) + self.encode());
        Ok(())
    }
}

/// Content type and the intended picture settings.
#[derive(Debug, Clone, Copy, PartialEq, Eq, Structural, Default)]
pub struct ExtMetadataBlockLevel11 {
    pub content_type: u8,
    pub whitepoint: u8,
    pub reference_mode_flag: bool,
    pub sharpness: u8,
    pub noise_reduction: u8,
    pub mpeg_noise_reduction: u8,
    pub frame_rate_conversion: u8,
    pub brightness: u8,
    pub color: u8,
}

impl ExtMetadataBlockLevel11 {
    /// Every field fits in its bit width.
    pub open spec fn fits(self) -> bool {
        self.whitepoint < 128
            && self.sharpness < 4
            && self.noise_reduction < 4
            && self.mpeg_noise_reduction < 4
            && self.frame_rate_conversion < 4
            && self.brightness < 16
            && self.color < 16
    }

    /// The 32 payload bits, in the order of the wire.
    pub open spec fn encode(self) -> Seq<bool> {
        bits_be(self.content_type as nat, 8)
            + bits_be(self.whitepoint as nat, 7)
            + bits_be((if self.reference_mode_flag { 1nat } else { 0nat }), 1)
            + bits_be(self.sharpness as nat, 2)
            + bits_be(self.noise_reduction as nat, 2)
            + bits_be(self.mpeg_noise_reduction as nat, 2)
            + bits_be(self.frame_rate_conversion as nat, 2)
            + bits_be(self.brightness as nat, 4)
            + bits_be(self.color as nat, 4)
    }

    pub open spec fn error(self) -> Option<RpuError> {
        if self.whitepoint > 127
            || self.sharpness > 3
            || self.noise_reduction > 3
            || self.mpeg_noise_reduction > 3
            || self.frame_rate_conversion > 3
            || self.brightness > 15
            || self.color > 15 {
            Some(RpuError::FieldOutOfRange)
        } else {
            None
        }
    }

    /// The settings of a reference cinema presentation.
    pub fn default_reference_cinema() -> (b: Self)
        ensures
            b == (Self {
                content_type: 1,
                whitepoint: 0,
                reference_mode_flag: true,
                sharpness: 0,
                noise_reduction: 0,
                mpeg_noise_reduction: 0,
                frame_rate_conversion: 0,
                brightness: 0,
                color: 0,
            }),
    {
        Self {
            content_type: 1,
            whitepoint: 0,
            reference_mode_flag: true,
            sharpness: 0,
            noise_reduction: 0,
            mpeg_noise_reduction: 0,
            frame_rate_conversion: 0,
            brightness: 0,
            color: 0,
        }
    }

    pub fn validate(&self) -> (res: Result<(), RpuError>)
        ensures
            res is Err <==> self.error() is Some,
            res is Err ==> res->Err_0 == self.error()->0,
    {
        if self.whitepoint > 127
            || self.sharpness > 3
            || self.noise_reduction > 3
            || self.mpeg_noise_reduction > 3
            || self.frame_rate_conversion > 3
            || self.brightness > 15
            || self.color > 15 {
            return Err(RpuError::FieldOutOfRange);
        }
        Ok(())
    }

    pub fn parse(r: &mut BitVecReader) -> (b: ExtMetadataBlock)
        requires
            reader_ok(*old(r)),
            remaining(*old(r)).len() >= 32,
        ensures
            b is Level11,
            b->Level11_0.fits(),
            advanced_by(*old(r), *final(r), b.encode()),
            b.encode().len() == 32,
    {
        proof {
            lemma_pow2_small();
        }
        let ghost p = reader_pos(*r) as int;
        let content_type = read_field(r, 8) as u8;
        let whitepoint = read_field(r, 7) as u8;
        let reference_mode_flag = read_field(r, 1) == 1;
        let sharpness = read_field(r, 2) as u8;
        let noise_reduction = read_field(r, 2) as u8;
        let mpeg_noise_reduction = read_field(r, 2) as u8;
        let frame_rate_conversion = read_field(r, 2) as u8;
        let brightness = read_field(r, 4) as u8;
        let color = read_field(r, 4) as u8;
        let b = Self { content_type, whitepoint, reference_mode_flag, sharpness, noise_reduction, mpeg_noise_reduction, frame_rate_conversion, brightness, color };
        proof {
            lemma_bits_be_len(content_type as nat, 8);
            lemma_bits_be_len(whitepoint as nat, 7);
            lemma_bits_be_len((if reference_mode_flag { 1nat } else { 0nat }), 1);
            lemma_bits_be_len(sharpness as nat, 2);
            lemma_bits_be_len(noise_reduction as nat, 2);
            lemma_bits_be_len(mpeg_noise_reduction as nat, 2);
            lemma_bits_be_len(frame_rate_conversion as nat, 2);
            lemma_bits_be_len(brightness as nat, 4);
            lemma_bits_be_len(color as nat, 4);
        }
        assert(reader_bits(*r).subrange(p, reader_pos(*r) as int) =~= b.encode());
        ExtMetadataBlock::Level11(b)
    }

    /// Validates the block, then writes its payload bits.
    pub fn write(&self, w: &mut BitVecWriter) -> (res: Result<(), RpuError>)
        ensures
            res is Err <==> self.error() is Some,
            res is Err ==> res->Err_0 == self.error()->0 && writer_bits(*final(w)) == writer_bits(
                *old(w),
            ),
            res is Ok ==> writer_bits(*final(w)) == writer_bits(*old(w)) + self.encode(),
    {
        self.validate()?;
        write_bits(w, self.content_type as u64, 8);
        write_bits(w, self.whitepoint as u64, 7);
        write_bits(w, if self.reference_mode_flag { 1 } else { 0 }, 1);
        write_bits(w, self.sharpness as u64, 2);
        write_bits(w, self.noise_reduction as u64, 2);
        write_bits(w, self.mpeg_noise_reduction as u64, 2);
        write_bits(w, self.frame_rate_conversion as u64, 2);
        write_bits(w, self.brightness as u64, 4);
        write_bits(w, self.color as u64, 4);
        assert(writer_bits(*w) =~= writer_bits(*old(w)) + self.encode());
        Ok(())
    }
}

/// The content mapping version marker.
#[derive(Debug, Clone, Copy, PartialEq, Eq, Structural, Default)]
pub struct ExtMetadataBlockLevel254 {
    pub dm_mode: u8,
    pub dm_version_index: u8,
}

impl ExtMetadataBlockLevel254 {
    /// Every field fits in its bit width.
    pub open spec fn fits(self) -> bool {
        true
    }

    /// The 16 payload bits, in the order of the wire.
    pub open spec fn encode(self) -> Seq<bool> {
        bits_be(self.dm_mode as nat, 8)
            + bits_be(self.dm_version_index as nat, 8)
    }

    pub open spec fn error(self) -> Option<RpuError> {
        None
    }

    /// The marker of content mapping v4.0.
    pub fn cmv402_default() -> (b: Self)
        ensures
            b == (Self { dm_mode: 0, dm_version_index: 2 }),
    {
        Self { dm_mode: 0, dm_version_index: 2 }
    }

    pub fn validate(&self) -> (res: Result<(), RpuError>)
        ensures
            res is Err <==> self.error() is Some,
            res is Err ==> res->Err_0 == self.error()->0,
    {
        Ok(())
    }

    pub fn parse(r: &mut BitVecReader) -> (b: ExtMetadataBlock)
        requires
            reader_ok(*old(r)),
            remaining(*old(r)).len() >= 16,
        ensures
            b is Level254,
            b->Level254_0.fits(),
            advanced_by(*old(r), *final(r), b.encode()),
            b.encode().len() == 16,
    {
        proof {
            lemma_pow2_small();
        }
        let ghost p = reader_pos(*r) as int;
        let dm_mode = read_field(r, 8) as u8;
        let dm_version_index = read_field(r, 8) as u8;
        let b = Self { dm_mode, dm_version_index };
        proof {
            lemma_bits_be_len(dm_mode as nat, 8);
            lemma_bits_be_len(dm_version_index as nat, 8);
        }
        assert(reader_bits(*r).subrange(p, reader_pos(*r) as int) =~= b.encode());
        ExtMetadataBlock::Level254(b)
    }

    /// Validates the block, then writes its payload bits.
    pub fn write(&self, w: &mut BitVecWriter) -> (res: Result<(), RpuError>)
        ensures
            res is Err <==> self.error() is Some,
            res is Err ==> res->Err_0 == self.error()->0 && writer_bits(*final(w)) == writer_bits(
                *old(w),
            ),
            res is Ok ==> writer_bits(*final(w)) == writer_bits(*old(w)) + self.encode(),
    {
        self.validate()?;
        write_bits(w, self.dm_mode as u64, 8);
        write_bits(w, self.dm_version_index as u64, 8);
        assert(writer_bits(*w) =~= writer_bits(*old(w)) + self.encode());
        Ok(())
    }
}

/// A level 1 block whose fields fit their widths is determined by its payload bits.
pub proof fn lemma_level1_determined(a: ExtMetadataBlockLevel1, b: ExtMetadataBlockLevel1)
    requires
        a.fits(),
        b.fits(),
        a.encode() == b.encode(),
    ensures
        a == b,
{
    broadcast use crate::bits::lemma_bits_be_len;

    lemma_pow2_small();
    assert(a.encode().subrange(0, 12) =~= bits_be(a.min_pq as nat, 12));
    assert(b.encode().subrange(0, 12) =~= bits_be(b.min_pq as nat, 12));
    crate::bits::lemma_be_value_small(a.min_pq as nat, 12);
    crate::bits::lemma_be_value_small(b.min_pq as nat, 12);
    assert(a.encode().subrange(12, 24) =~= bits_be(a.max_pq as nat, 12));
    assert(b.encode().subrange(12, 24) =~= bits_be(b.max_pq as nat, 12));
    crate::bits::lemma_be_value_small(a.max_pq as nat, 12);
    crate::bits::lemma_be_value_small(b.max_pq as nat, 12);
    assert(a.encode().subrange(24, 36) =~= bits_be(a.avg_pq as nat, 12));
    assert(b.encode().subrange(24, 36) =~= bits_be(b.avg_pq as nat, 12));
    crate::bits::lemma_be_value_small(a.avg_pq as nat, 12);
    crate::bits::lemma_be_value_small(b.avg_pq as nat, 12);
}

/// A level 2 block whose fields fit their widths is determined by its payload bits.
pub proof fn lemma_level2_determined(a: ExtMetadataBlockLevel2, b: ExtMetadataBlockLevel2)
    requires
        a.fits(),
        b.fits(),
        a.encode() == b.encode(),
    ensures
        a == b,
{
    broadcast use crate::bits::lemma_bits_be_len;

    lemma_pow2_small();
    assert(a.encode().subrange(0, 12) =~= bits_be(a.target_max_pq as nat, 12));
    assert(b.encode().subrange(0, 12) =~= bits_be(b.target_max_pq as nat, 12));
    crate::bits::lemma_be_value_small(a.target_max_pq as nat, 12);
    crate::bits::lemma_be_value_small(b.target_max_pq as nat, 12);
    assert(a.encode().subrange(12, 24) =~= bits_be(a.trim_slope as nat, 12));
    assert(b.encode().subrange(12, 24) =~= bits_be(b.trim_slope as nat, 12));
    crate::bits::lemma_be_value_small(a.trim_slope as nat, 12);
    crate::bits::lemma_be_value_small(b.trim_slope as nat, 12);
    assert(a.encode().subrange(24, 36) =~= bits_be(a.trim_offset as nat, 12));
    assert(b.encode().subrange(24, 36) =~= bits_be(b.trim_offset as nat, 12));
    crate::bits::lemma_be_value_small(a.trim_offset as nat, 12);
    crate::bits::lemma_be_value_small(b.trim_offset as nat, 12);
    assert(a.encode().subrange(36, 48) =~= bits_be(a.trim_power as nat, 12));
    assert(b.encode().subrange(36, 48) =~= bits_be(b.trim_power as nat, 12));
    crate::bits::lemma_be_value_small(a.trim_power as nat, 12);
    crate::bits::lemma_be_value_small(b.trim_power as nat, 12);
    assert(a.encode().subrange(48, 60) =~= bits_be(a.trim_chroma_weight as nat, 12));
    assert(b.encode().subrange(48, 60) =~= bits_be(b.trim_chroma_weight as nat, 12));
    crate::bits::lemma_be_value_small(a.trim_chroma_weight as nat, 12);
    crate::bits::lemma_be_value_small(b.trim_chroma_weight as nat, 12);
    assert(a.encode().subrange(60, 72) =~= bits_be(a.trim_saturation_gain as nat, 12));
    assert(b.encode().subrange(60, 72) =~= bits_be(b.trim_saturation_gain as nat, 12));
    crate::bits::lemma_be_value_small(a.trim_saturation_gain as nat, 12);
    crate::bits::lemma_be_value_small(b.trim_saturation_gain as nat, 12);
    assert(a.encode().subrange(72, 85) =~= bits_be(ms_code(a.ms_weight), 13));
    assert(b.encode().subrange(72, 85) =~= bits_be(ms_code(b.ms_weight), 13));
    crate::bits::lemma_be_value_small(ms_code(a.ms_weight), 13);
    crate::bits::lemma_be_value_small(ms_code(b.ms_weight), 13);
}

/// A level 3 block whose fields fit their widths is determined by its payload bits.
pub proof fn lemma_level3_determined(a: ExtMetadataBlockLevel3, b: ExtMetadataBlockLevel3)
    requires
        a.fits(),
        b.fits(),
        a.encode() == b.encode(),
    ensures
        a == b,
{
    broadcast use crate::bits::lemma_bits_be_len;

    lemma_pow2_small();
    assert(a.encode().subrange(0, 12) =~= bits_be(a.min_pq_offset as nat, 12));
    assert(b.encode().subrange(0, 12) =~= bits_be(b.min_pq_offset as nat, 12));
    crate::bits::lemma_be_value_small(a.min_pq_offset as nat, 12);
    crate::bits::lemma_be_value_small(b.min_pq_offset as nat, 12);
    assert(a.encode().subrange(12, 24) =~= bits_be(a.max_pq_offset as nat, 12));
    assert(b.encode().subrange(12, 24) =~= bits_be(b.max_pq_offset as nat, 12));
    crate::bits::lemma_be_value_small(a.max_pq_offset as nat, 12);
    crate::bits::lemma_be_value_small(b.max_pq_offset as nat, 12);
    assert(a.encode().subrange(24, 36) =~= bits_be(a.avg_pq_offset as nat, 12));
    assert(b.encode().subrange(24, 36) =~= bits_be(b.avg_pq_offset as nat, 12));
    crate::bits::lemma_be_value_small(a.avg_pq_offset as nat, 12);
    crate::bits::lemma_be_value_small(b.avg_pq_offset as nat, 12);
}

/// A level 4 block whose fields fit their widths is determined by its payload bits.
pub proof fn lemma_level4_determined(a: ExtMetadataBlockLevel4, b: ExtMetadataBlockLevel4)
    requires
        a.fits(),
        b.fits(),
        a.encode() == b.encode(),
    ensures
        a == b,
{
    broadcast use crate::bits::lemma_bits_be_len;

    lemma_pow2_small();
    assert(a.encode().subrange(0, 12) =~= bits_be(a.anchor_pq as nat, 12));
    assert(b.encode().subrange(0, 12) =~= bits_be(b.anchor_pq as nat, 12));
    crate::bits::lemma_be_value_small(a.anchor_pq as nat, 12);
    crate::bits::lemma_be_value_small(b.anchor_pq as nat, 12);
    assert(a.encode().subrange(12, 24) =~= bits_be(a.anchor_power as nat, 12));
    assert(b.encode().subrange(12, 24) =~= bits_be(b.anchor_power as nat, 12));
    crate::bits::lemma_be_value_small(a.anchor_power as nat, 12);
    crate::bits::lemma_be_value_small(b.anchor_power as nat, 12);
}

/// A level 5 block whose fields fit their widths is determined by its payload bits.
pub proof fn lemma_level5_determined(a: ExtMetadataBlockLevel5, b: ExtMetadataBlockLevel5)
    requires
        a.fits(),
        b.fits(),
        a.encode() == b.encode(),
    ensures
        a == b,
{
    broadcast use crate::bits::lemma_bits_be_len;

    lemma_pow2_small();
    assert(a.encode().subrange(0, 13) =~= bits_be(a.active_area_left_offset as nat, 13));
    assert(b.encode().subrange(0, 13) =~= bits_be(b.active_area_left_offset as nat, 13));
    crate::bits::lemma_be_value_small(a.active_area_left_offset as nat, 13);
    crate::bits::lemma_be_value_small(b.active_area_left_offset as nat, 13);
    assert(a.encode().subrange(13, 26) =~= bits_be(a.active_area_right_offset as nat, 13));
    assert(b.encode().subrange(13, 26) =~= bits_be(b.active_area_right_offset as nat, 13));
    crate::bits::lemma_be_value_small(a.active_area_right_offset as nat, 13);
    crate::bits::lemma_be_value_small(b.active_area_right_offset as nat, 13);
    assert(a.encode().subrange(26, 39) =~= bits_be(a.active_area_top_offset as nat, 13));
    assert(b.encode().subrange(26, 39) =~= bits_be(b.active_area_top_offset as nat, 13));
    crate::bits::lemma_be_value_small(a.active_area_top_offset as nat, 13);
    crate::bits::lemma_be_value_small(b.active_area_top_offset as nat, 13);
    assert(a.encode().subrange(39, 52) =~= bits_be(a.active_area_bottom_offset as nat, 13));
    assert(b.encode().subrange(39, 52) =~= bits_be(b.active_area_bottom_offset as nat, 13));
    crate::bits::lemma_be_value_small(a.active_area_bottom_offset as nat, 13);
    crate::bits::lemma_be_value_small(b.active_area_bottom_offset as nat, 13);
}

/// A level 6 block whose fields fit their widths is determined by its payload bits.
pub proof fn lemma_level6_determined(a: ExtMetadataBlockLevel6, b: ExtMetadataBlockLevel6)
    requires
        a.fits(),
        b.fits(),
        a.encode() == b.encode(),
    ensures
        a == b,
{
    broadcast use crate::bits::lemma_bits_be_len;

    lemma_pow2_small();
    assert(a.encode().subrange(0, 16) =~= bits_be(a.max_display_mastering_luminance as nat, 16));
    assert(b.encode().subrange(0, 16) =~= bits_be(b.max_display_mastering_luminance as nat, 16));
    crate::bits::lemma_be_value_small(a.max_display_mastering_luminance as nat, 16);
    crate::bits::lemma_be_value_small(b.max_display_mastering_luminance as nat, 16);
    assert(a.encode().subrange(16, 32) =~= bits_be(a.min_display_mastering_luminance as nat, 16));
    assert(b.encode().subrange(16, 32) =~= bits_be(b.min_display_mastering_luminance as nat, 16));
    crate::bits::lemma_be_value_small(a.min_display_mastering_luminance as nat, 16);
    crate::bits::lemma_be_value_small(b.min_display_mastering_luminance as nat, 16);
    assert(a.encode().subrange(32, 48) =~= bits_be(a.max_content_light_level as nat, 16));
    assert(b.encode().subrange(32, 48) =~= bits_be(b.max_content_light_level as nat, 16));
    crate::bits::lemma_be_value_small(a.max_content_light_level as nat, 16);
    crate::bits::lemma_be_value_small(b.max_content_light_level as nat, 16);
    assert(a.encode().subrange(48, 64) =~= bits_be(a.max_frame_average_light_level as nat, 16));
    assert(b.encode().subrange(48, 64) =~= bits_be(b.max_frame_average_light_level as nat, 16));
    crate::bits::lemma_be_value_small(a.max_frame_average_light_level as nat, 16);
    crate::bits::lemma_be_value_small(b.max_frame_average_light_level as nat, 16);
}

/// A level 11 block whose fields fit their widths is determined by its payload bits.
pub proof fn lemma_level11_determined(a: ExtMetadataBlockLevel11, b: ExtMetadataBlockLevel11)
    requires
        a.fits(),
        b.fits(),
        a.encode() == b.encode(),
    ensures
        a == b,
{
    broadcast use crate::bits::lemma_bits_be_len;

    lemma_pow2_small();
    assert(a.encode().subrange(0, 8) =~= bits_be(a.content_type as nat, 8));
    assert(b.encode().subrange(0, 8) =~= bits_be(b.content_type as nat, 8));
    crate::bits::lemma_be_value_small(a.content_type as nat, 8);
    crate::bits::lemma_be_value_small(b.content_type as nat, 8);
    assert(a.encode().subrange(8, 15) =~= bits_be(a.whitepoint as nat, 7));
    assert(b.encode().subrange(8, 15) =~= bits_be(b.whitepoint as nat, 7));
    crate::bits::lemma_be_value_small(a.whitepoint as nat, 7);
    crate::bits::lemma_be_value_small(b.whitepoint as nat, 7);
    assert(a.encode().subrange(15, 16) =~= bits_be((if a.reference_mode_flag { 1nat } else { 0nat }), 1));
    assert(b.encode().subrange(15, 16) =~= bits_be((if b.reference_mode_flag { 1nat } else { 0nat }), 1));
    crate::bits::lemma_be_value_small((if a.reference_mode_flag { 1nat } else { 0nat }), 1);
    crate::bits::lemma_be_value_small((if b.reference_mode_flag { 1nat } else { 0nat }), 1);
    assert(a.encode().subrange(16, 18) =~= bits_be(a.sharpness as nat, 2));
    assert(b.encode().subrange(16, 18) =~= bits_be(b.sharpness as nat, 2));
    crate::bits::lemma_be_value_small(a.sharpness as nat, 2);
    crate::bits::lemma_be_value_small(b.sharpness as nat, 2);
    assert(a.encode().subrange(18, 20) =~= bits_be(a.noise_reduction as nat, 2));
    assert(b.encode().subrange(18, 20) =~= bits_be(b.noise_reduction as nat, 2));
    crate::bits::lemma_be_value_small(a.noise_reduction as nat, 2);
    crate::bits::lemma_be_value_small(b.noise_reduction as nat, 2);
    assert(a.encode().subrange(20, 22) =~= bits_be(a.mpeg_noise_reduction as nat, 2));
    assert(b.encode().subrange(20, 22) =~= bits_be(b.mpeg_noise_reduction as nat, 2));
    crate::bits::lemma_be_value_small(a.mpeg_noise_reduction as nat, 2);
    crate::bits::lemma_be_value_small(b.mpeg_noise_reduction as nat, 2);
    assert(a.encode().subrange(22, 24) =~= bits_be(a.frame_rate_conversion as nat, 2));
    assert(b.encode().subrange(22, 24) =~= bits_be(b.frame_rate_conversion as nat, 2));
    crate::bits::lemma_be_value_small(a.frame_rate_conversion as nat, 2);
    crate::bits::lemma_be_value_small(b.frame_rate_conversion as nat, 2);
    assert(a.encode().subrange(24, 28) =~= bits_be(a.brightness as nat, 4));
    assert(b.encode().subrange(24, 28) =~= bits_be(b.brightness as nat, 4));
    crate::bits::lemma_be_value_small(a.brightness as nat, 4);
    crate::bits::lemma_be_value_small(b.brightness as nat, 4);
    assert(a.encode().subrange(28, 32) =~= bits_be(a.color as nat, 4));
    assert(b.encode().subrange(28, 32) =~= bits_be(b.color as nat, 4));
    crate::bits::lemma_be_value_small(a.color as nat, 4);
    crate::bits::lemma_be_value_small(b.color as nat, 4);
}

/// A level 254 block whose fields fit their widths is determined by its payload bits.
pub proof fn lemma_level254_determined(a: ExtMetadataBlockLevel254, b: ExtMetadataBlockLevel254)
    requires
        a.fits(),
        b.fits(),
        a.encode() == b.encode(),
    ensures
        a == b,
{
    broadcast use crate::bits::lemma_bits_be_len;

    lemma_pow2_small();
    assert(a.encode().subrange(0, 8) =~= bits_be(a.dm_mode as nat, 8));
    assert(b.encode().subrange(0, 8) =~= bits_be(b.dm_mode as nat, 8));
    crate::bits::lemma_be_value_small(a.dm_mode as nat, 8);
    crate::bits::lemma_be_value_small(b.dm_mode as nat, 8);
    assert(a.encode().subrange(8, 16) =~= bits_be(a.dm_version_index as nat, 8));
    assert(b.encode().subrange(8, 16) =~= bits_be(b.dm_version_index as nat, 8));
    crate::bits::lemma_be_value_small(a.dm_version_index as nat, 8);
    crate::bits::lemma_be_value_small(b.dm_version_index as nat, 8);
}

} // verus!
