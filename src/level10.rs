//! Level 10: a custom target display.
use vstd::prelude::*;
use bitvec_helpers::bitvec_reader::BitVecReader;
use bitvec_helpers::bitvec_writer::BitVecWriter;

use crate::bits::{
    advanced_by, bits_be, lemma_bits_be_len, lemma_pow2_small, read_field, reader_bits, reader_ok,
    reader_pos, remaining, write_bits, writer_bits,
};
use crate::blocks::ExtMetadataBlock;
use crate::error::RpuError;
use crate::level9::opt_primaries_bits;
use crate::levels::{read_primaries, write_primaries, MAX_12_BIT_VALUE};

verus! {

/// The target display indices that name predefined displays, which a custom
/// target display may not take.
pub open spec fn is_preset_target_display(i: u8) -> bool {
    i == 1 || i == 16 || i == 18 || i == 21 || i == 27 || i == 28 || i == 37 || i == 38 || i
        == 42 || i == 48 || i == 49
}

pub fn preset_target_display(i: u8) -> (b: bool)
    ensures
        b == is_preset_target_display(i),
{
    i == 1 || i == 16 || i == 18 || i == 21 || i == 27 || i == 28 || i == 37 || i == 38 || i == 42
        || i == 48 || i == 49
}

/// A custom target display: its index, peak and minimum PQ, an index into the
/// predefined primaries and, where the block is 21 bytes long, eight custom
/// 16-bit coordinates.
#[derive(Debug, Clone, Copy, Default)]
pub struct ExtMetadataBlockLevel10 {
    pub target_display_index: u8,
    pub target_max_pq: u16,
    pub target_min_pq: u16,
    pub target_primary_index: u8,
    pub target_primaries: Option<[u16; 8]>,
}

impl ExtMetadataBlockLevel10 {
    /// Every field fits in its bit width.
    pub open spec fn fits(self) -> bool {
        self.target_max_pq < 4096 && self.target_min_pq < 4096
    }

    pub open spec fn encode(self) -> Seq<bool> {
        bits_be(self.target_display_index as nat, 8) + bits_be(self.target_max_pq as nat, 12)
            + bits_be(self.target_min_pq as nat, 12) + bits_be(self.target_primary_index as nat, 8)
            + opt_primaries_bits(self.target_primaries)
    }

    pub open spec fn spec_required_bits(self) -> nat {
        if self.target_primaries is Some {
            168
        } else {
            40
        }
    }

    pub open spec fn spec_bytes_size(self) -> nat {
        if self.target_primaries is Some {
            21
        } else {
            5
        }
    }

    pub open spec fn error(self) -> Option<RpuError> {
        if is_preset_target_display(self.target_display_index) || self.target_max_pq > 4095
            || self.target_min_pq > 4095 {
            Some(RpuError::FieldOutOfRange)
        } else {
            None
        }
    }

    /// Refuses a preset target display index and PQ values over 12 bits.
    pub fn validate(&self) -> (res: Result<(), RpuError>)
        ensures
            res is Err <==> self.error() is Some,
            res is Err ==> res->Err_0 == self.error()->0,
    {
        if preset_target_display(self.target_display_index) {
            return Err(RpuError::FieldOutOfRange);
        }
        if self.target_max_pq > MAX_12_BIT_VALUE || self.target_min_pq > MAX_12_BIT_VALUE {
            return Err(RpuError::FieldOutOfRange);
        }
        Ok(())
    }

    /// Reads a block declared `ext_block_length` bytes long (5 or 21): the custom
    /// primaries are read where it is longer than 5.
    pub fn parse(ext_block_length: u64, r: &mut BitVecReader) -> (block: ExtMetadataBlock)
        requires
            reader_ok(*old(r)),
            ext_block_length == 5 || ext_block_length == 21,
            remaining(*old(r)).len() >= 8 * ext_block_length,
        ensures
            block is Level10,
            block->Level10_0.fits(),
            advanced_by(*old(r), *final(r), block.encode()),
            block.encode().len() == block.spec_required_bits(),
            block.spec_length_bytes() == ext_block_length,
    {
        proof {
            lemma_pow2_small();
        }
        let ghost p = reader_pos(*r) as int;
        let target_display_index = read_field(r, 8) as u8;
        let target_max_pq = read_field(r, 12) as u16;
        let target_min_pq = read_field(r, 12) as u16;
        let target_primary_index = read_field(r, 8) as u8;
        proof {
            lemma_bits_be_len(target_display_index as nat, 8);
            lemma_bits_be_len(target_max_pq as nat, 12);
            lemma_bits_be_len(target_min_pq as nat, 12);
            lemma_bits_be_len(target_primary_index as nat, 8);
        }
        let ghost q = reader_pos(*r) as int;
        assert(reader_bits(*r).subrange(p, q) =~= bits_be(target_display_index as nat, 8)
            + bits_be(target_max_pq as nat, 12) + bits_be(target_min_pq as nat, 12) + bits_be(
            target_primary_index as nat,
            8,
        ));
        let mut target_primaries: Option<[u16; 8]> = None;
        if ext_block_length > 5 {
            let a = read_primaries(r);
            target_primaries = Some(a);
        }
        let b = Self {
            target_display_index,
            target_max_pq,
            target_min_pq,
            target_primary_index,
            target_primaries,
        };
        assert(reader_bits(*r).subrange(p, reader_pos(*r) as int) =~= reader_bits(*r).subrange(p, q)
            + reader_bits(*r).subrange(q, reader_pos(*r) as int));
        assert(reader_bits(*r).subrange(q, reader_pos(*r) as int) =~= opt_primaries_bits(
            target_primaries,
        ));
        ExtMetadataBlock::Level10(b)
    }

    /// Validates the block, then writes it and, where they are present, the custom
    /// primaries.
    pub fn write(&self, w: &mut BitVecWriter) -> (res: Result<(), RpuError>)
        ensures
            res is Err <==> self.error() is Some,
            res is Err ==> res->Err_0 == self.error()->0 && writer_bits(*final(w)) == writer_bits(
                *old(w),
            ),
            res is Ok ==> writer_bits(*final(w)) == writer_bits(*old(w)) + self.encode(),
    {
        self.validate()?;
        write_bits(w, self.target_display_index as u64, 8);
        write_bits(w, self.target_max_pq as u64, 12);
        write_bits(w, self.target_min_pq as u64, 12);
        write_bits(w, self.target_primary_index as u64, 8);
        if let Some(a) = &self.target_primaries {
            write_primaries(w, a);
        }
        assert(writer_bits(*w) =~= writer_bits(*old(w)) + self.encode());
        Ok(())
    }
}

} // verus!
