//! Level 8: creative intent trims for one target display, with optional groups.
use vstd::prelude::*;
use bitvec_helpers::bitvec_reader::BitVecReader;
use bitvec_helpers::bitvec_writer::BitVecWriter;

use crate::bits::{
    advanced_by, bits_be, lemma_bits_be_len, lemma_pow2_small, read_field, reader_bits, reader_ok,
    reader_pos, remaining, write_bits, writer_bits,
};
use crate::blocks::ExtMetadataBlock;
use crate::error::RpuError;
use crate::levels::{read_vector, vector_bits, write_vector, MAX_12_BIT_VALUE};

verus! {

/// The bits of an optional 12-bit field: none when it is absent.
pub open spec fn opt12_bits(o: Option<u16>) -> Seq<bool> {
    match o {
        Some(v) => bits_be(v as nat, 12),
        None => Seq::empty(),
    }
}

pub open spec fn opt_vector_bits(o: Option<[u8; 6]>) -> Seq<bool> {
    match o {
        Some(a) => vector_bits(a),
        None => Seq::empty(),
    }
}

/// The payload bits that a level 8 block of `length_bytes` bytes carries.
pub open spec fn l8_required_bits_at(length_bytes: u64) -> nat {
    if length_bytes == 10 {
        80
    } else if length_bytes == 12 {
        92
    } else if length_bytes == 13 {
        104
    } else if length_bytes == 19 {
        152
    } else {
        200
    }
}

pub open spec fn l8_legal_length(length_bytes: u64) -> bool {
    length_bytes == 10 || length_bytes == 12 || length_bytes == 13 || length_bytes == 19
        || length_bytes == 25
}

/// Creative intent trims for one target display. The optional groups, from the
/// innermost out: mid contrast, clip trim, saturation vector, hue vector. A group
/// is present only where every inner one is.
#[derive(Debug, Clone, Copy)]
pub struct ExtMetadataBlockLevel8 {
    pub target_display_index: u8,
    pub trim_slope: u16,
    pub trim_offset: u16,
    pub trim_power: u16,
    pub trim_chroma_weight: u16,
    pub trim_saturation_gain: u16,
    pub ms_weight: u16,
    pub target_mid_contrast: Option<u16>,
    pub clip_trim: Option<u16>,
    pub saturation_vector: Option<[u8; 6]>,
    pub hue_vector: Option<[u8; 6]>,
}

impl Default for ExtMetadataBlockLevel8 {
    /// Neutral trims for target display 1, with no optional group.
    fn default() -> (b: Self)
        ensures
            b.target_display_index == 1,
            b.trim_slope == 2048 && b.trim_offset == 2048 && b.trim_power == 2048,
            b.trim_chroma_weight == 2048 && b.trim_saturation_gain == 2048 && b.ms_weight == 2048,
            b.target_mid_contrast is None && b.clip_trim is None,
            b.saturation_vector is None && b.hue_vector is None,
    {
        Self {
            target_display_index: 1,
            trim_slope: 2048,
            trim_offset: 2048,
            trim_power: 2048,
            trim_chroma_weight: 2048,
            trim_saturation_gain: 2048,
            ms_weight: 2048,
            target_mid_contrast: None,
            clip_trim: None,
            saturation_vector: None,
            hue_vector: None,
        }
    }
}

impl ExtMetadataBlockLevel8 {
    /// Every field fits in its bit width.
    pub open spec fn fits(self) -> bool {
        &&& self.trim_slope < 4096
        &&& self.trim_offset < 4096
        &&& self.trim_power < 4096
        &&& self.trim_chroma_weight < 4096
        &&& self.trim_saturation_gain < 4096
        &&& self.ms_weight < 4096
        &&& (self.target_mid_contrast is Some ==> self.target_mid_contrast->0 < 4096)
        &&& (self.clip_trim is Some ==> self.clip_trim->0 < 4096)
    }

    pub open spec fn encode(self) -> Seq<bool> {
        bits_be(self.target_display_index as nat, 8) + bits_be(self.trim_slope as nat, 12)
            + bits_be(self.trim_offset as nat, 12) + bits_be(self.trim_power as nat, 12)
            + bits_be(self.trim_chroma_weight as nat, 12) + bits_be(
            self.trim_saturation_gain as nat,
            12,
        ) + bits_be(self.ms_weight as nat, 12) + opt12_bits(self.target_mid_contrast)
            + opt12_bits(self.clip_trim) + opt_vector_bits(self.saturation_vector)
            + opt_vector_bits(self.hue_vector)
    }

    /// Every present group has all its inner groups present.
    pub open spec fn consistent(self) -> bool {
        &&& (self.clip_trim is Some ==> self.target_mid_contrast is Some)
        &&& (self.saturation_vector is Some ==> self.clip_trim is Some)
        &&& (self.hue_vector is Some ==> self.saturation_vector is Some)
    }

    pub open spec fn spec_required_bits(self) -> nat {
        80 + (if self.target_mid_contrast is Some {
            12nat
        } else {
            0nat
        }) + (if self.clip_trim is Some {
            12nat
        } else {
            0nat
        }) + (if self.saturation_vector is Some {
            48nat
        } else {
            0nat
        }) + (if self.hue_vector is Some {
            48nat
        } else {
            0nat
        })
    }

    /// 10 bytes, and 2 for the mid contrast, 1 for the clip trim and 6 for each vector.
    pub open spec fn spec_bytes_size(self) -> nat {
        10 + (if self.target_mid_contrast is Some {
            2nat
        } else {
            0nat
        }) + (if self.clip_trim is Some {
            1nat
        } else {
            0nat
        }) + (if self.saturation_vector is Some {
            6nat
        } else {
            0nat
        }) + (if self.hue_vector is Some {
            6nat
        } else {
            0nat
        })
    }

    pub open spec fn error(self) -> Option<RpuError> {
        if !self.consistent() {
            Some(RpuError::InconsistentOptionals)
        } else if self.trim_slope > 4095 || self.trim_offset > 4095 || self.trim_power > 4095
            || self.trim_chroma_weight > 4095 || self.trim_saturation_gain > 4095
            || self.ms_weight > 4095 || (self.target_mid_contrast is Some
            && self.target_mid_contrast->0 > 4095) || (self.clip_trim is Some
            && self.clip_trim->0 > 4095) {
            Some(RpuError::FieldOutOfRange)
        } else {
            None
        }
    }

    pub fn validate(&self) -> (res: Result<(), RpuError>)
        ensures
            res is Err <==> self.error() is Some,
            res is Err ==> res->Err_0 == self.error()->0,
    {
        if (self.clip_trim.is_some() && self.target_mid_contrast.is_none())
            || (self.saturation_vector.is_some() && self.clip_trim.is_none())
            || (self.hue_vector.is_some() && self.saturation_vector.is_none()) {
            return Err(RpuError::InconsistentOptionals);
        }
        if self.trim_slope > MAX_12_BIT_VALUE || self.trim_offset > MAX_12_BIT_VALUE
            || self.trim_power > MAX_12_BIT_VALUE || self.trim_chroma_weight > MAX_12_BIT_VALUE
            || self.trim_saturation_gain > MAX_12_BIT_VALUE || self.ms_weight > MAX_12_BIT_VALUE {
            return Err(RpuError::FieldOutOfRange);
        }
        if let Some(v) = self.target_mid_contrast {
            if v > MAX_12_BIT_VALUE {
                return Err(RpuError::FieldOutOfRange);
            }
        }
        // clip trim is checked on its own presence
        if let Some(v) = self.clip_trim {
            if v > MAX_12_BIT_VALUE {
                return Err(RpuError::FieldOutOfRange);
            }
        }
        Ok(())
    }

    /// Reads a block declared `ext_block_length` bytes long: the groups that this
    /// length holds are read, the others are absent.
    pub fn parse(ext_block_length: u64, r: &mut BitVecReader) -> (block: ExtMetadataBlock)
        requires
            reader_ok(*old(r)),
            l8_legal_length(ext_block_length),
            remaining(*old(r)).len() >= l8_required_bits_at(ext_block_length),
        ensures
            block is Level8,
            advanced_by(*old(r), *final(r), block.encode()),
            block.encode().len() == block.spec_required_bits(),
            block.spec_required_bits() == l8_required_bits_at(ext_block_length),
            block.spec_length_bytes() == ext_block_length,
            block->Level8_0.consistent(),
            block->Level8_0.fits(),
    {
        proof {
            lemma_pow2_small();
        }
        let ghost p = reader_pos(*r) as int;
        let target_display_index = read_field(r, 8) as u8;
        let trim_slope = read_field(r, 12) as u16;
        let trim_offset = read_field(r, 12) as u16;
        let trim_power = read_field(r, 12) as u16;
        let trim_chroma_weight = read_field(r, 12) as u16;
        let trim_saturation_gain = read_field(r, 12) as u16;
        let ms_weight = read_field(r, 12) as u16;
        proof {
            lemma_bits_be_len(target_display_index as nat, 8);
            lemma_bits_be_len(trim_slope as nat, 12);
            lemma_bits_be_len(trim_offset as nat, 12);
            lemma_bits_be_len(trim_power as nat, 12);
            lemma_bits_be_len(trim_chroma_weight as nat, 12);
            lemma_bits_be_len(trim_saturation_gain as nat, 12);
            lemma_bits_be_len(ms_weight as nat, 12);
        }
        let ghost head = bits_be(target_display_index as nat, 8) + bits_be(trim_slope as nat, 12)
            + bits_be(trim_offset as nat, 12) + bits_be(trim_power as nat, 12) + bits_be(
            trim_chroma_weight as nat,
            12,
        ) + bits_be(trim_saturation_gain as nat, 12) + bits_be(ms_weight as nat, 12);
        assert(reader_bits(*r).subrange(p, reader_pos(*r) as int) =~= head);
        let mut target_mid_contrast: Option<u16> = None;
        let mut clip_trim: Option<u16> = None;
        let mut saturation_vector: Option<[u8; 6]> = None;
        let mut hue_vector: Option<[u8; 6]> = None;
        if ext_block_length > 10 {
            let ghost q = reader_pos(*r) as int;
            let v = read_field(r, 12) as u16;
            proof {
                lemma_bits_be_len(v as nat, 12);
            }
            target_mid_contrast = Some(v);
            assert(reader_bits(*r).subrange(p, reader_pos(*r) as int) =~= reader_bits(*r).subrange(
                p,
                q,
            ) + bits_be(v as nat, 12));
        }
        let ghost s1 = head + opt12_bits(target_mid_contrast);
        assert(reader_bits(*r).subrange(p, reader_pos(*r) as int) == s1);
        if ext_block_length > 12 {
            let ghost q = reader_pos(*r) as int;
            let v = read_field(r, 12) as u16;
            proof {
                lemma_bits_be_len(v as nat, 12);
            }
            clip_trim = Some(v);
            assert(reader_bits(*r).subrange(p, reader_pos(*r) as int) =~= reader_bits(*r).subrange(
                p,
                q,
            ) + bits_be(v as nat, 12));
        }
        let ghost s2 = s1 + opt12_bits(clip_trim);
        assert(reader_bits(*r).subrange(p, reader_pos(*r) as int) == s2);
        if ext_block_length > 13 {
            let ghost q = reader_pos(*r) as int;
            let a = read_vector(r);
            saturation_vector = Some(a);
            assert(reader_bits(*r).subrange(p, reader_pos(*r) as int) =~= reader_bits(*r).subrange(
                p,
                q,
            ) + vector_bits(a));
        }
        let ghost s3 = s2 + opt_vector_bits(saturation_vector);
        assert(reader_bits(*r).subrange(p, reader_pos(*r) as int) == s3);
        if ext_block_length > 19 {
            let ghost q = reader_pos(*r) as int;
            let a = read_vector(r);
            hue_vector = Some(a);
            assert(reader_bits(*r).subrange(p, reader_pos(*r) as int) =~= reader_bits(*r).subrange(
                p,
                q,
            ) + vector_bits(a));
        }
        let b = Self {
            target_display_index,
            trim_slope,
            trim_offset,
            trim_power,
            trim_chroma_weight,
            trim_saturation_gain,
            ms_weight,
            target_mid_contrast,
            clip_trim,
            saturation_vector,
            hue_vector,
        };
        assert(reader_bits(*r).subrange(p, reader_pos(*r) as int) == b.encode());
        ExtMetadataBlock::Level8(b)
    }

    /// Validates the block, then writes the groups that are present.
    pub fn write(&self, w: &mut BitVecWriter) -> (res: Result<(), RpuError>)
        ensures
            res is Err <==> self.error() is Some,
            res is Err ==> res->Err_0 == self.error()->0 && writer_bits(*final(w)) == writer_bits(
                *old(w),
            ),
            res is Ok ==> writer_bits(*final(w)) == writer_bits(*old(w)) + self.encode(),
    {
        self.validate()?;
        write_bits(w, self.target_display_index as u64, 8);
        write_bits(w, self.trim_slope as u64, 12);
        write_bits(w, self.trim_offset as u64, 12);
        write_bits(w, self.trim_power as u64, 12);
        write_bits(w, self.trim_chroma_weight as u64, 12);
        write_bits(w, self.trim_saturation_gain as u64, 12);
        write_bits(w, self.ms_weight as u64, 12);
        let ghost head = bits_be(self.target_display_index as nat, 8) + bits_be(
            self.trim_slope as nat,
            12,
        ) + bits_be(self.trim_offset as nat, 12) + bits_be(self.trim_power as nat, 12)
            + bits_be(self.trim_chroma_weight as nat, 12) + bits_be(
            self.trim_saturation_gain as nat,
            12,
        ) + bits_be(self.ms_weight as nat, 12);
        assert(writer_bits(*w) =~= writer_bits(*old(w)) + head);
        if let Some(v) = self.target_mid_contrast {
            write_bits(w, v as u64, 12);
        }
        assert(writer_bits(*w) =~= writer_bits(*old(w)) + head + opt12_bits(
            self.target_mid_contrast,
        ));
        if let Some(v) = self.clip_trim {
            write_bits(w, v as u64, 12);
        }
        assert(writer_bits(*w) =~= writer_bits(*old(w)) + head + opt12_bits(
            self.target_mid_contrast,
        ) + opt12_bits(self.clip_trim));
        if let Some(a) = &self.saturation_vector {
            write_vector(w, a);
        }
        assert(writer_bits(*w) =~= writer_bits(*old(w)) + head + opt12_bits(
            self.target_mid_contrast,
        ) + opt12_bits(self.clip_trim) + opt_vector_bits(self.saturation_vector));
        if let Some(a) = &self.hue_vector {
            write_vector(w, a);
        }
        assert(writer_bits(*w) =~= writer_bits(*old(w)) + self.encode());
        Ok(())
    }
}

} // verus!
