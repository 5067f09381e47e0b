//! Level 9: the source color primaries.
use vstd::prelude::*;
use bitvec_helpers::bitvec_reader::BitVecReader;
use bitvec_helpers::bitvec_writer::BitVecWriter;

use crate::bits::{
    advanced_by, bits_be, lemma_bits_be_len, lemma_pow2_small, read_field, reader_bits, reader_ok,
    reader_pos, remaining, write_bits, writer_bits,
};
use crate::blocks::ExtMetadataBlock;
use crate::error::RpuError;
use crate::levels::{primaries_bits, read_primaries, write_primaries};

verus! {

pub open spec fn opt_primaries_bits(o: Option<[u16; 8]>) -> Seq<bool> {
    match o {
        Some(a) => primaries_bits(a),
        None => Seq::empty(),
    }
}

/// Source color primaries: an index into the predefined primaries, and, where the
/// block is 17 bytes long, eight custom 16-bit coordinates (index 255 means custom).
#[derive(Debug, Clone, Copy, Default)]
pub struct ExtMetadataBlockLevel9 {
    pub source_primary_index: u8,
    pub source_primaries: Option<[u16; 8]>,
}

impl ExtMetadataBlockLevel9 {
    pub open spec fn encode(self) -> Seq<bool> {
        bits_be(self.source_primary_index as nat, 8) + opt_primaries_bits(self.source_primaries)
    }

    pub open spec fn spec_required_bits(self) -> nat {
        if self.source_primaries is Some {
            136
        } else {
            8
        }
    }

    pub open spec fn spec_bytes_size(self) -> nat {
        if self.source_primaries is Some {
            17
        } else {
            1
        }
    }

    /// Reads a block declared `ext_block_length` bytes long (1 or 17): the custom
    /// primaries are read where it is longer than 1.
    pub fn parse(ext_block_length: u64, r: &mut BitVecReader) -> (block: ExtMetadataBlock)
        requires
            reader_ok(*old(r)),
            ext_block_length == 1 || ext_block_length == 17,
            remaining(*old(r)).len() >= 8 * ext_block_length,
        ensures
            block is Level9,
            advanced_by(*old(r), *final(r), block.encode()),
            block.encode().len() == block.spec_required_bits(),
            block.spec_length_bytes() == ext_block_length,
    {
        proof {
            lemma_pow2_small();
        }
        let ghost p = reader_pos(*r) as int;
        let source_primary_index = read_field(r, 8) as u8;
        proof {
            lemma_bits_be_len(source_primary_index as nat, 8);
        }
        let ghost q = reader_pos(*r) as int;
        let mut source_primaries: Option<[u16; 8]> = None;
        if ext_block_length > 1 {
            let a = read_primaries(r);
            source_primaries = Some(a);
        }
        let b = Self { source_primary_index, source_primaries };
        assert(reader_bits(*r).subrange(p, reader_pos(*r) as int) =~= reader_bits(*r).subrange(p, q)
            + reader_bits(*r).subrange(q, reader_pos(*r) as int));
        assert(reader_bits(*r).subrange(q, reader_pos(*r) as int) =~= opt_primaries_bits(
            source_primaries,
        ));
        ExtMetadataBlock::Level9(b)
    }

    /// Writes the index and, where they are present, the custom primaries.
    pub fn write(&self, w: &mut BitVecWriter) -> (res: Result<(), RpuError>)
        ensures
            res is Ok,
            writer_bits(*final(w)) == writer_bits(*old(w)) + self.encode(),
    {
        write_bits(w, self.source_primary_index as u64, 8);
        if let Some(a) = &self.source_primaries {
            write_primaries(w, a);
        }
        assert(writer_bits(*w) =~= writer_bits(*old(w)) + self.encode());
        Ok(())
    }
}

} // verus!
