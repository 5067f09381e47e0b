//! Dolby Vision extension metadata: a bit-exact codec for the metadata blocks of
//! levels 1 to 11 and 254, the CM v2.9 and CM v4.0 envelopes that carry them, the
//! block set operations, and the composition of per-frame metadata.

pub mod active_area;
pub mod bits;
pub mod block_set;
pub mod blocks;
pub mod dm_data;
pub mod error;
pub mod generate;
pub mod level10;
pub mod level8;
pub mod level9;
pub mod levels;
pub mod st2094_10;
