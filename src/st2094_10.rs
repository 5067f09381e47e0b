//! The ST.2094-10 user data that carries a CM v2.9 envelope.
use vstd::prelude::*;
use bitvec_helpers::bitvec_reader::BitVecReader;

use crate::bits::{
    advanced_by, lemma_advance_rest, lemma_advance_trans, lemma_ue_round_trip, read_bit, read_ue,
    reader_bits, reader_ok, reader_pos, remaining, ue_bits, ue_decode,
};
use crate::dm_data::{envelope_error, readable_envelope, CmVersion, DmData};
use crate::error::RpuError;

verus! {

/// The DM data of ST.2094-10 user data: two identifiers, a refresh flag and, when the
/// flag is set, a CM v2.9 envelope.
#[derive(Debug)]
pub struct ST2094_10DmData {
    pub app_identifier: u64,
    pub app_version: u64,
    pub metadata_refresh_flag: bool,
    pub dm_data: Option<DmData>,
}

/// The error, if any, that reading ST.2094-10 DM data from `s`, which starts at bit
/// position `start`, meets: either identifier's code, the missing flag, or, with the
/// flag set, the error of the CM v2.9 envelope as it is.
pub open spec fn st2094_10_error(s: Seq<bool>, start: nat) -> Option<RpuError> {
    match ue_decode(s) {
        Err(e) => Some(e),
        Ok((_, n1)) => {
            let t = s.subrange(n1 as int, s.len() as int);
            match ue_decode(t) {
                Err(e) => Some(e),
                Ok((_, n2)) => if t.len() <= n2 {
                    Some(RpuError::TruncatedStream)
                } else if !t[n2 as int] {
                    None
                } else {
                    envelope_error(
                        t.subrange((n2 + 1) as int, t.len() as int),
                        start + n1 + n2 + 1,
                        CmVersion::V29,
                    )
                },
            }
        },
    }
}

/// What follows the two identifiers in user data that parsing reads through, where the
/// body starts at bit position `start`: a refresh flag of 0, or a flag of 1 and then
/// a CM v2.9 envelope that parsing reads back.
pub open spec fn refresh_body_readable(tail: Seq<bool>, start: nat) -> bool {
    &&& tail.len() > 0
    &&& (tail[0] ==> exists|d: DmData, rest: Seq<bool>|
        d.version() == CmVersion::V29 && readable_envelope(d) && tail.drop_first() == #[trigger] (
        d.encode(start + 1) + rest))
}

impl ST2094_10DmData {
    /// Reads the identifiers and the flag, then the envelope when the flag is set. A
    /// failure of the envelope is passed on as it is.
    #[verifier::spinoff_prover]
    #[verifier::rlimit(60)]
    pub fn parse(r: &mut BitVecReader) -> (res: Result<ST2094_10DmData, RpuError>)
        requires
            reader_ok(*old(r)),
        ensures
            reader_ok(*final(r)),
            reader_bits(*final(r)) == reader_bits(*old(r)),
            res is Ok ==> {
                let m = res->Ok_0;
                let head = ue_bits(m.app_identifier as nat) + ue_bits(m.app_version as nat) + seq![
                    m.metadata_refresh_flag,
                ];
                &&& m.dm_data is Some <==> m.metadata_refresh_flag
                &&& m.dm_data is None ==> advanced_by(*old(r), *final(r), head)
                &&& m.dm_data is Some ==> {
                    let d = m.dm_data->0;
                    &&& d.version() == CmVersion::V29
                    &&& d.wf()
                    &&& advanced_by(
                        *old(r),
                        *final(r),
                        head + d.encode(reader_pos(*old(r)) + head.len()),
                    )
                }
            },
            (exists|a: u64, v: u64, tail: Seq<bool>|
                a < u64::MAX && v < u64::MAX && #[trigger] (ue_bits(a as nat) + ue_bits(v as nat)
                    + tail) == remaining(*old(r)) && refresh_body_readable(
                    tail,
                    reader_pos(*old(r)) + ue_bits(a as nat).len() + ue_bits(v as nat).len(),
                )) ==> res is Ok,
        res is Err <==> st2094_10_error(remaining(*old(r)), reader_pos(*old(r))) is Some,
        res is Err ==> res->Err_0 == st2094_10_error(remaining(*old(r)), reader_pos(*old(r)))->0,
        res is Ok ==> res->Ok_0.app_identifier == ue_decode(remaining(*old(r)))->Ok_0.0
            && res->Ok_0.app_version == ue_decode(
            remaining(*old(r)).subrange(
                ue_decode(remaining(*old(r)))->Ok_0.1 as int,
                remaining(*old(r)).len() as int,
            ),
        )->Ok_0.0,
    {
        let ghost r0 = *r;
        let ghost h = exists|a: u64, v: u64, tail: Seq<bool>|
            a < u64::MAX && v < u64::MAX && #[trigger] (ue_bits(a as nat) + ue_bits(v as nat) + tail)
                == remaining(r0) && refresh_body_readable(
                tail,
                reader_pos(r0) + ue_bits(a as nat).len() + ue_bits(v as nat).len(),
            );
        let ghost pick = choose|a: u64, v: u64, tail: Seq<bool>|
            a < u64::MAX && v < u64::MAX && #[trigger] (ue_bits(a as nat) + ue_bits(v as nat) + tail)
                == remaining(r0) && refresh_body_readable(
                tail,
                reader_pos(r0) + ue_bits(a as nat).len() + ue_bits(v as nat).len(),
            );
        let ghost (ha, hv, htail) = pick;
        proof {
            if h {
                assert(remaining(r0) =~= ue_bits(ha as nat) + (ue_bits(hv as nat) + htail));
                lemma_ue_round_trip(ha, ue_bits(hv as nat) + htail);
            }
        }
        let app_identifier = read_ue(r)?;
        let ghost r1 = *r;
        proof {
            let s0 = remaining(r0);
            assert(remaining(r1) =~= s0.subrange(
                ue_decode(s0)->Ok_0.1 as int,
                s0.len() as int,
            ));
        }
        proof {
            if h {
                lemma_advance_rest(r0, r1, ue_bits(ha as nat), ue_bits(hv as nat) + htail);
                lemma_ue_round_trip(hv, htail);
            }
        }
        let app_version = read_ue(r)?;
        let ghost r2 = *r;
        proof {
            let t = remaining(r1);
            assert(remaining(r2) =~= t.subrange(ue_decode(t)->Ok_0.1 as int, t.len() as int));
        }
        proof {
            if h {
                lemma_advance_rest(r1, r2, ue_bits(hv as nat), htail);
            }
        }
        let metadata_refresh_flag = read_bit(r)?;
        let ghost r3 = *r;
        proof {
            let t = remaining(r1);
            let n2 = ue_decode(t)->Ok_0.1;
            assert(metadata_refresh_flag == t[n2 as int]);
            assert(remaining(r3) =~= t.subrange((n2 + 1) as int, t.len() as int));
            assert(reader_pos(r3) == reader_pos(r0) + ue_decode(remaining(r0))->Ok_0.1 + n2 + 1);
        }
        proof {
            if h {
                assert(htail =~= seq![htail[0]] + htail.drop_first());
                lemma_advance_rest(r2, r3, seq![metadata_refresh_flag], htail.drop_first());
            }
        }
        proof {
            lemma_advance_trans(r0, r1, r2, ue_bits(app_identifier as nat), ue_bits(app_version as nat));
            lemma_advance_trans(
                r0,
                r2,
                r3,
                ue_bits(app_identifier as nat) + ue_bits(app_version as nat),
                seq![metadata_refresh_flag],
            );
        }
        let mut meta = ST2094_10DmData {
            app_identifier,
            app_version,
            metadata_refresh_flag,
            dm_data: None,
        };
        if metadata_refresh_flag {
            proof {
                if h {
                    assert(reader_pos(r3) == reader_pos(r0) + ue_bits(ha as nat).len() + ue_bits(
                        hv as nat,
                    ).len() + 1);
                    let (d, rest) = choose|d: DmData, rest: Seq<bool>|
                        d.version() == CmVersion::V29 && readable_envelope(d) && htail.drop_first()
                            == #[trigger] (d.encode(reader_pos(r3)) + rest);
                    assert(d.encode(reader_pos(r3)) + rest == remaining(r3));
                }
            }
            let d = DmData::parse(r, CmVersion::V29)?;
            proof {
                let head = ue_bits(app_identifier as nat) + ue_bits(app_version as nat) + seq![
                    metadata_refresh_flag,
                ];
                assert(reader_pos(r3) == reader_pos(r0) + head.len());
                lemma_advance_trans(r0, r3, *r, head, d.encode(reader_pos(r3)));
            }
            meta.dm_data = Some(d);
        }
        Ok(meta)
    }
}

} // verus!
