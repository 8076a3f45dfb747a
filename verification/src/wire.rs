//! The record layer of the wire format. A payload is a sequence of records,
//! each a varint tag whose quotient by eight is the field number and whose
//! remainder selects the record shape: zero for a varint scalar, two for a
//! length-delimited byte string. Any other shape, a zero field number, or a
//! truncated record makes the whole payload malformed.

use vstd::prelude::*;
use crate::varint::{
    lemma_varint_fits_u64, lemma_varint_in_bounds, read_varint, spec_varint_len,
    spec_varint_ok, spec_varint_value,
};
use crate::bytesutil::copy_range;

verus! {

/// A record value as the ghost model sees it.
pub enum WireV {
    Num(u64),
    Len(Seq<u8>),
}

/// A record value as the decoder holds it.
pub enum RawVal {
    Num(u64),
    Len(Vec<u8>),
}

pub open spec fn wire_view(r: RawVal) -> WireV {
    match r {
        RawVal::Num(v) => WireV::Num(v),
        RawVal::Len(b) => WireV::Len(b@),
    }
}

pub open spec fn records_view(rs: Seq<(u64, RawVal)>) -> Seq<(u64, WireV)> {
    rs.map_values(|p: (u64, RawVal)| (p.0, wire_view(p.1)))
}

/// The records encoded from `pos` to the end of `s`, or `None` when the
/// bytes are malformed.
pub open spec fn spec_records(s: Seq<u8>, pos: int) -> Option<Seq<(u64, WireV)>>
    decreases s.len() - pos,
{
    if pos < 0 || pos > s.len() {
        None
    } else if pos == s.len() {
        Some(Seq::empty())
    } else if !spec_varint_ok(s, pos) {
        None
    } else {
        let tag = spec_varint_value(s, pos);
        let tlen = spec_varint_len(s, pos);
        let fno = tag / 8;
        let shape = tag % 8;
        if fno == 0 || pos + tlen > s.len() {
            None
        } else if shape == 0 {
            if !spec_varint_ok(s, pos + tlen) {
                None
            } else {
                let v = spec_varint_value(s, pos + tlen);
                let vlen = spec_varint_len(s, pos + tlen);
                if pos + tlen + vlen > s.len() {
                    None
                } else {
                    match spec_records(s, pos + tlen + vlen) {
                        None => None,
                        Some(rest) => Some(
                            seq![(fno as u64, WireV::Num(v as u64))] + rest,
                        ),
                    }
                }
            }
        } else if shape == 2 {
            if !spec_varint_ok(s, pos + tlen) {
                None
            } else {
                let l = spec_varint_value(s, pos + tlen);
                let llen = spec_varint_len(s, pos + tlen);
                if pos + tlen + llen + l > s.len() {
                    None
                } else {
                    let body = s.subrange(pos + tlen + llen, pos + tlen + llen + l);
                    match spec_records(s, pos + tlen + llen + l) {
                        None => None,
                        Some(rest) => Some(seq![(fno as u64, WireV::Len(body))] + rest),
                    }
                }
            }
        } else {
            None
        }
    }
}

/// Splits a payload into its records. `None` exactly when the ghost
/// grammar rejects the bytes.
pub fn parse_records(s: &[u8]) -> (r: Option<Vec<(u64, RawVal)>>)
    ensures
        match r {
            Some(v) => spec_records(s@, 0) == Some(records_view(v@)),
            None => spec_records(s@, 0) is None,
        },
{
    let mut acc: Vec<(u64, RawVal)> = Vec::new();
    let mut pos: usize = 0;
    while pos < s.len()
        invariant
            0 <= pos <= s@.len(),
            match spec_records(s@, pos as int) {
                Some(rest) => spec_records(s@, 0) == Some(records_view(acc@) + rest),
                None => spec_records(s@, 0) is None,
            },
        decreases s@.len() - pos,
    {
        let (tag, tlen) = match read_varint(s, pos) {
            None => {
                return None;
            },
            Some(p) => p,
        };
        proof {
            lemma_varint_in_bounds(s@, pos as int);
            lemma_varint_fits_u64(s@, pos as int);
        }
        let fno = tag / 8;
        let shape = tag % 8;
        if fno == 0 {
            return None;
        }
        if shape == 0 {
            let (v, vlen) = match read_varint(s, pos + tlen) {
                None => {
                    return None;
                },
                Some(p) => p,
            };
            proof {
                lemma_varint_in_bounds(s@, pos + tlen as int);
                lemma_varint_fits_u64(s@, pos + tlen as int);
            }
            let ghost old_acc = acc@;
            let ghost old_pos = pos as int;
            acc.push((fno, RawVal::Num(v)));
            pos = pos + tlen + vlen;
            proof {
                let rec = (fno, WireV::Num(v));
                assert(records_view(acc@) =~= records_view(old_acc).push(rec));
                match spec_records(s@, pos as int) {
                    Some(rest) => {
                        assert(spec_records(s@, old_pos) == Some(seq![rec] + rest));
                        assert(records_view(old_acc) + (seq![rec] + rest) =~= records_view(
                            acc@,
                        ) + rest);
                    },
                    None => {},
                }
            }
        } else if shape == 2 {
            let (l, llen) = match read_varint(s, pos + tlen) {
                None => {
                    return None;
                },
                Some(p) => p,
            };
            proof {
                lemma_varint_in_bounds(s@, pos + tlen as int);
                lemma_varint_fits_u64(s@, pos + tlen as int);
            }
            let start = pos + tlen + llen;
            if l > (s.len() - start) as u64 {
                return None;
            }
            let lu = l as usize;
            let body = copy_range(s, start, start + lu);
            let ghost old_acc = acc@;
            let ghost old_pos = pos as int;
            acc.push((fno, RawVal::Len(body)));
            pos = start + lu;
            proof {
                let rec = (fno, WireV::Len(s@.subrange(old_pos + spec_varint_len(s@, old_pos)
                    + spec_varint_len(s@, old_pos + spec_varint_len(s@, old_pos)), pos as int)));
                assert(records_view(acc@) =~= records_view(old_acc).push(rec));
                match spec_records(s@, pos as int) {
                    Some(rest) => {
                        assert(spec_records(s@, old_pos) == Some(seq![rec] + rest));
                        assert(records_view(old_acc) + (seq![rec] + rest) =~= records_view(
                            acc@,
                        ) + rest);
                    },
                    None => {},
                }
            }
        } else {
            return None;
        }
    }
    proof {
        assert(spec_records(s@, pos as int) == Some(Seq::<(u64, WireV)>::empty()));
        assert(records_view(acc@) + Seq::<(u64, WireV)>::empty() =~= records_view(acc@));
    }
    Some(acc)
}

} // verus!
