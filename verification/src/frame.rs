//! The frame decoder. Byte zero is the kind tag: one for Notify, two for
//! Request, three for Response; any other value is unknown. Request and
//! Response carry a two-byte little-endian correlation id next. Notify and
//! Request then carry the method name, varint-length-prefixed; a Response
//! carries no name on the wire and recovers it from the correlation table,
//! consuming the entry. The rest of the buffer is the payload.

use vstd::prelude::*;
use crate::errors::DecodeError;
use crate::table::CorrelationTable;
use crate::varint::{
    lemma_varint_fits_u64, lemma_varint_in_bounds, read_varint, spec_varint_len,
    spec_varint_ok, spec_varint_value,
};
use crate::bytesutil::copy_range;

verus! {

#[derive(Clone, Copy, Debug, PartialEq, Eq, Structural)]
pub enum Kind {
    Notify,
    Request,
    Response,
}

/// A decoded frame header; for a Notify the id is zero.
#[derive(Debug)]
pub struct Envelope {
    pub kind: Kind,
    pub id: u16,
    pub method: Vec<u8>,
    pub payload: Vec<u8>,
}

/// A frame as the ghost model sees it; `method` is `None` on a Response.
pub struct FrameV {
    pub kind: Kind,
    pub id: u16,
    pub method: Option<Seq<u8>>,
    pub payload: Seq<u8>,
}

/// The id bytes, little-endian.
pub open spec fn frame_id(s: Seq<u8>) -> u16 {
    (s[1] + 256 * s[2]) as u16
}

/// What the frame bytes hold, before any table interaction.
pub open spec fn spec_parse_frame(s: Seq<u8>) -> Result<FrameV, DecodeError> {
    if s.len() == 0 {
        Err(DecodeError::UnknownKind)
    } else if s[0] == 1 {
        if !spec_varint_ok(s, 1) {
            Err(DecodeError::Malformed)
        } else {
            let l = spec_varint_value(s, 1);
            let k = spec_varint_len(s, 1);
            if 1 + k + l > s.len() {
                Err(DecodeError::Malformed)
            } else {
                Ok(
                    FrameV {
                        kind: Kind::Notify,
                        id: 0,
                        method: Some(s.subrange(1 + k, 1 + k + l)),
                        payload: s.skip(1 + k + l),
                    },
                )
            }
        }
    } else if s[0] == 2 {
        if s.len() < 3 || !spec_varint_ok(s, 3) {
            Err(DecodeError::Malformed)
        } else {
            let l = spec_varint_value(s, 3);
            let k = spec_varint_len(s, 3);
            if 3 + k + l > s.len() {
                Err(DecodeError::Malformed)
            } else {
                Ok(
                    FrameV {
                        kind: Kind::Request,
                        id: frame_id(s),
                        method: Some(s.subrange(3 + k, 3 + k + l)),
                        payload: s.skip(3 + k + l),
                    },
                )
            }
        }
    } else if s[0] == 3 {
        if s.len() < 3 {
            Err(DecodeError::Malformed)
        } else {
            Ok(
                FrameV {
                    kind: Kind::Response,
                    id: frame_id(s),
                    method: None,
                    payload: s.skip(3),
                },
            )
        }
    } else {
        Err(DecodeError::UnknownKind)
    }
}

/// The correlation table after a frame is decoded: a Request inserts its
/// entry, a Response consumes its entry, everything else leaves the table
/// as it was.
pub open spec fn spec_table_after(s: Seq<u8>, t: Map<u16, Seq<u8>>) -> Map<u16, Seq<u8>> {
    match spec_parse_frame(s) {
        Ok(f) => match f.kind {
            Kind::Request => t.insert(f.id, f.method.unwrap()),
            Kind::Response => if t.contains_key(f.id) {
                t.remove(f.id)
            } else {
                t
            },
            Kind::Notify => t,
        },
        Err(_) => t,
    }
}

/// What decoding a frame against a table yields: the envelope, with a
/// Response's method name recovered from the table, or the error.
pub open spec fn spec_decode_frame(s: Seq<u8>, t: Map<u16, Seq<u8>>) -> Result<
    FrameV,
    DecodeError,
> {
    match spec_parse_frame(s) {
        Err(e) => Err(e),
        Ok(f) => match f.kind {
            Kind::Response => if t.contains_key(f.id) {
                Ok(FrameV { method: Some(t[f.id]), ..f })
            } else {
                Err(DecodeError::UnknownCorrelation(f.id))
            },
            _ => Ok(f),
        },
    }
}

/// Decodes one frame and applies its table side effect.
pub fn decode_frame(table: &mut CorrelationTable, s: &[u8]) -> (r: Result<
    Envelope,
    DecodeError,
>)
    ensures
        final(table)@ == spec_table_after(s@, old(table)@),
        match r {
            Ok(env) => {
                &&& spec_decode_frame(s@, old(table)@) matches Ok(f)
                &&& env.kind == f.kind
                &&& env.id == f.id
                &&& env.method@ == f.method.unwrap()
                &&& env.payload@ == f.payload
            },
            Err(e) => spec_decode_frame(s@, old(table)@) == Err::<FrameV, _>(e),
        },
{
    if s.len() == 0 {
        return Err(DecodeError::UnknownKind);
    }
    let tag = s[0];
    if tag == 1 {
        let (l, k) = match read_varint(s, 1) {
            None => {
                return Err(DecodeError::Malformed);
            },
            Some(p) => p,
        };
        proof {
            lemma_varint_in_bounds(s@, 1);
            lemma_varint_fits_u64(s@, 1);
        }
        let start = 1 + k;
        if l > (s.len() - start) as u64 {
            return Err(DecodeError::Malformed);
        }
        let lu = l as usize;
        let method = copy_range(s, start, start + lu);
        let payload = copy_range(s, start + lu, s.len());
        proof {
            assert(s@.subrange(start + lu, s@.len() as int) =~= s@.skip(start + lu));
        }
        Ok(Envelope { kind: Kind::Notify, id: 0, method, payload })
    } else if tag == 2 {
        if s.len() < 3 {
            return Err(DecodeError::Malformed);
        }
        let id: u16 = s[1] as u16 + 256 * (s[2] as u16);
        let (l, k) = match read_varint(s, 3) {
            None => {
                return Err(DecodeError::Malformed);
            },
            Some(p) => p,
        };
        proof {
            lemma_varint_in_bounds(s@, 3);
            lemma_varint_fits_u64(s@, 3);
        }
        let start = 3 + k;
        if l > (s.len() - start) as u64 {
            return Err(DecodeError::Malformed);
        }
        let lu = l as usize;
        let method = copy_range(s, start, start + lu);
        let payload = copy_range(s, start + lu, s.len());
        proof {
            assert(s@.subrange(start + lu, s@.len() as int) =~= s@.skip(start + lu));
        }
        table.insert(id, copy_range(s, start, start + lu));
        Ok(Envelope { kind: Kind::Request, id, method, payload })
    } else if tag == 3 {
        if s.len() < 3 {
            return Err(DecodeError::Malformed);
        }
        let id: u16 = s[1] as u16 + 256 * (s[2] as u16);
        let method = match table.remove(id) {
            None => {
                return Err(DecodeError::UnknownCorrelation(id));
            },
            Some(m) => m,
        };
        let payload = copy_range(s, 3, s.len());
        proof {
            assert(s@.subrange(3, s@.len() as int) =~= s@.skip(3));
        }
        Ok(Envelope { kind: Kind::Response, id, method, payload })
    } else {
        Err(DecodeError::UnknownKind)
    }
}

} // verus!
