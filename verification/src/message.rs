//! Decoding a payload against a descriptor into a dynamic message: a list
//! of field-name/value pairs whose shape comes from the schema pool at run
//! time, not from compiled types. Decoding is presence-complete: the message
//! carries every declared field, at its schema default when no record of
//! the payload set it. For a scalar field set more than once the last
//! record wins; a repeated field keeps every record in payload order; a
//! record whose shape contradicts the declared kind makes the payload
//! malformed. Records whose field number no declared field bears are
//! ignored.

use vstd::prelude::*;
use crate::errors::DecodeError;
use crate::schema::{FieldKind, FieldV, MsgDesc, MsgV, msg_view};
use crate::wire::{RawVal, WireV, parse_records, records_view, spec_records};
use crate::bytesutil::copy_bytes;

verus! {

/// A decoded field value as the decoder holds it.
#[derive(Debug)]
pub enum FieldValue {
    U64(u64),
    Str(Vec<u8>),
    Bytes(Vec<u8>),
    U64List(Vec<u64>),
    StrList(Vec<Vec<u8>>),
    BytesList(Vec<Vec<u8>>),
}

/// A decoded field value as the ghost model sees it.
pub enum ValV {
    U64(u64),
    Str(Seq<u8>),
    Bytes(Seq<u8>),
    U64List(Seq<u64>),
    StrList(Seq<Seq<u8>>),
    BytesList(Seq<Seq<u8>>),
}

pub open spec fn value_view(v: FieldValue) -> ValV {
    match v {
        FieldValue::U64(n) => ValV::U64(n),
        FieldValue::Str(b) => ValV::Str(b@),
        FieldValue::Bytes(b) => ValV::Bytes(b@),
        FieldValue::U64List(l) => ValV::U64List(l@),
        FieldValue::StrList(l) => ValV::StrList(l.deep_view()),
        FieldValue::BytesList(l) => ValV::BytesList(l.deep_view()),
    }
}

#[derive(Debug)]
pub struct DynamicMessage {
    pub fields: Vec<(Vec<u8>, FieldValue)>,
}

pub type MsgFieldsV = Seq<(Seq<u8>, ValV)>;

pub open spec fn message_view(m: DynamicMessage) -> MsgFieldsV {
    m.fields@.map_values(|p: (Vec<u8>, FieldValue)| (p.0@, value_view(p.1)))
}

/// Value of a scalar integer field: the last record with this number, or
/// the default zero; a length-delimited record here is malformed.
pub open spec fn u64_of(rs: Seq<(u64, WireV)>, no: u64) -> Option<u64>
    decreases rs.len(),
{
    if rs.len() == 0 {
        Some(0)
    } else {
        let rest = u64_of(rs.drop_last(), no);
        let l = rs.last();
        if l.0 != no {
            rest
        } else {
            match l.1 {
                WireV::Num(v) => if rest is Some {
                    Some(v)
                } else {
                    None
                },
                WireV::Len(_) => None,
            }
        }
    }
}

/// Value of a scalar byte-string field: last record wins, default empty;
/// a varint record here is malformed.
pub open spec fn bytes_of(rs: Seq<(u64, WireV)>, no: u64) -> Option<Seq<u8>>
    decreases rs.len(),
{
    if rs.len() == 0 {
        Some(Seq::empty())
    } else {
        let rest = bytes_of(rs.drop_last(), no);
        let l = rs.last();
        if l.0 != no {
            rest
        } else {
            match l.1 {
                WireV::Len(b) => if rest is Some {
                    Some(b)
                } else {
                    None
                },
                WireV::Num(_) => None,
            }
        }
    }
}

/// Values of a repeated integer field, in payload order.
pub open spec fn u64s_of(rs: Seq<(u64, WireV)>, no: u64) -> Option<Seq<u64>>
    decreases rs.len(),
{
    if rs.len() == 0 {
        Some(Seq::empty())
    } else {
        let rest = u64s_of(rs.drop_last(), no);
        let l = rs.last();
        if l.0 != no {
            rest
        } else {
            match (l.1, rest) {
                (WireV::Num(v), Some(acc)) => Some(acc.push(v)),
                _ => None,
            }
        }
    }
}

/// Values of a repeated byte-string field, in payload order.
pub open spec fn bytes_list_of(rs: Seq<(u64, WireV)>, no: u64) -> Option<Seq<Seq<u8>>>
    decreases rs.len(),
{
    if rs.len() == 0 {
        Some(Seq::empty())
    } else {
        let rest = bytes_list_of(rs.drop_last(), no);
        let l = rs.last();
        if l.0 != no {
            rest
        } else {
            match (l.1, rest) {
                (WireV::Len(b), Some(acc)) => Some(acc.push(b)),
                _ => None,
            }
        }
    }
}

/// The decoded value of one declared field.
pub open spec fn field_value_of(rs: Seq<(u64, WireV)>, f: FieldV) -> Option<ValV> {
    if f.repeated {
        match f.kind {
            FieldKind::U64 => match u64s_of(rs, f.number) {
                Some(l) => Some(ValV::U64List(l)),
                None => None,
            },
            FieldKind::Str => match bytes_list_of(rs, f.number) {
                Some(l) => Some(ValV::StrList(l)),
                None => None,
            },
            FieldKind::Bytes => match bytes_list_of(rs, f.number) {
                Some(l) => Some(ValV::BytesList(l)),
                None => None,
            },
        }
    } else {
        match f.kind {
            FieldKind::U64 => match u64_of(rs, f.number) {
                Some(v) => Some(ValV::U64(v)),
                None => None,
            },
            FieldKind::Str => match bytes_of(rs, f.number) {
                Some(b) => Some(ValV::Str(b)),
                None => None,
            },
            FieldKind::Bytes => match bytes_of(rs, f.number) {
                Some(b) => Some(ValV::Bytes(b)),
                None => None,
            },
        }
    }
}

/// The message decoded from the records: every declared field, in
/// declaration order.
pub open spec fn decode_fields(rs: Seq<(u64, WireV)>, fields: Seq<FieldV>) -> Option<
    MsgFieldsV,
>
    decreases fields.len(),
{
    if fields.len() == 0 {
        Some(Seq::empty())
    } else {
        match (decode_fields(rs, fields.drop_last()), field_value_of(rs, fields.last())) {
            (Some(rest), Some(v)) => Some(rest.push((fields.last().name, v))),
            _ => None,
        }
    }
}

/// What decoding a payload against a descriptor yields.
pub open spec fn spec_decode_message(desc: MsgV, s: Seq<u8>) -> Option<MsgFieldsV> {
    match spec_records(s, 0) {
        None => None,
        Some(rs) => decode_fields(rs, desc.fields),
    }
}

proof fn lemma_u64_none(rs: Seq<(u64, WireV)>, no: u64, i: int)
    requires
        0 <= i <= rs.len(),
        u64_of(rs.take(i), no) is None,
    ensures
        u64_of(rs, no) is None,
    decreases rs.len() - i,
{
    if i < rs.len() {
        assert(rs.take(i + 1).drop_last() =~= rs.take(i));
        lemma_u64_none(rs, no, i + 1);
    } else {
        assert(rs.take(i) =~= rs);
    }
}

proof fn lemma_bytes_none(rs: Seq<(u64, WireV)>, no: u64, i: int)
    requires
        0 <= i <= rs.len(),
        bytes_of(rs.take(i), no) is None,
    ensures
        bytes_of(rs, no) is None,
    decreases rs.len() - i,
{
    if i < rs.len() {
        assert(rs.take(i + 1).drop_last() =~= rs.take(i));
        lemma_bytes_none(rs, no, i + 1);
    } else {
        assert(rs.take(i) =~= rs);
    }
}

proof fn lemma_u64s_none(rs: Seq<(u64, WireV)>, no: u64, i: int)
    requires
        0 <= i <= rs.len(),
        u64s_of(rs.take(i), no) is None,
    ensures
        u64s_of(rs, no) is None,
    decreases rs.len() - i,
{
    if i < rs.len() {
        assert(rs.take(i + 1).drop_last() =~= rs.take(i));
        lemma_u64s_none(rs, no, i + 1);
    } else {
        assert(rs.take(i) =~= rs);
    }
}

proof fn lemma_bytes_list_none(rs: Seq<(u64, WireV)>, no: u64, i: int)
    requires
        0 <= i <= rs.len(),
        bytes_list_of(rs.take(i), no) is None,
    ensures
        bytes_list_of(rs, no) is None,
    decreases rs.len() - i,
{
    if i < rs.len() {
        assert(rs.take(i + 1).drop_last() =~= rs.take(i));
        lemma_bytes_list_none(rs, no, i + 1);
    } else {
        assert(rs.take(i) =~= rs);
    }
}

fn collect_u64(records: &Vec<(u64, RawVal)>, no: u64) -> (r: Option<u64>)
    ensures
        r == u64_of(records_view(records@), no),
{
    let ghost rv = records_view(records@);
    let n: usize = records.len();
    let mut cur: u64 = 0;
    let mut i: usize = 0;
    while i < n
        invariant
            n == records@.len(),
            rv == records_view(records@),
            0 <= i <= n,
            u64_of(rv.take(i as int), no) == Some(cur),
        decreases n - i,
    {
        proof {
            assert(rv.take(i + 1).drop_last() =~= rv.take(i as int));
            assert(rv.take(i + 1).last() == rv[i as int]);
        }
        let rec = &records[i];
        if rec.0 == no {
            match &rec.1 {
                RawVal::Num(v) => {
                    cur = *v;
                },
                RawVal::Len(_) => {
                    proof {
                        lemma_u64_none(rv, no, i + 1);
                    }
                    return None;
                },
            }
        }
        i = i + 1;
    }
    proof {
        assert(rv.take(n as int) =~= rv);
    }
    Some(cur)
}

fn collect_bytes(records: &Vec<(u64, RawVal)>, no: u64) -> (r: Option<Vec<u8>>)
    ensures
        match r {
            Some(b) => bytes_of(records_view(records@), no) == Some(b@),
            None => bytes_of(records_view(records@), no) is None,
        },
{
    let ghost rv = records_view(records@);
    let n: usize = records.len();
    let mut cur: Vec<u8> = Vec::new();
    let mut i: usize = 0;
    while i < n
        invariant
            n == records@.len(),
            rv == records_view(records@),
            0 <= i <= n,
            bytes_of(rv.take(i as int), no) == Some(cur@),
        decreases n - i,
    {
        proof {
            assert(rv.take(i + 1).drop_last() =~= rv.take(i as int));
            assert(rv.take(i + 1).last() == rv[i as int]);
        }
        let rec = &records[i];
        if rec.0 == no {
            match &rec.1 {
                RawVal::Len(b) => {
                    cur = copy_bytes(b.as_slice());
                },
                RawVal::Num(_) => {
                    proof {
                        lemma_bytes_none(rv, no, i + 1);
                    }
                    return None;
                },
            }
        }
        i = i + 1;
    }
    proof {
        assert(rv.take(n as int) =~= rv);
    }
    Some(cur)
}

fn collect_u64s(records: &Vec<(u64, RawVal)>, no: u64) -> (r: Option<Vec<u64>>)
    ensures
        match r {
            Some(l) => u64s_of(records_view(records@), no) == Some(l@),
            None => u64s_of(records_view(records@), no) is None,
        },
{
    let ghost rv = records_view(records@);
    let n: usize = records.len();
    let mut cur: Vec<u64> = Vec::new();
    let mut i: usize = 0;
    while i < n
        invariant
            n == records@.len(),
            rv == records_view(records@),
            0 <= i <= n,
            u64s_of(rv.take(i as int), no) == Some(cur@),
        decreases n - i,
    {
        proof {
            assert(rv.take(i + 1).drop_last() =~= rv.take(i as int));
            assert(rv.take(i + 1).last() == rv[i as int]);
        }
        let rec = &records[i];
        if rec.0 == no {
            match &rec.1 {
                RawVal::Num(v) => {
                    cur.push(*v);
                },
                RawVal::Len(_) => {
                    proof {
                        lemma_u64s_none(rv, no, i + 1);
                    }
                    return None;
                },
            }
        }
        i = i + 1;
    }
    proof {
        assert(rv.take(n as int) =~= rv);
    }
    Some(cur)
}

fn collect_bytes_list(records: &Vec<(u64, RawVal)>, no: u64) -> (r: Option<Vec<Vec<u8>>>)
    ensures
        match r {
            Some(l) => bytes_list_of(records_view(records@), no) == Some(l.deep_view()),
            None => bytes_list_of(records_view(records@), no) is None,
        },
{
    let ghost rv = records_view(records@);
    let n: usize = records.len();
    let mut cur: Vec<Vec<u8>> = Vec::new();
    let mut i: usize = 0;
    while i < n
        invariant
            n == records@.len(),
            rv == records_view(records@),
            0 <= i <= n,
            bytes_list_of(rv.take(i as int), no) == Some(cur.deep_view()),
        decreases n - i,
    {
        proof {
            assert(rv.take(i + 1).drop_last() =~= rv.take(i as int));
            assert(rv.take(i + 1).last() == rv[i as int]);
        }
        let rec = &records[i];
        if rec.0 == no {
            match &rec.1 {
                RawVal::Len(b) => {
                    let ghost old_cur = cur.deep_view();
                    cur.push(copy_bytes(b.as_slice()));
                    proof {
                        assert(cur.deep_view() =~~= old_cur.push(b@));
                    }
                },
                RawVal::Num(_) => {
                    proof {
                        lemma_bytes_list_none(rv, no, i + 1);
                    }
                    return None;
                },
            }
        }
        i = i + 1;
    }
    proof {
        assert(rv.take(n as int) =~= rv);
    }
    Some(cur)
}

proof fn lemma_decode_fields_none(rs: Seq<(u64, WireV)>, fields: Seq<FieldV>, i: int)
    requires
        0 <= i <= fields.len(),
        decode_fields(rs, fields.take(i)) is None,
    ensures
        decode_fields(rs, fields) is None,
    decreases fields.len() - i,
{
    if i < fields.len() {
        assert(fields.take(i + 1).drop_last() =~= fields.take(i));
        lemma_decode_fields_none(rs, fields, i + 1);
    } else {
        assert(fields.take(i) =~= fields);
    }
}

/// Decodes `payload` against `desc`. `Ok` exactly when the ghost decode
/// yields a message, and then the result is that message; `Err(Malformed)`
/// exactly when the ghost decode rejects the bytes.
pub fn decode_message(desc: &MsgDesc, payload: &[u8]) -> (r: Result<
    DynamicMessage,
    DecodeError,
>)
    ensures
        match r {
            Ok(m) => spec_decode_message(msg_view(*desc), payload@) == Some(message_view(m)),
            Err(e) => {
                &&& e == DecodeError::Malformed
                &&& spec_decode_message(msg_view(*desc), payload@) is None
            },
        },
{
    let records = match parse_records(payload) {
        None => {
            return Err(DecodeError::Malformed);
        },
        Some(r) => r,
    };
    let ghost rv = records_view(records@);
    let ghost fv = msg_view(*desc).fields;
    let n: usize = desc.fields.len();
    let mut fields: Vec<(Vec<u8>, FieldValue)> = Vec::new();
    let mut i: usize = 0;
    while i < n
        invariant
            n == desc.fields@.len(),
            rv == records_view(records@),
            spec_records(payload@, 0) == Some(rv),
            fv == msg_view(*desc).fields,
            0 <= i <= n,
            decode_fields(rv, fv.take(i as int)) == Some(message_view(
                DynamicMessage { fields },
            )),
        decreases n - i,
    {
        proof {
            assert(fv.take(i + 1).drop_last() =~= fv.take(i as int));
            assert(fv.take(i + 1).last() == fv[i as int]);
            assert(fv[i as int] == crate::schema::field_view(desc.fields@[i as int]));
        }
        let f = &desc.fields[i];
        let val: FieldValue = if f.repeated {
            match f.kind {
                FieldKind::U64 => match collect_u64s(&records, f.number) {
                    Some(l) => FieldValue::U64List(l),
                    None => {
                        proof {
                            lemma_decode_fields_none(rv, fv, i + 1);
                        }
                        return Err(DecodeError::Malformed);
                    },
                },
                FieldKind::Str => match collect_bytes_list(&records, f.number) {
                    Some(l) => FieldValue::StrList(l),
                    None => {
                        proof {
                            lemma_decode_fields_none(rv, fv, i + 1);
                        }
                        return Err(DecodeError::Malformed);
                    },
                },
                FieldKind::Bytes => match collect_bytes_list(&records, f.number) {
                    Some(l) => FieldValue::BytesList(l),
                    None => {
                        proof {
                            lemma_decode_fields_none(rv, fv, i + 1);
                        }
                        return Err(DecodeError::Malformed);
                    },
                },
            }
        } else {
            match f.kind {
                FieldKind::U64 => match collect_u64(&records, f.number) {
                    Some(v) => FieldValue::U64(v),
                    None => {
                        proof {
                            lemma_decode_fields_none(rv, fv, i + 1);
                        }
                        return Err(DecodeError::Malformed);
                    },
                },
                FieldKind::Str => match collect_bytes(&records, f.number) {
                    Some(b) => FieldValue::Str(b),
                    None => {
                        proof {
                            lemma_decode_fields_none(rv, fv, i + 1);
                        }
                        return Err(DecodeError::Malformed);
                    },
                },
                FieldKind::Bytes => match collect_bytes(&records, f.number) {
                    Some(b) => FieldValue::Bytes(b),
                    None => {
                        proof {
                            lemma_decode_fields_none(rv, fv, i + 1);
                        }
                        return Err(DecodeError::Malformed);
                    },
                },
            }
        };
        let name = copy_bytes(f.name.as_slice());
        let ghost old_fields = fields@;
        fields.push((name, val));
        proof {
            assert(message_view(DynamicMessage { fields }) =~= old_fields.map_values(
                |p: (Vec<u8>, FieldValue)| (p.0@, value_view(p.1)),
            ).push((fv[i as int].name, value_view(val))));
        }
        i = i + 1;
    }
    proof {
        assert(fv.take(n as int) =~= fv);
    }
    Ok(DynamicMessage { fields })
}

/// A record bearing this field number occurs in the payload.
pub open spec fn has_record(rs: Seq<(u64, WireV)>, no: u64) -> bool {
    exists|j: int| 0 <= j < rs.len() && rs[j].0 == no
}

/// The schema default of a field left unset by the payload.
pub open spec fn default_value(kind: FieldKind, repeated: bool) -> ValV {
    if repeated {
        match kind {
            FieldKind::U64 => ValV::U64List(Seq::empty()),
            FieldKind::Str => ValV::StrList(Seq::empty()),
            FieldKind::Bytes => ValV::BytesList(Seq::empty()),
        }
    } else {
        match kind {
            FieldKind::U64 => ValV::U64(0),
            FieldKind::Str => ValV::Str(Seq::empty()),
            FieldKind::Bytes => ValV::Bytes(Seq::empty()),
        }
    }
}

/// First value under `name` in a decoded message.
pub open spec fn mfields_get(m: MsgFieldsV, name: Seq<u8>) -> Option<ValV>
    decreases m.len(),
{
    if m.len() == 0 {
        None
    } else if m[0].0 == name {
        Some(m[0].1)
    } else {
        mfields_get(m.drop_first(), name)
    }
}

proof fn lemma_mfields_get_skip(m: MsgFieldsV, name: Seq<u8>, i: int)
    requires
        0 <= i <= m.len(),
        forall|j: int| 0 <= j < i ==> m[j].0 != name,
    ensures
        mfields_get(m, name) == mfields_get(m.skip(i), name),
    decreases i,
{
    if i == 0 {
        assert(m.skip(0) =~= m);
    } else {
        lemma_mfields_get_skip(m, name, i - 1);
        assert(m.skip(i - 1).drop_first() =~= m.skip(i));
        assert(m.skip(i - 1)[0] == m[i - 1]);
    }
}

impl DynamicMessage {
    /// First field named `name`, if any.
    pub fn get(&self, name: &[u8]) -> (r: Option<&FieldValue>)
        ensures
            match r {
                Some(v) => mfields_get(message_view(*self), name@) == Some(value_view(*v)),
                None => mfields_get(message_view(*self), name@) is None,
            },
    {
        let ghost mv = message_view(*self);
        let n: usize = self.fields.len();
        let mut i: usize = 0;
        while i < n
            invariant
                n == self.fields@.len(),
                mv == message_view(*self),
                0 <= i <= n,
                forall|j: int| 0 <= j < i ==> mv[j].0 != name@,
            decreases n - i,
        {
            if crate::bytesutil::bytes_eq(self.fields[i].0.as_slice(), name) {
                proof {
                    lemma_mfields_get_skip(mv, name@, i as int);
                    assert(mv.skip(i as int)[0] == mv[i as int]);
                }
                return Some(&self.fields[i].1);
            }
            assert(mv[i as int].0 == self.fields@[i as int].0@);
            i = i + 1;
        }
        proof {
            lemma_mfields_get_skip(mv, name@, n as int);
        }
        None
    }
}

} // verus!
