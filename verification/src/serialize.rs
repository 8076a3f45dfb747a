//! The reflective serializer: a decoded dynamic message becomes a JSON
//! object. Every field appears under its wire name, in declaration order,
//! defaults included; byte-string values appear as base64 text; repeated
//! fields become arrays in payload order.

use vstd::prelude::*;
use crate::base64::{b64_text, base64_encode};
use crate::bytesutil::copy_bytes;
use crate::json::{JVal, Json, jview, jview_arr, jview_obj, lemma_jview_arr, lemma_jview_obj};
use crate::message::{DynamicMessage, FieldValue, MsgFieldsV, ValV, message_view, value_view};

verus! {

/// The JSON model of one field value.
pub open spec fn val_json(v: ValV) -> JVal {
    match v {
        ValV::U64(n) => JVal::Num(n),
        ValV::Str(s) => JVal::Str(s),
        ValV::Bytes(b) => JVal::Str(b64_text(b)),
        ValV::U64List(l) => JVal::Arr(Seq::new(l.len(), |i: int| JVal::Num(l[i]))),
        ValV::StrList(l) => JVal::Arr(Seq::new(l.len(), |i: int| JVal::Str(l[i]))),
        ValV::BytesList(l) => JVal::Arr(
            Seq::new(l.len(), |i: int| JVal::Str(b64_text(l[i]))),
        ),
    }
}

/// The JSON model of a whole message: its fields, in order.
pub open spec fn msg_json(m: MsgFieldsV) -> JVal {
    JVal::Obj(Seq::new(m.len(), |i: int| (m[i].0, val_json(m[i].1))))
}

#[verifier::loop_isolation(false)]
fn value_to_json(v: &FieldValue) -> (r: Json)
    ensures
        jview(r) == val_json(value_view(*v)),
{
    match v {
        FieldValue::U64(n) => Json::Num(*n),
        FieldValue::Str(b) => Json::Str(copy_bytes(b.as_slice())),
        FieldValue::Bytes(b) => Json::Str(base64_encode(b.as_slice())),
        FieldValue::U64List(l) => {
            let mut out: Vec<Json> = Vec::new();
            let n: usize = l.len();
            let mut i: usize = 0;
            while i < n
                invariant
                    out@.len() == i,
                    0 <= i <= n,
                    forall|k: int| 0 <= k < i ==> jview(out@[k]) == JVal::Num(l@[k]),
                decreases n - i,
            {
                out.push(Json::Num(l[i]));
                i = i + 1;
            }
            let r = Json::Arr(out);
            proof {
                lemma_jview_arr(r->Arr_0@);
                assert(jview_arr(r->Arr_0@) =~= Seq::new(l@.len(), |k: int| JVal::Num(l@[k])));
            }
            r
        },
        FieldValue::StrList(l) => {
            let mut out: Vec<Json> = Vec::new();
            let n: usize = l.len();
            let mut i: usize = 0;
            while i < n
                invariant
                    out@.len() == i,
                    0 <= i <= n,
                    forall|k: int| 0 <= k < i ==> jview(out@[k]) == JVal::Str(
                        l.deep_view()[k],
                    ),
                decreases n - i,
            {
                out.push(Json::Str(copy_bytes(l[i].as_slice())));
                assert(l.deep_view()[i as int] == l@[i as int]@);
                i = i + 1;
            }
            let r = Json::Arr(out);
            proof {
                lemma_jview_arr(r->Arr_0@);
                assert(jview_arr(r->Arr_0@) =~= Seq::new(
                    l.deep_view().len(),
                    |k: int| JVal::Str(l.deep_view()[k]),
                ));
            }
            r
        },
        FieldValue::BytesList(l) => {
            let mut out: Vec<Json> = Vec::new();
            let n: usize = l.len();
            let mut i: usize = 0;
            while i < n
                invariant
                    out@.len() == i,
                    0 <= i <= n,
                    forall|k: int| 0 <= k < i ==> jview(out@[k]) == JVal::Str(
                        b64_text(l.deep_view()[k]),
                    ),
                decreases n - i,
            {
                out.push(Json::Str(base64_encode(l[i].as_slice())));
                assert(l.deep_view()[i as int] == l@[i as int]@);
                i = i + 1;
            }
            let r = Json::Arr(out);
            proof {
                lemma_jview_arr(r->Arr_0@);
                assert(jview_arr(r->Arr_0@) =~= Seq::new(
                    l.deep_view().len(),
                    |k: int| JVal::Str(b64_text(l.deep_view()[k])),
                ));
            }
            r
        },
    }
}

/// Serializes a decoded message to its JSON object.
#[verifier::loop_isolation(false)]
pub fn to_json(m: &DynamicMessage) -> (r: Json)
    ensures
        jview(r) == msg_json(message_view(*m)),
{
    let ghost mv = message_view(*m);
    let mut out: Vec<(Vec<u8>, Json)> = Vec::new();
    let n: usize = m.fields.len();
    let mut i: usize = 0;
    while i < n
        invariant
            out@.len() == i,
            0 <= i <= n,
            forall|k: int| 0 <= k < i ==> out@[k].0@ == mv[k].0 && jview(out@[k].1)
                == val_json(mv[k].1),
        decreases n - i,
    {
        let entry = &m.fields[i];
        let name = copy_bytes(entry.0.as_slice());
        let value = value_to_json(&entry.1);
        proof {
            assert(mv[i as int] == (m.fields@[i as int].0@, value_view(
                m.fields@[i as int].1,
            )));
        }
        out.push((name, value));
        i = i + 1;
    }
    let r = Json::Obj(out);
    proof {
        lemma_jview_obj(r->Obj_0@);
        assert(jview_obj(r->Obj_0@) =~= Seq::new(mv.len(), |k: int| (mv[k].0, val_json(
            mv[k].1,
        ))));
    }
    r
}

/// A fresh JSON value with the same model.
#[verifier::loop_isolation(false)]
pub fn json_clone(j: &Json) -> (r: Json)
    ensures
        jview(r) == jview(*j),
    decreases *j,
{
    match j {
        Json::Num(n) => Json::Num(*n),
        Json::Str(b) => Json::Str(copy_bytes(b.as_slice())),
        Json::Arr(v) => {
            let mut out: Vec<Json> = Vec::new();
            let n: usize = v.len();
            let mut i: usize = 0;
            while i < n
                invariant
                    out@.len() == i,
                    0 <= i <= n,
                    forall|k: int| 0 <= k < i ==> jview(out@[k]) == jview(v@[k]),
                decreases n - i,
            {
                proof {
                    assert(decreases_to!(*j => (*j)->Arr_0));
                    assert((*j)->Arr_0 == *v);
                    assert(decreases_to!(*v => v@));
                    assert(decreases_to!(v@ => v@[i as int]));
                }
                let c = json_clone(&v[i]);
                out.push(c);
                i = i + 1;
            }
            let r = Json::Arr(out);
            proof {
                lemma_jview_arr(r->Arr_0@);
                lemma_jview_arr(v@);
                assert(jview_arr(r->Arr_0@) =~= jview_arr(v@));
            }
            r
        },
        Json::Obj(v) => {
            let mut out: Vec<(Vec<u8>, Json)> = Vec::new();
            let n: usize = v.len();
            let mut i: usize = 0;
            while i < n
                invariant
                    out@.len() == i,
                    0 <= i <= n,
                    forall|k: int| 0 <= k < i ==> out@[k].0@ == v@[k].0@ && jview(out@[k].1)
                        == jview(v@[k].1),
                decreases n - i,
            {
                proof {
                    assert(decreases_to!(*j => (*j)->Obj_0));
                    assert((*j)->Obj_0 == *v);
                    assert(decreases_to!(*v => v@));
                    assert(decreases_to!(v@ => v@[i as int]));
                    assert(decreases_to!(v@[i as int] => v@[i as int].1));
                }
                let entry = &v[i];
                let name = copy_bytes(entry.0.as_slice());
                let value = json_clone(&entry.1);
                out.push((name, value));
                i = i + 1;
            }
            let r = Json::Obj(out);
            proof {
                lemma_jview_obj(r->Obj_0@);
                lemma_jview_obj(v@);
                assert(jview_obj(r->Obj_0@) =~= jview_obj(v@));
            }
            r
        },
    }
}

} // verus!
