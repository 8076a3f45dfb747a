//! The library's cross-cutting guarantees, stated and proved over the same
//! ghost models the function contracts use.

use vstd::prelude::*;
use crate::action::md5_key;
use crate::errors::DecodeError;
use crate::frame::{FrameV, Kind, spec_decode_frame, spec_parse_frame, spec_table_after};
use crate::json::{JVal, jobj_set};
use crate::message::{
    bytes_list_of, bytes_of, decode_fields, default_value, has_record,
    spec_decode_message, u64_of, u64s_of,
};
use crate::schema::{FieldV, MsgV};
use crate::serialize::{msg_json, val_json};
use crate::wire::{WireV, spec_records};

verus! {

/// A request inserts its correlation entry; the response with the same id
/// then resolves to the request's method name, and afterwards the table no
/// longer holds that id.
pub proof fn lemma_correlation_round_trip(req: Seq<u8>, resp: Seq<u8>, t: Map<u16, Seq<u8>>)
    requires
        spec_parse_frame(req) matches Ok(f) && f.kind == Kind::Request,
        spec_parse_frame(resp) matches Ok(g) && g.kind == Kind::Response && g.id
            == spec_parse_frame(req).unwrap().id,
    ensures
        ({
            let f = spec_parse_frame(req).unwrap();
            let g = spec_parse_frame(resp).unwrap();
            let t1 = spec_table_after(req, t);
            &&& spec_decode_frame(resp, t1) matches Ok(h) && h.method == f.method
            &&& !spec_table_after(resp, t1).contains_key(g.id)
        }),
{
    let f = spec_parse_frame(req).unwrap();
    let t1 = spec_table_after(req, t);
    assert(t1 == t.insert(f.id, f.method.unwrap()));
    assert(t1.contains_key(f.id));
}

/// A response whose id was never seen as a request fails with that id's
/// unknown-correlation error and leaves the table unchanged; no dispatch
/// plan exists for it.
pub proof fn lemma_unknown_correlation(resp: Seq<u8>, t: Map<u16, Seq<u8>>)
    requires
        spec_parse_frame(resp) matches Ok(g) && g.kind == Kind::Response,
        !t.contains_key(spec_parse_frame(resp).unwrap().id),
    ensures
        spec_decode_frame(resp, t) == Err::<FrameV, _>(
            DecodeError::UnknownCorrelation(spec_parse_frame(resp).unwrap().id),
        ),
        spec_table_after(resp, t) == t,
{
}

proof fn lemma_unset_defaults(rs: Seq<(u64, WireV)>, no: u64)
    requires
        !has_record(rs, no),
    ensures
        u64_of(rs, no) == Some(0u64),
        bytes_of(rs, no) == Some(Seq::<u8>::empty()),
        u64s_of(rs, no) == Some(Seq::<u64>::empty()),
        bytes_list_of(rs, no) == Some(Seq::<Seq<u8>>::empty()),
    decreases rs.len(),
{
    if rs.len() > 0 {
        assert(rs.last().0 != no);
        assert(!has_record(rs.drop_last(), no)) by {
            if has_record(rs.drop_last(), no) {
                let j = choose|j: int| 0 <= j < rs.drop_last().len() && rs.drop_last()[j].0
                    == no;
                assert(rs[j].0 == no);
            }
        }
        lemma_unset_defaults(rs.drop_last(), no);
    }
}

proof fn lemma_fields_complete(rs: Seq<(u64, WireV)>, fields: Seq<FieldV>)
    requires
        decode_fields(rs, fields) is Some,
    ensures
        ({
            let m = decode_fields(rs, fields).unwrap();
            &&& m.len() == fields.len()
            &&& forall|i: int| 0 <= i < fields.len() ==> (#[trigger] m[i]).0 == fields[i].name
            &&& forall|i: int|
                0 <= i < fields.len() && !has_record(rs, fields[i].number) ==> (
                #[trigger] m[i]).1 == default_value(fields[i].kind, fields[i].repeated)
        }),
    decreases fields.len(),
{
    if fields.len() > 0 {
        lemma_fields_complete(rs, fields.drop_last());
        let last = fields.last();
        if !has_record(rs, last.number) {
            lemma_unset_defaults(rs, last.number);
        }
    }
}

/// Decoding is presence-complete: a decoded message holds every declared
/// field under its wire name in declaration order, and a field no payload
/// record set appears at its schema default rather than being absent. The
/// serialized JSON object therefore holds every declared field too.
pub proof fn lemma_presence_complete(desc: MsgV, s: Seq<u8>)
    requires
        spec_decode_message(desc, s) is Some,
    ensures
        ({
            let m = spec_decode_message(desc, s).unwrap();
            let rs = spec_records(s, 0).unwrap();
            &&& m.len() == desc.fields.len()
            &&& forall|i: int|
                0 <= i < desc.fields.len() ==> (#[trigger] m[i]).0 == desc.fields[i].name
            &&& forall|i: int|
                0 <= i < desc.fields.len() && !has_record(rs, desc.fields[i].number) ==> (
                #[trigger] m[i]).1 == default_value(desc.fields[i].kind, desc.fields[i].repeated)
            &&& msg_json(m)->Obj_0.len() == desc.fields.len()
            &&& forall|i: int|
                0 <= i < desc.fields.len() ==> #[trigger] msg_json(m)->Obj_0[i] == (
                desc.fields[i].name, val_json(m[i].1))
        }),
{
    let rs = spec_records(s, 0).unwrap();
    lemma_fields_complete(rs, desc.fields);
}

/// The new-round placeholder is idempotent: overwriting the md5 field with
/// the placeholder twice leaves exactly the object that one overwrite
/// leaves, so dispatching the same wrapped action twice yields the same
/// JSON text.
pub proof fn lemma_md5_patch_idempotent(fields: Seq<(Seq<u8>, JVal)>, v: JVal)
    ensures
        jobj_set(jobj_set(fields, md5_key(), v), md5_key(), v) == jobj_set(
            fields,
            md5_key(),
            v,
        ),
    decreases fields.len(),
{
    let once = jobj_set(fields, md5_key(), v);
    if fields.len() == 0 {
        assert(jobj_set(once, md5_key(), v) =~= once);
    } else if fields[0].0 == md5_key() {
        assert(once == seq![(md5_key(), v)] + fields.drop_first());
        assert(once[0].0 == md5_key());
        assert(jobj_set(once, md5_key(), v) =~= once);
    } else {
        lemma_md5_patch_idempotent(fields.drop_first(), v);
        assert(once == seq![fields[0]] + jobj_set(fields.drop_first(), md5_key(), v));
        assert(once[0] == fields[0]);
        assert(once.drop_first() =~= jobj_set(fields.drop_first(), md5_key(), v));
        assert(jobj_set(once, md5_key(), v) =~= once);
    }
}

} // verus!
