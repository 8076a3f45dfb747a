//! The named-submessage path. Two envelope methods wrap further encoded
//! messages: the generic action wrapper carries one `{name, data}` pair
//! whose `data` bytes encode the action named by `name`; the restore/sync
//! method carries a list of such items whose `data` is base64 text, an
//! empty `data` meaning an empty object. Both go through one recursive
//! decode-by-name operation. When the inner action is the configured
//! new-round action, its `md5` field is set to the configured fixed
//! placeholder before serialization: a deliberate normalization that makes
//! the output deterministic and strips an entropy source downstream
//! consumers do not need; it is not a decoding fault.

use vstd::prelude::*;
use crate::base64::{b64_parse, base64_decode};
use crate::bytesutil::{bytes_eq, copy_bytes};
use crate::errors::DecodeError;
use crate::json::{JVal, Json, jview, jview_obj, jobj_set, json_obj_set, lemma_jview_obj};
use crate::message::{
    DynamicMessage, FieldValue, ValV, mfields_get, message_view, spec_decode_message,
    decode_message,
};
use crate::schema::{MsgV, SchemaPool, msg_view, pool_view, spec_resolve};
use crate::serialize::{msg_json, to_json};

verus! {

/// The protocol's special names, supplied by the caller as configuration:
/// which method wraps a single action, which method carries the sync list,
/// which action is the new-round action, and the fixed placeholder written
/// into its `md5` field.
pub struct Protocol {
    pub action_method: Vec<u8>,
    pub sync_method: Vec<u8>,
    pub new_round_action: Vec<u8>,
    pub md5_placeholder: Vec<u8>,
}

/// The ghost model of the protocol configuration.
pub struct ProtoV {
    pub action_method: Seq<u8>,
    pub sync_method: Seq<u8>,
    pub new_round: Seq<u8>,
    pub placeholder: Seq<u8>,
}

pub open spec fn proto_view(p: Protocol) -> ProtoV {
    ProtoV {
        action_method: p.action_method@,
        sync_method: p.sync_method@,
        new_round: p.new_round_action@,
        placeholder: p.md5_placeholder@,
    }
}

/// The wire name of the inner-action name field.
pub open spec fn name_key() -> Seq<u8> {
    seq![110u8, 97u8, 109u8, 101u8]
}

/// The wire name of the inner-action data field.
pub open spec fn data_key() -> Seq<u8> {
    seq![100u8, 97u8, 116u8, 97u8]
}

/// The wire name of the md5 field the placeholder overwrites.
pub open spec fn md5_key() -> Seq<u8> {
    seq![109u8, 100u8, 53u8]
}

/// The wire name of the sync method's item list.
pub open spec fn actions_key() -> Seq<u8> {
    seq![97u8, 99u8, 116u8, 105u8, 111u8, 110u8, 115u8]
}

/// The key under which the sync items are emitted.
pub open spec fn sync_out_key() -> Seq<u8> {
    seq![
        115u8, 121u8, 110u8, 99u8, 95u8, 103u8, 97u8, 109u8, 101u8, 95u8, 97u8, 99u8,
        116u8, 105u8, 111u8, 110u8, 115u8,
    ]
}

pub fn name_key_vec() -> (v: Vec<u8>)
    ensures
        v@ == name_key(),
{
    let mut v: Vec<u8> = Vec::new();
    v.push(110);
    v.push(97);
    v.push(109);
    v.push(101);
    proof {
        assert(v@ =~= name_key());
    }
    v
}

pub fn data_key_vec() -> (v: Vec<u8>)
    ensures
        v@ == data_key(),
{
    let mut v: Vec<u8> = Vec::new();
    v.push(100);
    v.push(97);
    v.push(116);
    v.push(97);
    proof {
        assert(v@ =~= data_key());
    }
    v
}

pub fn md5_key_vec() -> (v: Vec<u8>)
    ensures
        v@ == md5_key(),
{
    let mut v: Vec<u8> = Vec::new();
    v.push(109);
    v.push(100);
    v.push(53);
    proof {
        assert(v@ =~= md5_key());
    }
    v
}

pub fn actions_key_vec() -> (v: Vec<u8>)
    ensures
        v@ == actions_key(),
{
    let mut v: Vec<u8> = Vec::new();
    v.push(97);
    v.push(99);
    v.push(116);
    v.push(105);
    v.push(111);
    v.push(110);
    v.push(115);
    proof {
        assert(v@ =~= actions_key());
    }
    v
}

pub fn sync_out_key_vec() -> (v: Vec<u8>)
    ensures
        v@ == sync_out_key(),
{
    let mut v: Vec<u8> = Vec::new();
    v.push(115);
    v.push(121);
    v.push(110);
    v.push(99);
    v.push(95);
    v.push(103);
    v.push(97);
    v.push(109);
    v.push(101);
    v.push(95);
    v.push(97);
    v.push(99);
    v.push(116);
    v.push(105);
    v.push(111);
    v.push(110);
    v.push(115);
    proof {
        assert(v@ =~= sync_out_key());
    }
    v
}

/// What decoding the sub-message named `name` from `data` yields: its JSON
/// object, with the md5 placeholder applied when the name is the new-round
/// action.
pub open spec fn spec_decode_named(
    pool: Seq<MsgV>,
    proto: ProtoV,
    name: Seq<u8>,
    data: Seq<u8>,
) -> Result<JVal, DecodeError> {
    match spec_resolve(pool, name) {
        None => Err(DecodeError::UnknownMethod),
        Some(desc) => match spec_decode_message(desc, data) {
            None => Err(DecodeError::Malformed),
            Some(m) => if name == proto.new_round {
                Ok(
                    JVal::Obj(
                        jobj_set(msg_json(m)->Obj_0, md5_key(), JVal::Str(proto.placeholder)),
                    ),
                )
            } else {
                Ok(msg_json(m))
            },
        },
    }
}

/// Decodes the sub-message named `name` from `data`.
pub fn decode_named(pool: &SchemaPool, proto: &Protocol, name: &[u8], data: &[u8]) -> (r:
    Result<Json, DecodeError>)
    ensures
        match r {
            Ok(j) => spec_decode_named(pool_view(*pool), proto_view(*proto), name@, data@)
                == Ok::<JVal, DecodeError>(jview(j)),
            Err(e) => spec_decode_named(pool_view(*pool), proto_view(*proto), name@, data@)
                == Err::<JVal, DecodeError>(e),
        },
{
    let desc = match pool.resolve(name) {
        None => {
            return Err(DecodeError::UnknownMethod);
        },
        Some(d) => d,
    };
    let m = match decode_message(desc, data) {
        Err(e) => {
            return Err(e);
        },
        Ok(m) => m,
    };
    let j = to_json(&m);
    if bytes_eq(name, proto.new_round_action.as_slice()) {
        let key = md5_key_vec();
        let placeholder = Json::Str(copy_bytes(proto.md5_placeholder.as_slice()));
        Ok(json_obj_set(j, key.as_slice(), placeholder))
    } else {
        Ok(j)
    }
}

/// What decoding the single-action wrapper payload yields: the inner action
/// name, and the wrapper's JSON with its `data` field replaced by the
/// decoded inner object.
pub open spec fn spec_decode_action(pool: Seq<MsgV>, proto: ProtoV, payload: Seq<u8>) -> Result<
    (Seq<u8>, JVal),
    DecodeError,
> {
    match spec_resolve(pool, proto.action_method) {
        None => Err(DecodeError::UnknownMethod),
        Some(desc) => match spec_decode_message(desc, payload) {
            None => Err(DecodeError::Malformed),
            Some(m) => match (mfields_get(m, name_key()), mfields_get(m, data_key())) {
                (Some(ValV::Str(nm)), Some(ValV::Bytes(d))) => match spec_decode_named(
                    pool,
                    proto,
                    nm,
                    d,
                ) {
                    Err(e) => Err(e),
                    Ok(inner) => Ok(
                        (nm, JVal::Obj(jobj_set(msg_json(m)->Obj_0, data_key(), inner))),
                    ),
                },
                _ => Err(DecodeError::MissingField),
            },
        },
    }
}

/// Decodes the single-action wrapper payload.
pub fn decode_action(pool: &SchemaPool, proto: &Protocol, payload: &[u8]) -> (r: Result<
    (Vec<u8>, Json),
    DecodeError,
>)
    ensures
        match r {
            Ok(p) => spec_decode_action(pool_view(*pool), proto_view(*proto), payload@)
                == Ok::<(Seq<u8>, JVal), DecodeError>((p.0@, jview(p.1))),
            Err(e) => spec_decode_action(pool_view(*pool), proto_view(*proto), payload@)
                == Err::<(Seq<u8>, JVal), DecodeError>(e),
        },
{
    let desc = match pool.resolve(proto.action_method.as_slice()) {
        None => {
            return Err(DecodeError::UnknownMethod);
        },
        Some(d) => d,
    };
    let m = match decode_message(desc, payload) {
        Err(e) => {
            return Err(e);
        },
        Ok(m) => m,
    };
    let nkey = name_key_vec();
    let dkey = data_key_vec();
    let nm: Vec<u8> = match m.get(nkey.as_slice()) {
        Some(FieldValue::Str(b)) => copy_bytes(b.as_slice()),
        _ => {
            return Err(DecodeError::MissingField);
        },
    };
    let d: Vec<u8> = match m.get(dkey.as_slice()) {
        Some(FieldValue::Bytes(b)) => copy_bytes(b.as_slice()),
        _ => {
            return Err(DecodeError::MissingField);
        },
    };
    let inner = match decode_named(pool, proto, nm.as_slice(), d.as_slice()) {
        Err(e) => {
            return Err(e);
        },
        Ok(j) => j,
    };
    let wrapper = to_json(&m);
    let out = json_obj_set(wrapper, dkey.as_slice(), inner);
    Ok((nm, out))
}

/// The JSON of one sync item.
pub open spec fn sync_item_obj(nm: Seq<u8>, dj: JVal) -> JVal {
    JVal::Obj(seq![(name_key(), JVal::Str(nm)), (data_key(), dj)])
}

/// What decoding one sync item yields: its name and its decoded data, an
/// empty `data` meaning an empty object.
pub open spec fn spec_sync_item(pool: Seq<MsgV>, proto: ProtoV, desc: MsgV, item: Seq<u8>)
    -> Result<JVal, DecodeError> {
    match spec_decode_message(desc, item) {
        None => Err(DecodeError::Malformed),
        Some(m) => match (mfields_get(m, name_key()), mfields_get(m, data_key())) {
            (Some(ValV::Str(nm)), Some(ValV::Bytes(d))) => if d.len() == 0 {
                Ok(sync_item_obj(nm, JVal::Obj(Seq::empty())))
            } else {
                match b64_parse(d) {
                    None => Err(DecodeError::Malformed),
                    Some(raw) => match spec_decode_named(pool, proto, nm, raw) {
                        Err(e) => Err(e),
                        Ok(inner) => Ok(sync_item_obj(nm, inner)),
                    },
                }
            },
            _ => Err(DecodeError::MissingField),
        },
    }
}

/// The decoded sync items, in list order; the first failure wins.
pub open spec fn spec_sync_items(
    pool: Seq<MsgV>,
    proto: ProtoV,
    desc: MsgV,
    items: Seq<Seq<u8>>,
) -> Result<Seq<JVal>, DecodeError>
    decreases items.len(),
{
    if items.len() == 0 {
        Ok(Seq::empty())
    } else {
        match spec_sync_items(pool, proto, desc, items.drop_last()) {
            Err(e) => Err(e),
            Ok(rest) => match spec_sync_item(pool, proto, desc, items.last()) {
                Err(e) => Err(e),
                Ok(j) => Ok(rest.push(j)),
            },
        }
    }
}

/// What decoding the restore/sync payload yields: the items wrapped under
/// the sync output key.
pub open spec fn spec_decode_sync(pool: Seq<MsgV>, proto: ProtoV, payload: Seq<u8>) -> Result<
    JVal,
    DecodeError,
> {
    match spec_resolve(pool, proto.sync_method) {
        None => Err(DecodeError::UnknownMethod),
        Some(sdesc) => match spec_decode_message(sdesc, payload) {
            None => Err(DecodeError::Malformed),
            Some(m) => match mfields_get(m, actions_key()) {
                Some(ValV::BytesList(items)) => match spec_resolve(pool, proto.action_method) {
                    None => Err(DecodeError::UnknownMethod),
                    Some(adesc) => match spec_sync_items(pool, proto, adesc, items) {
                        Err(e) => Err(e),
                        Ok(list) => Ok(
                            JVal::Obj(seq![(sync_out_key(), JVal::Arr(list))]),
                        ),
                    },
                },
                _ => Err(DecodeError::MissingField),
            },
        },
    }
}

proof fn lemma_sync_items_err(
    pool: Seq<MsgV>,
    proto: ProtoV,
    desc: MsgV,
    items: Seq<Seq<u8>>,
    i: int,
    e: DecodeError,
)
    requires
        0 <= i <= items.len(),
        spec_sync_items(pool, proto, desc, items.take(i)) == Err::<Seq<JVal>, _>(e),
    ensures
        spec_sync_items(pool, proto, desc, items) == Err::<Seq<JVal>, _>(e),
    decreases items.len() - i,
{
    if i < items.len() {
        assert(items.take(i + 1).drop_last() =~= items.take(i));
        lemma_sync_items_err(pool, proto, desc, items, i + 1, e);
    } else {
        assert(items.take(i) =~= items);
    }
}

fn decode_sync_item(pool: &SchemaPool, proto: &Protocol, desc: &crate::schema::MsgDesc, item: &[u8])
    -> (r: Result<Json, DecodeError>)
    ensures
        match r {
            Ok(j) => spec_sync_item(pool_view(*pool), proto_view(*proto), msg_view(*desc), item@)
                == Ok::<JVal, DecodeError>(jview(j)),
            Err(e) => spec_sync_item(pool_view(*pool), proto_view(*proto), msg_view(*desc), item@)
                == Err::<JVal, DecodeError>(e),
        },
{
    let m = match decode_message(desc, item) {
        Err(e) => {
            return Err(e);
        },
        Ok(m) => m,
    };
    let nkey = name_key_vec();
    let dkey = data_key_vec();
    let nm: Vec<u8> = match m.get(nkey.as_slice()) {
        Some(FieldValue::Str(b)) => copy_bytes(b.as_slice()),
        _ => {
            return Err(DecodeError::MissingField);
        },
    };
    let d: Vec<u8> = match m.get(dkey.as_slice()) {
        Some(FieldValue::Bytes(b)) => copy_bytes(b.as_slice()),
        _ => {
            return Err(DecodeError::MissingField);
        },
    };
    let data_json: Json = if d.len() == 0 {
        Json::Obj(Vec::new())
    } else {
        let raw = match base64_decode(d.as_slice()) {
            None => {
                return Err(DecodeError::Malformed);
            },
            Some(r) => r,
        };
        match decode_named(pool, proto, nm.as_slice(), raw.as_slice()) {
            Err(e) => {
                return Err(e);
            },
            Ok(j) => j,
        }
    };
    let mut fields: Vec<(Vec<u8>, Json)> = Vec::new();
    fields.push((nkey, Json::Str(nm)));
    fields.push((dkey, data_json));
    let r = Json::Obj(fields);
    proof {
        lemma_jview_obj(r->Obj_0@);
        assert(jview_obj(r->Obj_0@) =~= sync_item_obj(nm@, jview(data_json))->Obj_0);
        assert(jview(r) =~~= sync_item_obj(nm@, jview(data_json)));
    }
    Ok(r)
}

/// Decodes the restore/sync payload.
#[verifier::loop_isolation(false)]
pub fn decode_sync(pool: &SchemaPool, proto: &Protocol, payload: &[u8]) -> (r: Result<
    Json,
    DecodeError,
>)
    ensures
        match r {
            Ok(j) => spec_decode_sync(pool_view(*pool), proto_view(*proto), payload@)
                == Ok::<JVal, DecodeError>(jview(j)),
            Err(e) => spec_decode_sync(pool_view(*pool), proto_view(*proto), payload@)
                == Err::<JVal, DecodeError>(e),
        },
{
    let sdesc = match pool.resolve(proto.sync_method.as_slice()) {
        None => {
            return Err(DecodeError::UnknownMethod);
        },
        Some(d) => d,
    };
    let m = match decode_message(sdesc, payload) {
        Err(e) => {
            return Err(e);
        },
        Ok(m) => m,
    };
    let akey = actions_key_vec();
    let items: &Vec<Vec<u8>> = match m.get(akey.as_slice()) {
        Some(FieldValue::BytesList(l)) => l,
        _ => {
            return Err(DecodeError::MissingField);
        },
    };
    let adesc = match pool.resolve(proto.action_method.as_slice()) {
        None => {
            return Err(DecodeError::UnknownMethod);
        },
        Some(d) => d,
    };
    let ghost itemsv = items.deep_view();
    let mut out: Vec<Json> = Vec::new();
    let n: usize = items.len();
    let mut i: usize = 0;
    while i < n
        invariant
            n == items@.len(),
            0 <= i <= n,
            out@.len() == i,
            spec_sync_items(pool_view(*pool), proto_view(*proto), msg_view(*adesc),
                itemsv.take(i as int)) == Ok::<Seq<JVal>, DecodeError>(
                crate::json::jview_arr(out@),
            ),
        decreases n - i,
    {
        proof {
            assert(itemsv.take(i + 1).drop_last() =~= itemsv.take(i as int));
            assert(itemsv.take(i + 1).last() == itemsv[i as int]);
            assert(itemsv[i as int] == items@[i as int]@);
        }
        let ghost out0 = out@;
        match decode_sync_item(pool, proto, adesc, items[i].as_slice()) {
            Err(e) => {
                proof {
                    lemma_sync_items_err(
                        pool_view(*pool),
                        proto_view(*proto),
                        msg_view(*adesc),
                        itemsv,
                        i + 1,
                        e,
                    );
                }
                return Err(e);
            },
            Ok(j) => {
                out.push(j);
                proof {
                    crate::json::lemma_jview_arr(out@);
                    crate::json::lemma_jview_arr(out0);
                    assert(crate::json::jview_arr(out@) =~= crate::json::jview_arr(
                        out0,
                    ).push(jview(j)));
                }
            },
        }
        i = i + 1;
    }
    proof {
        assert(itemsv.take(n as int) =~= itemsv);
    }
    let skey = sync_out_key_vec();
    let mut fields: Vec<(Vec<u8>, Json)> = Vec::new();
    fields.push((skey, Json::Arr(out)));
    let r = Json::Obj(fields);
    proof {
        lemma_jview_obj(r->Obj_0@);
        assert(jview_obj(r->Obj_0@) =~= seq![
            (sync_out_key(), JVal::Arr(crate::json::jview_arr(r->Obj_0@[0].1->Arr_0@))),
        ]);
        assert(jview(r) =~~= JVal::Obj(seq![
            (sync_out_key(), JVal::Arr(crate::json::jview_arr(r->Obj_0@[0].1->Arr_0@))),
        ]));
    }
    Ok(r)
}

} // verus!
