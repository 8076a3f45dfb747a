//! One pipeline step: frame decode, correlation bookkeeping, payload
//! decode, serialization, policy filter, dispatch plan. The caller owns the
//! loop: it feeds each observed frame with its direction and performs the
//! planned posts. Client-to-server messages are eligible for forwarding;
//! server-to-client messages are decoded only to keep the correlation table
//! accurate and are never dispatched. A decode failure is local to one
//! message. When the payload JSON carries a `liqi` field, the plan holds a
//! second post of just that sub-value.

use vstd::prelude::*;
use crate::action::{
    Protocol, ProtoV, proto_view, spec_decode_action, spec_decode_sync, decode_action,
    decode_sync,
};
use crate::bytesutil::bytes_eq;
use crate::errors::DecodeError;
use crate::frame::{Envelope, Kind, decode_frame, spec_decode_frame, spec_table_after};
use crate::json::{JVal, Json, jview, jview_arr, jobj_get, json_obj_get, lemma_jview_arr};
use crate::message::spec_decode_message;
use crate::policy::{Policy, spec_should_forward};
use crate::schema::{MsgV, SchemaPool, pool_view, spec_resolve};
use crate::serialize::{json_clone, msg_json, to_json};
use crate::table::CorrelationTable;

verus! {

#[derive(Clone, Copy, Debug, PartialEq, Eq, Structural)]
pub enum Direction {
    ClientToServer,
    ServerToClient,
}

/// One processed message: its envelope header, its payload as JSON, and
/// the planned dispatch posts (empty when the message is not forwarded).
#[derive(Debug)]
pub struct Processed {
    pub kind: Kind,
    pub id: u16,
    pub method: Vec<u8>,
    pub payload_json: Json,
    pub posts: Vec<Json>,
}

/// The wire name of the embedded sub-payload a secondary consumer wants.
pub open spec fn liqi_key() -> Seq<u8> {
    seq![108u8, 105u8, 113u8, 105u8]
}

pub fn liqi_key_vec() -> (v: Vec<u8>)
    ensures
        v@ == liqi_key(),
{
    let mut v: Vec<u8> = Vec::new();
    v.push(108);
    v.push(105);
    v.push(113);
    v.push(105);
    proof {
        assert(v@ =~= liqi_key());
    }
    v
}

/// The planned posts for one forwarded JSON value: the value itself and,
/// when it carries a `liqi` field, that sub-value as a second post.
pub open spec fn spec_posts(j: JVal) -> Seq<JVal> {
    match j {
        JVal::Obj(fields) => match jobj_get(fields, liqi_key()) {
            Some(sub) => seq![j, sub],
            None => seq![j],
        },
        _ => seq![j],
    }
}

/// Plans the dispatch posts of one forwarded JSON value.
pub fn plan_posts(j: &Json) -> (r: Vec<Json>)
    ensures
        jview_arr(r@) == spec_posts(jview(*j)),
{
    let mut out: Vec<Json> = Vec::new();
    out.push(json_clone(j));
    let key = liqi_key_vec();
    match json_obj_get(j, key.as_slice()) {
        Some(sub) => {
            out.push(json_clone(sub));
            proof {
                lemma_jview_arr(out@);
                assert(jview_arr(out@) =~= seq![jview(*j), jview(*sub)]);
            }
        },
        None => {
            proof {
                lemma_jview_arr(out@);
                assert(jview_arr(out@) =~= seq![jview(*j)]);
            }
        },
    }
    out
}

/// What the payload of a method decodes to: its JSON, and the inner action
/// name when the method is the single-action wrapper.
pub open spec fn spec_payload_json(
    pool: Seq<MsgV>,
    proto: ProtoV,
    method: Seq<u8>,
    payload: Seq<u8>,
) -> Result<(JVal, Option<Seq<u8>>), DecodeError> {
    if method == proto.action_method {
        match spec_decode_action(pool, proto, payload) {
            Err(e) => Err(e),
            Ok(p) => Ok((p.1, Some(p.0))),
        }
    } else if method == proto.sync_method {
        match spec_decode_sync(pool, proto, payload) {
            Err(e) => Err(e),
            Ok(j) => Ok((j, None)),
        }
    } else {
        match spec_resolve(pool, method) {
            None => Err(DecodeError::UnknownMethod),
            Some(desc) => match spec_decode_message(desc, payload) {
                None => Err(DecodeError::Malformed),
                Some(m) => Ok((msg_json(m), None)),
            },
        }
    }
}

/// Decodes one observed frame, keeps the correlation table accurate, and
/// plans the posts. `Ok` carries the envelope, the payload JSON and the
/// plan; `Err` names the decode failure, after which the caller logs and
/// drops this one message.
pub fn process_frame(
    pool: &SchemaPool,
    proto: &Protocol,
    policy: &Policy,
    table: &mut CorrelationTable,
    dir: Direction,
    raw: &[u8],
) -> (r: Result<Processed, DecodeError>)
    ensures
        final(table)@ == spec_table_after(raw@, old(table)@),
        match r {
            Ok(p) => {
                &&& spec_decode_frame(raw@, old(table)@) matches Ok(f)
                &&& p.kind == f.kind
                &&& p.id == f.id
                &&& p.method@ == f.method.unwrap()
                &&& spec_payload_json(
                    pool_view(*pool),
                    proto_view(*proto),
                    f.method.unwrap(),
                    f.payload,
                ) matches Ok(pair)
                &&& jview(p.payload_json) == pair.0
                &&& if dir == Direction::ClientToServer && spec_should_forward(
                    policy.methods.deep_view(),
                    policy.actions.deep_view(),
                    proto_view(*proto).action_method,
                    f.method.unwrap(),
                    pair.1,
                ) {
                    jview_arr(p.posts@) == spec_posts(pair.0)
                } else {
                    p.posts@.len() == 0
                }
            },
            Err(e) => match spec_decode_frame(raw@, old(table)@) {
                Err(e2) => e == e2,
                Ok(f) => spec_payload_json(
                    pool_view(*pool),
                    proto_view(*proto),
                    f.method.unwrap(),
                    f.payload,
                ) == Err::<(JVal, Option<Seq<u8>>), DecodeError>(e),
            },
        },
{
    let env: Envelope = match decode_frame(table, raw) {
        Err(e) => {
            return Err(e);
        },
        Ok(env) => env,
    };
    let (payload_json, action_name): (Json, Option<Vec<u8>>) = if bytes_eq(
        env.method.as_slice(),
        proto.action_method.as_slice(),
    ) {
        match decode_action(pool, proto, env.payload.as_slice()) {
            Err(e) => {
                return Err(e);
            },
            Ok(p) => (p.1, Some(p.0)),
        }
    } else if bytes_eq(env.method.as_slice(), proto.sync_method.as_slice()) {
        match decode_sync(pool, proto, env.payload.as_slice()) {
            Err(e) => {
                return Err(e);
            },
            Ok(j) => (j, None),
        }
    } else {
        let desc = match pool.resolve(env.method.as_slice()) {
            None => {
                return Err(DecodeError::UnknownMethod);
            },
            Some(d) => d,
        };
        match crate::message::decode_message(desc, env.payload.as_slice()) {
            Err(e) => {
                return Err(e);
            },
            Ok(m) => (to_json(&m), None),
        }
    };
    let forward = match dir {
        Direction::ClientToServer => {
            let action_ref: Option<&Vec<u8>> = match &action_name {
                Some(a) => Some(a),
                None => None,
            };
            policy.should_forward(
                proto.action_method.as_slice(),
                env.method.as_slice(),
                action_ref,
            )
        },
        Direction::ServerToClient => false,
    };
    let posts: Vec<Json> = if forward {
        plan_posts(&payload_json)
    } else {
        Vec::new()
    };
    Ok(
        Processed {
            kind: env.kind,
            id: env.id,
            method: env.method,
            payload_json,
            posts,
        },
    )
}

} // verus!
