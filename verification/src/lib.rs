//! Liqi wire-protocol decoder and action-dispatch pipeline.
//!
//! The library decodes opaque binary WebSocket frames of the game protocol
//! into typed envelopes, correlates requests with their responses, decodes
//! the dynamically-typed payloads against a runtime schema pool, serializes
//! the result to presence-complete JSON, applies an allow-list forwarding
//! policy, and plans the fire-and-forget dispatch posts. All I/O (the
//! proxy, the channel, the HTTP posts) lives outside the library: the
//! caller owns the loop, feeds each observed frame to `process_frame`, and
//! performs the planned posts.

mod action;
mod base64;
mod bytesutil;
mod errors;
mod frame;
mod json;
mod laws;
mod message;
mod pipeline;
mod policy;
mod schema;
mod serialize;
mod table;
mod varint;
mod wire;

pub use action::{
    Protocol, decode_action, decode_named, decode_sync, spec_decode_action,
    spec_decode_named, spec_decode_sync, actions_key_vec, data_key_vec, md5_key_vec,
    name_key_vec, sync_out_key_vec,
};
pub use base64::{base64_decode, base64_encode, b64_parse, b64_text, lemma_base64_round_trip};
pub use bytesutil::{bytes_eq, copy_bytes, in_list, list_contains};
pub use errors::DecodeError;
pub use frame::{
    Envelope, FrameV, Kind, decode_frame, spec_decode_frame, spec_parse_frame,
    spec_table_after,
};
pub use json::{
    JVal, Json, json_obj_get, json_obj_set, json_text, jview, jview_arr, jview_obj,
    jobj_get, jobj_set, to_text, write_json,
};
pub use laws::{
    lemma_correlation_round_trip, lemma_md5_patch_idempotent, lemma_presence_complete,
    lemma_unknown_correlation,
};
pub use message::{
    DynamicMessage, FieldValue, ValV, decode_message, default_value, has_record,
    message_view, mfields_get, spec_decode_message,
};
pub use pipeline::{
    Direction, Processed, liqi_key_vec, plan_posts, process_frame, spec_payload_json,
    spec_posts,
};
pub use policy::{
    Policy, lemma_policy_toggle_action, lemma_policy_toggle_method, spec_should_forward,
};
pub use schema::{FieldDesc, FieldKind, MsgDesc, SchemaPool, pool_view, spec_resolve};
pub use serialize::{json_clone, msg_json, to_json, val_json};
pub use table::CorrelationTable;
pub use varint::{read_varint, spec_varint_len, spec_varint_ok, spec_varint_value};
pub use wire::parse_records;
