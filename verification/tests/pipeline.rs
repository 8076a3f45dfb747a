use liqi_helper::{
    base64_decode, base64_encode, decode_action, decode_frame, decode_message, to_json,
    to_text, CorrelationTable, DecodeError, Direction, FieldDesc, FieldKind, Json, Kind,
    MsgDesc, Policy, Protocol, SchemaPool,
};

fn varint(mut n: u64) -> Vec<u8> {
    let mut out = Vec::new();
    while n >= 128 {
        out.push((n % 128) as u8 + 128);
        n /= 128;
    }
    out.push(n as u8);
    out
}

fn rec_num(no: u64, v: u64) -> Vec<u8> {
    let mut out = varint(no * 8);
    out.extend_from_slice(&varint(v));
    out
}

fn rec_len(no: u64, body: &[u8]) -> Vec<u8> {
    let mut out = varint(no * 8 + 2);
    out.extend_from_slice(&varint(body.len() as u64));
    out.extend_from_slice(body);
    out
}

fn frame_notify(method: &[u8], payload: &[u8]) -> Vec<u8> {
    let mut out = vec![1u8];
    out.extend_from_slice(&varint(method.len() as u64));
    out.extend_from_slice(method);
    out.extend_from_slice(payload);
    out
}

fn frame_request(id: u16, method: &[u8], payload: &[u8]) -> Vec<u8> {
    let mut out = vec![2u8, (id % 256) as u8, (id / 256) as u8];
    out.extend_from_slice(&varint(method.len() as u64));
    out.extend_from_slice(method);
    out.extend_from_slice(payload);
    out
}

fn frame_response(id: u16, payload: &[u8]) -> Vec<u8> {
    let mut out = vec![3u8, (id % 256) as u8, (id / 256) as u8];
    out.extend_from_slice(payload);
    out
}

fn field(number: u64, name: &[u8], kind: FieldKind, repeated: bool) -> FieldDesc {
    FieldDesc { number, name: name.to_vec(), kind, repeated }
}

fn pool() -> SchemaPool {
    SchemaPool {
        msgs: vec![
            MsgDesc {
                name: b".lq.ActionPrototype".to_vec(),
                fields: vec![
                    field(1, b"step", FieldKind::U64, false),
                    field(2, b"name", FieldKind::Str, false),
                    field(3, b"data", FieldKind::Bytes, false),
                ],
            },
            MsgDesc {
                name: b".lq.ActionNewRound".to_vec(),
                fields: vec![
                    field(1, b"chang", FieldKind::U64, false),
                    field(2, b"md5", FieldKind::Str, false),
                ],
            },
            MsgDesc {
                name: b".lq.ActionDiscardTile".to_vec(),
                fields: vec![
                    field(1, b"seat", FieldKind::U64, false),
                    field(2, b"tile", FieldKind::Str, false),
                ],
            },
            MsgDesc {
                name: b".lq.FastTest.syncGame".to_vec(),
                fields: vec![field(1, b"actions", FieldKind::Bytes, true)],
            },
            MsgDesc {
                name: b".lq.Lobby.heatbeat".to_vec(),
                fields: vec![field(1, b"no_operation_counter", FieldKind::U64, false)],
            },
            MsgDesc {
                name: b".lq.NotifyRoomPlayerUpdate".to_vec(),
                fields: vec![field(1, b"player_count", FieldKind::U64, false)],
            },
            MsgDesc {
                name: b".lq.FastTest.authGame".to_vec(),
                fields: vec![field(1, b"liqi", FieldKind::Str, false)],
            },
        ],
    }
}

fn protocol() -> Protocol {
    Protocol {
        action_method: b".lq.ActionPrototype".to_vec(),
        sync_method: b".lq.FastTest.syncGame".to_vec(),
        new_round_action: b".lq.ActionNewRound".to_vec(),
        md5_placeholder: b"0123456789abcdef0123456789abcdef".to_vec(),
    }
}

fn policy() -> Policy {
    Policy {
        api_url: b"http://127.0.0.1:12121/majsoul".to_vec(),
        api_url2: None,
        methods: vec![
            b".lq.ActionPrototype".to_vec(),
            b".lq.FastTest.syncGame".to_vec(),
            b".lq.FastTest.authGame".to_vec(),
        ],
        actions: vec![
            b".lq.ActionNewRound".to_vec(),
            b".lq.ActionDiscardTile".to_vec(),
        ],
    }
}

fn process(
    table: &mut CorrelationTable,
    dir: Direction,
    raw: &[u8],
) -> Result<liqi_helper::Processed, DecodeError> {
    liqi_helper::process_frame(&pool(), &protocol(), &policy(), table, dir, raw)
}

#[test]
fn varint_small_and_two_byte() {
    assert_eq!(liqi_helper::read_varint(&[5], 0), Some((5, 1)));
    assert_eq!(liqi_helper::read_varint(&[0x96, 0x01], 0), Some((150, 2)));
    assert_eq!(liqi_helper::read_varint(&[0x96], 0), None);
}

#[test]
fn varint_width_limit() {
    // Nine bytes is the widest accepted varint; ten is malformed.
    let nine = [0x80, 0x80, 0x80, 0x80, 0x80, 0x80, 0x80, 0x80, 0x40];
    assert_eq!(liqi_helper::read_varint(&nine, 0), Some((1u64 << 62, 9)));
    let ten = [0x80, 0x80, 0x80, 0x80, 0x80, 0x80, 0x80, 0x80, 0x80, 0x01];
    assert_eq!(liqi_helper::read_varint(&ten, 0), None);
}

#[test]
fn largest_correlation_id() {
    let mut table = CorrelationTable::new();
    let req = frame_request(65535, b".lq.Lobby.heatbeat", &[]);
    let env = decode_frame(&mut table, &req).unwrap();
    assert_eq!(env.id, 65535);
    let resp = frame_response(65535, &[]);
    let env2 = decode_frame(&mut table, &resp).unwrap();
    assert_eq!(env2.method, b".lq.Lobby.heatbeat".to_vec());
}

#[test]
fn correlation_round_trip_resolves_method() {
    let mut table = CorrelationTable::new();
    let req = frame_request(7, b".lq.Lobby.heatbeat", &rec_num(1, 5));
    let env = decode_frame(&mut table, &req).unwrap();
    assert_eq!(env.kind, Kind::Request);
    assert_eq!(env.id, 7);
    assert_eq!(env.method, b".lq.Lobby.heatbeat".to_vec());
    assert!(table.contains(7));

    let resp = frame_response(7, &rec_num(1, 0));
    let env2 = decode_frame(&mut table, &resp).unwrap();
    assert_eq!(env2.kind, Kind::Response);
    assert_eq!(env2.method, b".lq.Lobby.heatbeat".to_vec());
    assert!(!table.contains(7));
}

#[test]
fn unknown_correlation_is_error_and_no_dispatch() {
    let mut table = CorrelationTable::new();
    let resp = frame_response(9, &rec_num(1, 0));
    let r = process(&mut table, Direction::ServerToClient, &resp);
    assert_eq!(r.unwrap_err(), DecodeError::UnknownCorrelation(9));
    assert!(!table.contains(9));
}

#[test]
fn presence_complete_default_field() {
    let p = pool();
    let desc = p.resolve(b".lq.Lobby.heatbeat").unwrap();
    let m = decode_message(desc, &[]).unwrap();
    let text = to_text(&to_json(&m));
    assert_eq!(text.as_slice(), b"{\"no_operation_counter\":0}".as_slice());
}

#[test]
fn new_round_placeholder_is_deterministic() {
    let inner = rec_num(1, 2);
    let mut payload = rec_num(1, 1);
    payload.extend_from_slice(&rec_len(2, b".lq.ActionNewRound"));
    payload.extend_from_slice(&rec_len(3, &inner));

    let (name1, json1) = decode_action(&pool(), &protocol(), &payload).unwrap();
    let (name2, json2) = decode_action(&pool(), &protocol(), &payload).unwrap();
    assert_eq!(name1, b".lq.ActionNewRound".to_vec());
    assert_eq!(name2, name1);
    let t1 = to_text(&json1);
    let t2 = to_text(&json2);
    assert_eq!(t1, t2);
    assert_eq!(
        t1.as_slice(),
        b"{\"step\":1,\"name\":\".lq.ActionNewRound\",\"data\":{\"chang\":2,\"md5\":\"0123456789abcdef0123456789abcdef\"}}".as_slice(),
    );
}

#[test]
fn policy_filter_decisions() {
    let p = policy();
    let wrapper = b".lq.ActionPrototype";
    let allowed_action = b".lq.ActionNewRound".to_vec();
    let unlisted_action = b".lq.ActionChiPengGang".to_vec();
    assert!(p.should_forward(wrapper, b".lq.FastTest.authGame", None));
    assert!(!p.should_forward(wrapper, b".lq.NotifyRoomPlayerUpdate", None));
    assert!(p.should_forward(wrapper, wrapper, Some(&allowed_action)));
    assert!(!p.should_forward(wrapper, wrapper, Some(&unlisted_action)));
    assert!(!p.should_forward(wrapper, wrapper, None));
}

#[test]
fn policy_toggle_changes_only_that_method() {
    let mut grown = policy();
    grown.methods.push(b".lq.NotifyRoomPlayerUpdate".to_vec());
    let base = policy();
    let wrapper = b".lq.ActionPrototype";
    // The toggled entry changes its own method's fate ...
    assert!(!base.should_forward(wrapper, b".lq.NotifyRoomPlayerUpdate", None));
    assert!(grown.should_forward(wrapper, b".lq.NotifyRoomPlayerUpdate", None));
    // ... and no other method's.
    assert_eq!(
        base.should_forward(wrapper, b".lq.FastTest.authGame", None),
        grown.should_forward(wrapper, b".lq.FastTest.authGame", None),
    );
    assert_eq!(
        base.should_forward(wrapper, b".lq.Lobby.heatbeat", None),
        grown.should_forward(wrapper, b".lq.Lobby.heatbeat", None),
    );
}

#[test]
fn notify_unlisted_method_decoded_but_not_dispatched() {
    let mut table = CorrelationTable::new();
    let raw = frame_notify(b".lq.NotifyRoomPlayerUpdate", &rec_num(1, 4));
    let p = process(&mut table, Direction::ClientToServer, &raw).unwrap();
    assert_eq!(p.kind, Kind::Notify);
    assert_eq!(
        to_text(&p.payload_json).as_slice(),
        b"{\"player_count\":4}".as_slice(),
    );
    assert_eq!(p.posts.len(), 0);
}

#[test]
fn sync_two_items_in_list_order() {
    // First item: empty data. Second item: a discard-tile action in base64.
    let mut item1 = rec_len(2, b".lq.ActionDiscardTile");
    item1.extend_from_slice(&rec_len(3, b""));

    let mut inner = rec_num(1, 2);
    inner.extend_from_slice(&rec_len(2, b"4m"));
    let b64 = base64_encode(&inner);
    let mut item2 = rec_len(2, b".lq.ActionDiscardTile");
    item2.extend_from_slice(&rec_len(3, &b64));

    let mut payload = rec_len(1, &item1);
    payload.extend_from_slice(&rec_len(1, &item2));
    let raw = frame_request(3, b".lq.FastTest.syncGame", &payload);

    let mut table = CorrelationTable::new();
    let p = process(&mut table, Direction::ClientToServer, &raw).unwrap();
    assert_eq!(
        to_text(&p.payload_json).as_slice(),
        b"{\"sync_game_actions\":[{\"name\":\".lq.ActionDiscardTile\",\"data\":{}},{\"name\":\".lq.ActionDiscardTile\",\"data\":{\"seat\":2,\"tile\":\"4m\"}}]}".as_slice(),
    );
    assert_eq!(p.posts.len(), 1);
}

#[test]
fn liqi_field_plans_two_posts() {
    let mut table = CorrelationTable::new();
    let raw = frame_request(2, b".lq.FastTest.authGame", &rec_len(1, b"hello"));
    let p = process(&mut table, Direction::ClientToServer, &raw).unwrap();
    assert_eq!(p.posts.len(), 2);
    assert_eq!(to_text(&p.posts[0]).as_slice(), b"{\"liqi\":\"hello\"}".as_slice());
    assert_eq!(to_text(&p.posts[1]).as_slice(), b"\"hello\"".as_slice());
}

#[test]
fn server_to_client_never_dispatches() {
    let mut table = CorrelationTable::new();
    let req = frame_request(11, b".lq.FastTest.authGame", &rec_len(1, b"x"));
    let p1 = process(&mut table, Direction::ClientToServer, &req).unwrap();
    assert_eq!(p1.posts.len(), 2);
    assert!(table.contains(11));

    // The response flows server to client: decoded, table consumed, no posts.
    let resp = frame_response(11, &rec_len(1, b"y"));
    let p2 = process(&mut table, Direction::ServerToClient, &resp).unwrap();
    assert_eq!(p2.kind, Kind::Response);
    assert_eq!(p2.method, b".lq.FastTest.authGame".to_vec());
    assert_eq!(p2.posts.len(), 0);
    assert!(!table.contains(11));

    let note = frame_notify(b".lq.NotifyRoomPlayerUpdate", &rec_num(1, 1));
    let p3 = process(&mut table, Direction::ServerToClient, &note).unwrap();
    assert_eq!(p3.posts.len(), 0);
}

#[test]
fn unknown_kind_tag() {
    let mut table = CorrelationTable::new();
    assert_eq!(
        process(&mut table, Direction::ClientToServer, &[9, 0, 0]).unwrap_err(),
        DecodeError::UnknownKind,
    );
    assert_eq!(
        process(&mut table, Direction::ClientToServer, &[]).unwrap_err(),
        DecodeError::UnknownKind,
    );
}

#[test]
fn unknown_method_is_error() {
    let mut table = CorrelationTable::new();
    let raw = frame_notify(b".lq.NoSuchMethod", &[]);
    assert_eq!(
        process(&mut table, Direction::ClientToServer, &raw).unwrap_err(),
        DecodeError::UnknownMethod,
    );
}

#[test]
fn malformed_payload_is_error() {
    let mut table = CorrelationTable::new();
    // A record tag promising a varint value that is missing.
    let raw = frame_notify(b".lq.Lobby.heatbeat", &[0x08]);
    assert_eq!(
        process(&mut table, Direction::ClientToServer, &raw).unwrap_err(),
        DecodeError::Malformed,
    );
    // A truncated frame: request without its id bytes.
    assert_eq!(
        process(&mut table, Direction::ClientToServer, &[2, 1]).unwrap_err(),
        DecodeError::Malformed,
    );
}

#[test]
fn missing_field_in_wrapper_schema() {
    // A protocol whose wrapper method's schema has no name/data fields.
    let proto = Protocol {
        action_method: b".lq.Lobby.heatbeat".to_vec(),
        sync_method: b".lq.FastTest.syncGame".to_vec(),
        new_round_action: b".lq.ActionNewRound".to_vec(),
        md5_placeholder: b"0123456789abcdef0123456789abcdef".to_vec(),
    };
    let r = decode_action(&pool(), &proto, &rec_num(1, 1));
    assert_eq!(r.unwrap_err(), DecodeError::MissingField);
}

#[test]
fn base64_encode_known_vectors() {
    assert_eq!(base64_encode(b"").as_slice(), b"".as_slice());
    assert_eq!(base64_encode(b"f").as_slice(), b"Zg==".as_slice());
    assert_eq!(base64_encode(b"fo").as_slice(), b"Zm8=".as_slice());
    assert_eq!(base64_encode(b"foo").as_slice(), b"Zm9v".as_slice());
    assert_eq!(base64_encode(b"foobar").as_slice(), b"Zm9vYmFy".as_slice());
}

#[test]
fn base64_decode_known_vectors() {
    assert_eq!(base64_decode(b"Zm9vYmFy").unwrap().as_slice(), b"foobar".as_slice());
    assert_eq!(base64_decode(b"Zg==").unwrap().as_slice(), b"f".as_slice());
    assert_eq!(base64_decode(b""), Some(Vec::new()));
    assert_eq!(base64_decode(b"Zg="), None);
    assert_eq!(base64_decode(b"Z?=="), None);
    // Set trailing bits are rejected, not silently dropped.
    assert_eq!(base64_decode(b"Zh=="), None);
}

#[test]
fn json_text_escapes_and_numbers() {
    let j = Json::Obj(vec![
        (b"a\"b".to_vec(), Json::Str(b"x\\y\nz".to_vec())),
        (b"n".to_vec(), Json::Num(1234567890123)),
        (b"l".to_vec(), Json::Arr(vec![Json::Num(0), Json::Str(b"".to_vec())])),
    ]);
    assert_eq!(
        to_text(&j).as_slice(),
        b"{\"a\\\"b\":\"x\\\\y\\u000az\",\"n\":1234567890123,\"l\":[0,\"\"]}".as_slice(),
    );
}

#[test]
fn repeated_and_bytes_fields_serialize() {
    let p = SchemaPool {
        msgs: vec![MsgDesc {
            name: b".lq.Mixed".to_vec(),
            fields: vec![
                field(1, b"ids", FieldKind::U64, true),
                field(2, b"blob", FieldKind::Bytes, false),
            ],
        }],
    };
    let mut payload = rec_num(1, 7);
    payload.extend_from_slice(&rec_num(1, 9));
    payload.extend_from_slice(&rec_len(2, b"foo"));
    let desc = p.resolve(b".lq.Mixed").unwrap();
    let m = decode_message(desc, &payload).unwrap();
    assert_eq!(
        to_text(&to_json(&m)).as_slice(),
        b"{\"ids\":[7,9],\"blob\":\"Zm9v\"}".as_slice(),
    );
}

#[test]
fn last_record_wins_for_scalar() {
    let p = pool();
    let desc = p.resolve(b".lq.Lobby.heatbeat").unwrap();
    let mut payload = rec_num(1, 3);
    payload.extend_from_slice(&rec_num(1, 8));
    let m = decode_message(desc, &payload).unwrap();
    assert_eq!(
        to_text(&to_json(&m)).as_slice(),
        b"{\"no_operation_counter\":8}".as_slice(),
    );
}

#[test]
fn wrong_record_shape_is_malformed() {
    let p = pool();
    let desc = p.resolve(b".lq.Lobby.heatbeat").unwrap();
    // Field one declared as integer, sent length-delimited.
    let payload = rec_len(1, b"zz");
    assert_eq!(decode_message(desc, &payload).unwrap_err(), DecodeError::Malformed);
}
