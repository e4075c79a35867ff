use postgres_wire_proxy::inspect::{
    auth_step, decode_backend_message, encode_bind, encode_describe, encode_execute, encode_parse,
    encode_sync, encode_terminate, format_error_fields, format_value, hex_string,
    md5_password_response, message_tag, password_message, report_step, startup_message,
    wrap_column_value, AuthAction, ColumnValue, Message, QueryAction, QueryReport,
};
use postgres_wire_proxy::frame::{classify_startup, next_frame, FrameStep, StartupClass};

#[test]
fn test_hex_string() {
    let input = [0xde, 0xad, 0xbe, 0xef];
    assert_eq!(hex_string(&input), "0xdeadbeef");
}

#[test]
fn test_format_value_with_ascii() {
    assert_eq!(format_value(b"hello"), "text:'hello'");
}

#[test]
fn test_format_value_with_binary() {
    let bytes = hex::decode("000102ff").unwrap();
    assert_eq!(format_value(&bytes), "hex:0x000102ff");
}

#[test]
fn test_md5_password_response() {
    // Example derived from PostgreSQL documentation
    let response = md5_password_response("user", "password", [0x12, 0x34, 0x56, 0x78]);
    assert_eq!(response, "md5d6f407104ca5ba8553d598fed7df90e0");
}

#[test]
fn null_columns_render_as_null() {
    assert_eq!(wrap_column_value(&ColumnValue::Null), "<NULL>");
    assert_eq!(
        wrap_column_value(&ColumnValue::Bytes(b"ok".to_vec())),
        "text:'ok'"
    );
}

#[test]
fn startup_message_is_length_prefixed() {
    let params = vec![("user".to_string(), "u".to_string())];
    let bytes = startup_message(&params);
    // 4 length + 4 protocol + "user\0u\0" + final NUL
    assert_eq!(bytes.len(), 16);
    assert_eq!(&bytes[..4], &16u32.to_be_bytes());
    assert_eq!(&bytes[4..8], &196608u32.to_be_bytes());
    assert_eq!(&bytes[8..], b"user\0u\0\0");
}

#[test]
fn password_message_is_framed() {
    let bytes = password_message("pw");
    assert_eq!(bytes, vec![b'p', 0, 0, 0, 7, b'p', b'w', 0]);
}

#[test]
fn extended_query_frames_are_encoded() {
    let parse = encode_parse("stmt1", "select 1", &vec![]);
    assert_eq!(parse[0], b'P');
    assert_eq!(&parse[5..], b"stmt1\0select 1\0\0\0");

    let bind = encode_bind("portal1", "stmt1", &vec![], &vec![], &vec![1]);
    assert_eq!(bind[0], b'B');
    assert_eq!(&bind[5..], b"portal1\0stmt1\0\0\0\0\0\0\x01\0\x01");

    let describe = encode_describe(b'P', "portal1");
    assert_eq!(describe[0], b'D');
    assert_eq!(&describe[5..], b"Pportal1\0");

    let execute = encode_execute("portal1", 0);
    assert_eq!(execute[0], b'E');
    assert_eq!(&execute[5..], b"portal1\0\0\0\0\0");

    assert_eq!(encode_sync(), vec![b'S', 0, 0, 0, 4]);
    assert_eq!(encode_terminate(), vec![b'X', 0, 0, 0, 4]);
}

#[test]
fn startup_prefix_is_classified() {
    let ssl = [0, 0, 0, 8, 0x04, 0xd2, 0x16, 0x2f];
    assert_eq!(classify_startup(&ssl), StartupClass::SslRequest);
    let cancel = [0, 0, 0, 8, 0x04, 0xd2, 0x16, 0x2e];
    assert_eq!(classify_startup(&cancel), StartupClass::CancelRequest);
    let startup = [0, 0, 0, 16, 0, 3, 0, 0];
    assert_eq!(classify_startup(&startup), StartupClass::Startup);
    assert_eq!(classify_startup(&ssl[..7]), StartupClass::Incomplete);
}

#[test]
fn next_frame_splits_the_head() {
    let mut buf = vec![b'Z', 0, 0, 0, 5, b'I'];
    buf.extend_from_slice(&[b'X']);
    match next_frame(&buf) {
        FrameStep::Frame { kind, body, consumed } => {
            assert_eq!(kind, b'Z');
            assert_eq!(body, vec![b'I']);
            assert_eq!(consumed, 6);
        }
        _ => panic!("expected a complete frame"),
    }
    assert!(matches!(next_frame(&buf[..4]), FrameStep::Incomplete));
    assert!(matches!(next_frame(&buf[..5]), FrameStep::Incomplete));
    assert!(matches!(
        next_frame(&[b'Z', 0, 0, 0, 1, 0]),
        FrameStep::Malformed
    ));
}

#[test]
fn backend_messages_decode_by_kind() {
    assert!(matches!(
        decode_backend_message(b'R', &0u32.to_be_bytes()),
        Message::AuthenticationOk
    ));
    assert!(matches!(
        decode_backend_message(b'R', &3u32.to_be_bytes()),
        Message::AuthenticationCleartextPassword
    ));
    match decode_backend_message(b'R', &[0, 0, 0, 5, 1, 2, 3, 4]) {
        Message::AuthenticationMd5Password { salt } => assert_eq!(salt, [1, 2, 3, 4]),
        _ => panic!("expected md5 challenge"),
    }
    match decode_backend_message(b'R', b"\0\0\0\x0aSCRAM-SHA-256\0\0") {
        Message::AuthenticationSasl { mechanisms } => {
            assert_eq!(mechanisms, vec!["SCRAM-SHA-256".to_string()])
        }
        _ => panic!("expected SASL"),
    }
    match decode_backend_message(b'K', &[0, 0, 0, 7, 0, 0, 0, 9]) {
        Message::BackendKeyData { process_id, secret_key } => {
            assert_eq!(process_id, 7);
            assert_eq!(secret_key, 9);
        }
        _ => panic!("expected backend key data"),
    }
    match decode_backend_message(b'Z', b"I") {
        Message::ReadyForQuery { status } => assert_eq!(status, b'I'),
        _ => panic!("expected ready for query"),
    }
    match decode_backend_message(b'C', b"SELECT 1\0") {
        Message::CommandComplete { tag } => assert_eq!(tag, "SELECT 1"),
        _ => panic!("expected command complete"),
    }
    // Truncated fixed fields decode as Unknown rather than panicking.
    assert!(matches!(
        decode_backend_message(b'R', &[0, 0]),
        Message::Unknown { kind: b'R' }
    ));
    assert!(matches!(
        decode_backend_message(b'Z', &[]),
        Message::Unknown { kind: b'Z' }
    ));
    assert!(matches!(
        decode_backend_message(b'?', b"whatever"),
        Message::Unknown { kind: b'?' }
    ));
}

#[test]
fn auth_steps_follow_the_challenge() {
    assert!(matches!(
        auth_step(&Message::AuthenticationOk, "user", None),
        AuthAction::Continue
    ));
    match auth_step(
        &Message::AuthenticationMd5Password { salt: [0x12, 0x34, 0x56, 0x78] },
        "user",
        Some(&"password".to_string()),
    ) {
        AuthAction::SendPassword(s) => {
            assert_eq!(s, "md5d6f407104ca5ba8553d598fed7df90e0")
        }
        _ => panic!("expected a password response"),
    }
    match auth_step(&Message::AuthenticationCleartextPassword, "user", None) {
        AuthAction::Fail(e) => {
            assert_eq!(e, "server requested cleartext password but none provided")
        }
        _ => panic!("expected failure without a password"),
    }
    match auth_step(
        &Message::AuthenticationSasl { mechanisms: vec!["SCRAM-SHA-256".to_string()] },
        "user",
        Some(&"pw".to_string()),
    ) {
        AuthAction::Fail(e) => {
            assert_eq!(
                e,
                "SASL authentication is not supported: [\"SCRAM-SHA-256\"]"
            )
        }
        _ => panic!("expected SASL failure"),
    }
    match auth_step(&Message::ReadyForQuery { status: b'I' }, "user", None) {
        AuthAction::Ready(s) => assert_eq!(s, "ready for query (transaction state 73)"),
        _ => panic!("expected ready"),
    }
}

#[test]
fn md5_challenge_without_password_fails() {
    match auth_step(
        &Message::AuthenticationMd5Password { salt: [0, 0, 0, 0] },
        "user",
        None,
    ) {
        AuthAction::Fail(e) => assert_eq!(
            e,
            "server requested md5 password authentication but none provided"
        ),
        _ => panic!("expected failure without a password"),
    }
}

#[test]
fn invalid_utf8_command_tag_is_noted() {
    match decode_backend_message(b'C', &[0xff, 0xfe, 0]) {
        Message::CommandComplete { tag } => assert_eq!(tag, "<invalid utf8>"),
        _ => panic!("expected command complete"),
    }
}

#[test]
fn decoded_frame_reencodes_to_the_input() {
    let input = vec![b'Z', 0, 0, 0, 5, b'I', b'X'];
    match next_frame(&input) {
        FrameStep::Frame { kind, body, consumed } => {
            let mut rebuilt = vec![kind];
            rebuilt.extend_from_slice(&((body.len() as u32 + 4).to_be_bytes()));
            rebuilt.extend_from_slice(&body);
            assert_eq!(rebuilt, input[..consumed]);
        }
        _ => panic!("expected a complete frame"),
    }
}

#[test]
fn report_accumulates_query_results() {
    let mut report = QueryReport::default();
    assert!(matches!(
        report_step(&mut report, Message::ParseComplete),
        QueryAction::Continue(_)
    ));
    assert!(report.parse_complete);
    assert!(matches!(
        report_step(&mut report, Message::BindComplete),
        QueryAction::Continue(_)
    ));
    assert!(report.bind_complete);
    let row_desc = decode_backend_message(b'T', &row_description_body());
    report_step(&mut report, row_desc);
    assert_eq!(report.fields.len(), 1);
    let mut dr = vec![0, 1];
    dr.extend_from_slice(&1i32.to_be_bytes());
    dr.push(b'7');
    let data_row = decode_backend_message(b'D', &dr);
    report_step(&mut report, data_row);
    assert_eq!(report.rows.len(), 1);
    assert!(matches!(
        report_step(&mut report, Message::CommandComplete { tag: "SELECT 1".to_string() }),
        QueryAction::Continue(_)
    ));
    assert!(matches!(
        report_step(&mut report, Message::ReadyForQuery { status: b'I' }),
        QueryAction::Done
    ));
    let lines = report.print();
    assert_eq!(lines[0], "parse complete: true");
    assert_eq!(lines[1], "bind complete: true");
    assert_eq!(lines[2], "row description (1 column(s)):");
    assert_eq!(lines[3], "  0: name='id' oid=23 format=text");
    assert_eq!(lines[4], "row 0:");
    assert_eq!(lines[5], "  0 (id / text): text:'7'");
    assert_eq!(lines[6], "command tag: SELECT 1");
}

fn row_description_body() -> Vec<u8> {
    let mut body = vec![0, 1];
    body.extend_from_slice(b"id\0");
    body.extend_from_slice(&0u32.to_be_bytes());
    body.extend_from_slice(&0u16.to_be_bytes());
    body.extend_from_slice(&23u32.to_be_bytes());
    body.extend_from_slice(&4i16.to_be_bytes());
    body.extend_from_slice(&(-1i32).to_be_bytes());
    body.extend_from_slice(&0u16.to_be_bytes());
    body
}

#[test]
fn mismatched_row_width_is_warned_about() {
    let mut report = QueryReport::default();
    let row_desc = decode_backend_message(b'T', &row_description_body());
    report_step(&mut report, row_desc);
    let mut dr = vec![0, 2];
    dr.extend_from_slice(&1i32.to_be_bytes());
    dr.push(b'7');
    dr.extend_from_slice(&1i32.to_be_bytes());
    dr.push(b'8');
    let data_row = decode_backend_message(b'D', &dr);
    match report_step(&mut report, data_row) {
        QueryAction::Continue(lines) => {
            assert_eq!(
                lines[0],
                "warning: row has 2 values but description has 1 columns"
            );
            assert_eq!(lines[1], "data row received:");
        }
        _ => panic!("expected the row to be kept"),
    }
    assert_eq!(report.rows.len(), 1);
}

#[test]
fn backend_errors_fail_the_run() {
    let err = decode_backend_message(b'E', b"SERROR\0Mrelation does not exist\0\0");
    match report_step(&mut QueryReport::default(), err) {
        QueryAction::Fail(e) => assert_eq!(e, "S=ERROR M=relation does not exist"),
        _ => panic!("expected failure"),
    }
}

#[test]
fn error_fields_join_with_spaces() {
    let fields = vec![(b'S', b"ERROR".to_vec()), (b'C', b"42P01".to_vec())];
    assert_eq!(format_error_fields(&fields), "S=ERROR C=42P01");
    assert_eq!(format_error_fields(&vec![]), "");
}

#[test]
fn message_tags_name_the_kind() {
    assert_eq!(message_tag(&Message::ParseComplete), "ParseComplete");
    assert_eq!(message_tag(&Message::CopyDone), "Other");
    assert_eq!(
        message_tag(&Message::ReadyForQuery { status: b'I' }),
        "ReadyForQuery"
    );
}
