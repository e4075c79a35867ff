use postgres_wire_proxy::protocol::read_cstring;
use postgres_wire_proxy::protocol::{
    describe_format_codes, format_duration, format_identifier, get_pg_type_name, log_hex_dump,
    parse_bind_message, parse_cstring_pair, parse_data_row, parse_error_response, parse_message,
    parse_parameter_description, parse_parse_message, parse_row_description, ClientState,
    ConnectionTiming, MessageDirection,
};

#[test]
fn simple_query_timing_measures_once() {
    let mut timing = ConnectionTiming::new(0);
    timing.mark_simple_query(10);
    assert!(timing.finish_simple_query(25).is_some());
    assert!(timing.finish_simple_query(30).is_none());
}

#[test]
fn format_duration_outputs_seconds() {
    assert_eq!(format_duration(1500), "1.500s");
}

#[test]
fn bind_message_reports_all_binary_result_format() {
    let data = vec![
        0, // portal ""
        b'_', b'p', b'1', 0, // statement "_p1"
        0, 0, // param format count = 0
        0, 0, // param count = 0
        0, 1, // result format count = 1
        0, 1, // binary for all
    ];

    let summary = parse_bind_message(&data).expect("bind parsed");
    assert!(
        summary.contains("ResultFormats=binary (all)"),
        "summary missing binary all: {summary}"
    );
    assert!(
        summary.contains("ParamFormats=text (all)"),
        "summary missing default param format: {summary}"
    );
}

#[test]
fn bind_message_reports_per_column_formats() {
    let data = vec![
        0, // portal ""
        b'_', b'p', b'1', 0, // statement "_p1"
        0, 1, // param format count = 1
        0, 1, // binary params
        0, 0, // param count = 0
        0, 2, // result format count = 2
        0, 0, // column 1 text
        0, 1, // column 2 binary
    ];

    let summary = parse_bind_message(&data).expect("bind parsed");
    assert!(
        summary.contains("ParamFormats=binary (all)"),
        "summary missing binary params: {summary}"
    );
    assert!(
        summary.contains("ResultFormats=[text, binary]"),
        "summary missing per-column formats: {summary}"
    );
}

#[test]
fn other_timing_slots_measure_once() {
    let mut timing = ConnectionTiming::new(0);
    timing.mark_parse(1);
    timing.mark_bind(2);
    timing.mark_execute(3);
    assert_eq!(timing.finish_parse(4), Some(3));
    assert_eq!(timing.finish_parse(5), None);
    assert_eq!(timing.finish_bind(5), Some(3));
    assert_eq!(timing.finish_bind(6), None);
    assert_eq!(timing.finish_execute(7), Some(4));
    assert_eq!(timing.finish_execute(8), None);
    assert_eq!(timing.session_elapsed(42), 42);
}

#[test]
fn duration_fraction_is_zero_padded() {
    assert_eq!(format_duration(42), "0.042s");
    assert_eq!(format_duration(0), "0.000s");
    assert_eq!(format_duration(12007), "12.007s");
}

fn frame(kind: u8, body: &[u8]) -> Vec<u8> {
    let mut out = vec![kind];
    out.extend_from_slice(&((body.len() as u32 + 4).to_be_bytes()));
    out.extend_from_slice(body);
    out
}

#[test]
fn simple_query_frame_produces_one_line() {
    let data = frame(b'Q', b"select 1\0");
    let mut timing = ConnectionTiming::new(0);
    let mut state = ClientState::new(false);
    let lines = parse_message(
        &data,
        MessageDirection::ClientToServer,
        "1",
        &mut timing,
        &mut state,
        false,
        5,
    );
    assert_eq!(lines, vec!["[1] → Query: select 1".to_string()]);
    // The query mark was set by the message.
    assert_eq!(timing.finish_simple_query(9), Some(4));
}

#[test]
fn chunked_stream_decodes_like_whole_stream() {
    // Two frames decoded in one read...
    let mut data = frame(b'S', b"");
    data.extend_from_slice(&frame(b'X', b""));
    let mut timing = ConnectionTiming::new(0);
    let mut state = ClientState::new(false);
    let whole = parse_message(
        &data,
        MessageDirection::ClientToServer,
        "1",
        &mut timing,
        &mut state,
        false,
        0,
    );
    // ... equal the frames decoded one chunk at a time, with the carried tail.
    let mut split_lines = Vec::new();
    let first_chunk = &data[..7]; // five-byte frame plus two bytes of the next
    let mut t2 = ConnectionTiming::new(0);
    let mut s2 = ClientState::new(false);
    let lines = parse_message(
        first_chunk,
        MessageDirection::ClientToServer,
        "1",
        &mut t2,
        &mut s2,
        false,
        0,
    );
    // The trailing partial frame is reported, not decoded.
    assert_eq!(lines.last().unwrap(), "[1] → Partial message (2 bytes)");
    split_lines.extend(lines[..lines.len() - 1].iter().cloned());
    let rest = &data[5..]; // the tail re-fed in front of the next read
    let lines = parse_message(
        rest,
        MessageDirection::ClientToServer,
        "1",
        &mut t2,
        &mut s2,
        false,
        0,
    );
    split_lines.extend(lines.iter().cloned());
    assert_eq!(whole, split_lines);
}

#[test]
fn malformed_length_is_reported() {
    let data = vec![b'Q', 0, 0, 0, 1, 9, 9];
    let mut timing = ConnectionTiming::new(0);
    let mut state = ClientState::new(false);
    let lines = parse_message(
        &data,
        MessageDirection::ClientToServer,
        "1",
        &mut timing,
        &mut state,
        false,
        0,
    );
    assert_eq!(
        lines,
        vec!["[1] → Malformed frame (declared length 1)".to_string()]
    );
}

#[test]
fn command_complete_measures_query_time() {
    let mut timing = ConnectionTiming::new(0);
    let mut state = ClientState::new(false);
    let q = frame(b'Q', b"select 1\0");
    parse_message(
        &q,
        MessageDirection::ClientToServer,
        "1",
        &mut timing,
        &mut state,
        false,
        1000,
    );
    let c = frame(b'C', b"SELECT 1\0");
    let lines = parse_message(
        &c,
        MessageDirection::ServerToClient,
        "1",
        &mut timing,
        &mut state,
        false,
        2500,
    );
    assert_eq!(
        lines,
        vec!["[1] ← CommandComplete: SELECT 1 (query took 1.500s)".to_string()]
    );
    // The slot is cleared: a second completion carries no duration.
    let lines = parse_message(
        &c,
        MessageDirection::ServerToClient,
        "1",
        &mut timing,
        &mut state,
        false,
        2600,
    );
    assert_eq!(lines, vec!["[1] ← CommandComplete: SELECT 1".to_string()]);
}

#[test]
fn hex_dump_formats_sixteen_bytes_per_line() {
    let lines = log_hex_dump(&[0xde, 0xad, 0xbe, 0xef], "1");
    assert_eq!(lines.len(), 1);
    assert_eq!(
        lines[0],
        format!("[1]   0000: de ad be ef{}  ....", " ".repeat(48 - 11))
    );
    let lines = log_hex_dump(&[0x41; 17], "1");
    assert_eq!(lines.len(), 2);
    assert_eq!(
        lines[1],
        format!("[1]   0010: 41{}  A", " ".repeat(46))
    );
}

#[test]
fn cstring_pair_splits_on_nul() {
    let parsed = parse_cstring_pair(b"TimeZone\0UTC\0");
    assert_eq!(
        parsed,
        Some(("TimeZone".to_string(), "UTC".to_string()))
    );
    assert_eq!(parse_cstring_pair(b"no terminator"), None);
}

#[test]
fn error_response_fields_are_labelled() {
    let body = b"SERROR\0C42601\0Msyntax error\0\0";
    let rendered = parse_error_response(body).expect("fields parsed");
    assert_eq!(
        rendered,
        "Severity: ERROR, SQLSTATE: 42601, Message: syntax error"
    );
    assert_eq!(parse_error_response(b"\0"), None);
    assert_eq!(parse_error_response(b""), None);
}

#[test]
fn parse_summary_names_statement_and_query() {
    let details = parse_parse_message(b"s1\0select 1\0\0\0").expect("parsed");
    assert_eq!(details, "Statement: 's1', Query: 'select 1'");
    let details = parse_parse_message(b"\0select 1\0").expect("parsed");
    assert_eq!(details, "Statement: '(unnamed)', Query: 'select 1'");
    assert_eq!(parse_parse_message(b"\0\0"), None);
}

#[test]
fn row_description_decodes_each_field() {
    let mut body = vec![0, 1];
    body.extend_from_slice(b"id\0");
    body.extend_from_slice(&1u32.to_be_bytes()); // table oid
    body.extend_from_slice(&2u16.to_be_bytes()); // column attr
    body.extend_from_slice(&23u32.to_be_bytes()); // type oid: int4
    body.extend_from_slice(&4i16.to_be_bytes()); // type size
    body.extend_from_slice(&(-1i32).to_be_bytes()); // type mod
    body.extend_from_slice(&0u16.to_be_bytes()); // format: text
    let fields = parse_row_description(&body).expect("fields parsed");
    assert_eq!(fields.len(), 1);
    assert_eq!(fields[0].field_info.name, "id");
    assert_eq!(fields[0].field_info.data_type, "int4");
    assert_eq!(
        fields[0].description,
        "name='id', type=int4 (OID=23), size=4, typemod=-1, format=text"
    );
    // A truncated field list decodes to nothing rather than panicking.
    assert!(parse_row_description(&body[..10]).is_none());
    assert!(parse_row_description(&[]).is_none());
}

#[test]
fn data_row_renders_null_text_and_binary() {
    let mut body = vec![0, 3];
    body.extend_from_slice(&(-1i32).to_be_bytes()); // NULL
    body.extend_from_slice(&2i32.to_be_bytes());
    body.extend_from_slice(b"42");
    body.extend_from_slice(&2i32.to_be_bytes());
    body.extend_from_slice(&[0xc3, 0x28]); // invalid UTF-8
    let values = parse_data_row(&body).expect("values parsed");
    assert_eq!(values, vec!["NULL", "'42'", "<binary: c3 28>"]);
    // Truncated value data stops decoding without panicking.
    assert!(parse_data_row(&body[..8]).is_some());
    assert!(parse_data_row(&[0]).is_none());
}

#[test]
fn pg_type_names_cover_common_oids() {
    assert_eq!(get_pg_type_name(23), "int4");
    assert_eq!(get_pg_type_name(25), "text");
    assert_eq!(get_pg_type_name(3802), "jsonb");
    assert_eq!(get_pg_type_name(999999), "unknown");
}

#[test]
fn parameter_description_lists_types() {
    let mut body = vec![0, 2];
    body.extend_from_slice(&23u32.to_be_bytes());
    body.extend_from_slice(&25u32.to_be_bytes());
    let params = parse_parameter_description(&body).expect("params parsed");
    assert_eq!(params, vec!["type=int4 (OID=23)", "type=text (OID=25)"]);
    assert!(parse_parameter_description(&[0, 0]).is_none());
}

#[test]
fn format_code_summaries_follow_count() {
    assert_eq!(describe_format_codes("F", 0, &vec![]), "F=text (all)");
    assert_eq!(describe_format_codes("F", 1, &vec![1]), "F=binary (all)");
    assert_eq!(
        describe_format_codes("F", 3, &vec![0, 1, 7]),
        "F=[text, binary, unknown]"
    );
}

#[test]
fn read_cstring_scans_to_the_terminator() {
    let data = b"abc\0def";
    let mut idx = 0usize;
    assert_eq!(read_cstring(data, &mut idx), Some(b"abc".to_vec()));
    assert_eq!(idx, 4);
    // The second string has no terminator: nothing comes back and the
    // index is left at the end.
    assert_eq!(read_cstring(data, &mut idx), None);
    assert_eq!(idx, 7);
    assert_eq!(read_cstring(data, &mut idx), None);
}

#[test]
fn identifiers_show_unnamed_when_empty() {
    assert_eq!(format_identifier(b""), "(unnamed)");
    assert_eq!(format_identifier(b"portal1"), "portal1");
}

#[test]
fn table_mode_renders_data_rows_as_table() {
    let mut timing = ConnectionTiming::new(0);
    let mut state = ClientState::new(true);
    let mut rd = vec![0, 1];
    rd.extend_from_slice(b"col\0");
    rd.extend_from_slice(&0u32.to_be_bytes());
    rd.extend_from_slice(&0u16.to_be_bytes());
    rd.extend_from_slice(&25u32.to_be_bytes());
    rd.extend_from_slice(&(-1i16).to_be_bytes());
    rd.extend_from_slice(&(-1i32).to_be_bytes());
    rd.extend_from_slice(&0u16.to_be_bytes());
    let t = frame(b'T', &rd);
    parse_message(
        &t,
        MessageDirection::ServerToClient,
        "1",
        &mut timing,
        &mut state,
        false,
        0,
    );
    let mut dr = vec![0, 1];
    dr.extend_from_slice(&3i32.to_be_bytes());
    dr.extend_from_slice(b"abc");
    let d = frame(b'D', &dr);
    let lines = parse_message(
        &d,
        MessageDirection::ServerToClient,
        "1",
        &mut timing,
        &mut state,
        false,
        0,
    );
    assert_eq!(lines.len(), 4);
    assert_eq!(lines[3], format!("[1] │{}│", "'abc'          "));
    let c = frame(b'C', b"SELECT 1\0");
    let lines = parse_message(
        &c,
        MessageDirection::ServerToClient,
        "1",
        &mut timing,
        &mut state,
        false,
        0,
    );
    assert_eq!(lines[0], format!("[1] └{}┘", "─".repeat(15)));
}
