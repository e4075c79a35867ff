use postgres_wire_proxy::logging::{
    colorize_if_needed, format_log_line, is_hex_dump_line, LogFormat, LogLevel,
};

const TIMESTAMP: &str = "2025-11-07T16:00:09.564676Z";

#[test]
fn full_format_matches_default_shape() {
    let line = format_log_line(
        LogFormat::Full,
        Some(TIMESTAMP.to_string()),
        LogLevel::Info,
        "postgres_wire_proxy::protocol",
        "[1] ← BackendKeyData",
    );

    assert_eq!(
        line,
        "2025-11-07T16:00:09.564676Z\t INFO\tpostgres_wire_proxy::protocol\t[1] ← BackendKeyData"
    );
}

#[test]
fn short_format_strips_level_and_target() {
    let line = format_log_line(
        LogFormat::Short,
        Some(TIMESTAMP.to_string()),
        LogLevel::Info,
        "postgres_wire_proxy::protocol",
        "[1] ← BackendKeyData",
    );
    assert_eq!(line, "2025-11-07T16:00:09.564676Z\t[1] ← BackendKeyData");
}

#[test]
fn bare_format_is_message_only() {
    let line = format_log_line(
        LogFormat::Bare,
        None,
        LogLevel::Info,
        "postgres_wire_proxy::protocol",
        "[1] ← BackendKeyData",
    );
    assert_eq!(line, "[1] ← BackendKeyData");
}

#[test]
fn client_and_server_lines_are_colored() {
    let client_line = "[1] → Query: select 1";
    let server_line = "[1] ← ReadyForQuery";
    let hex_line = "[1]   0000: de ad be ef";

    let colored_client = colorize_if_needed(client_line).expect("client line colored");
    assert!(
        colored_client.contains("\u{1b}[32m"),
        "expected green escape code"
    );

    let colored_server = colorize_if_needed(server_line).expect("server line colored");
    assert!(
        colored_server.contains("\u{1b}[36m"),
        "expected light blue (cyan) escape code"
    );

    let colored_hex = colorize_if_needed(hex_line).expect("hex line colored");
    assert!(
        colored_hex.contains("\u{1b}[90m"),
        "expected bright black escape code"
    );
}

#[test]
fn warn_level_is_right_aligned() {
    let line = format_log_line(
        LogFormat::Full,
        Some(TIMESTAMP.to_string()),
        LogLevel::Warn,
        "t",
        "m",
    );
    assert_eq!(line, "2025-11-07T16:00:09.564676Z\t WARN\tt\tm");
}

#[test]
fn hex_dump_lines_are_recognised() {
    assert!(is_hex_dump_line("[1]   0000: de ad be ef"));
    assert!(is_hex_dump_line("[127.0.0.1:5432]   00f0: 00 01"));
    assert!(!is_hex_dump_line("[1] → Query: select 1"));
    assert!(!is_hex_dump_line("[1]   zz00: not hex"));
    assert!(!is_hex_dump_line("no tag at all"));
}

#[test]
fn ordinary_lines_are_not_colored() {
    assert!(colorize_if_needed("plain line without markers").is_none());
}
