use gateway_proxy::decimal::{parse_decimal, push_decimal};
use gateway_proxy::event::{find_event_type, find_integer, GatewayEvent, SequenceInfo, Span};
use gateway_proxy::protocol::{heartbeat_ack, hello, invalid_session, write_frame};
use gateway_proxy::scan::{
    append, blank, find, find_either, occurs_at, same_bytes, skip_blanks, skip_blanks_back,
};

fn digits_of(n: u64) -> Vec<u8> {
    let mut out = Vec::new();
    push_decimal(&mut out, n);
    out
}

#[test]
fn hello_is_the_documented_frame() {
    assert_eq!(
        hello(),
        b"{\"t\":null,\"s\":null,\"op\":10,\"d\":{\"heartbeat_interval\":41250}}".to_vec()
    );
}

#[test]
fn heartbeat_ack_is_the_documented_frame() {
    assert_eq!(heartbeat_ack(), b"{\"t\":null,\"s\":null,\"op\":11,\"d\":null}".to_vec());
}

#[test]
fn invalid_session_is_the_documented_frame() {
    assert_eq!(invalid_session(), b"{\"t\":null,\"s\":null,\"op\":9,\"d\":false}".to_vec());
}

#[test]
fn write_frame_with_name_and_sequence() {
    let frame = write_frame(Some(b"PING"), Some(42), 0, b"{\"a\":1}");
    assert_eq!(frame, b"{\"t\":\"PING\",\"s\":42,\"op\":0,\"d\":{\"a\":1}}".to_vec());
}

#[test]
fn decimal_of_zero_is_one_digit() {
    assert_eq!(digits_of(0), b"0".to_vec());
}

#[test]
fn decimal_of_small_and_large_numbers() {
    assert_eq!(digits_of(7), b"7".to_vec());
    assert_eq!(digits_of(10), b"10".to_vec());
    assert_eq!(digits_of(41250), b"41250".to_vec());
    assert_eq!(digits_of(u64::MAX), b"18446744073709551615".to_vec());
}

#[test]
fn decimal_is_appended_to_what_is_there() {
    let mut out = b"s=".to_vec();
    push_decimal(&mut out, 305);
    assert_eq!(out, b"s=305".to_vec());
}

#[test]
fn parse_decimal_reads_digits() {
    assert_eq!(parse_decimal(b"9999", 0, 4), Some(9999));
    assert_eq!(parse_decimal(b"x12y", 1, 3), Some(12));
    assert_eq!(parse_decimal(b"007", 0, 3), Some(7));
    assert_eq!(parse_decimal(b"0", 0, 1), Some(0));
}

#[test]
fn parse_decimal_rejects_what_is_no_number() {
    assert_eq!(parse_decimal(b"", 0, 0), None);
    assert_eq!(parse_decimal(b"12", 1, 1), None);
    assert_eq!(parse_decimal(b"null", 0, 4), None);
    assert_eq!(parse_decimal(b"+5", 0, 2), None);
    assert_eq!(parse_decimal(b"-5", 0, 2), None);
    assert_eq!(parse_decimal(b"1 2", 0, 3), None);
    assert_eq!(parse_decimal(b"12a", 0, 3), None);
}

#[test]
fn parse_decimal_at_the_limit_of_64_bits() {
    assert_eq!(parse_decimal(b"18446744073709551615", 0, 20), Some(u64::MAX));
    assert_eq!(parse_decimal(b"18446744073709551616", 0, 20), None);
    assert_eq!(parse_decimal(b"99999999999999999999", 0, 20), None);
    assert_eq!(parse_decimal(b"184467440737095516150", 0, 21), None);
    assert_eq!(parse_decimal(b"18446744073709551620x", 0, 21), None);
}

#[test]
fn written_numbers_read_back() {
    for n in [0u64, 1, 9, 10, 99, 100, 12345, 1 << 32, u64::MAX - 1, u64::MAX] {
        let text = digits_of(n);
        assert_eq!(parse_decimal(&text, 0, text.len()), Some(n));
    }
}

#[test]
fn find_gives_the_first_occurrence() {
    assert_eq!(find(b"abcabc", b"bc"), Some(1));
    assert_eq!(find(b"abcabc", b"abc"), Some(0));
    assert_eq!(find(b"abcabc", b"cab"), Some(2));
    assert_eq!(find(b"abcabc", b"abcabc"), Some(0));
    assert_eq!(find(b"aab", b"ab"), Some(1));
}

#[test]
fn find_gives_nothing_without_an_occurrence() {
    assert_eq!(find(b"abcabc", b"abd"), None);
    assert_eq!(find(b"abc", b"abcd"), None);
    assert_eq!(find(b"", b"a"), None);
}

#[test]
fn find_of_nothing_is_at_the_start() {
    assert_eq!(find(b"abc", b""), Some(0));
    assert_eq!(find(b"", b""), Some(0));
}

#[test]
fn occurs_at_checks_one_position() {
    assert!(occurs_at(b"hello", b"ll", 2));
    assert!(!occurs_at(b"hello", b"ll", 1));
    assert!(occurs_at(b"hello", b"", 5));
}

#[test]
fn find_either_gives_the_first_of_two_bytes() {
    assert_eq!(find_either(b"ab,c}", 0, b',', b'}'), Some(2));
    assert_eq!(find_either(b"ab,c}", 3, b',', b'}'), Some(4));
    assert_eq!(find_either(b"ab,c}", 5, b',', b'}'), None);
    assert_eq!(find_either(b"abc", 0, b',', b'}'), None);
    assert_eq!(find_either(b"abc", 9, b'a', b'a'), None);
}

#[test]
fn blanks_are_space_tab_and_line_ends() {
    assert!(blank(b' '));
    assert!(blank(b'\t'));
    assert!(blank(b'\n'));
    assert!(blank(b'\r'));
    assert!(!blank(b'0'));
    assert!(!blank(0x0b));
}

#[test]
fn skipping_blanks_from_both_ends() {
    let text = b"  \t12 \n";
    assert_eq!(skip_blanks(text, 0, text.len()), 3);
    assert_eq!(skip_blanks_back(text, 3, text.len()), 5);
    assert_eq!(skip_blanks(b"    ", 0, 4), 4);
    assert_eq!(skip_blanks_back(b"    ", 1, 4), 1);
    assert_eq!(skip_blanks(b"ab", 0, 2), 0);
    assert_eq!(skip_blanks_back(b"ab", 0, 2), 2);
}

#[test]
fn same_bytes_compares_whole_texts() {
    assert!(same_bytes(b"READY", b"READY"));
    assert!(!same_bytes(b"READY", b"READ"));
    assert!(!same_bytes(b"READY", b"READX"));
    assert!(same_bytes(b"", b""));
}

#[test]
fn append_adds_at_the_end() {
    let mut out = b"ab".to_vec();
    append(&mut out, b"cd");
    append(&mut out, b"");
    assert_eq!(out, b"abcd".to_vec());
}

#[test]
fn find_integer_reads_the_number_after_the_key() {
    let text = b"{\"op\":0,\"s\":9999,\"t\":\"X\"}";
    assert_eq!(
        find_integer(text, b"\"s\":"),
        Some(SequenceInfo { value: 9999, start: 12, end: 16 })
    );
    assert_eq!(
        find_integer(text, b"\"op\":"),
        Some(SequenceInfo { value: 0, start: 6, end: 7 })
    );
}

#[test]
fn find_integer_takes_blanks_off() {
    let text = b"{\"s\":  17 \n}";
    assert_eq!(
        find_integer(text, b"\"s\":"),
        Some(SequenceInfo { value: 17, start: 7, end: 9 })
    );
}

#[test]
fn find_integer_gives_nothing_without_a_number() {
    assert_eq!(find_integer(b"{\"s\":null,\"op\":1}", b"\"s\":"), None);
    assert_eq!(find_integer(b"{\"op\":1}", b"\"s\":"), None);
    assert_eq!(find_integer(b"{\"s\":12", b"\"s\":"), None);
    assert_eq!(find_integer(b"{\"s\":,}", b"\"s\":"), None);
    assert_eq!(find_integer(b"{\"s\":   }", b"\"s\":"), None);
}

#[test]
fn find_event_type_gives_the_place_of_the_name() {
    let text = b"{\"t\":\"READY\",\"s\":1}";
    assert_eq!(find_event_type(text), Some(Span { start: 6, end: 11 }));
    let text = b"{\"t\":  \"A\"}";
    assert_eq!(find_event_type(text), Some(Span { start: 8, end: 9 }));
}

#[test]
fn find_event_type_gives_nothing_without_a_string() {
    assert_eq!(find_event_type(b"{\"t\":null,\"s\":1}"), None);
    assert_eq!(find_event_type(b"{\"s\":1}"), None);
    assert_eq!(find_event_type(b"{\"t\":\"READY"), None);
    assert_eq!(find_event_type(b"{\"t\":"), None);
}

#[test]
fn from_json_reads_a_dispatch() {
    let text = b"{\"op\":0,\"s\":9999,\"t\":\"MESSAGE_CREATE\",\"d\":{\"content\":\"hi\"}}";
    let event = GatewayEvent::from_json(text).unwrap();
    assert_eq!(event.op(), 0);
    assert_eq!(event.sequence, Some(SequenceInfo { value: 9999, start: 12, end: 16 }));
    assert_eq!(event.event_type, Some(Span { start: 22, end: 36 }));
    assert!(event.is_named(text, b"MESSAGE_CREATE"));
    assert!(!event.is_named(text, b"READY"));
}

#[test]
fn from_json_reads_a_control_frame() {
    let event = GatewayEvent::from_json(b"{\"op\":1,\"d\":null}").unwrap();
    assert_eq!(event, GatewayEvent { op: 1, event_type: None, sequence: None });
    let event = GatewayEvent::from_json(&heartbeat_ack()).unwrap();
    assert_eq!(event, GatewayEvent { op: 11, event_type: None, sequence: None });
    assert!(!event.is_named(&heartbeat_ack(), b"READY"));
}

#[test]
fn from_json_needs_an_opcode_that_fits_a_byte() {
    assert_eq!(GatewayEvent::from_json(b"{\"d\":null}"), None);
    assert_eq!(GatewayEvent::from_json(b""), None);
    assert_eq!(GatewayEvent::from_json(b"not json"), None);
    assert_eq!(GatewayEvent::from_json(b"{\"op\":null}"), None);
    assert_eq!(GatewayEvent::from_json(b"{\"op\":256}"), None);
    assert_eq!(GatewayEvent::from_json(b"{\"op\":255}").map(|e| e.op()), Some(255));
    assert_eq!(GatewayEvent::from_json(b"{\"op\": 2 ,\"d\":{}}").map(|e| e.op()), Some(2));
}

#[test]
fn from_json_reads_back_what_write_frame_wrote() {
    let frame = write_frame(Some(b"GUILD_CREATE"), Some(77), 0, b"{}");
    let event = GatewayEvent::from_json(&frame).unwrap();
    assert_eq!(event.op(), 0);
    assert!(event.is_named(&frame, b"GUILD_CREATE"));
    assert_eq!(event.sequence.map(|s| s.value), Some(77));
}
