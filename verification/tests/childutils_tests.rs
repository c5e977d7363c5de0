use sonic_supervisord_utilities::childutils::{
    eventdata, get_headers, ok_token, ready_token, ChildutilsError, ListenerState,
};
use sonic_supervisord_utilities::numbers::{parse_i32, parse_u64, u64_to_string};

#[test]
fn test_get_headers() {
    let line = "ver:3.0 server:supervisor serial:21442 pool:supervisor poolserial:21442 eventname:PROCESS_STATE_EXITED len:71";
    let headers = get_headers(line).unwrap();

    assert_eq!(headers.ver, "3.0");
    assert_eq!(headers.server, "supervisor");
    assert_eq!(headers.serial, 21442);
    assert_eq!(headers.eventname, "PROCESS_STATE_EXITED");
    assert_eq!(headers.len, 71);
}

#[test]
fn test_eventdata() {
    let payload = "processname:cat groupname:cat from_state:RUNNING expected:0 pid:2766\n";
    let (headers, data) = eventdata(payload).unwrap();

    assert_eq!(headers.processname, "cat");
    assert_eq!(headers.groupname, "cat");
    assert_eq!(headers.from_state, "RUNNING");
    assert_eq!(headers.expected, 0);
    assert_eq!(headers.pid, Some(2766));
    assert_eq!(data, "");
}

#[test]
fn test_eventdata_with_payload() {
    let payload = "processname:test groupname:test from_state:RUNNING expected:1 pid:1234\nSome payload data\nMore data";
    let (headers, data) = eventdata(payload).unwrap();

    assert_eq!(headers.processname, "test");
    assert_eq!(data, "Some payload data\nMore data");
}

#[test]
fn test_get_headers_defaults_absent_fields() {
    let headers = get_headers("eventname:TICK_60 len:0").unwrap();
    assert_eq!(headers.ver, "");
    assert_eq!(headers.server, "supervisor");
    assert_eq!(headers.serial, 0);
    assert_eq!(headers.pool, "supervisor");
    assert_eq!(headers.poolserial, 0);
    assert_eq!(headers.eventname, "TICK_60");
    assert_eq!(headers.len, 0);
}

#[test]
fn test_get_headers_round_trips_present_fields() {
    let line = "ver:3.0 server:sup1 serial:7 pool:mypool poolserial:8 eventname:E len:12";
    let h = get_headers(line).unwrap();
    assert_eq!(h.ver, "3.0");
    assert_eq!(h.server, "sup1");
    assert_eq!(h.serial, 7);
    assert_eq!(h.pool, "mypool");
    assert_eq!(h.poolserial, 8);
    assert_eq!(h.eventname, "E");
    assert_eq!(h.len, 12);
}

#[test]
fn test_get_headers_last_occurrence_wins() {
    let headers = get_headers("serial:1 serial:2 eventname:A eventname:B").unwrap();
    assert_eq!(headers.serial, 2);
    assert_eq!(headers.eventname, "B");
}

#[test]
fn test_get_headers_unparsable_numbers_become_zero() {
    let headers = get_headers("serial:abc len:12x poolserial:18446744073709551616").unwrap();
    assert_eq!(headers.serial, 0);
    assert_eq!(headers.len, 0);
    assert_eq!(headers.poolserial, 0);
}

#[test]
fn test_eventdata_empty_payload_fails() {
    let r = eventdata("");
    assert!(matches!(r, Err(ChildutilsError::Parse(ref m)) if m == "Empty payload"));
}

#[test]
fn test_eventdata_nonempty_never_fails() {
    let (headers, data) = eventdata("x").unwrap();
    assert_eq!(headers.processname, "");
    assert_eq!(headers.groupname, "");
    assert_eq!(headers.from_state, "");
    assert_eq!(headers.expected, 0);
    assert_eq!(headers.pid, None);
    assert_eq!(data, "");

    let (headers2, _) = eventdata("expected:notanumber pid:notapid\n").unwrap();
    assert_eq!(headers2.expected, 0);
    assert_eq!(headers2.pid, None);
}

#[test]
fn test_eventdata_crlf_lines() {
    let payload = "processname:p groupname:g from_state:S expected:1\r\nbody line\r\nlast";
    let (headers, data) = eventdata(payload).unwrap();
    assert_eq!(headers.processname, "p");
    assert_eq!(headers.expected, 1);
    assert_eq!(data, "body line\nlast");
}

#[test]
fn test_listener_tokens() {
    assert_eq!(ready_token(), "READY\n");
    assert_eq!(ok_token(), "RESULT 2\nOK");
}

#[test]
fn test_listener_state_cycle() {
    let s = ListenerState::Acknowledged;
    let s = s.next();
    assert!(matches!(s, ListenerState::Ready));
    let s = s.next();
    assert!(matches!(s, ListenerState::Busy));
    let s = s.next();
    assert!(matches!(s, ListenerState::Acknowledged));
}

#[test]
fn test_parse_u64_grammar() {
    assert_eq!(parse_u64("0"), Some(0));
    assert_eq!(parse_u64("21442"), Some(21442));
    assert_eq!(parse_u64("+7"), Some(7));
    assert_eq!(parse_u64("18446744073709551615"), Some(u64::MAX));
    assert_eq!(parse_u64("18446744073709551616"), None);
    assert_eq!(parse_u64(""), None);
    assert_eq!(parse_u64("+"), None);
    assert_eq!(parse_u64("12a"), None);
    assert_eq!(parse_u64("-1"), None);
}

#[test]
fn test_parse_i32_grammar() {
    assert_eq!(parse_i32("0"), Some(0));
    assert_eq!(parse_i32("1"), Some(1));
    assert_eq!(parse_i32("-12"), Some(-12));
    assert_eq!(parse_i32("+3"), Some(3));
    assert_eq!(parse_i32("2147483647"), Some(i32::MAX));
    assert_eq!(parse_i32("2147483648"), None);
    assert_eq!(parse_i32("-2147483648"), Some(i32::MIN));
    assert_eq!(parse_i32("-2147483649"), None);
    assert_eq!(parse_i32("x"), None);
}

#[test]
fn test_u64_to_string_renders_decimal() {
    assert_eq!(u64_to_string(0), "0");
    assert_eq!(u64_to_string(9), "9");
    assert_eq!(u64_to_string(10), "10");
    assert_eq!(u64_to_string(1234567890), "1234567890");
    assert_eq!(u64_to_string(u64::MAX), "18446744073709551615");
}
