use rok::access_log::{log_text_of, request_entry_of, status_display_of, LogEvent, LoggerState};

fn chars(s: &str) -> Vec<char> {
    s.chars().collect()
}

fn text(v: &[char]) -> String {
    v.iter().collect()
}

#[test]
fn request_line_loses_marker_and_line_end() {
    let log = log_text_of(&chars("GET / HTTP/1.1\r\nHost: a\r\n\r\n")).unwrap();
    assert_eq!(text(&log), "GET /");
}

#[test]
fn status_line_loses_marker() {
    let log = log_text_of(&chars("HTTP/1.1 200 OK\r\nContent-Length: 0\r\n")).unwrap();
    assert_eq!(text(&log), "200 OK");
}

#[test]
fn marker_only_counts_in_first_line() {
    assert!(log_text_of(&chars("hello\r\nHTTP/1.1 200 OK\r\n")).is_none());
    assert!(log_text_of(&chars("GET / HTTP/1.0\r\n")).is_none());
    assert!(log_text_of(&chars("")).is_none());
}

#[test]
fn every_marker_is_removed() {
    let log = log_text_of(&chars("HTTP/1.1 x HTTP/1.1 y")).unwrap();
    assert_eq!(text(&log), "x  y");
}

#[test]
fn not_found_is_yellow() {
    let shown = status_display_of(&chars("404 Not Found")).unwrap();
    assert_eq!(shown, "\u{1b}[33m404 Not Found\u{1b}[0m");
}

#[test]
fn failures_are_red() {
    assert_eq!(status_display_of(&chars("500 Internal Server Error")).unwrap(), "\u{1b}[31m500 Internal Server Error\u{1b}[0m");
    assert_eq!(status_display_of(&chars("400 Bad Request")).unwrap(), "\u{1b}[31m400 Bad Request\u{1b}[0m");
}

#[test]
fn successes_are_green() {
    assert_eq!(status_display_of(&chars("200 OK")).unwrap(), "\u{1b}[32m200 OK\u{1b}[0m");
    assert_eq!(status_display_of(&chars("302 Found")).unwrap(), "\u{1b}[32m302 Found\u{1b}[0m");
}

#[test]
fn low_codes_show_bare_number() {
    assert_eq!(status_display_of(&chars("101 Switching Protocols")).unwrap(), "101");
    assert_eq!(status_display_of(&chars("+99 odd")).unwrap(), "99");
    assert_eq!(status_display_of(&chars("-7 odd")).unwrap(), "-7");
}

#[test]
fn unreadable_status_shows_nothing() {
    assert!(status_display_of(&chars("OK")).is_none());
    assert!(status_display_of(&chars("abc OK")).is_none());
    assert!(status_display_of(&chars("99999999999 OK")).is_none());
}

#[test]
fn request_entry_is_padded_to_twenty() {
    assert_eq!(request_entry_of(&chars("GET /")), "GET /                ");
    assert_eq!(request_entry_of(&chars("GET /a/very/long/path/indeed")), "GET /a/very/long/path/indeed ");
}

#[test]
fn request_then_response() {
    let mut state = LoggerState::new();
    assert!(!state.awaits_response());
    match state.observe(b"GET / HTTP/1.1\r\nHost: a\r\n\r\n") {
        LogEvent::Request(line) => assert_eq!(line, "GET /                "),
        _ => panic!("expected a request"),
    }
    assert!(state.awaits_response());
    match state.observe(b"HTTP/1.1 200 OK\r\n\r\n") {
        LogEvent::Response { status, .. } => assert_eq!(status, "\u{1b}[32m200 OK\u{1b}[0m"),
        _ => panic!("expected a response"),
    }
    assert!(!state.awaits_response());
}

#[test]
fn body_chunks_change_nothing() {
    let mut state = LoggerState::new();
    assert!(matches!(state.observe(b"<html></html>"), LogEvent::Quiet));
    assert!(!state.awaits_response());
    assert!(matches!(state.observe(b"GET / HTTP/1.1\r\n"), LogEvent::Request(_)));
    assert!(matches!(state.observe(b"more body"), LogEvent::Quiet));
    assert!(matches!(state.observe(&[0xff, 0xfe]), LogEvent::Quiet));
    assert!(state.awaits_response());
}

#[test]
fn unreadable_response_ends_the_wait() {
    let mut state = LoggerState::new();
    assert!(matches!(state.observe(b"GET / HTTP/1.1\r\n"), LogEvent::Request(_)));
    assert!(matches!(state.observe(b"HTTP/1.1\r\n"), LogEvent::Quiet));
    assert!(!state.awaits_response());
}

#[test]
fn response_hands_back_the_request_instant() {
    let mut state = LoggerState::new();
    let before = std::time::Instant::now();
    assert!(matches!(state.observe(b"GET / HTTP/1.1\r\n"), LogEvent::Request(_)));
    let after = std::time::Instant::now();
    assert!(matches!(state.observe(b"body"), LogEvent::Quiet));
    match state.observe(b"HTTP/1.1 404 Not Found\r\n") {
        LogEvent::Response { since, status } => {
            assert!(before <= since && since <= after);
            assert_eq!(status, "\u{1b}[33m404 Not Found\u{1b}[0m");
        }
        _ => panic!("expected a response"),
    }
}

#[test]
fn start_lines_alternate() {
    let mut state = LoggerState::new();
    for i in 0..6 {
        let chunk: &[u8] = if i % 2 == 0 { b"GET /x HTTP/1.1\r\n" } else { b"HTTP/1.1 200 OK\r\n" };
        let event = state.observe(chunk);
        if i % 2 == 0 {
            assert!(matches!(event, LogEvent::Request(_)));
        } else {
            assert!(matches!(event, LogEvent::Response { .. }));
        }
        assert!(matches!(state.observe(b"payload"), LogEvent::Quiet));
        assert_eq!(state.awaits_response(), i % 2 == 0);
    }
}
