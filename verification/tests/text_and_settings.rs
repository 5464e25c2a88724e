use apibrowser::config::{Cli, Config, ConfigError};
use apibrowser::fetch::{
    FetchAction, FetchEvent, FetchState, ResponseClass, auth_header_value, classify_status, fetch_step, request_url,
};
use apibrowser::text::{int_to_text, parse_i32, push_padded, str_eq, trim};

#[test]
fn integers_render_in_decimal() {
    assert_eq!(int_to_text(0), "0");
    assert_eq!(int_to_text(7), "7");
    assert_eq!(int_to_text(1234567890), "1234567890");
    assert_eq!(int_to_text(-45), "-45");
    assert_eq!(int_to_text(i64::MIN), i64::MIN.to_string());
    assert_eq!(int_to_text(i64::MAX), i64::MAX.to_string());
}

#[test]
fn numbers_parse_as_i32_does() {
    for s in ["123", "-7", "+5", "0042", "-2147483648", "2147483647", "", "-", "+", "12a", " 1", "2147483648", "-2147483649", "99999999999999999999", "--1"] {
        assert_eq!(parse_i32(s), s.parse::<i32>().ok(), "input {:?}", s);
    }
}

#[test]
fn parsing_reads_back_rendered_numbers() {
    for n in [0i32, 1, 254, 1678, -3, i32::MAX, i32::MIN] {
        assert_eq!(parse_i32(&int_to_text(n as i64)), Some(n));
    }
}

#[test]
fn trim_removes_unicode_whitespace() {
    for s in ["  key\t\n", "key", "   ", "", "\u{3000}x y\u{85}", "\u{a0}\u{2028}k\u{200a}", "\r\nabc\x0b"] {
        assert_eq!(trim(s), s.trim(), "input {:?}", s);
    }
}

#[test]
fn padding_fills_to_width() {
    let mut s = String::from("> ");
    push_padded(&mut s, "abc", 6);
    assert_eq!(s, "> abc   ");
    let mut s = String::new();
    push_padded(&mut s, "longer than four", 4);
    assert_eq!(s, "longer than four");
    let mut s = String::new();
    push_padded(&mut s, "h\u{e9}", 4);
    assert_eq!(s, format!("{:<4}", "h\u{e9}"));
}

#[test]
fn string_equality() {
    assert!(str_eq("blue", "blue"));
    assert!(!str_eq("blue", "Blue"));
    assert!(!str_eq("", " "));
}

fn cli(test_mode: bool, event_key: Option<&str>) -> Cli {
    Cli { test_mode, event_key: event_key.map(|s| s.to_string()) }
}

#[test]
fn config_uses_trimmed_key_and_chosen_event() {
    let c = Config::from_sources("  abc123 \n", cli(false, None)).unwrap();
    assert_eq!(c.api_key, "abc123");
    assert_eq!(c.event_key, "2026nyro");
    assert!(!c.test_mode);
    let c = Config::from_sources("abc", cli(true, None)).unwrap();
    assert_eq!(c.event_key, "2024nyro");
    assert!(c.test_mode);
    let c = Config::from_sources("abc", cli(true, Some("2025casj"))).unwrap();
    assert_eq!(c.event_key, "2025casj");
}

#[test]
fn config_rejects_missing_or_placeholder_key() {
    for raw in ["", "   ", "your_api_key_here", " your_api_key_here\t"] {
        match Config::from_sources(raw, cli(false, None)) {
            Err(e) => {
                assert!(matches!(e, ConfigError::MissingApiKey));
                assert!(e.message().starts_with("TBA API requires authentication for all endpoints.\nPlease set"));
            },
            Ok(_) => panic!("accepted {:?}", raw),
        }
    }
}

#[test]
fn request_addresses_and_headers() {
    assert_eq!(request_url("/event/2024nyro/teams"), "https://www.thebluealliance.com/api/v3/event/2024nyro/teams");
    assert_eq!(auth_header_value(""), None);
    assert_eq!(auth_header_value("  key "), Some("key".to_string()));
    assert_eq!(auth_header_value(" "), Some("".to_string()));
}

#[test]
fn response_status_classes() {
    assert_eq!(classify_status(304), ResponseClass::NotModified);
    assert_eq!(classify_status(200), ResponseClass::Success);
    assert_eq!(classify_status(204), ResponseClass::Success);
    assert_eq!(classify_status(299), ResponseClass::Success);
    assert_eq!(classify_status(199), ResponseClass::Failed);
    assert_eq!(classify_status(404), ResponseClass::Failed);
    assert_eq!(classify_status(500), ResponseClass::Failed);
}

fn run(cached: Option<Option<&str>>, received: bool, stored: bool) -> (Vec<String>, FetchAction) {
    let mut log = Vec::new();
    let first = match cached {
        Some(tag) => FetchEvent::Cached { etag: tag.map(|t| t.to_string()) },
        None => FetchEvent::NotCached,
    };
    let (state, action) = fetch_step(FetchState::Start, first);
    match &action {
        FetchAction::Request { if_none_match } => log.push(format!("request {:?}", if_none_match)),
        other => panic!("unexpected {:?}", other),
    }
    let (state, action) = fetch_step(state, if received { FetchEvent::Received } else { FetchEvent::RequestFailed });
    if let FetchAction::Store = action {
        assert_eq!(state, FetchState::Storing);
        log.push("store".to_string());
        let (state, action) = fetch_step(state, if stored { FetchEvent::Stored } else { FetchEvent::StoreFailed });
        assert_eq!(state, FetchState::Finished);
        return (log, action);
    }
    assert_eq!(state, FetchState::Finished);
    (log, action)
}

#[test]
fn cached_download_decisions() {
    let (log, action) = run(Some(Some("W/\"abc\"")), true, true);
    assert_eq!(log, vec!["request Some(\"W/\\\"abc\\\"\")", "store"]);
    assert!(matches!(action, FetchAction::ReturnFetched));
    let (_, action) = run(Some(None), false, true);
    assert!(matches!(action, FetchAction::ReturnCached));
    let (log, action) = run(None, true, true);
    assert_eq!(log[0], "request None");
    assert!(matches!(action, FetchAction::ReturnFetched));
    let (_, action) = run(None, false, true);
    assert!(matches!(action, FetchAction::ReturnError));
    let (_, action) = run(Some(None), true, false);
    assert!(matches!(action, FetchAction::ReturnError));
}

#[test]
fn out_of_place_events_are_ignored() {
    let (s, a) = fetch_step(FetchState::Finished, FetchEvent::Received);
    assert_eq!(s, FetchState::Finished);
    assert!(matches!(a, FetchAction::Ignore));
    let (s, a) = fetch_step(FetchState::Start, FetchEvent::Stored);
    assert_eq!(s, FetchState::Start);
    assert!(matches!(a, FetchAction::Ignore));
}
