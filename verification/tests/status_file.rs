use status_glow::status::{extract_num, extract_str, is_valid_state, status_from_text, status_payload};

#[test]
fn payload_has_the_documented_shape() {
    assert_eq!(status_payload("thinking", 123), "{\"state\":\"thinking\",\"ts\":123}");
    assert_eq!(status_payload("done", 0), "{\"state\":\"done\",\"ts\":0}");
}

#[test]
fn valid_states_are_exactly_five() {
    for s in ["thinking", "tooling", "waiting", "done", "idle"] {
        assert!(is_valid_state(s));
    }
    for s in ["", "Thinking", "busy", "done ", "idl"] {
        assert!(!is_valid_state(s));
    }
}

#[test]
fn extractors_read_flat_json() {
    assert_eq!(extract_str("{\"state\": \"tooling\", \"ts\": 9}", "state"), Some("tooling".to_string()));
    assert_eq!(extract_num("{\"state\": \"tooling\", \"ts\":   42}", "ts"), Some(42));
    assert_eq!(extract_num("{\"ts\":18446744073709551615}", "ts"), Some(u64::MAX));
    assert_eq!(extract_num("{\"ts\":18446744073709551616}", "ts"), None);
    assert_eq!(extract_num("{\"ts\":-5}", "ts"), None);
    assert_eq!(extract_str("{\"other\":1}", "state"), None);
}

#[test]
fn reader_gives_back_what_the_writer_wrote() {
    for s in ["thinking", "tooling", "waiting", "done", "idle"] {
        let text = status_payload(s, 1_700_000_000_123);
        assert_eq!(status_from_text(&text), (s.to_string(), 1_700_000_000_123));
    }
}

#[test]
fn reader_falls_back_to_idle() {
    assert_eq!(status_from_text(""), ("idle".to_string(), 0));
    assert_eq!(status_from_text("  \n\t "), ("idle".to_string(), 0));
    assert_eq!(status_from_text("{\"state\":\"busy\",\"ts\":77}"), ("idle".to_string(), 77));
    assert_eq!(status_from_text("garbage"), ("idle".to_string(), 0));
    assert_eq!(status_from_text("\n {\"state\":\"done\",\"ts\":5}\n"), ("done".to_string(), 5));
}
