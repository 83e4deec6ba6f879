use corsaconnect::picopanel::{fresh_settings, set_yield_text, yield_flag, YieldError, DEFAULT_MIRROR};

#[test]
fn flag_is_read_from_the_first_key_line() {
    assert_eq!(yield_flag("{\n  \"yield_outgauge\": true,\n  \"x\": 1\n}\n"), Some(true));
    assert_eq!(yield_flag("{\n  \"yield_outgauge\": false\n}"), Some(false));
    assert_eq!(yield_flag("{\"a\": true}"), None);
    assert_eq!(yield_flag(""), None);
    assert_eq!(
        yield_flag("{\n \"yield_outgauge\": false,\n \"yield_outgauge\": true\n}"),
        Some(false)
    );
}

#[test]
fn key_line_is_rewritten_in_place() {
    let text = "{\r\n    \"port\": 4444,\r\n    \"yield_outgauge\": false,\r\n    \"theme\": \"dark\"\r\n}";
    let out = set_yield_text(text, true).unwrap();
    assert_eq!(out, "{\n    \"port\": 4444,\n    \"yield_outgauge\": true,\n    \"theme\": \"dark\"\n}\n");
    assert_eq!(yield_flag(&out), Some(true));
}

#[test]
fn last_key_line_keeps_having_no_comma() {
    let out = set_yield_text("{\n\t\"yield_outgauge\": true\n}\n", false).unwrap();
    assert_eq!(out, "{\n\t\"yield_outgauge\": false\n}\n");
}

#[test]
fn missing_key_goes_in_after_the_brace() {
    let out = set_yield_text("{\n  \"port\": 4444\n}\n", true).unwrap();
    assert_eq!(out, "{\n  \"yield_outgauge\": true,\n  \"port\": 4444\n}\n");
    assert_eq!(yield_flag(&out), Some(true));
}

#[test]
fn empty_object_gets_no_comma() {
    let out = set_yield_text("{}", false).unwrap();
    assert_eq!(out, "{\n  \"yield_outgauge\": false\n}");
    assert_eq!(yield_flag(&out), Some(false));
}

#[test]
fn not_json_is_left_alone() {
    assert_eq!(set_yield_text("hello", true), Err(YieldError::NotJson));
    assert_eq!(set_yield_text("", true), Err(YieldError::NotJson));
}

#[test]
fn fresh_file_holds_only_the_flag() {
    assert_eq!(fresh_settings(true), "{\n  \"yield_outgauge\": true\n}\n");
    assert_eq!(yield_flag(&fresh_settings(false)), Some(false));
}

#[test]
fn default_mirror_address() {
    assert_eq!(DEFAULT_MIRROR, "127.0.0.1:5051");
}
