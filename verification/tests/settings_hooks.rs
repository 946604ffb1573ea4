use serde_json::Value;
use status_glow::hooks::{
    group_is_ours, has_usable_hooks_slot, install, is_installed, is_our_command, our_command,
    strip_ours, uninstall,
};
use status_glow::settings::{
    install_settings, read_settings, settings_have_our_hooks, uninstall_settings, SettingsError,
};
use status_glow::hooks::hook_event;
use status_glow::json::Json;
use status_glow::status::is_valid_state;

const TOOL: &str = "edge-glow";
const EXE: &str = "C:\\tools\\edge-glow.exe";

fn to_json(v: Value) -> Json {
    match v {
        Value::Null => Json::Null,
        Value::Bool(b) => Json::Bool(b),
        Value::Number(n) => Json::Number(n.to_string()),
        Value::String(s) => Json::Str(s),
        Value::Array(a) => Json::Array(a.into_iter().map(to_json).collect()),
        Value::Object(m) => Json::Object(m.into_iter().map(|(k, v)| (k, to_json(v))).collect()),
    }
}

fn to_value(j: Json) -> Value {
    match j {
        Json::Null => Value::Null,
        Json::Bool(b) => Value::Bool(b),
        Json::Number(t) => Value::Number(t.parse().unwrap()),
        Json::Str(s) => Value::String(s),
        Json::Array(a) => Value::Array(a.into_iter().map(to_value).collect()),
        Json::Object(es) => Value::Object(es.into_iter().map(|(k, v)| (k, to_value(v))).collect()),
    }
}

fn doc(text: &str) -> Json {
    to_json(serde_json::from_str(text).unwrap())
}

fn value(text: &str) -> Value {
    serde_json::from_str(text).unwrap()
}

fn ours(state: &str) -> Value {
    let mut v = value(r#"{"hooks":[{"type":"command","command":""}]}"#);
    v["hooks"][0]["command"] = Value::String(format!("\"{}\" --set {}", EXE, state));
    v
}

fn ours_star(state: &str) -> Value {
    let mut v = ours(state);
    v["matcher"] = Value::String("*".to_string());
    v
}

#[test]
fn command_marker_needs_name_and_flag() {
    assert!(is_our_command("\"C:\\x\\edge-glow.exe\" --set done", TOOL));
    assert!(!is_our_command("\"C:\\x\\edge-glow.exe\" --install", TOOL));
    assert!(!is_our_command("other.exe --set done", TOOL));
}

#[test]
fn command_has_the_quoted_exe_then_the_state() {
    assert_eq!(our_command("C:\\a b\\edge-glow.exe", "thinking"), "\"C:\\a b\\edge-glow.exe\" --set thinking");
}

#[test]
fn install_into_empty_document_adds_all_five_events() {
    let out = to_value(install(Json::empty_object(), EXE, TOOL));
    let mut want = value("{\"hooks\":{}}");
    want["hooks"]["UserPromptSubmit"] = Value::Array(vec![ours("thinking")]);
    want["hooks"]["PreToolUse"] = Value::Array(vec![ours_star("tooling")]);
    want["hooks"]["PostToolUse"] = Value::Array(vec![ours_star("thinking")]);
    want["hooks"]["Notification"] = Value::Array(vec![ours_star("waiting")]);
    want["hooks"]["Stop"] = Value::Array(vec![ours("done")]);
    assert_eq!(out, want);
}

#[test]
fn install_keeps_foreign_hooks_and_other_settings() {
    let text = r#"{
        "model": "x",
        "hooks": {
            "Stop": [{"hooks": [{"type": "command", "command": "bridge.exe notify"}]}],
            "SessionStart": [{"hooks": [{"type": "command", "command": "hello"}]}]
        }
    }"#;
    let out = to_value(install(doc(text), EXE, TOOL));
    assert_eq!(out["model"], Value::String("x".to_string()));
    assert_eq!(out["hooks"]["SessionStart"], value(text)["hooks"]["SessionStart"]);
    let stop = out["hooks"]["Stop"].as_array().unwrap();
    assert_eq!(stop.len(), 2);
    assert_eq!(stop[0], value(text)["hooks"]["Stop"][0]);
    assert_eq!(stop[1], ours("done"));
}

#[test]
fn installing_twice_is_installing_once() {
    let text = r#"{"hooks": {"Stop": [{"hooks": [{"command": "bridge.exe"}]}]}}"#;
    let once = to_value(install(doc(text), EXE, TOOL));
    let twice = to_value(install(install(doc(text), EXE, TOOL), EXE, TOOL));
    assert_eq!(once, twice);
}

#[test]
fn install_replaces_a_root_that_is_not_an_object() {
    let out = to_value(install(doc("[1, 2]"), EXE, TOOL));
    assert!(out.is_object());
    assert_eq!(out.as_object().unwrap().len(), 1);
    assert_eq!(out["hooks"]["Stop"], Value::Array(vec![ours("done")]));
}

#[test]
fn hooks_that_are_not_an_object_cannot_be_installed_into() {
    assert!(!has_usable_hooks_slot(&doc(r#"{"hooks": [1]}"#)));
    assert!(has_usable_hooks_slot(&doc(r#"{"hooks": {}}"#)));
    assert!(has_usable_hooks_slot(&doc(r#"{"other": 1}"#)));
    assert!(has_usable_hooks_slot(&doc("7")));
}

#[test]
fn is_installed_follows_install_and_uninstall() {
    let text = r#"{"hooks": {"Stop": [{"hooks": [{"command": "bridge.exe --set x"}]}]}}"#;
    assert!(!is_installed(&doc(text), TOOL));
    let installed = install(doc(text), EXE, TOOL);
    assert!(is_installed(&installed, TOOL));
    let removed = uninstall(installed, TOOL);
    assert!(!is_installed(&removed, TOOL));
}

#[test]
fn uninstall_leaves_foreign_hooks() {
    let text = r#"{"hooks": {"Stop": [{"hooks": [{"command": "bridge.exe"}]}]}, "x": true}"#;
    let out = to_value(uninstall(install(doc(text), EXE, TOOL), TOOL));
    let mut want = value(text);
    want["hooks"]["Stop"] = value(text)["hooks"]["Stop"].clone();
    assert_eq!(out, want);
}

#[test]
fn uninstall_drops_events_left_empty_and_keeps_non_arrays() {
    let mut v = value(r#"{"hooks": {"Stop": [], "Weird": 3}}"#);
    v["hooks"]["Stop"] = Value::Array(vec![ours("done")]);
    let out = to_value(uninstall(to_json(v), TOOL));
    assert_eq!(out, value(r#"{"hooks": {"Weird": 3}}"#));
}

#[test]
fn uninstall_leaves_a_document_without_hooks_object_alone() {
    let text = r#"{"hooks": [1, 2], "a": null}"#;
    assert_eq!(to_value(uninstall(doc(text), TOOL)), value(text));
    assert_eq!(to_value(uninstall(doc("\"s\""), TOOL)), value("\"s\""));
}

#[test]
fn uninstalling_twice_is_uninstalling_once() {
    let text = r#"{"hooks": {"Stop": [{"hooks": [{"command": "bridge.exe"}]}], "A": 1}}"#;
    let once = to_value(uninstall(install(doc(text), EXE, TOOL), TOOL));
    let twice = to_value(uninstall(uninstall(install(doc(text), EXE, TOOL), TOOL), TOOL));
    assert_eq!(once, twice);
}

#[test]
fn group_ownership_needs_a_marked_command() {
    assert!(group_is_ours(&to_json(ours("done")), TOOL));
    assert!(!group_is_ours(&doc(r#"{"hooks": [{"command": 5}]}"#), TOOL));
    assert!(!group_is_ours(&doc(r#"{"hooks": {"command": "edge-glow --set"}}"#), TOOL));
    assert!(!group_is_ours(&doc("[]"), TOOL));
}

#[test]
fn strip_ours_keeps_foreign_groups_in_order() {
    let a = value(r#"{"hooks": [{"command": "a"}]}"#);
    let b = value(r#"{"hooks": [{"command": "b"}]}"#);
    let groups = vec![to_json(a.clone()), to_json(ours("done")), to_json(b.clone())];
    let kept: Vec<Value> = strip_ours(groups, TOOL).into_iter().map(to_value).collect();
    assert_eq!(kept, vec![a, b]);
}

#[test]
fn settings_text_tolerates_blank_text_and_byte_order_marks() {
    assert_eq!(to_value(read_settings("").unwrap()), value("{}"));
    assert_eq!(to_value(read_settings(" \r\n\t").unwrap()), value("{}"));
    assert_eq!(to_value(read_settings("\u{feff}\u{feff}{\"a\": [1, 2.5]}").unwrap()), value("{\"a\": [1, 2.5]}"));
    assert!(read_settings("not json").is_none());
    assert!(read_settings("{\"a\": 1} trailing").is_none());
}

#[test]
fn install_settings_prints_the_installed_document() {
    let text = r#"{"model": "x", "hooks": {"Stop": [{"hooks": [{"command": "bridge.exe"}]}]}}"#;
    let out = install_settings(text, EXE, TOOL).unwrap();
    let want = to_value(install(doc(text), EXE, TOOL));
    assert_eq!(out, serde_json::to_string_pretty(&want).unwrap());
    assert!(out.contains("\n  \"hooks\": {"));
}

#[test]
fn settings_that_cannot_be_changed_are_refused() {
    assert_eq!(install_settings("{oops", EXE, TOOL), Err(SettingsError::NotJson));
    assert_eq!(uninstall_settings("{oops", TOOL), Err(SettingsError::NotJson));
    assert_eq!(install_settings("{\"hooks\": [1]}", EXE, TOOL), Err(SettingsError::HooksNotObject));
    assert_eq!(uninstall_settings("", TOOL), Ok("{}".to_string()));
}

#[test]
fn uninstall_settings_undoes_install_settings() {
    let text = r#"{"model": "x", "hooks": {"Stop": [{"hooks": [{"command": "bridge.exe"}]}], "Other": 3}}"#;
    let installed = install_settings(text, EXE, TOOL).unwrap();
    assert!(settings_have_our_hooks(&installed, TOOL));
    let removed = uninstall_settings(&installed, TOOL).unwrap();
    assert!(!settings_have_our_hooks(&removed, TOOL));
    assert_eq!(value(&removed), value(text));
    assert!(!settings_have_our_hooks("garbage", TOOL));
}

#[test]
fn every_hooked_event_writes_a_valid_state() {
    let mut names = Vec::new();
    for i in 0..5 {
        let (event, state, _) = hook_event(i);
        assert!(is_valid_state(state));
        names.push(event);
    }
    assert_eq!(names, vec!["UserPromptSubmit", "PreToolUse", "PostToolUse", "Notification", "Stop"]);
}

#[test]
fn install_with_an_exe_that_lacks_the_tool_name_is_not_recognised() {
    let out = install(Json::empty_object(), "C:\\bin\\other.exe", TOOL);
    assert!(!is_installed(&out, TOOL));
}

#[test]
fn a_repeated_key_keeps_one_member() {
    let out = to_value(read_settings(r#"{"a": 1, "a": 2}"#).unwrap());
    assert_eq!(out, value(r#"{"a": 2}"#));
}
