//! The agent's settings file as text: parsing it (with serde_json), applying
//! the installer, and printing it back.
//!
//! Blank text counts as an empty object. Text that is not JSON is refused,
//! so that neither install nor uninstall overwrites a file whose hooks it
//! cannot see.
use vstd::prelude::*;
use crate::hooks::{
    has_usable_hooks_slot, hooks_installed, hooks_slot_usable, install, installed_root,
    is_installed, root_members, uninstall, uninstalled_root,
};
use crate::hook_laws::{
    lemma_hooks_keys_unique, lemma_install_keeps_foreign, lemma_install_then_installed,
    lemma_uninstall_keeps_foreign, lemma_uninstall_then_not_installed,
};
use crate::json::{
    field, json_keys_unique, json_same, json_same_opt, keys_unique, lemma_same_member, member, Json,
    JsonValue, Members,
};
use crate::settings_laws::{
    lemma_installed_within, lemma_printed_text_document, lemma_same_hooks_installed,
    lemma_uninstalled_within,
};
use crate::text::{bom, contains, is_space, strip_bom, trim, trim_text, without_bom};

verus! {

broadcast use vstd::string::group_string_axioms;

#[verifier::external_type_specification]
#[verifier::external_body]
pub struct ExValue(serde_json::Value);

/// Names what `serde_json::from_str::<serde_json::Value>` makes of a text,
/// in the library's model: nothing when the text is not one JSON value.
pub uninterp spec fn parsed_json(text: Seq<char>) -> Option<JsonValue>;

/// Names the text that `serde_json::to_string_pretty` prints for a value.
pub uninterp spec fn printed_json(v: JsonValue) -> Seq<char>;

/// A value that serde_json prints and reads back as the same document: it
/// nests at most `depth` arrays and objects (serde_json refuses to read
/// deeper nesting than 127), each object has unique keys, and each number is
/// kept in the form serde_json prints it.
pub open spec fn canonical_within(v: JsonValue, depth: nat) -> bool
    decreases v,
{
    match v {
        JsonValue::Number(t) => parsed_json(t) == Some(JsonValue::Number(t)),
        JsonValue::Array(xs) => depth > 0 && forall|i: int|
            0 <= i < xs.len() ==> canonical_within(#[trigger] xs[i], (depth - 1) as nat),
        JsonValue::Object(es) => depth > 0 && keys_unique(es) && forall|i: int|
            0 <= i < es.len() ==> canonical_within(#[trigger] es[i].1, (depth - 1) as nat),
        _ => true,
    }
}

/// Members with unique keys, each value canonical within `depth`.
pub open spec fn members_within(es: Members, depth: nat) -> bool {
    keys_unique(es) && forall|i: int|
        0 <= i < es.len() ==> canonical_within(#[trigger] es[i].1, depth)
}

/// A serde_json value as the library's JSON value, member for member
/// (numbers by their printed text).
#[verifier::external_body]
fn json_from_value(v: serde_json::Value) -> Json {
    match v {
        serde_json::Value::Null => Json::Null,
        serde_json::Value::Bool(b) => Json::Bool(b),
        serde_json::Value::Number(n) => Json::Number(n.to_string()),
        serde_json::Value::String(s) => Json::Str(s),
        serde_json::Value::Array(a) => Json::Array(a.into_iter().map(json_from_value).collect()),
        serde_json::Value::Object(m) => Json::Object(
            m.into_iter().map(|(k, v)| (k, json_from_value(v))).collect(),
        ),
    }
}

/// The library's JSON value as a serde_json value, member for member
/// (numbers parsed back from their text).
#[verifier::external_body]
fn value_from_json(j: &Json) -> serde_json::Value {
    match j {
        Json::Null => serde_json::Value::Null,
        Json::Bool(b) => serde_json::Value::Bool(*b),
        Json::Number(t) => t.parse::<serde_json::Number>().map(serde_json::Value::Number).unwrap_or(
            serde_json::Value::Null,
        ),
        Json::Str(s) => serde_json::Value::String(s.clone()),
        Json::Array(a) => serde_json::Value::Array(a.iter().map(value_from_json).collect()),
        Json::Object(es) => serde_json::Value::Object(
            es.iter().map(|(k, v)| (k.clone(), value_from_json(v))).collect(),
        ),
    }
}

/// `serde_json::from_str::<serde_json::Value>`: the value a text denotes,
/// or nothing when it is not JSON. The contract names the result and states
/// what serde_json's reader guarantees of every value it returns: its objects
/// have unique keys (members are collected in a map, where a repeated key
/// replaces the earlier member), it nests at most 127 arrays and objects (the
/// reader's recursion limit refuses deeper text), and each number is held in
/// the text serde_json prints for it, which reads back as the same number.
#[verifier::external_body]
fn parse_json(text: &str) -> (r: Option<Json>)
    ensures
        match r {
            Some(j) => parsed_json(text@) == Some(j@) && json_keys_unique(j@) && canonical_within(
                j@,
                127,
            ),
            None => parsed_json(text@) is None,
        },
{
    serde_json::from_str::<serde_json::Value>(text).ok().map(json_from_value)
}

/// `serde_json::to_string_pretty` on a JSON value (printing a value, whose
/// map keys are strings, does not fail). The contract names the result and
/// states two facts of serde_json's printer: the text starts with the first
/// character of a JSON value (never white space or a byte order mark), and
/// serde_json reads the text of a value it can read back (see
/// `canonical_within`) as the same document: every string, boolean, null and
/// number as it was, arrays in order, and objects with the same members,
/// which the printer writes in key order.
#[verifier::external_body]
fn print_json(j: &Json) -> (r: String)
    ensures
        r@ == printed_json(j@),
        r@.len() > 0 && !is_space(r@[0]) && r@[0] != bom(),
        canonical_within(j@, 127) ==> parsed_json(r@) is Some && json_same(parsed_json(r@)->0, j@),
{
    serde_json::to_string_pretty(&value_from_json(j)).unwrap_or_default()
}

/// Why a settings text cannot be changed.
#[derive(PartialEq, Eq, Structural, Debug, Clone, Copy)]
pub enum SettingsError {
    /// The text is not blank and is not JSON.
    NotJson,
    /// The document's `hooks` member is not an object.
    HooksNotObject,
}

/// The document a settings text holds: an empty object for blank text,
/// otherwise what the text after its byte order marks parses to.
pub open spec fn settings_document(raw: Seq<char>) -> Option<JsonValue> {
    if trim(raw).len() == 0 {
        Some(JsonValue::Object(Seq::empty()))
    } else {
        parsed_json(without_bom(raw))
    }
}

/// The document a settings text holds.
pub fn read_settings(raw: &str) -> (r: Option<Json>)
    ensures
        match r {
            Some(j) => settings_document(raw@) == Some(j@) && json_keys_unique(j@)
                && canonical_within(j@, 127),
            None => settings_document(raw@) is None,
        },
{
    if trim_text(raw).is_empty() {
        Some(Json::empty_object())
    } else {
        parse_json(strip_bom(raw))
    }
}

/// The settings text with our hooks installed. The text reads back as the
/// installed document (up to the order of object members): every member
/// other than `hooks` as it was, and, when the executable's path carries the
/// tool's name, our hooks present, so that checking the text finds them.
pub fn install_settings(raw: &str, exe: &str, tool: &str) -> (r: Result<String, SettingsError>)
    ensures
        match settings_document(raw@) {
            None => r == Err::<String, SettingsError>(SettingsError::NotJson),
            Some(d) => json_keys_unique(d) && (if hooks_slot_usable(d) {
                r is Ok && {
                    let t = r->Ok_0;
                    let m = installed_root(d, exe@, tool@);
                    let p = settings_document(t@)->0;
                    &&& t@ == printed_json(m)
                    &&& settings_document(t@) is Some
                    &&& json_same(p, m)
                    &&& forall|k: Seq<char>|
                        k != "hooks"@ ==> json_same_opt(
                            #[trigger] member(p, k),
                            field(root_members(d), k),
                        )
                    &&& contains(exe@, tool@) ==> hooks_installed(p, tool@)
                }
            } else {
                r == Err::<String, SettingsError>(SettingsError::HooksNotObject)
            }),
        },
{
    match read_settings(raw) {
        None => Err(SettingsError::NotJson),
        Some(root) => {
            if !has_usable_hooks_slot(&root) {
                return Err(SettingsError::HooksNotObject);
            }
            let ghost d = root@;
            let out = install(root, exe, tool);
            let t = print_json(&out);
            proof {
                let m = installed_root(d, exe@, tool@);
                lemma_installed_within(d, exe@, tool@);
                lemma_printed_text_document(t@);
                let p = settings_document(t@)->0;
                assert forall|k: Seq<char>| k != "hooks"@ implies json_same_opt(
                    #[trigger] member(p, k),
                    field(root_members(d), k),
                ) by {
                    lemma_same_member(p, m, k);
                    lemma_install_keeps_foreign(d, exe@, tool@, k);
                }
                if contains(exe@, tool@) {
                    lemma_install_then_installed(d, exe@, tool@);
                    lemma_same_hooks_installed(p, m, tool@);
                }
            }
            Ok(t)
        },
    }
}

/// The settings text with our hooks removed. The text reads back as the
/// uninstalled document (up to the order of object members): every member
/// other than `hooks` as it was, and none of our hooks left.
pub fn uninstall_settings(raw: &str, tool: &str) -> (r: Result<String, SettingsError>)
    ensures
        match settings_document(raw@) {
            None => r == Err::<String, SettingsError>(SettingsError::NotJson),
            Some(d) => json_keys_unique(d) && r is Ok && {
                let t = r->Ok_0;
                let m = uninstalled_root(d, tool@);
                let p = settings_document(t@)->0;
                &&& t@ == printed_json(m)
                &&& settings_document(t@) is Some
                &&& json_same(p, m)
                &&& forall|k: Seq<char>|
                    k != "hooks"@ ==> json_same_opt(#[trigger] member(p, k), member(d, k))
                &&& !hooks_installed(p, tool@)
            },
        },
{
    match read_settings(raw) {
        None => Err(SettingsError::NotJson),
        Some(root) => {
            let ghost d = root@;
            let out = uninstall(root, tool);
            let t = print_json(&out);
            proof {
                let m = uninstalled_root(d, tool@);
                lemma_uninstalled_within(d, tool@);
                lemma_printed_text_document(t@);
                let p = settings_document(t@)->0;
                lemma_hooks_keys_unique(d);
                assert forall|k: Seq<char>| k != "hooks"@ implies json_same_opt(
                    #[trigger] member(p, k),
                    member(d, k),
                ) by {
                    lemma_same_member(p, m, k);
                    lemma_uninstall_keeps_foreign(d, tool@, k);
                }
                lemma_uninstall_then_not_installed(d, tool@);
                lemma_same_hooks_installed(p, m, tool@);
            }
            Ok(t)
        },
    }
}

/// Whether a settings text holds our hooks (text that is not JSON holds none).
pub fn settings_have_our_hooks(raw: &str, tool: &str) -> (r: bool)
    ensures
        r == match settings_document(raw@) {
            Some(d) => hooks_installed(d, tool@),
            None => false,
        },
{
    match read_settings(raw) {
        Some(root) => is_installed(&root, tool),
        None => false,
    }
}

} // verus!
