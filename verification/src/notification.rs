//! A `Notification` hook fires both for real permission prompts and for
//! benign "waiting for your input" notices. The event text decides: only a
//! message about permission, approval or confirmation keeps the waiting
//! state; anything else lets the glow go dark.
use vstd::prelude::*;
use crate::text::{contains, contains_text, trim, trim_text};

verus! {

broadcast use vstd::string::group_string_axioms;

/// Names what `str::to_lowercase` makes of a text (its lower-case form by the
/// Unicode `Lowercase` mapping, which may map one character to several and
/// treats a final sigma by its context).
pub uninterp spec fn lowercase(s: Seq<char>) -> Seq<char>;

/// `str::to_lowercase` (std). Its contract only names the result: the
/// Unicode lower-case mapping it applies is not restated here.
#[verifier::external_body]
fn to_lower(s: &str) -> (r: String)
    ensures
        r@ == lowercase(s@),
{
    s.to_lowercase()
}

/// The (lower-cased) event text speaks of a permission prompt.
pub open spec fn mentions_permission(t: Seq<char>) -> bool {
    ||| contains(t, "permission"@)
    ||| contains(t, "approval"@)
    ||| contains(t, "approve"@)
    ||| contains(t, "confirm"@)
}

/// The state a `waiting` request resolves to: waiting when no event text
/// could be read, when it is blank, or when it speaks of a permission
/// prompt; idle otherwise.
pub open spec fn waiting_resolution(event: Option<Seq<char>>) -> Seq<char> {
    match event {
        None => "waiting"@,
        Some(e) => if trim(e).len() == 0 || mentions_permission(lowercase(e)) {
            "waiting"@
        } else {
            "idle"@
        },
    }
}

/// Readable event text that is not blank keeps the waiting state exactly
/// when its lower-cased form speaks of permission, approval (or approving)
/// or confirmation; any other such text resolves to idle. No event text, or
/// blank text, keeps waiting. Nothing else is ever answered.
pub proof fn lemma_waiting_only_for_prompts(event: Option<Seq<char>>)
    ensures
        waiting_resolution(event) == "waiting"@ || waiting_resolution(event) == "idle"@,
        "waiting"@ != "idle"@,
        match event {
            None => waiting_resolution(event) == "waiting"@,
            Some(e) => if trim(e).len() == 0 {
                waiting_resolution(event) == "waiting"@
            } else {
                waiting_resolution(event) == "waiting"@ <==> {
                    ||| contains(lowercase(e), "permission"@)
                    ||| contains(lowercase(e), "approval"@)
                    ||| contains(lowercase(e), "approve"@)
                    ||| contains(lowercase(e), "confirm"@)
                }
            },
        },
{
    reveal_strlit("waiting");
    reveal_strlit("idle");
    assert("waiting"@.len() != "idle"@.len());
}

/// Whether lower-cased event text speaks of a permission prompt.
pub fn asks_for_permission(lowered: &str) -> (r: bool)
    ensures
        r == mentions_permission(lowered@),
{
    contains_text(lowered, "permission") || contains_text(lowered, "approval") || contains_text(
        lowered,
        "approve",
    ) || contains_text(lowered, "confirm")
}

/// Resolve a `waiting` request from the notification event's text (`None`
/// when there is none to read, as from an interactive console).
pub fn resolve_waiting(event: Option<&str>) -> (r: String)
    ensures
        r@ == waiting_resolution(
            match event {
                Some(e) => Some(e@),
                None => None,
            },
        ),
        r@ == "waiting"@ || r@ == "idle"@,
        match event {
            None => r@ == "waiting"@,
            Some(e) => if trim(e@).len() == 0 {
                r@ == "waiting"@
            } else {
                r@ == "waiting"@ <==> {
                    ||| contains(lowercase(e@), "permission"@)
                    ||| contains(lowercase(e@), "approval"@)
                    ||| contains(lowercase(e@), "approve"@)
                    ||| contains(lowercase(e@), "confirm"@)
                }
            },
        },
{
    proof {
        lemma_waiting_only_for_prompts(
            match event {
                Some(e) => Some(e@),
                None => None,
            },
        );
    }
    match event {
        None => String::from_str("waiting"),
        Some(e) => {
            if trim_text(e).is_empty() {
                return String::from_str("waiting");
            }
            let low = to_lower(e);
            if asks_for_permission(low.as_str()) {
                String::from_str("waiting")
            } else {
                String::from_str("idle")
            }
        },
    }
}

} // verus!
