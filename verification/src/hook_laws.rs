//! What installing and uninstalling promise of a settings document as a
//! whole: our hooks are there after an install and gone after an uninstall,
//! both can be repeated without further change, and every hook that is not
//! ours survives both.
use vstd::prelude::*;
use crate::hooks::{
    command_is_ours, command_text, event_has_ours, foreign_groups, group_belongs, hook_entry,
    hook_entry_is_ours, hook_table, hooks_installed, hooks_members, hooks_slot_usable,
    install_events, installed_root, kept_groups, our_group, root_members, set_flag,
    strip_events_spec, uninstalled_root, with_event,
};
use crate::json::{
    field, json_keys_unique, keys_unique, key_index, lemma_key_index, lemma_key_index_first, lemma_with_field,
    lemma_with_same_field, member, with_field, JsonValue, Members,
};
use crate::text::{contains, lemma_contains_witness, lemma_contains_within, occurs_at};

verus! {

/// No group of the sequence is ours.
pub open spec fn all_foreign(gs: Seq<JsonValue>, tool: Seq<char>) -> bool {
    forall|j: int| 0 <= j < gs.len() ==> !group_belongs(#[trigger] gs[j], tool)
}

/// `k` names one of the events we hook.
pub open spec fn is_hook_event(k: Seq<char>) -> bool {
    exists|i: int| 0 <= i < 5 && #[trigger] hook_table()[i].0 == k
}

/// The foreign groups hold no group of ours.
pub proof fn lemma_foreign_groups_foreign(gs: Seq<JsonValue>, tool: Seq<char>)
    ensures
        all_foreign(foreign_groups(gs, tool), tool),
    decreases gs.len(),
{
    if gs.len() > 0 {
        lemma_foreign_groups_foreign(gs.drop_last(), tool);
    }
}

/// A sequence without groups of ours is its own foreign part.
pub proof fn lemma_foreign_groups_fixed(gs: Seq<JsonValue>, tool: Seq<char>)
    requires
        all_foreign(gs, tool),
    ensures
        foreign_groups(gs, tool) == gs,
    decreases gs.len(),
{
    if gs.len() > 0 {
        assert(all_foreign(gs.drop_last(), tool)) by {
            assert forall|j: int| 0 <= j < gs.drop_last().len() implies !group_belongs(
                #[trigger] gs.drop_last()[j],
                tool,
            ) by {
                assert(gs.drop_last()[j] == gs[j]);
            }
        }
        lemma_foreign_groups_fixed(gs.drop_last(), tool);
        assert(!group_belongs(gs[gs.len() - 1], tool));
        assert(gs.drop_last().push(gs.last()) =~= gs);
    }
}

/// Appending a group of ours adds nothing to the foreign part.
pub proof fn lemma_foreign_groups_push_ours(gs: Seq<JsonValue>, g: JsonValue, tool: Seq<char>)
    requires
        group_belongs(g, tool),
    ensures
        foreign_groups(gs.push(g), tool) == foreign_groups(gs, tool),
{
    assert(gs.push(g).drop_last() =~= gs);
}

/// Filtering our groups out twice is filtering them out once.
pub proof fn lemma_foreign_groups_idempotent(gs: Seq<JsonValue>, tool: Seq<char>)
    ensures
        foreign_groups(foreign_groups(gs, tool), tool) == foreign_groups(gs, tool),
{
    lemma_foreign_groups_foreign(gs, tool);
    lemma_foreign_groups_fixed(foreign_groups(gs, tool), tool);
}

/// The five hooked events have different names.
pub proof fn lemma_hook_events_distinct()
    ensures
        forall|i: int, j: int|
            0 <= i < 5 && 0 <= j < 5 && i != j ==> #[trigger] hook_table()[i].0
                != #[trigger] hook_table()[j].0,
{
    reveal_strlit("UserPromptSubmit");
    reveal_strlit("PreToolUse");
    reveal_strlit("PostToolUse");
    reveal_strlit("Notification");
    reveal_strlit("Stop");
    let t = hook_table();
    assert(t[0].0.len() == 16);
    assert(t[1].0.len() == 10);
    assert(t[2].0.len() == 11);
    assert(t[3].0.len() == 12);
    assert(t[4].0.len() == 4);
}

/// The command we install for any state is ours when the executable's path
/// carries the tool name.
pub proof fn lemma_our_command_is_ours(exe: Seq<char>, state: Seq<char>, tool: Seq<char>)
    requires
        contains(exe, tool),
    ensures
        command_is_ours(command_text(exe, state), tool),
{
    let q = "\""@;
    let mid = "\" --set "@;
    reveal_strlit("\"");
    reveal_strlit("\" --set ");
    reveal_strlit("--set");
    assert(command_text(exe, state) =~= q + exe + (mid + state));
    lemma_contains_within(q, exe, mid + state, tool);
    assert(mid.subrange(2, 7) =~= set_flag());
    assert(occurs_at(mid, set_flag(), 2));
    lemma_contains_witness(mid, set_flag(), 2);
    assert(command_text(exe, state) =~= (q + exe) + mid + state);
    lemma_contains_within(q + exe, mid, state, set_flag());
}

/// The group we install is ours when the executable's path carries the
/// tool name.
pub proof fn lemma_our_group_is_ours(
    exe: Seq<char>,
    state: Seq<char>,
    matcher: bool,
    tool: Seq<char>,
)
    requires
        contains(exe, tool),
    ensures
        group_belongs(our_group(exe, state, matcher), tool),
{
    let h = hook_entry(exe, state);
    let hes = h->Object_0;
    lemma_key_index_first(hes, "command"@, 0);
    lemma_our_command_is_ours(exe, state, tool);
    assert(hook_entry_is_ours(h, tool));
    let g = our_group(exe, state, matcher);
    let ges = g->Object_0;
    lemma_key_index_first(ges, "hooks"@, 0);
    let hs = seq![h];
    assert(member(g, "hooks"@) == Some(JsonValue::Array(hs)));
    assert(hook_entry_is_ours(hs[0], tool));
    assert(exists|j: int| 0 <= j < hs.len() && #[trigger] hook_entry_is_ours(hs[j], tool));
    assert(member(g, "hooks"@)->0->Array_0 == hs);
}

/// After the first `n` events of the table are installed, each of them holds
/// the groups it kept, then our group.
pub proof fn lemma_install_events_field(h: Members, exe: Seq<char>, tool: Seq<char>, n: nat, k: int)
    requires
        n <= 5,
        0 <= k < n,
    ensures
        field(install_events(h, exe, tool, n), hook_table()[k].0) == Some(
            JsonValue::Array(
                kept_groups(field(h, hook_table()[k].0), tool).push(
                    our_group(exe, hook_table()[k].1, hook_table()[k].2),
                ),
            ),
        ),
    decreases n,
{
    lemma_hook_events_distinct();
    let prev = install_events(h, exe, tool, (n - 1) as nat);
    let ev = hook_table()[n - 1];
    lemma_with_field(
        prev,
        ev.0,
        JsonValue::Array(kept_groups(field(prev, ev.0), tool).push(our_group(exe, ev.1, ev.2))),
        hook_table()[k].0,
    );
    if k < n - 1 {
        lemma_install_events_field(h, exe, tool, (n - 1) as nat, k);
    } else {
        lemma_install_events_untouched(h, exe, tool, (n - 1) as nat, ev.0);
    }
}

/// Installing the first `n` events leaves every other member of `hooks` as
/// it was.
pub proof fn lemma_install_events_untouched(
    h: Members,
    exe: Seq<char>,
    tool: Seq<char>,
    n: nat,
    k: Seq<char>,
)
    requires
        n <= 5,
        forall|i: int| 0 <= i < n ==> hook_table()[i].0 != k,
    ensures
        field(install_events(h, exe, tool, n), k) == field(h, k),
    decreases n,
{
    if n > 0 {
        let prev = install_events(h, exe, tool, (n - 1) as nat);
        let ev = hook_table()[n - 1];
        lemma_with_field(
            prev,
            ev.0,
            JsonValue::Array(kept_groups(field(prev, ev.0), tool).push(our_group(exe, ev.1, ev.2))),
            k,
        );
        lemma_install_events_untouched(h, exe, tool, (n - 1) as nat, k);
    }
}

/// The `hooks` object after installing.
pub proof fn lemma_installed_hooks(root: JsonValue, exe: Seq<char>, tool: Seq<char>)
    ensures
        root_members(installed_root(root, exe, tool)) == with_field(
            root_members(root),
            "hooks"@,
            JsonValue::Object(install_events(hooks_members(root), exe, tool, 5)),
        ),
        field(root_members(installed_root(root, exe, tool)), "hooks"@) == Some(
            JsonValue::Object(install_events(hooks_members(root), exe, tool, 5)),
        ),
        hooks_members(installed_root(root, exe, tool)) == install_events(
            hooks_members(root),
            exe,
            tool,
            5,
        ),
{
    lemma_with_field(
        root_members(root),
        "hooks"@,
        JsonValue::Object(install_events(hooks_members(root), exe, tool, 5)),
        "hooks"@,
    );
}

/// An installed document can be installed into again.
pub proof fn lemma_installed_slot_usable(root: JsonValue, exe: Seq<char>, tool: Seq<char>)
    ensures
        hooks_slot_usable(installed_root(root, exe, tool)),
{
    lemma_installed_hooks(root, exe, tool);
}

/// Install maps every event of the table to its state: the event keeps the
/// groups that are not ours and ends with our group for its state.
pub proof fn lemma_install_maps_events(root: JsonValue, exe: Seq<char>, tool: Seq<char>, i: int)
    requires
        0 <= i < 5,
    ensures
        field(hooks_members(installed_root(root, exe, tool)), hook_table()[i].0) == Some(
            JsonValue::Array(
                kept_groups(field(hooks_members(root), hook_table()[i].0), tool).push(
                    our_group(exe, hook_table()[i].1, hook_table()[i].2),
                ),
            ),
        ),
{
    lemma_installed_hooks(root, exe, tool);
    lemma_install_events_field(hooks_members(root), exe, tool, 5, i);
}

/// After an install our hooks are present (the command we write carries the
/// tool name only when the executable's path does).
pub proof fn lemma_install_then_installed(root: JsonValue, exe: Seq<char>, tool: Seq<char>)
    requires
        contains(exe, tool),
    ensures
        hooks_installed(installed_root(root, exe, tool), tool),
{
    let r = installed_root(root, exe, tool);
    lemma_installed_hooks(root, exe, tool);
    let h1 = install_events(hooks_members(root), exe, tool, 5);
    let ev = hook_table()[4];
    lemma_install_maps_events(root, exe, tool, 4);
    let kept = kept_groups(field(hooks_members(root), ev.0), tool);
    let g = our_group(exe, ev.1, ev.2);
    lemma_our_group_is_ours(exe, ev.1, ev.2, tool);
    let a = kept.push(g);
    assert(a[a.len() - 1] == g);
    assert(exists|j: int| 0 <= j < a.len() && #[trigger] group_belongs(a[j], tool));
    assert(JsonValue::Array(a)->Array_0 == a);
    assert(event_has_ours(JsonValue::Array(a), tool));
    lemma_key_index(h1, ev.0);
    let n = key_index(h1, ev.0)->0;
    assert(h1[n].1 == JsonValue::Array(a));
    assert(member(r, "hooks"@) == Some(JsonValue::Object(h1)));
    assert(event_has_ours(h1[n].1, tool));
}

/// Installing an event again changes nothing once the table is installed.
proof fn lemma_with_event_stable(h1: Members, h: Members, exe: Seq<char>, tool: Seq<char>, k: int)
    requires
        h1 == install_events(h, exe, tool, 5),
        0 <= k < 5,
        contains(exe, tool),
    ensures
        with_event(h1, hook_table()[k], exe, tool) == h1,
{
    let ev = hook_table()[k];
    lemma_install_events_field(h, exe, tool, 5, k);
    let kept = kept_groups(field(h, ev.0), tool);
    let g = our_group(exe, ev.1, ev.2);
    lemma_our_group_is_ours(exe, ev.1, ev.2, tool);
    match field(h, ev.0) {
        Some(JsonValue::Array(a)) => {
            lemma_foreign_groups_foreign(a, tool);
        },
        _ => {},
    }
    assert(all_foreign(kept, tool));
    lemma_foreign_groups_push_ours(kept, g, tool);
    lemma_foreign_groups_fixed(kept, tool);
    assert(kept_groups(field(h1, ev.0), tool) == kept);
    lemma_with_same_field(h1, ev.0, JsonValue::Array(kept.push(g)));
}

/// Installing the table again leaves an installed `hooks` object as it is.
proof fn lemma_install_events_stable(
    h1: Members,
    h: Members,
    exe: Seq<char>,
    tool: Seq<char>,
    n: nat,
)
    requires
        h1 == install_events(h, exe, tool, 5),
        n <= 5,
        contains(exe, tool),
    ensures
        install_events(h1, exe, tool, n) == h1,
    decreases n,
{
    if n > 0 {
        lemma_install_events_stable(h1, h, exe, tool, (n - 1) as nat);
        lemma_with_event_stable(h1, h, exe, tool, n - 1);
    }
}

/// Installing twice is installing once.
pub proof fn lemma_install_idempotent(root: JsonValue, exe: Seq<char>, tool: Seq<char>)
    requires
        contains(exe, tool),
    ensures
        installed_root(installed_root(root, exe, tool), exe, tool) == installed_root(
            root,
            exe,
            tool,
        ),
{
    let r1 = installed_root(root, exe, tool);
    lemma_installed_hooks(root, exe, tool);
    let h1 = install_events(hooks_members(root), exe, tool, 5);
    lemma_install_events_stable(h1, hooks_members(root), exe, tool, 5);
    lemma_with_same_field(root_members(r1), "hooks"@, JsonValue::Object(h1));
}

/// What strips the events leaves no group of ours.
pub proof fn lemma_strip_events_clean(es: Members, tool: Seq<char>)
    ensures
        forall|i: int|
            0 <= i < strip_events_spec(es, tool).len() ==> !event_has_ours(
                #[trigger] strip_events_spec(es, tool)[i].1,
                tool,
            ),
    decreases es.len(),
{
    if es.len() > 0 {
        lemma_strip_events_clean(es.drop_last(), tool);
        let rest = strip_events_spec(es.drop_last(), tool);
        let e = es.last();
        let s = strip_events_spec(es, tool);
        match e.1 {
            JsonValue::Array(a) => {
                lemma_foreign_groups_foreign(a, tool);
                let kept = foreign_groups(a, tool);
                if kept.len() != 0 {
                    assert(!event_has_ours(JsonValue::Array(kept), tool)) by {
                        if event_has_ours(JsonValue::Array(kept), tool) {
                            let j = choose|j: int|
                                0 <= j < kept.len() && #[trigger] group_belongs(kept[j], tool);
                            assert(!group_belongs(kept[j], tool));
                        }
                    }
                    assert forall|i: int|
                        0 <= i < s.len() implies !event_has_ours(#[trigger] s[i].1, tool) by {
                        if i < rest.len() {
                            assert(s[i] == rest[i]);
                        }
                    }
                }
            },
            _ => {
                assert forall|i: int|
                    0 <= i < s.len() implies !event_has_ours(#[trigger] s[i].1, tool) by {
                    if i < rest.len() {
                        assert(s[i] == rest[i]);
                    }
                }
            },
        }
    }
}

/// The `hooks` object after uninstalling, when there is one.
pub proof fn lemma_uninstalled_hooks(root: JsonValue, tool: Seq<char>)
    ensures
        match member(root, "hooks"@) {
            Some(JsonValue::Object(h)) => member(uninstalled_root(root, tool), "hooks"@) == Some(
                JsonValue::Object(strip_events_spec(h, tool)),
            ),
            _ => uninstalled_root(root, tool) == root,
        },
{
    match root {
        JsonValue::Object(es) => match field(es, "hooks"@) {
            Some(JsonValue::Object(h)) => {
                lemma_with_field(
                    es,
                    "hooks"@,
                    JsonValue::Object(strip_events_spec(h, tool)),
                    "hooks"@,
                );
            },
            _ => {},
        },
        _ => {},
    }
}

/// After an uninstall our hooks are gone.
pub proof fn lemma_uninstall_then_not_installed(root: JsonValue, tool: Seq<char>)
    ensures
        !hooks_installed(uninstalled_root(root, tool), tool),
{
    lemma_uninstalled_hooks(root, tool);
    match member(root, "hooks"@) {
        Some(JsonValue::Object(h)) => {
            lemma_strip_events_clean(h, tool);
        },
        _ => {},
    }
}

/// Stripping the events twice is stripping them once.
pub proof fn lemma_strip_events_idempotent(es: Members, tool: Seq<char>)
    ensures
        strip_events_spec(strip_events_spec(es, tool), tool) == strip_events_spec(es, tool),
    decreases es.len(),
{
    if es.len() > 0 {
        lemma_strip_events_idempotent(es.drop_last(), tool);
        let rest = strip_events_spec(es.drop_last(), tool);
        let e = es.last();
        match e.1 {
            JsonValue::Array(a) => {
                let kept = foreign_groups(a, tool);
                if kept.len() != 0 {
                    let s = rest.push((e.0, JsonValue::Array(kept)));
                    assert(s.drop_last() =~= rest);
                    lemma_foreign_groups_idempotent(a, tool);
                }
            },
            _ => {
                let s = rest.push(e);
                assert(s.drop_last() =~= rest);
            },
        }
    }
}

/// Uninstalling twice is uninstalling once.
pub proof fn lemma_uninstall_idempotent(root: JsonValue, tool: Seq<char>)
    ensures
        uninstalled_root(uninstalled_root(root, tool), tool) == uninstalled_root(root, tool),
{
    lemma_uninstalled_hooks(root, tool);
    match root {
        JsonValue::Object(es) => match field(es, "hooks"@) {
            Some(JsonValue::Object(h)) => {
                let s = strip_events_spec(h, tool);
                let es1 = with_field(es, "hooks"@, JsonValue::Object(s));
                lemma_with_field(es, "hooks"@, JsonValue::Object(s), "hooks"@);
                lemma_strip_events_idempotent(h, tool);
                lemma_with_same_field(es1, "hooks"@, JsonValue::Object(s));
            },
            _ => {},
        },
        _ => {},
    }
}

/// Install keeps every member of the document other than `hooks`, every
/// event that we do not hook, and, when the executable's path carries the
/// tool's name (so that our new group is recognised as ours), every group of
/// a hooked event that is not ours.
pub proof fn lemma_install_keeps_foreign(
    root: JsonValue,
    exe: Seq<char>,
    tool: Seq<char>,
    k: Seq<char>,
)
    ensures
        k != "hooks"@ ==> field(root_members(installed_root(root, exe, tool)), k) == field(
            root_members(root),
            k,
        ),
        !is_hook_event(k) ==> field(hooks_members(installed_root(root, exe, tool)), k) == field(
            hooks_members(root),
            k,
        ),
        field(hooks_members(root), k) matches Some(JsonValue::Array(a)) ==> field(
            hooks_members(installed_root(root, exe, tool)),
            k,
        ) matches Some(JsonValue::Array(b)) && (contains(exe, tool) ==> foreign_groups(b, tool)
            == foreign_groups(a, tool)),
{
    lemma_installed_hooks(root, exe, tool);
    lemma_with_field(
        root_members(root),
        "hooks"@,
        JsonValue::Object(install_events(hooks_members(root), exe, tool, 5)),
        k,
    );
    if is_hook_event(k) {
        let i = choose|i: int| 0 <= i < 5 && #[trigger] hook_table()[i].0 == k;
        lemma_install_maps_events(root, exe, tool, i);
        let ev = hook_table()[i];
        let g = our_group(exe, ev.1, ev.2);
        if contains(exe, tool) {
            lemma_our_group_is_ours(exe, ev.1, ev.2, tool);
            match field(hooks_members(root), k) {
                Some(JsonValue::Array(a)) => {
                    lemma_foreign_groups_push_ours(foreign_groups(a, tool), g, tool);
                    lemma_foreign_groups_idempotent(a, tool);
                },
                _ => {},
            }
        }
    } else {
        lemma_install_events_untouched(hooks_members(root), exe, tool, 5, k);
    }
}

/// Looking a key up after appending a member.
proof fn lemma_field_push(es: Members, x: (Seq<char>, JsonValue), k: Seq<char>)
    ensures
        field(es.push(x), k) == if field(es, k) is Some {
            field(es, k)
        } else if x.0 == k {
            Some(x.1)
        } else {
            None
        },
{
    let s = es.push(x);
    lemma_key_index(es, k);
    lemma_key_index(s, k);
    match key_index(es, k) {
        Some(n) => {
            lemma_key_index_first(s, k, n);
        },
        None => {
            if x.0 == k {
                lemma_key_index_first(s, k, es.len() as int);
            } else {
                assert(forall|j: int| 0 <= j < s.len() ==> s[j].0 != k);
                if key_index(s, k) is Some {
                    let n = key_index(s, k)->0;
                    assert(s[n].0 == k);
                }
            }
        },
    }
}

/// What uninstalling does to one event of a `hooks` object whose keys are
/// unique: an array keeps its groups that are not ours, or goes away when
/// none are left; any other value stays.
pub proof fn lemma_strip_events_field(es: Members, tool: Seq<char>, k: Seq<char>)
    requires
        keys_unique(es),
    ensures
        field(strip_events_spec(es, tool), k) == match field(es, k) {
            Some(JsonValue::Array(a)) => if foreign_groups(a, tool).len() == 0 {
                None
            } else {
                Some(JsonValue::Array(foreign_groups(a, tool)))
            },
            other => other,
        },
    decreases es.len(),
{
    if es.len() == 0 {
        assert(field(es, k) is None);
        assert(field(strip_events_spec(es, tool), k) is None);
    } else {
        let init = es.drop_last();
        let e = es.last();
        assert(keys_unique(init)) by {
            assert forall|i: int, j: int|
                0 <= i < init.len() && 0 <= j < init.len() && i != j implies init[i].0
                != init[j].0 by {
                assert(init[i] == es[i] && init[j] == es[j]);
            }
        }
        lemma_strip_events_field(init, tool, k);
        assert(init.push(e) =~= es);
        lemma_field_push(init, e, k);
        let rest = strip_events_spec(init, tool);
        if e.0 == k {
            lemma_key_index(init, k);
            assert(field(init, k) is None) by {
                if key_index(init, k) is Some {
                    let n = key_index(init, k)->0;
                    assert(es[n].0 == es[es.len() - 1].0);
                }
            }
        }
        match e.1 {
            JsonValue::Array(a) => {
                let kept = foreign_groups(a, tool);
                if kept.len() != 0 {
                    lemma_field_push(rest, (e.0, JsonValue::Array(kept)), k);
                }
            },
            _ => {
                lemma_field_push(rest, e, k);
            },
        }
    }
}

/// In a document whose objects all have unique keys (any document read from
/// a settings text), so has the `hooks` object.
pub proof fn lemma_hooks_keys_unique(root: JsonValue)
    requires
        json_keys_unique(root),
    ensures
        member(root, "hooks"@) matches Some(JsonValue::Object(h)) ==> keys_unique(h),
{
    match root {
        JsonValue::Object(es) => {
            lemma_key_index(es, "hooks"@);
            match key_index(es, "hooks"@) {
                Some(i) => {
                    assert(json_keys_unique(es[i].1));
                },
                None => {},
            }
        },
        _ => {},
    }
}

/// Uninstall keeps every member of the document other than `hooks`, and in
/// a `hooks` object with unique keys every group that is not ours.
pub proof fn lemma_uninstall_keeps_foreign(root: JsonValue, tool: Seq<char>, k: Seq<char>)
    requires
        member(root, "hooks"@) matches Some(JsonValue::Object(h)) ==> keys_unique(h),
    ensures
        k != "hooks"@ ==> member(uninstalled_root(root, tool), k) == member(root, k),
        member(root, "hooks"@) matches Some(JsonValue::Object(h)) ==> member(
            uninstalled_root(root, tool),
            "hooks"@,
        ) == Some(JsonValue::Object(strip_events_spec(h, tool))) && field(
            strip_events_spec(h, tool),
            k,
        )
            == match field(h, k) {
            Some(JsonValue::Array(a)) => if foreign_groups(a, tool).len() == 0 {
                None
            } else {
                Some(JsonValue::Array(foreign_groups(a, tool)))
            },
            other => other,
        },
{
    lemma_uninstalled_hooks(root, tool);
    match root {
        JsonValue::Object(es) => match field(es, "hooks"@) {
            Some(JsonValue::Object(h)) => {
                lemma_with_field(es, "hooks"@, JsonValue::Object(strip_events_spec(h, tool)), k);
                lemma_strip_events_field(h, tool, k);
            },
            _ => {},
        },
        _ => {},
    }
}

/// An event value that uninstalling keeps exactly as it is: anything but an
/// array, or a non-empty array without groups of ours.
pub open spec fn event_stays(v: JsonValue, tool: Seq<char>) -> bool {
    match v {
        JsonValue::Array(a) => a.len() > 0 && all_foreign(a, tool),
        _ => true,
    }
}

/// Every event of the `hooks` object stays as it is under uninstalling.
pub open spec fn hooks_clean(h: Members, tool: Seq<char>) -> bool {
    forall|i: int| 0 <= i < h.len() ==> event_stays(#[trigger] h[i].1, tool)
}

/// Each hooked event is absent or holds an array.
pub open spec fn hooked_events_are_arrays(h: Members) -> bool {
    forall|j: int|
        0 <= j < 5 ==> match #[trigger] field(h, hook_table()[j].0) {
            Some(v) => v is Array,
            None => true,
        }
}

/// What uninstalling makes of one event: its foreign groups when it holds
/// an array (nothing when none is left), the event itself otherwise.
pub open spec fn stripped_event(e: (Seq<char>, JsonValue), tool: Seq<char>) -> Option<
    (Seq<char>, JsonValue),
> {
    match e.1 {
        JsonValue::Array(a) => if foreign_groups(a, tool).len() == 0 {
            None
        } else {
            Some((e.0, JsonValue::Array(foreign_groups(a, tool))))
        },
        _ => Some(e),
    }
}

/// Uninstalling one more event.
proof fn lemma_strip_events_push(es: Members, e: (Seq<char>, JsonValue), tool: Seq<char>)
    ensures
        strip_events_spec(es.push(e), tool) == match stripped_event(e, tool) {
            Some(x) => strip_events_spec(es, tool).push(x),
            None => strip_events_spec(es, tool),
        },
{
    assert(es.push(e).drop_last() =~= es);
}

/// Replacing an event by one that uninstalls to the same thing changes
/// nothing of the uninstalled events.
proof fn lemma_strip_events_update(
    es: Members,
    i: int,
    x: (Seq<char>, JsonValue),
    tool: Seq<char>,
)
    requires
        0 <= i < es.len(),
        stripped_event(x, tool) == stripped_event(es[i], tool),
    ensures
        strip_events_spec(es.update(i, x), tool) == strip_events_spec(es, tool),
    decreases es.len(),
{
    let init = es.drop_last();
    assert(init.push(es.last()) =~= es);
    lemma_strip_events_push(init, es.last(), tool);
    if i == es.len() - 1 {
        assert(init.push(x) =~= es.update(i, x));
        lemma_strip_events_push(init, x, tool);
    } else {
        assert(init.update(i, x).push(es.last()) =~= es.update(i, x));
        lemma_strip_events_push(init.update(i, x), es.last(), tool);
        assert(init[i] == es[i]);
        lemma_strip_events_update(init, i, x, tool);
    }
}

/// A `hooks` object whose events all stay is its own uninstalled form.
proof fn lemma_strip_events_clean_fixed(h: Members, tool: Seq<char>)
    requires
        hooks_clean(h, tool),
    ensures
        strip_events_spec(h, tool) == h,
    decreases h.len(),
{
    if h.len() > 0 {
        let init = h.drop_last();
        assert(hooks_clean(init, tool)) by {
            assert forall|i: int| 0 <= i < init.len() implies event_stays(
                #[trigger] init[i].1,
                tool,
            ) by {
                assert(init[i] == h[i]);
            }
        }
        lemma_strip_events_clean_fixed(init, tool);
        let e = h.last();
        assert(event_stays(h[h.len() - 1].1, tool));
        match e.1 {
            JsonValue::Array(a) => {
                lemma_foreign_groups_fixed(a, tool);
            },
            _ => {},
        }
        assert(init.push(e) =~= h);
        lemma_strip_events_push(init, e, tool);
    }
}

/// Installing one event into a `hooks` object where it is absent or holds a
/// non-empty array without groups of ours is undone by uninstalling.
proof fn lemma_with_event_undone(
    h: Members,
    ev: (Seq<char>, Seq<char>, bool),
    exe: Seq<char>,
    tool: Seq<char>,
)
    requires
        contains(exe, tool),
        match field(h, ev.0) {
            Some(JsonValue::Array(a)) => a.len() > 0 && all_foreign(a, tool),
            None => true,
            _ => false,
        },
    ensures
        strip_events_spec(with_event(h, ev, exe, tool), tool) == strip_events_spec(h, tool),
{
    let g = our_group(exe, ev.1, ev.2);
    lemma_our_group_is_ours(exe, ev.1, ev.2, tool);
    lemma_key_index(h, ev.0);
    match field(h, ev.0) {
        Some(JsonValue::Array(a)) => {
            let i = key_index(h, ev.0)->0;
            lemma_foreign_groups_fixed(a, tool);
            lemma_foreign_groups_push_ours(a, g, tool);
            let x = (ev.0, JsonValue::Array(a.push(g)));
            assert(stripped_event(x, tool) == stripped_event(h[i], tool));
            lemma_strip_events_update(h, i, x, tool);
        },
        _ => {
            let e: Seq<JsonValue> = Seq::empty();
            lemma_foreign_groups_push_ours(e, g, tool);
            assert(foreign_groups(e, tool) =~= e);
            lemma_strip_events_push(h, (ev.0, JsonValue::Array(e.push(g))), tool);
        },
    }
}

/// Installing the first `n` events is undone by uninstalling.
proof fn lemma_install_events_undone(h: Members, exe: Seq<char>, tool: Seq<char>, n: nat)
    requires
        n <= 5,
        contains(exe, tool),
        hooks_clean(h, tool),
        hooked_events_are_arrays(h),
    ensures
        strip_events_spec(install_events(h, exe, tool, n), tool) == strip_events_spec(h, tool),
    decreases n,
{
    if n > 0 {
        lemma_install_events_undone(h, exe, tool, (n - 1) as nat);
        let prev = install_events(h, exe, tool, (n - 1) as nat);
        let ev = hook_table()[n - 1];
        lemma_hook_events_distinct();
        lemma_install_events_untouched(h, exe, tool, (n - 1) as nat, ev.0);
        lemma_key_index(h, ev.0);
        assert(field(h, hook_table()[n - 1].0) matches Some(v) ==> v is Array);
        if field(h, ev.0) is Some {
            let i = key_index(h, ev.0)->0;
            assert(event_stays(h[i].1, tool));
        }
        lemma_with_event_undone(prev, ev, exe, tool);
    }
}

/// Uninstalling undoes installing, for a document whose `hooks` object
/// holds no group of ours, no empty event array, and no hooked event that
/// is not an array (and an executable whose path carries the tool's name).
pub proof fn lemma_uninstall_undoes_install(root: JsonValue, exe: Seq<char>, tool: Seq<char>)
    requires
        contains(exe, tool),
        member(root, "hooks"@) matches Some(JsonValue::Object(h)) && hooks_clean(h, tool)
            && hooked_events_are_arrays(h),
    ensures
        uninstalled_root(installed_root(root, exe, tool), tool) == root,
{
    let es = root_members(root);
    let h = hooks_members(root);
    let h5 = install_events(h, exe, tool, 5);
    lemma_installed_hooks(root, exe, tool);
    lemma_install_events_undone(h, exe, tool, 5);
    lemma_strip_events_clean_fixed(h, tool);
    let es1 = with_field(es, "hooks"@, JsonValue::Object(h5));
    lemma_key_index(es, "hooks"@);
    let i = key_index(es, "hooks"@)->0;
    assert(es1 == es.update(i, ("hooks"@, JsonValue::Object(h5))));
    lemma_key_index(es1, "hooks"@);
    lemma_key_index_first(es1, "hooks"@, i);
    assert(with_field(es1, "hooks"@, JsonValue::Object(h)) =~= es.update(
        i,
        ("hooks"@, JsonValue::Object(h)),
    ));
    lemma_with_same_field(es, "hooks"@, JsonValue::Object(h));
}

} // verus!
