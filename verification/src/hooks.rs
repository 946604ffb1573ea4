//! Installing and removing the glow's status hooks in an agent settings
//! document, keeping every hook that belongs to someone else.
//!
//! The settings document is a JSON object whose `hooks` member maps event
//! names to arrays of hook groups; a group is an object whose `hooks` member
//! is an array of hook objects with a `command`. A group is ours when one of
//! its commands carries the tool's name and the `--set` flag.
use vstd::prelude::*;
use crate::json::{
    field, find_key, lemma_array_view, lemma_object_view, member, member_views, views, with_field,
    Json, JsonValue, Members,
};
use crate::text::{contains, contains_text};

verus! {

broadcast use vstd::string::group_string_axioms;

/// The flag that every command we install carries.
pub open spec fn set_flag() -> Seq<char> {
    "--set"@
}

/// A hook command belongs to the tool named `tool`: it carries the tool's
/// name and the `--set` flag.
pub open spec fn command_is_ours(cmd: Seq<char>, tool: Seq<char>) -> bool {
    contains(cmd, tool) && contains(cmd, set_flag())
}

/// The command a hook runs: `"<exe>" --set <state>`.
pub open spec fn command_text(exe: Seq<char>, state: Seq<char>) -> Seq<char> {
    "\""@ + exe + "\" --set "@ + state
}

/// A hook object whose `command` is one of ours.
pub open spec fn hook_entry_is_ours(h: JsonValue, tool: Seq<char>) -> bool {
    match member(h, "command"@) {
        Some(JsonValue::Str(c)) => command_is_ours(c, tool),
        _ => false,
    }
}

/// A group is ours when any hook in its `hooks` array is ours.
pub open spec fn group_belongs(g: JsonValue, tool: Seq<char>) -> bool {
    match member(g, "hooks"@) {
        Some(JsonValue::Array(hs)) => exists|j: int|
            0 <= j < hs.len() && hook_entry_is_ours(hs[j], tool),
        _ => false,
    }
}

/// The groups of an event array that are not ours, in order.
pub open spec fn foreign_groups(gs: Seq<JsonValue>, tool: Seq<char>) -> Seq<JsonValue>
    decreases gs.len(),
{
    if gs.len() == 0 {
        gs
    } else {
        let kept = foreign_groups(gs.drop_last(), tool);
        if group_belongs(gs.last(), tool) {
            kept
        } else {
            kept.push(gs.last())
        }
    }
}

/// The events we hook: (event name, state it writes, whether the group
/// carries a `"*"` matcher).
pub open spec fn hook_table() -> Seq<(Seq<char>, Seq<char>, bool)> {
    seq![
        ("UserPromptSubmit"@, "thinking"@, false),
        ("PreToolUse"@, "tooling"@, true),
        ("PostToolUse"@, "thinking"@, true),
        ("Notification"@, "waiting"@, true),
        ("Stop"@, "done"@, false),
    ]
}

/// The hook object that runs our command for `state`.
pub open spec fn hook_entry(exe: Seq<char>, state: Seq<char>) -> JsonValue {
    JsonValue::Object(
        seq![
            ("command"@, JsonValue::Str(command_text(exe, state))),
            ("type"@, JsonValue::Str("command"@)),
        ],
    )
}

/// The group we add to an event.
pub open spec fn our_group(exe: Seq<char>, state: Seq<char>, matcher: bool) -> JsonValue {
    let hooks = ("hooks"@, JsonValue::Array(seq![hook_entry(exe, state)]));
    if matcher {
        JsonValue::Object(seq![hooks, ("matcher"@, JsonValue::Str("*"@))])
    } else {
        JsonValue::Object(seq![hooks])
    }
}

/// The groups an event keeps when we (re)install: its foreign groups when it
/// holds an array, none otherwise.
pub open spec fn kept_groups(v: Option<JsonValue>, tool: Seq<char>) -> Seq<JsonValue> {
    match v {
        Some(JsonValue::Array(a)) => foreign_groups(a, tool),
        _ => Seq::empty(),
    }
}

/// One event installed: its foreign groups, then our group.
pub open spec fn with_event(
    hooks: Members,
    ev: (Seq<char>, Seq<char>, bool),
    exe: Seq<char>,
    tool: Seq<char>,
) -> Members {
    with_field(
        hooks,
        ev.0,
        JsonValue::Array(kept_groups(field(hooks, ev.0), tool).push(our_group(exe, ev.1, ev.2))),
    )
}

/// The first `n` events of the table installed, in table order.
pub open spec fn install_events(hooks: Members, exe: Seq<char>, tool: Seq<char>, n: nat) -> Members
    decreases n,
{
    if n == 0 {
        hooks
    } else {
        with_event(install_events(hooks, exe, tool, (n - 1) as nat), hook_table()[n - 1], exe, tool)
    }
}

/// The members of the document root (none when it is not an object).
pub open spec fn root_members(root: JsonValue) -> Members {
    match root {
        JsonValue::Object(es) => es,
        _ => Seq::empty(),
    }
}

/// The members of the `hooks` object (none when there is no such object).
pub open spec fn hooks_members(root: JsonValue) -> Members {
    match field(root_members(root), "hooks"@) {
        Some(JsonValue::Object(h)) => h,
        _ => Seq::empty(),
    }
}

/// The installer can work on this document: its `hooks` member, when it
/// has one, is an object.
pub open spec fn hooks_slot_usable(root: JsonValue) -> bool {
    match field(root_members(root), "hooks"@) {
        Some(v) => v is Object,
        None => true,
    }
}

/// The document after installing: a root that is not an object is replaced
/// by an empty one, and its `hooks` object gets every event of the table.
pub open spec fn installed_root(root: JsonValue, exe: Seq<char>, tool: Seq<char>) -> JsonValue {
    JsonValue::Object(
        with_field(
            root_members(root),
            "hooks"@,
            JsonValue::Object(install_events(hooks_members(root), exe, tool, 5)),
        ),
    )
}

/// Every event of the `hooks` object with our groups dropped: an array left
/// without groups removes its event, other values stay as they are.
pub open spec fn strip_events_spec(es: Members, tool: Seq<char>) -> Members
    decreases es.len(),
{
    if es.len() == 0 {
        es
    } else {
        let rest = strip_events_spec(es.drop_last(), tool);
        let e = es.last();
        match e.1 {
            JsonValue::Array(a) => {
                let kept = foreign_groups(a, tool);
                if kept.len() == 0 {
                    rest
                } else {
                    rest.push((e.0, JsonValue::Array(kept)))
                }
            },
            _ => rest.push(e),
        }
    }
}

/// The document after uninstalling: only a `hooks` object of an object
/// root is touched.
pub open spec fn uninstalled_root(root: JsonValue, tool: Seq<char>) -> JsonValue {
    match root {
        JsonValue::Object(es) => match field(es, "hooks"@) {
            Some(JsonValue::Object(h)) => JsonValue::Object(
                with_field(es, "hooks"@, JsonValue::Object(strip_events_spec(h, tool))),
            ),
            _ => root,
        },
        _ => root,
    }
}

/// An event value that is an array holding one of our groups.
pub open spec fn event_has_ours(v: JsonValue, tool: Seq<char>) -> bool {
    match v {
        JsonValue::Array(a) => exists|j: int|
            0 <= j < a.len() && #[trigger] group_belongs(a[j], tool),
        _ => false,
    }
}

/// Our hooks are present: some event of the `hooks` object holds one of
/// our groups.
pub open spec fn hooks_installed(root: JsonValue, tool: Seq<char>) -> bool {
    match member(root, "hooks"@) {
        Some(JsonValue::Object(h)) => exists|i: int|
            0 <= i < h.len() && #[trigger] event_has_ours(h[i].1, tool),
        _ => false,
    }
}

/// Whether a hook command belongs to the tool named `tool`.
pub fn is_our_command(cmd: &str, tool: &str) -> (r: bool)
    ensures
        r == command_is_ours(cmd@, tool@),
{
    contains_text(cmd, tool) && contains_text(cmd, "--set")
}

/// The command a hook runs to report `state`.
pub fn our_command(exe: &str, state: &str) -> (r: String)
    ensures
        r@ == command_text(exe@, state@),
{
    let mut s = String::from_str("\"");
    s.append(exe);
    s.append("\" --set ");
    s.append(state);
    s
}

/// A hook object whose command is ours.
fn hook_is_ours(h: &Json, tool: &str) -> (r: bool)
    ensures
        r == hook_entry_is_ours(h@, tool@),
{
    match h {
        Json::Object(es) => {
            proof {
                lemma_object_view(*es);
            }
            match find_key(es, "command") {
                Some(i) => match &es[i].1 {
                    Json::Str(c) => is_our_command(c.as_str(), tool),
                    _ => false,
                },
                None => false,
            }
        },
        _ => false,
    }
}

/// Some hook of the array is ours.
fn any_hook_ours(hs: &Vec<Json>, tool: &str) -> (r: bool)
    ensures
        r == exists|j: int| 0 <= j < hs.len() && hook_entry_is_ours(#[trigger] hs@[j]@, tool@),
{
    let mut j: usize = 0;
    while j < hs.len()
        invariant
            j <= hs.len(),
            forall|k: int| 0 <= k < j ==> !hook_entry_is_ours(#[trigger] hs@[k]@, tool@),
        decreases hs.len() - j,
    {
        if hook_is_ours(&hs[j], tool) {
            return true;
        }
        j += 1;
    }
    false
}

/// True if a group object is one of ours (any command carries our marker).
pub fn group_is_ours(group: &Json, tool: &str) -> (r: bool)
    ensures
        r == group_belongs(group@, tool@),
{
    match group {
        Json::Object(es) => {
            proof {
                lemma_object_view(*es);
            }
            match find_key(es, "hooks") {
                Some(i) => match &es[i].1 {
                    Json::Array(hs) => {
                        proof {
                            lemma_array_view(*hs);
                            assert(member(group@, "hooks"@) == Some(es@[i as int].1@));
                        }
                        let r = any_hook_ours(hs, tool);
                        proof {
                            let vs = views(hs@);
                            if r {
                                let j = choose|j: int|
                                    0 <= j < hs.len() && hook_entry_is_ours(
                                        #[trigger] hs@[j]@,
                                        tool@,
                                    );
                                assert(vs[j] == hs@[j]@);
                            } else {
                                assert forall|j: int|
                                    0 <= j < vs.len() implies !hook_entry_is_ours(
                                    vs[j],
                                    tool@,
                                ) by {
                                    assert(vs[j] == hs@[j]@);
                                }
                            }
                        }
                        r
                    },
                    _ => {
                        proof {
                            assert(member(group@, "hooks"@) == Some(es@[i as int].1@));
                        }
                        false
                    },
                },
                None => false,
            }
        },
        _ => false,
    }
}

/// Drop our groups from an event array; returns the kept (foreign) groups.
pub fn strip_ours(event_arr: Vec<Json>, tool: &str) -> (r: Vec<Json>)
    ensures
        views(r@) == foreign_groups(views(event_arr@), tool@),
{
    let ghost all = event_arr@;
    let mut kept: Vec<Json> = Vec::new();
    for g in it: event_arr.into_iter()
        invariant
            it.seq() == all,
            views(kept@) == foreign_groups(views(all.take(it.index() as int)), tool@),
    {
        let ghost n = it.index() as int;
        proof {
            assert(views(all.take(n + 1)).drop_last() =~= views(all.take(n)));
            assert(views(all.take(n + 1)).last() == g@);
        }
        if !group_is_ours(&g, tool) {
            let ghost before = kept@;
            kept.push(g);
            proof {
                assert(views(kept@) =~= views(before).push(g@));
            }
        }
    }
    proof {
        assert(all.take(all.len() as int) =~= all);
    }
    kept
}

/// Every event of a `hooks` object with our groups dropped; an event left
/// without groups is removed, an event whose value is not an array stays.
pub fn strip_events(hooks: Vec<(String, Json)>, tool: &str) -> (r: Vec<(String, Json)>)
    ensures
        member_views(r@) == strip_events_spec(member_views(hooks@), tool@),
{
    let ghost all = hooks@;
    let mut out: Vec<(String, Json)> = Vec::new();
    for e in it: hooks.into_iter()
        invariant
            it.seq() == all,
            member_views(out@) == strip_events_spec(
                member_views(all.take(it.index() as int)),
                tool@,
            ),
    {
        let ghost n = it.index() as int;
        let ghost before = out@;
        proof {
            assert(member_views(all.take(n + 1)).drop_last() =~= member_views(all.take(n)));
            assert(member_views(all.take(n + 1)).last() == (e.0@, e.1@));
        }
        let (k, v) = e;
        match v {
            Json::Array(a) => {
                proof {
                    lemma_array_view(a);
                }
                let kept = strip_ours(a, tool);
                if kept.len() > 0 {
                    proof {
                        lemma_array_view(kept);
                    }
                    out.push((k, Json::Array(kept)));
                    proof {
                        assert(member_views(out@) =~= member_views(before).push(
                            (k@, JsonValue::Array(views(kept@))),
                        ));
                    }
                }
            },
            other => {
                out.push((k, other));
                proof {
                    assert(member_views(out@) =~= member_views(before).push((k@, other@)));
                }
            },
        }
    }
    proof {
        assert(all.take(all.len() as int) =~= all);
    }
    out
}

/// The event, state and matcher flag of row `i` of the hook table.
pub fn hook_event(i: usize) -> (r: (&'static str, &'static str, bool))
    requires
        i < 5,
    ensures
        (r.0@, r.1@, r.2) == hook_table()[i as int],
{
    if i == 0 {
        ("UserPromptSubmit", "thinking", false)
    } else if i == 1 {
        ("PreToolUse", "tooling", true)
    } else if i == 2 {
        ("PostToolUse", "thinking", true)
    } else if i == 3 {
        ("Notification", "waiting", true)
    } else {
        ("Stop", "done", false)
    }
}

/// The hook object that runs our command for `state`.
fn hook_entry_json(exe: &str, state: &str) -> (r: Json)
    ensures
        r@ == hook_entry(exe@, state@),
{
    let mut es: Vec<(String, Json)> = Vec::new();
    es.push((String::from_str("command"), Json::Str(our_command(exe, state))));
    es.push((String::from_str("type"), Json::Str(String::from_str("command"))));
    proof {
        lemma_object_view(es);
        assert(member_views(es@) =~= seq![
            ("command"@, JsonValue::Str(command_text(exe@, state@))),
            ("type"@, JsonValue::Str("command"@)),
        ]);
    }
    Json::Object(es)
}

/// The group we add to an event.
fn our_group_json(exe: &str, state: &str, matcher: bool) -> (r: Json)
    ensures
        r@ == our_group(exe@, state@, matcher),
{
    let mut items: Vec<Json> = Vec::new();
    items.push(hook_entry_json(exe, state));
    proof {
        lemma_array_view(items);
        assert(views(items@) =~= seq![hook_entry(exe@, state@)]);
    }
    let mut es: Vec<(String, Json)> = Vec::new();
    es.push((String::from_str("hooks"), Json::Array(items)));
    if matcher {
        es.push((String::from_str("matcher"), Json::Str(String::from_str("*"))));
    }
    proof {
        lemma_object_view(es);
        let hooks = ("hooks"@, JsonValue::Array(seq![hook_entry(exe@, state@)]));
        if matcher {
            assert(member_views(es@) =~= seq![hooks, ("matcher"@, JsonValue::Str("*"@))]);
        } else {
            assert(member_views(es@) =~= seq![hooks]);
        }
    }
    Json::Object(es)
}

/// Install one event: keep its foreign groups, then add our group.
fn add_event(
    hooks: &mut Vec<(String, Json)>,
    event: &str,
    state: &str,
    matcher: bool,
    exe: &str,
    tool: &str,
)
    ensures
        member_views(final(hooks)@) == with_event(
            member_views(old(hooks)@),
            (event@, state@, matcher),
            exe@,
            tool@,
        ),
{
    let ghost before = member_views(hooks@);
    let g = our_group_json(exe, state, matcher);
    match find_key(hooks, event) {
        Some(i) => {
            let (k, v) = hooks.remove(i);
            let ghost old_value = v@;
            proof {
                assert(field(before, event@) == Some(old_value));
            }
            let mut arr = match v {
                Json::Array(a) => {
                    proof {
                        lemma_array_view(a);
                    }
                    strip_ours(a, tool)
                },
                _ => Vec::new(),
            };
            proof {
                assert(views(arr@) == kept_groups(Some(old_value), tool@));
            }
            let ghost kept = arr@;
            arr.push(g);
            proof {
                lemma_array_view(arr);
                assert(views(arr@) =~= views(kept).push(g@));
            }
            hooks.insert(i, (k, Json::Array(arr)));
            proof {
                assert(member_views(hooks@) =~= before.update(
                    i as int,
                    (event@, JsonValue::Array(views(arr@))),
                ));
            }
        },
        None => {
            let mut arr: Vec<Json> = Vec::new();
            arr.push(g);
            proof {
                lemma_array_view(arr);
                assert(views(arr@) =~= Seq::<JsonValue>::empty().push(g@));
            }
            hooks.push((String::from_str(event), Json::Array(arr)));
            proof {
                assert(member_views(hooks@) =~= before.push(
                    (event@, JsonValue::Array(views(arr@))),
                ));
            }
        },
    }
}

/// Install every event of the table, in table order.
fn install_all(hooks: &mut Vec<(String, Json)>, exe: &str, tool: &str)
    ensures
        member_views(final(hooks)@) == install_events(member_views(old(hooks)@), exe@, tool@, 5),
{
    let ghost start = member_views(hooks@);
    let mut n: usize = 0;
    while n < 5
        invariant
            n <= 5,
            member_views(hooks@) == install_events(start, exe@, tool@, n as nat),
        decreases 5 - n,
    {
        let (event, state, matcher) = hook_event(n);
        add_event(hooks, event, state, matcher, exe, tool);
        n += 1;
    }
}

/// Whether `install` can work on this document: a `hooks` member, when
/// there is one, must be an object.
pub fn has_usable_hooks_slot(root: &Json) -> (r: bool)
    ensures
        r == hooks_slot_usable(root@),
{
    match root {
        Json::Object(es) => {
            proof {
                lemma_object_view(*es);
            }
            match find_key(es, "hooks") {
                Some(i) => match &es[i].1 {
                    Json::Object(_) => true,
                    _ => false,
                },
                None => true,
            }
        },
        _ => true,
    }
}

/// Add our hooks to a settings document, keeping every foreign hook group.
pub fn install(root: Json, exe: &str, tool: &str) -> (r: Json)
    requires
        hooks_slot_usable(root@),
    ensures
        r@ == installed_root(root@, exe@, tool@),
        hooks_slot_usable(r@),
{
    let ghost root_view = root@;
    let mut entries: Vec<(String, Json)> = match root {
        Json::Object(es) => {
            proof {
                lemma_object_view(es);
            }
            es
        },
        _ => {
            let es: Vec<(String, Json)> = Vec::new();
            proof {
                assert(member_views(es@) =~= Seq::empty());
            }
            es
        },
    };
    let ghost members = member_views(entries@);
    assert(members == root_members(root_view));
    match find_key(&entries, "hooks") {
        Some(i) => {
            let (k, v) = entries.remove(i);
            proof {
                assert(field(members, "hooks"@) == Some(v@));
            }
            let mut hooks: Vec<(String, Json)> = match v {
                Json::Object(h) => {
                    proof {
                        lemma_object_view(h);
                    }
                    h
                },
                _ => Vec::new(),
            };
            assert(member_views(hooks@) == hooks_members(root_view));
            install_all(&mut hooks, exe, tool);
            proof {
                lemma_object_view(hooks);
            }
            entries.insert(i, (k, Json::Object(hooks)));
            proof {
                assert(member_views(entries@) =~= members.update(
                    i as int,
                    ("hooks"@, JsonValue::Object(member_views(hooks@))),
                ));
                lemma_object_view(entries);
            }
        },
        None => {
            let mut hooks: Vec<(String, Json)> = Vec::new();
            proof {
                assert(member_views(hooks@) =~= Seq::empty());
            }
            install_all(&mut hooks, exe, tool);
            proof {
                lemma_object_view(hooks);
            }
            entries.push((String::from_str("hooks"), Json::Object(hooks)));
            proof {
                assert(member_views(entries@) =~= members.push(
                    ("hooks"@, JsonValue::Object(member_views(hooks@))),
                ));
                lemma_object_view(entries);
            }
        },
    }
    proof {
        crate::hook_laws::lemma_installed_slot_usable(root_view, exe@, tool@);
    }
    Json::Object(entries)
}

/// Remove our hook groups from a settings document, leaving every other
/// hook in place.
pub fn uninstall(root: Json, tool: &str) -> (r: Json)
    ensures
        r@ == uninstalled_root(root@, tool@),
{
    match root {
        Json::Object(mut entries) => {
            proof {
                lemma_object_view(entries);
            }
            let ghost members = member_views(entries@);
            match find_key(&entries, "hooks") {
                Some(i) => {
                    let is_object = match &entries[i].1 {
                        Json::Object(_) => true,
                        _ => false,
                    };
                    if is_object {
                        let (k, v) = entries.remove(i);
                        proof {
                            assert(field(members, "hooks"@) == Some(v@));
                        }
                        let hooks: Vec<(String, Json)> = match v {
                            Json::Object(h) => {
                                proof {
                                    lemma_object_view(h);
                                }
                                h
                            },
                            _ => Vec::new(),
                        };
                        let kept = strip_events(hooks, tool);
                        proof {
                            lemma_object_view(kept);
                        }
                        entries.insert(i, (k, Json::Object(kept)));
                        proof {
                            assert(member_views(entries@) =~= members.update(
                                i as int,
                                ("hooks"@, JsonValue::Object(member_views(kept@))),
                            ));
                            lemma_object_view(entries);
                        }
                        Json::Object(entries)
                    } else {
                        proof {
                            assert(field(members, "hooks"@) == Some(entries@[i as int].1@));
                            lemma_object_view(entries);
                        }
                        Json::Object(entries)
                    }
                },
                None => {
                    proof {
                        lemma_object_view(entries);
                    }
                    Json::Object(entries)
                },
            }
        },
        other => other,
    }
}

/// Some group of the event value is ours.
fn event_holds_ours(v: &Json, tool: &str) -> (r: bool)
    ensures
        r == event_has_ours(v@, tool@),
{
    match v {
        Json::Array(groups) => {
            proof {
                lemma_array_view(*groups);
            }
            let mut j: usize = 0;
            while j < groups.len()
                invariant
                    j <= groups.len(),
                    v@ == JsonValue::Array(views(groups@)),
                    forall|k: int| 0 <= k < j ==> !group_belongs(#[trigger] groups@[k]@, tool@),
                decreases groups.len() - j,
            {
                if group_is_ours(&groups[j], tool) {
                    proof {
                        assert(views(groups@)[j as int] == groups@[j as int]@);
                        assert(group_belongs(views(groups@)[j as int], tool@));
                        let a = views(groups@);
                        assert(exists|k: int|
                            0 <= k < a.len() && #[trigger] group_belongs(a[k], tool@));
                        assert(v@->Array_0 == a);
                    }
                    return true;
                }
                j += 1;
            }
            proof {
                let vs = views(groups@);
                assert forall|k: int| 0 <= k < vs.len() implies !group_belongs(vs[k], tool@) by {
                    assert(vs[k] == groups@[k]@);
                }
            }
            false
        },
        _ => false,
    }
}

/// Are our hooks currently present in this settings document?
pub fn is_installed(root: &Json, tool: &str) -> (r: bool)
    ensures
        r == hooks_installed(root@, tool@),
{
    match root {
        Json::Object(entries) => {
            proof {
                lemma_object_view(*entries);
            }
            match find_key(entries, "hooks") {
                Some(i) => match &entries[i].1 {
                    Json::Object(events) => {
                        proof {
                            lemma_object_view(*events);
                            assert(member(root@, "hooks"@) == Some(entries@[i as int].1@));
                        }
                        let mut n: usize = 0;
                        while n < events.len()
                            invariant
                                n <= events.len(),
                                member(root@, "hooks"@) == Some(
                                    JsonValue::Object(member_views(events@)),
                                ),
                                forall|k: int|
                                    0 <= k < n ==> !event_has_ours(#[trigger] events@[k].1@, tool@),
                            decreases events.len() - n,
                        {
                            if event_holds_ours(&events[n].1, tool) {
                                proof {
                                    assert(member_views(events@)[n as int].1
                                        == events@[n as int].1@);
                                    let es = member_views(events@);
                                    assert(event_has_ours(es[n as int].1, tool@));
                                    assert(exists|k: int|
                                        0 <= k < es.len() && #[trigger] event_has_ours(
                                            es[k].1,
                                            tool@,
                                        ));
                                    assert(member(root@, "hooks"@)->0->Object_0 == es);
                                }
                                return true;
                            }
                            n += 1;
                        }
                        proof {
                            let es = member_views(events@);
                            assert forall|k: int|
                                0 <= k < es.len() implies !event_has_ours(es[k].1, tool@) by {
                                assert(es[k].1 == events@[k].1@);
                            }
                        }
                        false
                    },
                    _ => {
                        proof {
                            assert(member(root@, "hooks"@) == Some(entries@[i as int].1@));
                        }
                        false
                    },
                },
                None => false,
            }
        },
        _ => false,
    }
}

} // verus!
