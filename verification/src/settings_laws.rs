//! What the settings file keeps through a parse, an edit and a print: the
//! documents the installer writes are ones that serde_json reads back as
//! the same document, and whether our hooks are present does not depend on
//! the order of object members.
use vstd::prelude::*;
use crate::hooks::{
    event_has_ours, foreign_groups, group_belongs, hook_entry, hook_entry_is_ours, hook_table,
    hooks_installed, hooks_members, install_events, installed_root,
    kept_groups, our_group, root_members, strip_events_spec, uninstalled_root,
};
use crate::json::{
    field, json_same, key_index, lemma_key_index, lemma_same_member,
    lemma_unique_key_index, member, with_field, JsonValue, Members,
};
use crate::settings::{canonical_within, members_within, parsed_json, settings_document};
use crate::text::{back_over_spaces, bom, is_space, skip_run, skip_spaces, trim, without_bom};

verus! {

/// A hook object is ours in one of two same documents exactly when it is
/// ours in the other.
pub proof fn lemma_same_hook_entry(x: JsonValue, y: JsonValue, tool: Seq<char>)
    requires
        json_same(x, y),
    ensures
        hook_entry_is_ours(x, tool) == hook_entry_is_ours(y, tool),
{
    lemma_same_member(x, y, "command"@);
    match member(x, "command"@) {
        Some(u) => {
            let w = member(y, "command"@)->0;
            assert(json_same(u, w));
        },
        None => {},
    }
}

/// A group is ours in one of two same documents exactly when it is ours in
/// the other.
pub proof fn lemma_same_group(x: JsonValue, y: JsonValue, tool: Seq<char>)
    requires
        json_same(x, y),
    ensures
        group_belongs(x, tool) == group_belongs(y, tool),
{
    lemma_same_member(x, y, "hooks"@);
    match member(x, "hooks"@) {
        Some(JsonValue::Array(hs)) => {
            let ys = member(y, "hooks"@)->0->Array_0;
            assert(json_same(JsonValue::Array(hs), JsonValue::Array(ys)));
            assert forall|j: int| 0 <= j < hs.len() implies hook_entry_is_ours(hs[j], tool)
                == hook_entry_is_ours(ys[j], tool) by {
                assert(json_same(hs[j], ys[j]));
                lemma_same_hook_entry(hs[j], ys[j], tool);
            }
            if group_belongs(x, tool) {
                let j = choose|j: int| 0 <= j < hs.len() && hook_entry_is_ours(hs[j], tool);
                assert(hook_entry_is_ours(ys[j], tool));
            }
            if group_belongs(y, tool) {
                let j = choose|j: int| 0 <= j < ys.len() && hook_entry_is_ours(ys[j], tool);
                assert(hook_entry_is_ours(hs[j], tool));
            }
        },
        Some(u) => {
            let w = member(y, "hooks"@)->0;
            assert(json_same(u, w));
        },
        None => {},
    }
}

/// An event holds a group of ours in one of two same documents exactly when
/// it does in the other.
pub proof fn lemma_same_event(x: JsonValue, y: JsonValue, tool: Seq<char>)
    requires
        json_same(x, y),
    ensures
        event_has_ours(x, tool) == event_has_ours(y, tool),
{
    match x {
        JsonValue::Array(a) => {
            let b = y->Array_0;
            assert forall|j: int| 0 <= j < a.len() implies group_belongs(a[j], tool)
                == group_belongs(b[j], tool) by {
                assert(json_same(a[j], b[j]));
                lemma_same_group(a[j], b[j], tool);
            }
            if event_has_ours(x, tool) {
                let j = choose|j: int| 0 <= j < a.len() && #[trigger] group_belongs(a[j], tool);
                assert(group_belongs(b[j], tool));
            }
            if event_has_ours(y, tool) {
                let j = choose|j: int| 0 <= j < b.len() && #[trigger] group_belongs(b[j], tool);
                assert(group_belongs(a[j], tool));
            }
        },
        _ => {},
    }
}

/// Whether our hooks are installed is the same in two same documents: it
/// does not depend on the order of object members.
pub proof fn lemma_same_hooks_installed(a: JsonValue, b: JsonValue, tool: Seq<char>)
    requires
        json_same(a, b),
    ensures
        hooks_installed(a, tool) == hooks_installed(b, tool),
{
    lemma_same_member(a, b, "hooks"@);
    match member(a, "hooks"@) {
        Some(JsonValue::Object(h)) => {
            let g = member(b, "hooks"@)->0->Object_0;
            assert(json_same(JsonValue::Object(h), JsonValue::Object(g)));
            if hooks_installed(a, tool) {
                let i = choose|i: int| 0 <= i < h.len() && #[trigger] event_has_ours(h[i].1, tool);
                assert(field(g, h[i].0) is Some);
                let w = field(g, h[i].0)->0;
                assert(json_same(h[i].1, w));
                lemma_same_event(h[i].1, w, tool);
                lemma_key_index(g, h[i].0);
                let j = key_index(g, h[i].0)->0;
                assert(event_has_ours(g[j].1, tool));
            }
            if hooks_installed(b, tool) {
                let j = choose|j: int| 0 <= j < g.len() && #[trigger] event_has_ours(g[j].1, tool);
                assert(key_index(h, g[j].0) is Some);
                let i = key_index(h, g[j].0)->0;
                lemma_key_index(h, g[j].0);
                assert(field(g, h[i].0) is Some);
                lemma_unique_key_index(g, j);
                let w = field(g, h[i].0)->0;
                assert(w == g[j].1);
                assert(json_same(h[i].1, w));
                lemma_same_event(h[i].1, w, tool);
                assert(event_has_ours(h[i].1, tool));
            }
        },
        Some(u) => {
            let w = member(b, "hooks"@)->0;
            assert(json_same(u, w));
        },
        None => {},
    }
}

/// A member found in members within a depth is within it.
pub proof fn lemma_field_within(es: Members, k: Seq<char>, depth: nat)
    requires
        members_within(es, depth),
    ensures
        field(es, k) matches Some(v) ==> canonical_within(v, depth),
{
    lemma_key_index(es, k);
}

/// Setting a member to a value within a depth keeps members within it.
pub proof fn lemma_with_field_within(es: Members, k: Seq<char>, v: JsonValue, depth: nat)
    requires
        members_within(es, depth),
        canonical_within(v, depth),
    ensures
        members_within(with_field(es, k, v), depth),
{
    lemma_key_index(es, k);
    let r = with_field(es, k, v);
    match key_index(es, k) {
        Some(i) => {
            assert forall|a: int| 0 <= a < r.len() implies r[a].0 == es[a].0 by {}
        },
        None => {
            assert forall|a: int| 0 <= a < es.len() implies r[a] == es[a] by {}
        },
    }
}

/// The foreign groups of groups within a depth are within it.
pub proof fn lemma_foreign_within(gs: Seq<JsonValue>, tool: Seq<char>, depth: nat)
    requires
        forall|j: int| 0 <= j < gs.len() ==> canonical_within(#[trigger] gs[j], depth),
    ensures
        forall|j: int|
            0 <= j < foreign_groups(gs, tool).len() ==> canonical_within(
                #[trigger] foreign_groups(gs, tool)[j],
                depth,
            ),
    decreases gs.len(),
{
    if gs.len() > 0 {
        let init = gs.drop_last();
        assert forall|j: int| 0 <= j < init.len() implies canonical_within(
            #[trigger] init[j],
            depth,
        ) by {
            assert(init[j] == gs[j]);
        }
        lemma_foreign_within(init, tool, depth);
        let kept = foreign_groups(init, tool);
        let fg = foreign_groups(gs, tool);
        assert(canonical_within(gs[gs.len() - 1], depth));
        assert forall|j: int| 0 <= j < fg.len() implies canonical_within(#[trigger] fg[j], depth) by {
            if j < kept.len() {
                assert(fg[j] == kept[j]);
            }
        }
    }
}

/// The group we add nests three levels.
pub proof fn lemma_our_group_within(exe: Seq<char>, state: Seq<char>, matcher: bool, depth: nat)
    requires
        depth >= 3,
    ensures
        canonical_within(our_group(exe, state, matcher), depth),
{
    reveal_strlit("hooks");
    reveal_strlit("matcher");
    reveal_strlit("command");
    reveal_strlit("type");
    let e = hook_entry(exe, state);
    let es = e->Object_0;
    assert(es[0].0.len() != es[1].0.len());
    assert(canonical_within(es[0].1, (depth - 3) as nat));
    assert(canonical_within(es[1].1, (depth - 3) as nat));
    assert(canonical_within(e, (depth - 2) as nat));
    let a = JsonValue::Array(seq![e]);
    assert(a->Array_0[0] == e);
    assert(canonical_within(a, (depth - 1) as nat));
    let g = our_group(exe, state, matcher);
    let gs = g->Object_0;
    if matcher {
        assert(gs[0].0.len() != gs[1].0.len());
        assert(canonical_within(gs[1].1, (depth - 1) as nat));
    }
    assert(canonical_within(g, depth));
}

/// Installing events into members within a depth keeps them within it.
pub proof fn lemma_install_events_within(
    h: Members,
    exe: Seq<char>,
    tool: Seq<char>,
    n: nat,
    depth: nat,
)
    requires
        n <= 5,
        depth >= 4,
        members_within(h, depth),
    ensures
        members_within(install_events(h, exe, tool, n), depth),
    decreases n,
{
    if n > 0 {
        lemma_install_events_within(h, exe, tool, (n - 1) as nat, depth);
        let prev = install_events(h, exe, tool, (n - 1) as nat);
        let ev = hook_table()[n - 1];
        let kept = kept_groups(field(prev, ev.0), tool);
        lemma_field_within(prev, ev.0, depth);
        match field(prev, ev.0) {
            Some(JsonValue::Array(a)) => {
                assert(forall|j: int|
                    0 <= j < a.len() ==> canonical_within(#[trigger] a[j], (depth - 1) as nat));
                lemma_foreign_within(a, tool, (depth - 1) as nat);
            },
            _ => {},
        }
        let g = our_group(exe, ev.1, ev.2);
        lemma_our_group_within(exe, ev.1, ev.2, (depth - 1) as nat);
        let arr = kept.push(g);
        assert forall|j: int| 0 <= j < arr.len() implies canonical_within(
            #[trigger] arr[j],
            (depth - 1) as nat,
        ) by {
            if j < kept.len() {
                assert(arr[j] == kept[j]);
            }
        }
        assert(canonical_within(JsonValue::Array(arr), depth));
        lemma_with_field_within(prev, ev.0, JsonValue::Array(arr), depth);
    }
}

/// Installing into a document that serde_json reads back as itself gives
/// such a document again.
pub proof fn lemma_installed_within(root: JsonValue, exe: Seq<char>, tool: Seq<char>)
    requires
        canonical_within(root, 127),
    ensures
        canonical_within(installed_root(root, exe, tool), 127),
{
    let rm = root_members(root);
    assert(members_within(rm, 126));
    lemma_field_within(rm, "hooks"@, 126);
    let h = hooks_members(root);
    assert(members_within(h, 125));
    lemma_install_events_within(h, exe, tool, 5, 125);
    let ie = install_events(h, exe, tool, 5);
    assert(canonical_within(JsonValue::Object(ie), 126));
    lemma_with_field_within(rm, "hooks"@, JsonValue::Object(ie), 126);
}

/// Stripping our groups from members within a depth keeps them within it,
/// and every key it keeps was there before.
pub proof fn lemma_strip_within(es: Members, tool: Seq<char>, depth: nat)
    requires
        members_within(es, depth),
    ensures
        members_within(strip_events_spec(es, tool), depth),
        forall|i: int|
            0 <= i < strip_events_spec(es, tool).len() ==> field(
                es,
                #[trigger] strip_events_spec(es, tool)[i].0,
            ) is Some,
    decreases es.len(),
{
    if es.len() > 0 {
        let init = es.drop_last();
        let e = es.last();
        assert(init.push(e) =~= es);
        assert(members_within(init, depth)) by {
            assert forall|a: int| 0 <= a < init.len() implies init[a] == es[a] by {}
        }
        lemma_strip_within(init, tool, depth);
        let rest = strip_events_spec(init, tool);
        let r = strip_events_spec(es, tool);
        assert forall|i: int| 0 <= i < rest.len() implies field(es, #[trigger] rest[i].0)
            is Some && rest[i].0 != e.0 by {
            let k = rest[i].0;
            assert(field(init, k) is Some);
            lemma_key_index(init, k);
            lemma_key_index(es, k);
            let n = key_index(init, k)->0;
            assert(es[n].0 == k);
            assert(es[n].0 != es[es.len() - 1].0);
        }
        lemma_key_index(es, e.0);
        assert(es[es.len() - 1].0 == e.0);
        assert(field(es, e.0) is Some);
        match e.1 {
            JsonValue::Array(a) => {
                let kept = foreign_groups(a, tool);
                if kept.len() != 0 {
                    assert(canonical_within(e.1, depth));
                    assert(forall|j: int|
                        0 <= j < a.len() ==> canonical_within(#[trigger] a[j], (depth - 1) as nat));
                    lemma_foreign_within(a, tool, (depth - 1) as nat);
                    assert(canonical_within(JsonValue::Array(kept), depth));
                    assert(r == rest.push((e.0, JsonValue::Array(kept))));
                    assert forall|i: int| 0 <= i < r.len() implies field(es, #[trigger] r[i].0)
                        is Some by {
                        if i < rest.len() {
                            assert(r[i] == rest[i]);
                        }
                    }
                    assert forall|i: int| 0 <= i < r.len() implies canonical_within(
                        #[trigger] r[i].1,
                        depth,
                    ) by {
                        if i < rest.len() {
                            assert(r[i] == rest[i]);
                        }
                    }
                    assert forall|i: int, j: int|
                        0 <= i < r.len() && 0 <= j < r.len() && i != j implies r[i].0
                        != r[j].0 by {
                        if i < rest.len() && j < rest.len() {
                            assert(r[i] == rest[i] && r[j] == rest[j]);
                        } else if i < rest.len() {
                            assert(r[i] == rest[i]);
                        } else {
                            assert(r[j] == rest[j]);
                        }
                    }
                }
            },
            _ => {
                assert(r == rest.push(e));
                assert forall|i: int| 0 <= i < r.len() implies field(es, #[trigger] r[i].0)
                    is Some by {
                    if i < rest.len() {
                        assert(r[i] == rest[i]);
                    }
                }
                assert forall|i: int| 0 <= i < r.len() implies canonical_within(
                    #[trigger] r[i].1,
                    depth,
                ) by {
                    if i < rest.len() {
                        assert(r[i] == rest[i]);
                    }
                }
                assert forall|i: int, j: int|
                    0 <= i < r.len() && 0 <= j < r.len() && i != j implies r[i].0 != r[j].0 by {
                    if i < rest.len() && j < rest.len() {
                        assert(r[i] == rest[i] && r[j] == rest[j]);
                    } else if i < rest.len() {
                        assert(r[i] == rest[i]);
                    } else {
                        assert(r[j] == rest[j]);
                    }
                }
            },
        }
    }
}

/// Uninstalling from a document that serde_json reads back as itself gives
/// such a document again.
pub proof fn lemma_uninstalled_within(root: JsonValue, tool: Seq<char>)
    requires
        canonical_within(root, 127),
    ensures
        canonical_within(uninstalled_root(root, tool), 127),
{
    match root {
        JsonValue::Object(es) => {
            assert(members_within(es, 126));
            lemma_field_within(es, "hooks"@, 126);
            match field(es, "hooks"@) {
                Some(JsonValue::Object(h)) => {
                    assert(members_within(h, 125));
                    lemma_strip_within(h, tool, 125);
                    let sh = strip_events_spec(h, tool);
                    assert(canonical_within(JsonValue::Object(sh), 126));
                    lemma_with_field_within(es, "hooks"@, JsonValue::Object(sh), 126);
                },
                _ => {},
            }
        },
        _ => {},
    }
}

/// Backing over white space stops before a first character that is not
/// white space.
proof fn lemma_back_over_spaces_stops(t: Seq<char>, j: int)
    requires
        0 < j <= t.len(),
        !is_space(t[0]),
    ensures
        1 <= back_over_spaces(t, j) <= j,
    decreases j,
{
    if j > 1 && is_space(t[j - 1]) {
        lemma_back_over_spaces_stops(t, j - 1);
    }
}

/// A text that starts with neither white space nor a byte order mark holds
/// the document it parses to.
pub proof fn lemma_printed_text_document(t: Seq<char>)
    requires
        t.len() > 0,
        !is_space(t[0]),
        t[0] != bom(),
    ensures
        settings_document(t) == parsed_json(t),
{
    assert(skip_spaces(t, 0) == 0);
    lemma_back_over_spaces_stops(t, t.len() as int);
    let b = back_over_spaces(t, t.len() as int);
    assert(trim(t) == t.subrange(0, b));
    assert(trim(t).len() > 0);
    assert(skip_run(t, bom(), 0) == 0);
    assert(without_bom(t) =~= t);
}

} // verus!
