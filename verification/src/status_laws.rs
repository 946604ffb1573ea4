//! What the status file promises as a whole: the reader gives back exactly
//! the state and timestamp that the writer wrote, for every state the
//! overlay understands, and every state that a hook writes is one of them.
use vstd::prelude::*;
use crate::hooks::hook_table;
use crate::status::{
    decimal_digits, decimal_value, digit_char, digit_value, digits_end, extract_num_spec,
    extract_str_spec, quoted, status_reading, status_text, valid_state, value_start,
};
use crate::text::{
    back_over_spaces, find_from, is_digit, is_space, lemma_find_from_first, occurs_at,
    skip_spaces, trim,
};

verus! {

/// The decimal digits of a number are digits, at least one, and denote it.
pub proof fn lemma_decimal_digits(n: nat)
    ensures
        decimal_digits(n).len() >= 1,
        forall|k: int|
            0 <= k < decimal_digits(n).len() ==> is_digit(#[trigger] decimal_digits(n)[k]),
        decimal_value(decimal_digits(n)) == n,
    decreases n,
{
    let d = decimal_digits(n);
    if n < 10 {
        let c = digit_char(n as int);
        assert(c as int == n + 48);
        assert(d.drop_last() =~= Seq::<char>::empty());
        assert(decimal_value(d.drop_last()) == 0);
        assert(d.last() == c);
        assert(digit_value(c) == n);
    } else {
        lemma_decimal_digits(n / 10);
        let c = digit_char((n % 10) as int);
        assert(c as int == n % 10 + 48);
        assert(d.drop_last() =~= decimal_digits(n / 10));
        assert(d.last() == c);
        assert(digit_value(c) == n % 10);
        assert(decimal_value(d) == (n / 10) * 10 + n % 10);
        assert((n / 10) * 10 + n % 10 == n) by {
            vstd::arithmetic::div_mod::lemma_fundamental_div_mod(n as int, 10);
        }
    }
}

/// A state the overlay understands is four to eight lower-case letters.
pub proof fn lemma_valid_state_letters(s: Seq<char>)
    requires
        valid_state(s),
    ensures
        4 <= s.len() <= 8,
        forall|k: int| 0 <= k < s.len() ==> 'a' <= #[trigger] s[k] && s[k] <= 'z',
        s[0] == 't' ==> s[1] != 's',
{
    reveal_strlit("thinking");
    reveal_strlit("tooling");
    reveal_strlit("waiting");
    reveal_strlit("done");
    reveal_strlit("idle");
}

/// A run of digits ending before a non-digit is what `digits_end` finds.
proof fn lemma_digits_end(s: Seq<char>, a: int, e: int)
    requires
        0 <= a <= e <= s.len(),
        forall|k: int| a <= k < e ==> is_digit(#[trigger] s[k]),
        e == s.len() || !is_digit(s[e]),
    ensures
        digits_end(s, a) == e,
    decreases e - a,
{
    if a < e {
        lemma_digits_end(s, a + 1, e);
    }
}

/// Every state that a hook writes is one the overlay understands.
pub proof fn lemma_hook_states_valid()
    ensures
        forall|i: int| 0 <= i < 5 ==> valid_state(#[trigger] hook_table()[i].1),
{
}

/// The status text's layout: `{"state":"`, the state, `","ts":`, the
/// digits, `}`.
spec fn status_layout(p: Seq<char>, state: Seq<char>, d: Seq<char>) -> bool {
    let l = state.len() as int;
    let m = d.len() as int;
    let a = seq!['{', '"', 's', 't', 'a', 't', 'e', '"', ':', '"'];
    let b = seq!['"', ',', '"', 't', 's', '"', ':'];
    &&& p.len() == 18 + l + m
    &&& forall|k: int| 0 <= k < 10 ==> #[trigger] p[k] == a[k]
    &&& forall|k: int| 10 <= k < 10 + l ==> #[trigger] p[k] == state[k - 10]
    &&& forall|k: int| 10 + l <= k < 17 + l ==> #[trigger] p[k] == b[k - 10 - l]
    &&& forall|k: int| 17 + l <= k < 17 + l + m ==> #[trigger] p[k] == d[k - 17 - l]
    &&& p[17 + l + m] == '}'
}

/// The status text is laid out as written.
proof fn lemma_status_layout(state: Seq<char>, ts: u64)
    ensures
        status_layout(status_text(state, ts as nat), state, decimal_digits(ts as nat)),
{
    reveal_strlit("{\"state\":\"");
    reveal_strlit("\",\"ts\":");
    reveal_strlit("}");
    let a = "{\"state\":\""@;
    let b = "\",\"ts\":"@;
    assert(a =~= seq!['{', '"', 's', 't', 'a', 't', 'e', '"', ':', '"']);
    assert(b =~= seq!['"', ',', '"', 't', 's', '"', ':']);
}

/// The state comes back.
proof fn lemma_status_state(p: Seq<char>, state: Seq<char>, d: Seq<char>)
    requires
        status_layout(p, state, d),
        valid_state(state),
    ensures
        extract_str_spec(p, "state"@) == Some(state),
{
    reveal_strlit("state");
    lemma_valid_state_letters(state);
    let l = state.len() as int;
    let qs = quoted("state"@);
    assert(qs =~= seq!['"', 's', 't', 'a', 't', 'e', '"']);
    assert(p.subrange(1, 8) =~= qs);
    assert(!occurs_at(p, qs, 0)) by {
        assert(p.subrange(0, 7)[0] == p[0]);
    }
    lemma_find_from_first(p, qs, 0, 1);
    assert(p.subrange(8, 9) =~= seq![':']);
    lemma_find_from_first(p, seq![':'], 8, 8);
    assert(value_start(p, "state"@) == Some(9int));
    assert(p.subrange(9, 10) =~= seq!['"']);
    lemma_find_from_first(p, seq!['"'], 9, 9);
    assert(p.subrange(10 + l, 11 + l) =~= seq!['"']);
    assert forall|j: int| 10 <= j < 10 + l implies !occurs_at(p, seq!['"'], j) by {
        assert(p.subrange(j, j + 1)[0] == p[j]);
        assert('a' <= state[j - 10]);
    }
    lemma_find_from_first(p, seq!['"'], 10, 10 + l);
    assert(p.subrange(10, 10 + l) =~= state);
}

/// The timestamp comes back.
proof fn lemma_status_ts(p: Seq<char>, state: Seq<char>, ts: u64)
    requires
        status_layout(p, state, decimal_digits(ts as nat)),
        valid_state(state),
    ensures
        extract_num_spec(p, "ts"@) == Some(ts),
{
    reveal_strlit("ts");
    lemma_valid_state_letters(state);
    lemma_decimal_digits(ts as nat);
    let d = decimal_digits(ts as nat);
    let l = state.len() as int;
    let m = d.len() as int;
    let qt = quoted("ts"@);
    assert(qt =~= seq!['"', 't', 's', '"']);
    assert(p.subrange(12 + l, 16 + l) =~= qt);
    assert forall|j: int| 0 <= j < 12 + l implies !occurs_at(p, qt, j) by {
        if occurs_at(p, qt, j) {
            let w = p.subrange(j, j + 4);
            assert(w[0] == p[j] && w[1] == p[j + 1] && w[2] == p[j + 2] && w[3] == p[j + 3]);
            if 10 <= j < 10 + l {
                assert('a' <= state[j - 10]);
            }
            if j == 9 {
                assert(p[10] == state[0] && p[11] == state[1]);
            }
            if j + 3 >= 10 && j + 3 < 10 + l {
                assert('a' <= state[j + 3 - 10]);
            }
        }
    }
    lemma_find_from_first(p, qt, 0, 12 + l);
    assert(p.subrange(16 + l, 17 + l) =~= seq![':']);
    lemma_find_from_first(p, seq![':'], 16 + l, 16 + l);
    assert(value_start(p, "ts"@) == Some(17 + l));
    assert(is_digit(d[0]));
    assert(!is_space(p[17 + l]));
    assert(skip_spaces(p, 17 + l) == 17 + l);
    lemma_digits_end(p, 17 + l, 17 + l + m);
    assert(p.subrange(17 + l, 17 + l + m) =~= d);
}

/// Reading back what the writer wrote gives the same state and timestamp,
/// for every state the overlay understands.
pub proof fn lemma_status_roundtrip(state: Seq<char>, ts: u64)
    requires
        valid_state(state),
    ensures
        status_reading(status_text(state, ts as nat)) == (state, ts),
{
    let p = status_text(state, ts as nat);
    lemma_status_layout(state, ts);
    lemma_valid_state_letters(state);
    assert(skip_spaces(p, 0) == 0);
    assert(back_over_spaces(p, p.len() as int) == p.len());
    assert(trim(p) =~= p);
    lemma_status_state(p, state, decimal_digits(ts as nat));
    lemma_status_ts(p, state, ts);
}

} // verus!
