//! The status file shared between the hook writer (`--set`) and the overlay
//! reader: `{"state":"<state>","ts":<milliseconds>}`, read back with a small
//! hand parser that tolerates anything it does not understand.
use vstd::prelude::*;
use crate::text::{
    char_vec, find_from, find_in, is_digit, occurs_at, same_text, skip_spaces, skip_spaces_in,
    trim, trim_text,
};

verus! {

broadcast use vstd::string::group_string_axioms;

/// The states the overlay understands.
pub open spec fn valid_state(s: Seq<char>) -> bool {
    ||| s == "thinking"@
    ||| s == "tooling"@
    ||| s == "waiting"@
    ||| s == "done"@
    ||| s == "idle"@
}

/// The character that denotes digit `d`.
pub open spec fn digit_char(d: int) -> char {
    (d + 48) as char
}

/// The value of a digit character.
pub open spec fn digit_value(c: char) -> int {
    c as int - 48
}

/// The value of a string of decimal digits (most significant first).
pub open spec fn decimal_value(ds: Seq<char>) -> nat
    decreases ds.len(),
{
    if ds.len() == 0 {
        0
    } else {
        (decimal_value(ds.drop_last()) * 10 + digit_value(ds.last())) as nat
    }
}

/// The decimal digits of `n`, without leading zeros.
pub open spec fn decimal_digits(n: nat) -> Seq<char>
    decreases n,
{
    if n < 10 {
        seq![digit_char(n as int)]
    } else {
        decimal_digits(n / 10).push(digit_char((n % 10) as int))
    }
}

/// End of the run of ASCII digits that starts at `i`.
pub open spec fn digits_end(s: Seq<char>, i: int) -> int
    decreases s.len() - i,
{
    if 0 <= i < s.len() && is_digit(s[i]) {
        digits_end(s, i + 1)
    } else {
        i
    }
}

/// `"<key>"`.
pub open spec fn quoted(key: Seq<char>) -> Seq<char> {
    seq!['"'] + key + seq!['"']
}

/// Position just after the `:` that follows the first `"<key>"`.
pub open spec fn value_start(json: Seq<char>, key: Seq<char>) -> Option<int> {
    match find_from(json, quoted(key), 0) {
        Some(i) => match find_from(json, seq![':'], i + quoted(key).len()) {
            Some(c) => Some(c + 1),
            None => None,
        },
        None => None,
    }
}

/// The string value of `key`: the text between the first two `"` after the
/// `:` that follows the first `"<key>"`.
pub open spec fn extract_str_spec(json: Seq<char>, key: Seq<char>) -> Option<Seq<char>> {
    match value_start(json, key) {
        Some(v) => match find_from(json, seq!['"'], v) {
            Some(q1) => match find_from(json, seq!['"'], q1 + 1) {
                Some(q2) => Some(json.subrange(q1 + 1, q2)),
                None => None,
            },
            None => None,
        },
        None => None,
    }
}

/// The numeric value of `key`: the run of digits after the `:` that follows
/// the first `"<key>"` and any white space; nothing when the run is empty
/// or its value does not fit in a `u64`.
pub open spec fn extract_num_spec(json: Seq<char>, key: Seq<char>) -> Option<u64> {
    match value_start(json, key) {
        Some(v) => {
            let a = skip_spaces(json, v);
            let b = digits_end(json, a);
            let n = decimal_value(json.subrange(a, b));
            if a == b || n > u64::MAX {
                None
            } else {
                Some(n as u64)
            }
        },
        None => None,
    }
}

/// What the overlay makes of the status file's text: idle for blank text,
/// idle for a state it does not know, and the timestamp when there is one.
pub open spec fn status_reading(raw: Seq<char>) -> (Seq<char>, u64) {
    let t = trim(raw);
    if t.len() == 0 {
        ("idle"@, 0)
    } else {
        let state = match extract_str_spec(t, "state"@) {
            Some(s) => s,
            None => "idle"@,
        };
        let ts = match extract_num_spec(t, "ts"@) {
            Some(n) => n,
            None => 0,
        };
        if valid_state(state) {
            (state, ts)
        } else {
            ("idle"@, ts)
        }
    }
}

/// The text of the status file: `{"state":"<state>","ts":<ts>}`.
pub open spec fn status_text(state: Seq<char>, ts: nat) -> Seq<char> {
    "{\"state\":\""@ + state + "\",\"ts\":"@ + decimal_digits(ts) + "}"@
}

/// Valid states the overlay understands.
pub fn is_valid_state(s: &str) -> (r: bool)
    ensures
        r == valid_state(s@),
{
    same_text(s, "thinking") || same_text(s, "tooling") || same_text(s, "waiting") || same_text(
        s,
        "done",
    ) || same_text(s, "idle")
}

/// The text of one digit.
fn digit_text(d: u64) -> (r: &'static str)
    requires
        d < 10,
    ensures
        r@ == seq![digit_char(d as int)],
{
    if d == 0 {
        proof {
            reveal_strlit("0");
        }
        "0"
    } else if d == 1 {
        proof {
            reveal_strlit("1");
        }
        "1"
    } else if d == 2 {
        proof {
            reveal_strlit("2");
        }
        "2"
    } else if d == 3 {
        proof {
            reveal_strlit("3");
        }
        "3"
    } else if d == 4 {
        proof {
            reveal_strlit("4");
        }
        "4"
    } else if d == 5 {
        proof {
            reveal_strlit("5");
        }
        "5"
    } else if d == 6 {
        proof {
            reveal_strlit("6");
        }
        "6"
    } else if d == 7 {
        proof {
            reveal_strlit("7");
        }
        "7"
    } else if d == 8 {
        proof {
            reveal_strlit("8");
        }
        "8"
    } else {
        proof {
            reveal_strlit("9");
        }
        "9"
    }
}

/// Append the decimal digits of `n`.
fn push_decimal(out: &mut String, n: u64)
    ensures
        final(out)@ == old(out)@ + decimal_digits(n as nat),
    decreases n,
{
    if n >= 10 {
        push_decimal(out, n / 10);
    }
    out.append(digit_text(n % 10));
    proof {
        assert(out@ =~= old(out)@ + decimal_digits(n as nat));
    }
}

/// `{ "state": "...", "ts": <ms> }` as the `--set` hook path writes it.
pub fn status_payload(state: &str, ts: u64) -> (r: String)
    ensures
        r@ == status_text(state@, ts as nat),
{
    let mut s = String::from_str("{\"state\":\"");
    s.append(state);
    s.append("\",\"ts\":");
    push_decimal(&mut s, ts);
    s.append("}");
    proof {
        assert(s@ =~= status_text(state@, ts as nat));
    }
    s
}

/// `"<key>"` as characters.
fn quoted_key(key: &str) -> (r: Vec<char>)
    ensures
        r@ == quoted(key@),
{
    let k = char_vec(key);
    let mut r: Vec<char> = Vec::new();
    r.push('"');
    let mut i: usize = 0;
    while i < k.len()
        invariant
            i <= k.len(),
            r@ == seq!['"'] + k@.take(i as int),
        decreases k.len() - i,
    {
        r.push(k[i]);
        i += 1;
        proof {
            assert(r@ =~= seq!['"'] + k@.take(i as int));
        }
    }
    r.push('"');
    proof {
        assert(k@.take(k.len() as int) =~= k@);
        assert(r@ =~= quoted(key@));
    }
    r
}

/// Position just after the `:` that follows the first `"<key>"`.
fn find_value_start(v: &Vec<char>, key: &str) -> (r: Option<usize>)
    ensures
        match r {
            Some(i) => value_start(v@, key@) == Some(i as int) && i <= v.len(),
            None => value_start(v@, key@) is None,
        },
{
    let pat = quoted_key(key);
    match find_in(v, &pat, 0) {
        Some(i) => {
            proof {
                crate::text::lemma_find_from(v@, pat@, 0);
                assert(occurs_at(v@, pat@, i as int));
            }
            let colon = vec![':'];
            assert(colon@ =~= seq![':']);
            match find_in(v, &colon, i + pat.len()) {
                Some(c) => {
                    proof {
                        crate::text::lemma_find_from(v@, colon@, (i + pat.len()) as int);
                        assert(occurs_at(v@, colon@, c as int));
                    }
                    Some(c + 1)
                },
                None => None,
            }
        },
        None => None,
    }
}

/// The string value stored under `key` in a flat JSON object.
pub fn extract_str(json: &str, key: &str) -> (r: Option<String>)
    ensures
        match r {
            Some(s) => extract_str_spec(json@, key@) == Some(s@),
            None => extract_str_spec(json@, key@) is None,
        },
{
    let v = char_vec(json);
    let start = find_value_start(&v, key);
    match start {
        Some(c) => {
            let quote = vec!['"'];
            assert(quote@ =~= seq!['"']);
            match find_in(&v, &quote, c) {
                Some(q1) => {
                    proof {
                        crate::text::lemma_find_from(v@, quote@, c as int);
                        assert(occurs_at(v@, quote@, q1 as int));
                    }
                    match find_in(&v, &quote, q1 + 1) {
                        Some(q2) => {
                            proof {
                                crate::text::lemma_find_from(v@, quote@, (q1 + 1) as int);
                                assert(occurs_at(v@, quote@, q2 as int));
                            }
                            Some(String::from_str(json.substring_char(q1 + 1, q2)))
                        },
                        None => None,
                    }
                },
                None => None,
            }
        },
        None => None,
    }
}

/// `char::is_ascii_digit`.
fn is_digit_char(c: char) -> (r: bool)
    ensures
        r == is_digit(c),
{
    '0' <= c && c <= '9'
}

/// The value of a digit string grows with every digit.
proof fn lemma_decimal_value_grows(s: Seq<char>, a: int, j: int, e: int)
    requires
        0 <= a <= j <= e <= s.len(),
        forall|k: int| a <= k < e ==> is_digit(#[trigger] s[k]),
    ensures
        decimal_value(s.subrange(a, j)) <= decimal_value(s.subrange(a, e)),
    decreases e - j,
{
    if j < e {
        lemma_decimal_value_grows(s, a, j, e - 1);
        assert(s.subrange(a, e).drop_last() =~= s.subrange(a, e - 1));
    }
}

/// The run of digits starting at `a`, computed.
fn digits_end_in(v: &Vec<char>, a: usize) -> (r: usize)
    requires
        a <= v.len(),
    ensures
        r as int == digits_end(v@, a as int),
        a <= r <= v.len(),
        forall|k: int| a <= k < r ==> is_digit(#[trigger] v@[k]),
{
    let mut i = a;
    while i < v.len() && is_digit_char(v[i])
        invariant
            a <= i <= v.len(),
            digits_end(v@, a as int) == digits_end(v@, i as int),
            forall|k: int| a <= k < i ==> is_digit(#[trigger] v@[k]),
        decreases v.len() - i,
    {
        i += 1;
    }
    i
}

/// The number stored under `key` in a flat JSON object.
pub fn extract_num(json: &str, key: &str) -> (r: Option<u64>)
    ensures
        r == extract_num_spec(json@, key@),
{
    let v = char_vec(json);
    let start = find_value_start(&v, key);
    match start {
        Some(c) => {
            let a = skip_spaces_in(&v, c);
            let b = digits_end_in(&v, a);
            if a == b {
                return None;
            }
            let mut acc: u64 = 0;
            let mut i = a;
            while i < b
                invariant
                    a <= i <= b <= v.len(),
                    v@ == json@,
                    value_start(v@, key@) == Some(c as int),
                    a as int == skip_spaces(v@, c as int),
                    b as int == digits_end(v@, a as int),
                    forall|k: int| a <= k < b ==> is_digit(#[trigger] v@[k]),
                    acc as nat == decimal_value(v@.subrange(a as int, i as int)),
                decreases b - i,
            {
                let d = (v[i] as u32 - 48) as u64;
                assert(is_digit(v@[i as int]));
                assert(d < 10 && d == digit_value(v@[i as int]));
                proof {
                    assert(v@.subrange(a as int, i + 1).drop_last() =~= v@.subrange(
                        a as int,
                        i as int,
                    ));
                }
                if acc > 1844674407370955161 || (acc == 1844674407370955161 && d > 5) {
                    proof {
                        assert(acc * 10 + d > u64::MAX) by (nonlinear_arith)
                            requires
                                d < 10,
                                acc > 1844674407370955161 || (acc == 1844674407370955161 && d
                                    > 5),
                        ;
                        lemma_decimal_value_grows(v@, a as int, i + 1, b as int);
                        assert(v@.subrange(a as int, i + 1).last() == v@[i as int]);
                        assert(decimal_value(v@.subrange(a as int, i + 1)) == acc * 10 + d);
                    }
                    return None;
                }
                proof {
                    assert(acc * 10 + d <= u64::MAX) by (nonlinear_arith)
                        requires
                            d < 10,
                            acc < 1844674407370955161 || (acc == 1844674407370955161 && d <= 5),
                    ;
                }
                acc = acc * 10 + d;
                i += 1;
            }
            Some(acc)
        },
        None => None,
    }
}

/// Current state + its timestamp (ms) from the status file's text. Blank
/// text -> idle; a missing or unknown state -> idle; a missing timestamp -> 0.
pub fn status_from_text(raw: &str) -> (r: (String, u64))
    ensures
        (r.0@, r.1) == status_reading(raw@),
        valid_state(r.0@),
        trim(raw@).len() == 0 ==> r.0@ == "idle"@ && r.1 == 0,
{
    let raw = trim_text(raw);
    if raw.is_empty() {
        return (String::from_str("idle"), 0);
    }
    let state = match extract_str(raw, "state") {
        Some(s) => s,
        None => String::from_str("idle"),
    };
    let ts = match extract_num(raw, "ts") {
        Some(n) => n,
        None => 0,
    };
    if is_valid_state(state.as_str()) {
        (state, ts)
    } else {
        (String::from_str("idle"), ts)
    }
}

} // verus!
