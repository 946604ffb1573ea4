//! Character-level text helpers shared by the status file reader, the hook
//! command marker and the settings document reader.
//!
//! Every helper works on the `Seq<char>` view of a string; positions are
//! character positions, which is what the byte offsets of the `str` searches
//! they stand for amount to once they are used to slice the same text.
use vstd::prelude::*;

verus! {

broadcast use vstd::string::group_string_axioms;

/// Unicode `White_Space`, the set that `char::is_whitespace` (and so
/// `str::trim`) is documented to use.
pub open spec fn is_space(c: char) -> bool {
    let n = c as u32;
    ||| 0x9 <= n <= 0xd
    ||| n == 0x20
    ||| n == 0x85
    ||| n == 0xa0
    ||| n == 0x1680
    ||| 0x2000 <= n <= 0x200a
    ||| n == 0x2028
    ||| n == 0x2029
    ||| n == 0x202f
    ||| n == 0x205f
    ||| n == 0x3000
}

/// An ASCII decimal digit.
pub open spec fn is_digit(c: char) -> bool {
    '0' <= c && c <= '9'
}

/// Index of the first character at or after `i` that is not white space.
pub open spec fn skip_spaces(s: Seq<char>, i: int) -> int
    decreases s.len() - i,
{
    if 0 <= i < s.len() && is_space(s[i]) {
        skip_spaces(s, i + 1)
    } else {
        i
    }
}

/// One past the last character before `j` that is not white space.
pub open spec fn back_over_spaces(s: Seq<char>, j: int) -> int
    decreases j,
{
    if 0 < j <= s.len() && is_space(s[j - 1]) {
        back_over_spaces(s, j - 1)
    } else {
        j
    }
}

/// `str::trim`: the text without white space at either end.
pub open spec fn trim(s: Seq<char>) -> Seq<char> {
    let a = skip_spaces(s, 0);
    let b = back_over_spaces(s, s.len() as int);
    if a < b {
        s.subrange(a, b)
    } else {
        Seq::empty()
    }
}

/// Index of the first character at or after `i` that differs from `c`.
pub open spec fn skip_run(s: Seq<char>, c: char, i: int) -> int
    decreases s.len() - i,
{
    if 0 <= i < s.len() && s[i] == c {
        skip_run(s, c, i + 1)
    } else {
        i
    }
}

/// The byte order mark that editors put in front of UTF-8 text.
pub open spec fn bom() -> char {
    '\u{feff}'
}

/// `str::trim_start_matches('\u{feff}')`: the text without the byte order
/// marks it starts with.
pub open spec fn without_bom(s: Seq<char>) -> Seq<char> {
    s.skip(skip_run(s, bom(), 0))
}

/// `p` occurs in `s` starting at `i`.
pub open spec fn occurs_at(s: Seq<char>, p: Seq<char>, i: int) -> bool {
    0 <= i && i + p.len() <= s.len() && s.subrange(i, i + p.len()) == p
}

/// The first position at or after `i` where `p` occurs in `s`.
pub open spec fn find_from(s: Seq<char>, p: Seq<char>, i: int) -> Option<int>
    decreases s.len() + 1 - i,
{
    if i < 0 || i + p.len() > s.len() {
        None
    } else if occurs_at(s, p, i) {
        Some(i)
    } else {
        find_from(s, p, i + 1)
    }
}

/// `str::contains`: `p` occurs somewhere in `s`.
pub open spec fn contains(s: Seq<char>, p: Seq<char>) -> bool {
    find_from(s, p, 0) is Some
}

/// What `find_from` answers is an occurrence, and no earlier one exists.
pub proof fn lemma_find_from(s: Seq<char>, p: Seq<char>, i: int)
    requires
        0 <= i,
    ensures
        match find_from(s, p, i) {
            Some(k) => i <= k && occurs_at(s, p, k) && forall|j: int|
                i <= j < k ==> !occurs_at(s, p, j),
            None => forall|j: int| i <= j ==> !occurs_at(s, p, j),
        },
    decreases s.len() + 1 - i,
{
    if i + p.len() > s.len() {
    } else if occurs_at(s, p, i) {
    } else {
        lemma_find_from(s, p, i + 1);
    }
}

/// An occurrence at `k` with none in `[i, k)` is what `find_from` answers.
pub proof fn lemma_find_from_first(s: Seq<char>, p: Seq<char>, i: int, k: int)
    requires
        0 <= i <= k,
        occurs_at(s, p, k),
        forall|j: int| i <= j < k ==> !occurs_at(s, p, j),
    ensures
        find_from(s, p, i) == Some(k),
    decreases k - i,
{
    if i < k {
        lemma_find_from_first(s, p, i + 1, k);
    }
}

/// Any occurrence makes `contains` true.
pub proof fn lemma_contains_witness(s: Seq<char>, p: Seq<char>, k: int)
    requires
        occurs_at(s, p, k),
    ensures
        contains(s, p),
{
    lemma_find_from(s, p, 0);
}

/// An occurrence in `a` is still one in `x + a + y`, shifted by `x.len()`.
pub proof fn lemma_contains_within(x: Seq<char>, a: Seq<char>, y: Seq<char>, p: Seq<char>)
    requires
        contains(a, p),
    ensures
        contains(x + a + y, p),
{
    lemma_find_from(a, p, 0);
    let k = find_from(a, p, 0)->0;
    let s = x + a + y;
    assert(s.subrange(x.len() + k, x.len() + k + p.len()) =~= a.subrange(k, k + p.len()));
    lemma_contains_witness(s, p, x.len() + k);
}

/// The characters of a string, in order.
pub fn char_vec(s: &str) -> (v: Vec<char>)
    ensures
        v@ == s@,
{
    let mut v: Vec<char> = Vec::new();
    for c in it: s.chars()
        invariant
            v@ == it.seq().take(it.index() as int),
            it.seq() == s@,
    {
        v.push(c);
    }
    v
}

/// `char::is_whitespace`.
pub fn is_space_char(c: char) -> (r: bool)
    ensures
        r == is_space(c),
{
    let n = c as u32;
    (0x9 <= n && n <= 0xd) || n == 0x20 || n == 0x85 || n == 0xa0 || n == 0x1680 || (0x2000
        <= n && n <= 0x200a) || n == 0x2028 || n == 0x2029 || n == 0x202f || n == 0x205f || n
        == 0x3000
}

/// `s` starts with `p` at position `i`.
pub fn matches_at(s: &Vec<char>, p: &Vec<char>, i: usize) -> (r: bool)
    requires
        i + p.len() <= s.len(),
    ensures
        r == occurs_at(s@, p@, i as int),
{
    let mut j: usize = 0;
    while j < p.len()
        invariant
            j <= p.len(),
            i + p.len() <= s.len(),
            forall|k: int| 0 <= k < j ==> s@[i + k] == p@[k],
        decreases p.len() - j,
    {
        if s[i + j] != p[j] {
            return false;
        }
        j += 1;
    }
    assert(s@.subrange(i as int, i + p.len()) =~= p@);
    true
}

/// The first position at or after `from` where `p` occurs in `s`.
pub fn find_in(s: &Vec<char>, p: &Vec<char>, from: usize) -> (r: Option<usize>)
    ensures
        match r {
            Some(k) => find_from(s@, p@, from as int) == Some(k as int) && k + p.len() <= s.len()
                <= usize::MAX,
            None => find_from(s@, p@, from as int) is None,
        },
{
    if p.len() > s.len() {
        proof {
            lemma_find_from(s@, p@, from as int);
        }
        return None;
    }
    let last = s.len() - p.len();
    if from > last {
        return None;
    }
    let mut i = from;
    while i < last
        invariant
            from <= i <= last,
            last + p.len() == s.len(),
            find_from(s@, p@, from as int) == find_from(s@, p@, i as int),
        decreases last - i,
    {
        if matches_at(s, p, i) {
            return Some(i);
        }
        i += 1;
    }
    if matches_at(s, p, i) {
        Some(i)
    } else {
        assert(find_from(s@, p@, i + 1) is None);
        None
    }
}

/// `str::contains`.
pub fn contains_text(s: &str, p: &str) -> (r: bool)
    ensures
        r == contains(s@, p@),
{
    let sv = char_vec(s);
    let pv = char_vec(p);
    find_in(&sv, &pv, 0).is_some()
}

/// The two strings hold the same characters.
pub fn same_text(a: &str, b: &str) -> (r: bool)
    ensures
        r == (a@ == b@),
{
    let av = char_vec(a);
    let bv = char_vec(b);
    if av.len() != bv.len() {
        return false;
    }
    let mut i: usize = 0;
    while i < av.len()
        invariant
            i <= av.len(),
            av.len() == bv.len(),
            av@ == a@,
            bv@ == b@,
            forall|k: int| 0 <= k < i ==> av@[k] == bv@[k],
        decreases av.len() - i,
    {
        if av[i] != bv[i] {
            assert(a@[i as int] != b@[i as int]);
            return false;
        }
        i += 1;
    }
    assert(av@ =~= bv@);
    true
}

/// `skip_spaces`, computed.
pub fn skip_spaces_in(s: &Vec<char>, from: usize) -> (r: usize)
    requires
        from <= s.len(),
    ensures
        r as int == skip_spaces(s@, from as int),
        from <= r <= s.len(),
{
    let mut i = from;
    while i < s.len() && is_space_char(s[i])
        invariant
            from <= i <= s.len(),
            skip_spaces(s@, from as int) == skip_spaces(s@, i as int),
        decreases s.len() - i,
    {
        i += 1;
    }
    i
}

/// `back_over_spaces`, computed.
fn back_over_spaces_in(s: &Vec<char>) -> (r: usize)
    ensures
        r as int == back_over_spaces(s@, s.len() as int),
        r <= s.len(),
{
    let mut j = s.len();
    while j > 0 && is_space_char(s[j - 1])
        invariant
            j <= s.len(),
            back_over_spaces(s@, s.len() as int) == back_over_spaces(s@, j as int),
        decreases j,
    {
        j -= 1;
    }
    j
}

/// `str::trim`.
pub fn trim_text(s: &str) -> (r: &str)
    ensures
        r@ == trim(s@),
{
    let v = char_vec(s);
    let a = skip_spaces_in(&v, 0);
    let b = back_over_spaces_in(&v);
    if a < b {
        s.substring_char(a, b)
    } else {
        s.substring_char(0, 0)
    }
}

/// `str::trim_start_matches('\u{feff}')`.
pub fn strip_bom(s: &str) -> (r: &str)
    ensures
        r@ == without_bom(s@),
{
    let v = char_vec(s);
    let mut i: usize = 0;
    while i < v.len() && v[i] == '\u{feff}'
        invariant
            i <= v.len(),
            skip_run(v@, bom(), 0) == skip_run(v@, bom(), i as int),
        decreases v.len() - i,
    {
        i += 1;
    }
    s.substring_char(i, v.len())
}

} // verus!
