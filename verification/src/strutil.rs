//! Character-sequence utilities shared by the parser, the renderer and the
//! image pipeline: conversions between `String` and `Vec<char>`, decimal
//! formatting and parsing, prefix tests, whitespace trimming.

use vstd::prelude::*;

verus! {

/// The decimal digit character for a value below ten.
pub open spec fn dec_digit(n: int) -> char {
    if n == 0 { '0' }
    else if n == 1 { '1' }
    else if n == 2 { '2' }
    else if n == 3 { '3' }
    else if n == 4 { '4' }
    else if n == 5 { '5' }
    else if n == 6 { '6' }
    else if n == 7 { '7' }
    else if n == 8 { '8' }
    else { '9' }
}

/// The decimal representation of a nonnegative integer, most significant
/// digit first, with no leading zeros (except for zero itself).
pub open spec fn spec_dec(n: int) -> Seq<char>
    decreases n,
{
    if n < 10 {
        seq![dec_digit(n)]
    } else {
        spec_dec(n / 10) + seq![dec_digit(n % 10)]
    }
}

pub open spec fn is_dec_digit(c: char) -> bool {
    '0' <= c && c <= '9'
}

/// The numeric value of a sequence of decimal digits.
pub open spec fn digits_val(s: Seq<char>) -> int
    decreases s.len(),
{
    if s.len() == 0 {
        0
    } else {
        digits_val(s.drop_last()) * 10 + (s.last() as int - '0' as int)
    }
}

/// Relies on String::push: appends one character to the string.
#[verifier::external_body]
pub fn push_char(s: &mut String, c: char)
    ensures
        final(s)@ == old(s)@.push(c),
{
    s.push(c);
}

/// Builds a `String` holding exactly the given characters.
pub fn chars_to_string(v: &Vec<char>) -> (s: String)
    ensures
        s@ == v@,
{
    let mut s = String::new();
    let mut i: usize = 0;
    while i < v.len()
        invariant
            i <= v.len(),
            s@ == v@.subrange(0, i as int),
        decreases v.len() - i,
    {
        push_char(&mut s, v[i]);
        i = i + 1;
        assert(v@.subrange(0, i - 1).push(v@[i - 1]) == v@.subrange(0, i as int));
    }
    assert(v@.subrange(0, v.len() as int) == v@);
    s
}

/// Collects the characters of a string slice into a vector.
pub fn str_to_chars(s: &str) -> (v: Vec<char>)
    ensures
        v@ == s@,
{
    let len = s.unicode_len();
    let mut v: Vec<char> = Vec::new();
    let mut i: usize = 0;
    while i < len
        invariant
            i <= len,
            len == s@.len(),
            v@ == s@.subrange(0, i as int),
        decreases len - i,
    {
        v.push(s.get_char(i));
        i = i + 1;
        assert(s@.subrange(0, i - 1).push(s@[i - 1]) == s@.subrange(0, i as int));
    }
    assert(s@.subrange(0, len as int) == s@);
    v
}

/// The decimal digits of `n`, most significant first.
pub fn u64_to_chars(n: u64) -> (v: Vec<char>)
    ensures
        v@ == spec_dec(n as int),
{
    let mut digits: Vec<char> = Vec::new();
    let mut cur: u64 = n;
    while cur >= 10
        invariant
            spec_dec(n as int) == spec_dec(cur as int) + digits@,
        decreases cur,
    {
        let d = (cur % 10) as u8;
        let c = digit_char(d);
        digits.insert(0, c);
        cur = cur / 10;
    }
    let c = digit_char(cur as u8);
    digits.insert(0, c);
    digits
}

/// The character for one decimal digit.
pub fn digit_char(d: u8) -> (c: char)
    requires
        d < 10,
    ensures
        c == dec_digit(d as int),
{
    if d == 0 { '0' }
    else if d == 1 { '1' }
    else if d == 2 { '2' }
    else if d == 3 { '3' }
    else if d == 4 { '4' }
    else if d == 5 { '5' }
    else if d == 6 { '6' }
    else if d == 7 { '7' }
    else if d == 8 { '8' }
    else { '9' }
}

/// The decimal representation of `n` as a `String`.
pub fn u64_to_string(n: u64) -> (s: String)
    ensures
        s@ == spec_dec(n as int),
{
    let v = u64_to_chars(n);
    chars_to_string(&v)
}

/// Whether `c` is Unicode whitespace (the set `char::is_whitespace` accepts).
pub open spec fn spec_is_space(c: char) -> bool {
    c == ' ' || c == '\t' || c == '\n' || c == '\r' || c == '\u{b}' || c == '\u{c}' || c == '\u{85}'
        || c == '\u{a0}' || c == '\u{1680}' || ('\u{2000}' <= c && c <= '\u{200a}') || c
        == '\u{2028}' || c == '\u{2029}' || c == '\u{202f}' || c == '\u{205f}' || c == '\u{3000}'
}

/// Whether `c` is Unicode whitespace.
pub fn is_space(c: char) -> (r: bool)
    ensures
        r == spec_is_space(c),
{
    c == ' ' || c == '\t' || c == '\n' || c == '\r' || c == '\u{b}' || c == '\u{c}' || c == '\u{85}'
        || c == '\u{a0}' || c == '\u{1680}' || ('\u{2000}' <= c && c <= '\u{200a}') || c
        == '\u{2028}' || c == '\u{2029}' || c == '\u{202f}' || c == '\u{205f}' || c == '\u{3000}'
}

/// The longest prefix of `s` whose characters all satisfy being trimmed:
/// index of the first character not satisfying `spec_is_space`.
pub open spec fn spec_trim_start_idx(s: Seq<char>) -> int
    decreases s.len(),
{
    if s.len() == 0 || !spec_is_space(s[0]) {
        0
    } else {
        1 + spec_trim_start_idx(s.drop_first())
    }
}

/// Index one past the last non-whitespace character of `s`.
pub open spec fn spec_trim_end_idx(s: Seq<char>) -> int
    decreases s.len(),
{
    if s.len() == 0 || !spec_is_space(s.last()) {
        s.len() as int
    } else {
        spec_trim_end_idx(s.drop_last())
    }
}

/// `s` with leading and trailing Unicode whitespace removed.
pub open spec fn spec_trim(s: Seq<char>) -> Seq<char> {
    let a = spec_trim_start_idx(s);
    let b = spec_trim_end_idx(s);
    if a <= b {
        s.subrange(a, b)
    } else {
        Seq::empty()
    }
}

proof fn lemma_trim_start_idx_bound(s: Seq<char>)
    ensures
        0 <= spec_trim_start_idx(s) <= s.len(),
        forall|j: int| 0 <= j < spec_trim_start_idx(s) ==> spec_is_space(s[j]),
        spec_trim_start_idx(s) < s.len() ==> !spec_is_space(s[spec_trim_start_idx(s)]),
    decreases s.len(),
{
    if s.len() == 0 || !spec_is_space(s[0]) {
    } else {
        lemma_trim_start_idx_bound(s.drop_first());
        assert forall|j: int| 0 <= j < spec_trim_start_idx(s) implies spec_is_space(s[j]) by {
            if j > 0 {
                assert(spec_is_space(s.drop_first()[j - 1]));
            }
        }
    }
}

proof fn lemma_trim_end_idx_bound(s: Seq<char>)
    ensures
        0 <= spec_trim_end_idx(s) <= s.len(),
        forall|j: int| spec_trim_end_idx(s) <= j < s.len() ==> spec_is_space(s[j]),
        spec_trim_end_idx(s) > 0 ==> !spec_is_space(s[spec_trim_end_idx(s) - 1]),
    decreases s.len(),
{
    if s.len() == 0 || !spec_is_space(s.last()) {
    } else {
        lemma_trim_end_idx_bound(s.drop_last());
        assert forall|j: int| spec_trim_end_idx(s) <= j < s.len() implies spec_is_space(
            s[j],
        ) by {
            if j < s.len() - 1 {
                assert(s.drop_last()[j] == s[j]);
            }
        }
    }
}

/// Index of the first non-whitespace character of `v` (or its length).
pub fn trim_start_idx(v: &Vec<char>) -> (i: usize)
    ensures
        i == spec_trim_start_idx(v@),
        i <= v.len(),
{
    proof {
        lemma_trim_start_idx_bound(v@);
    }
    let mut i: usize = 0;
    while i < v.len() && is_space(v[i])
        invariant
            i <= v.len(),
            forall|j: int| 0 <= j < i ==> spec_is_space(v@[j]),
        decreases v.len() - i,
    {
        i = i + 1;
    }
    proof {
        lemma_trim_idx_unique(v@, i as int);
    }
    i
}

proof fn lemma_trim_idx_unique(s: Seq<char>, i: int)
    requires
        0 <= i <= s.len(),
        forall|j: int| 0 <= j < i ==> spec_is_space(s[j]),
        i < s.len() ==> !spec_is_space(s[i]),
    ensures
        i == spec_trim_start_idx(s),
    decreases s.len(),
{
    if s.len() == 0 || !spec_is_space(s[0]) {
    } else {
        assert(spec_is_space(s[0]));
        lemma_trim_idx_unique(s.drop_first(), i - 1);
    }
}

proof fn lemma_trim_end_idx_unique(s: Seq<char>, i: int)
    requires
        0 <= i <= s.len(),
        forall|j: int| i <= j < s.len() ==> spec_is_space(s[j]),
        i > 0 ==> !spec_is_space(s[i - 1]),
    ensures
        i == spec_trim_end_idx(s),
    decreases s.len(),
{
    if s.len() == 0 || !spec_is_space(s.last()) {
    } else {
        assert forall|j: int| i <= j < s.drop_last().len() implies spec_is_space(
            s.drop_last()[j],
        ) by {
            assert(s.drop_last()[j] == s[j]);
        }
        lemma_trim_end_idx_unique(s.drop_last(), i);
    }
}

/// Index one past the last non-whitespace character of `v`.
pub fn trim_end_idx(v: &Vec<char>) -> (i: usize)
    ensures
        i == spec_trim_end_idx(v@),
        i <= v.len(),
{
    let mut i: usize = v.len();
    while i > 0 && is_space(v[i - 1])
        invariant
            i <= v.len(),
            forall|j: int| i <= j < v.len() ==> spec_is_space(v@[j]),
        decreases i,
    {
        i = i - 1;
    }
    proof {
        lemma_trim_end_idx_unique(v@, i as int);
    }
    i
}

/// `v` with leading and trailing Unicode whitespace removed.
pub fn trim_chars(v: &Vec<char>) -> (r: Vec<char>)
    ensures
        r@ == spec_trim(v@),
{
    let a = trim_start_idx(v);
    let b = trim_end_idx(v);
    proof {
        lemma_trim_start_idx_bound(v@);
        lemma_trim_end_idx_bound(v@);
    }
    let mut r: Vec<char> = Vec::new();
    if a <= b {
        let mut i: usize = a;
        while i < b
            invariant
                a <= i <= b <= v.len(),
                r@ == v@.subrange(a as int, i as int),
            decreases b - i,
        {
            r.push(v[i]);
            i = i + 1;
            assert(v@.subrange(a as int, i - 1).push(v@[i - 1]) == v@.subrange(
                a as int,
                i as int,
            ));
        }
    } else {
        assert(r@ == Seq::<char>::empty());
    }
    r
}

/// Trims a string slice of leading and trailing Unicode whitespace.
pub fn trim_str(s: &str) -> (r: Vec<char>)
    ensures
        r@ == spec_trim(s@),
{
    let v = str_to_chars(s);
    trim_chars(&v)
}

/// Number of leading copies of `c` in `s`.
pub open spec fn spec_lead_count(s: Seq<char>, c: char) -> int
    decreases s.len(),
{
    if s.len() == 0 || s[0] != c {
        0
    } else {
        1 + spec_lead_count(s.drop_first(), c)
    }
}

/// Index one past the last character of `s` that is not `c`.
pub open spec fn spec_tail_start(s: Seq<char>, c: char) -> int
    decreases s.len(),
{
    if s.len() == 0 || s.last() != c {
        s.len() as int
    } else {
        spec_tail_start(s.drop_last(), c)
    }
}

/// `s` with trailing copies of `c` removed.
pub open spec fn spec_trim_end_char(s: Seq<char>, c: char) -> Seq<char> {
    s.subrange(0, spec_tail_start(s, c))
}

/// `s` with leading and trailing copies of `c` removed.
pub open spec fn spec_trim_char(s: Seq<char>, c: char) -> Seq<char> {
    let a = spec_lead_count(s, c);
    let b = spec_tail_start(s, c);
    if a <= b {
        s.subrange(a, b)
    } else {
        Seq::empty()
    }
}

proof fn lemma_lead_count_bound(s: Seq<char>, c: char)
    ensures
        0 <= spec_lead_count(s, c) <= s.len(),
        forall|j: int| 0 <= j < spec_lead_count(s, c) ==> s[j] == c,
        spec_lead_count(s, c) < s.len() ==> s[spec_lead_count(s, c)] != c,
    decreases s.len(),
{
    if s.len() == 0 || s[0] != c {
    } else {
        lemma_lead_count_bound(s.drop_first(), c);
        assert forall|j: int| 0 <= j < spec_lead_count(s, c) implies s[j] == c by {
            if j > 0 {
                assert(s.drop_first()[j - 1] == c);
            }
        }
    }
}

proof fn lemma_tail_start_bound(s: Seq<char>, c: char)
    ensures
        0 <= spec_tail_start(s, c) <= s.len(),
        forall|j: int| spec_tail_start(s, c) <= j < s.len() ==> s[j] == c,
        spec_tail_start(s, c) > 0 ==> s[spec_tail_start(s, c) - 1] != c,
    decreases s.len(),
{
    if s.len() == 0 || s.last() != c {
    } else {
        lemma_tail_start_bound(s.drop_last(), c);
        assert forall|j: int| spec_tail_start(s, c) <= j < s.len() implies s[j] == c by {
            if j < s.len() - 1 {
                assert(s.drop_last()[j] == s[j]);
            }
        }
    }
}

proof fn lemma_lead_count_unique(s: Seq<char>, c: char, i: int)
    requires
        0 <= i <= s.len(),
        forall|j: int| 0 <= j < i ==> s[j] == c,
        i < s.len() ==> s[i] != c,
    ensures
        i == spec_lead_count(s, c),
    decreases s.len(),
{
    if s.len() == 0 || s[0] != c {
    } else {
        lemma_lead_count_unique(s.drop_first(), c, i - 1);
    }
}

proof fn lemma_tail_start_unique(s: Seq<char>, c: char, i: int)
    requires
        0 <= i <= s.len(),
        forall|j: int| i <= j < s.len() ==> s[j] == c,
        i > 0 ==> s[i - 1] != c,
    ensures
        i == spec_tail_start(s, c),
    decreases s.len(),
{
    if s.len() == 0 || s.last() != c {
    } else {
        assert forall|j: int| i <= j < s.drop_last().len() implies s.drop_last()[j] == c by {
            assert(s.drop_last()[j] == s[j]);
        }
        lemma_tail_start_unique(s.drop_last(), c, i);
    }
}

/// The number of leading copies of `c` in `v`.
pub fn lead_count(v: &Vec<char>, c: char) -> (i: usize)
    ensures
        i == spec_lead_count(v@, c),
        i <= v.len(),
{
    let mut i: usize = 0;
    while i < v.len() && v[i] == c
        invariant
            i <= v.len(),
            forall|j: int| 0 <= j < i ==> v@[j] == c,
        decreases v.len() - i,
    {
        i = i + 1;
    }
    proof {
        lemma_lead_count_unique(v@, c, i as int);
    }
    i
}

/// Index one past the last character of `v` that is not `c`.
pub fn tail_start(v: &Vec<char>, c: char) -> (i: usize)
    ensures
        i == spec_tail_start(v@, c),
        i <= v.len(),
{
    let mut i: usize = v.len();
    while i > 0 && v[i - 1] == c
        invariant
            i <= v.len(),
            forall|j: int| i <= j < v.len() ==> v@[j] == c,
        decreases i,
    {
        i = i - 1;
    }
    proof {
        lemma_tail_start_unique(v@, c, i as int);
    }
    i
}

/// Copies `v[from .. to]` into a fresh vector.
pub fn subvec(v: &Vec<char>, from: usize, to: usize) -> (r: Vec<char>)
    requires
        from <= to <= v.len(),
    ensures
        r@ == v@.subrange(from as int, to as int),
{
    let mut r: Vec<char> = Vec::new();
    let mut i: usize = from;
    while i < to
        invariant
            from <= i <= to <= v.len(),
            r@ == v@.subrange(from as int, i as int),
        decreases to - i,
    {
        r.push(v[i]);
        i = i + 1;
        assert(v@.subrange(from as int, i - 1).push(v@[i - 1]) == v@.subrange(from as int, i as int));
    }
    r
}

/// `v` with trailing copies of `c` removed.
pub fn trim_end_char(v: &Vec<char>, c: char) -> (r: Vec<char>)
    ensures
        r@ == spec_trim_end_char(v@, c),
{
    let b = tail_start(v, c);
    subvec(v, 0, b)
}

/// `v` with leading and trailing copies of `c` removed.
pub fn trim_char(v: &Vec<char>, c: char) -> (r: Vec<char>)
    ensures
        r@ == spec_trim_char(v@, c),
{
    let a = lead_count(v, c);
    let b = tail_start(v, c);
    if a <= b {
        subvec(v, a, b)
    } else {
        let r: Vec<char> = Vec::new();
        assert(r@ == Seq::<char>::empty());
        r
    }
}

/// Whether `p` is a prefix of `s` starting at position `at`.
pub open spec fn spec_has_at(s: Seq<char>, p: Seq<char>, at: int) -> bool {
    0 <= at && at + p.len() <= s.len() && s.subrange(at, at + p.len()) == p
}

/// Whether the characters of `s` starting at `at` begin with the string `p`.
pub fn has_str_at(s: &Vec<char>, p: &str, at: usize) -> (r: bool)
    requires
        at <= s.len(),
    ensures
        r == spec_has_at(s@, p@, at as int),
{
    let plen = p.unicode_len();
    if plen > s.len() - at {
        return false;
    }
    let mut i: usize = 0;
    while i < plen
        invariant
            i <= plen,
            plen == p@.len(),
            at + plen <= s.len(),
            forall|j: int| 0 <= j < i ==> s@[at + j] == p@[j],
        decreases plen - i,
    {
        if s[at + i] != p.get_char(i) {
            assert(s@.subrange(at as int, at + plen) != p@) by {
                assert(s@.subrange(at as int, at + plen)[i as int] != p@[i as int]);
            }
            return false;
        }
        i = i + 1;
    }
    assert(s@.subrange(at as int, at + plen) =~= p@);
    true
}

/// Whether `a` begins with the character vector `p`.
pub fn starts_with_chars(a: &Vec<char>, p: &Vec<char>) -> (r: bool)
    ensures
        r == (a@.len() >= p@.len() && a@.subrange(0, p@.len() as int) == p@),
{
    if p.len() > a.len() {
        return false;
    }
    let mut i: usize = 0;
    while i < p.len()
        invariant
            i <= p.len(),
            p@.len() <= a@.len(),
            forall|j: int| 0 <= j < i ==> a@[j] == p@[j],
        decreases p.len() - i,
    {
        if a[i] != p[i] {
            assert(a@.subrange(0, p@.len() as int) != p@) by {
                assert(a@.subrange(0, p@.len() as int)[i as int] != p@[i as int]);
            }
            return false;
        }
        i = i + 1;
    }
    assert(a@.subrange(0, p@.len() as int) =~= p@);
    true
}

/// Whether the character vector begins with the string `p`.
pub fn starts_with_str(s: &Vec<char>, p: &str) -> (r: bool)
    ensures
        r == spec_has_at(s@, p@, 0),
{
    has_str_at(s, p, 0)
}

/// Whether the character vector is exactly the string `p`.
pub fn eq_str(s: &Vec<char>, p: &str) -> (r: bool)
    ensures
        r == (s@ == p@),
{
    let plen = p.unicode_len();
    if s.len() != plen {
        return false;
    }
    let r = has_str_at(s, p, 0);
    proof {
        assert(s@.subrange(0, p@.len() as int) =~= s@);
    }
    r
}

/// Whether `p` occurs in `s` at any position.
pub open spec fn spec_contains_str(s: Seq<char>, p: Seq<char>) -> bool {
    exists|at: int| spec_has_at(s, p, at)
}

/// Whether the string `p` occurs anywhere in the character vector.
pub fn contains_str(s: &Vec<char>, p: &str) -> (r: bool)
    ensures
        r == spec_contains_str(s@, p@),
{
    let plen = p.unicode_len();
    if plen > s.len() {
        proof {
            if spec_contains_str(s@, p@) {
                let at = choose|at: int| spec_has_at(s@, p@, at);
            }
        }
        return false;
    }
    if plen == 0 {
        assert(s@.subrange(0, 0) =~= p@);
        assert(spec_has_at(s@, p@, 0));
        return true;
    }
    let mut at: usize = 0;
    while at <= s.len() - plen
        invariant
            plen == p@.len(),
            1 <= plen <= s.len(),
            at <= s.len() - plen + 1,
            forall|k: int| 0 <= k < at ==> !spec_has_at(s@, p@, k),
        decreases s.len() - at,
    {
        if has_str_at(s, p, at) {
            assert(spec_contains_str(s@, p@)) by {
                assert(spec_has_at(s@, p@, at as int));
            }
            return true;
        }
        at = at + 1;
    }
    proof {
        if spec_contains_str(s@, p@) {
            let k = choose|k: int| spec_has_at(s@, p@, k);
            assert(!spec_has_at(s@, p@, k));
        }
    }
    false
}

/// A substring of the right part survives prepending.
pub proof fn lemma_contains_append_left(a: Seq<char>, b: Seq<char>, p: Seq<char>)
    requires
        spec_contains_str(b, p),
    ensures
        spec_contains_str(a + b, p),
{
    let at = choose|at: int| spec_has_at(b, p, at);
    assert((a + b).subrange(a.len() + at, a.len() + at + p.len() as int) =~= b.subrange(
        at,
        at + p.len(),
    ));
    assert(spec_has_at(a + b, p, a.len() + at));
}

/// A substring of the left part survives appending.
pub proof fn lemma_contains_append_right(a: Seq<char>, b: Seq<char>, p: Seq<char>)
    requires
        spec_contains_str(a, p),
    ensures
        spec_contains_str(a + b, p),
{
    let at = choose|at: int| spec_has_at(a, p, at);
    assert((a + b).subrange(at, at + p.len() as int) =~= a.subrange(at, at + p.len()));
    assert(spec_has_at(a + b, p, at));
}

/// A prefix is a substring.
pub proof fn lemma_prefix_contains(s: Seq<char>, p: Seq<char>)
    requires
        p.len() <= s.len(),
        s.subrange(0, p.len() as int) == p,
    ensures
        spec_contains_str(s, p),
{
    assert(spec_has_at(s, p, 0));
}

/// Appends each character of the string `p` to `dst`.
pub fn append_str(dst: &mut Vec<char>, p: &str)
    ensures
        final(dst)@ == old(dst)@ + p@,
{
    let plen = p.unicode_len();
    let mut i: usize = 0;
    while i < plen
        invariant
            i <= plen,
            plen == p@.len(),
            dst@ == old(dst)@ + p@.subrange(0, i as int),
        decreases plen - i,
    {
        dst.push(p.get_char(i));
        i = i + 1;
        assert(old(dst)@ + p@.subrange(0, i - 1) + seq![p@[i - 1]] == old(dst)@ + p@.subrange(
            0,
            i as int,
        ));
    }
    assert(p@.subrange(0, plen as int) == p@);
}

/// Appends the characters of `src` to `dst`.
pub fn append_chars(dst: &mut Vec<char>, src: &Vec<char>)
    ensures
        final(dst)@ == old(dst)@ + src@,
{
    let mut i: usize = 0;
    while i < src.len()
        invariant
            i <= src.len(),
            dst@ == old(dst)@ + src@.subrange(0, i as int),
        decreases src.len() - i,
    {
        dst.push(src[i]);
        i = i + 1;
        assert(old(dst)@ + src@.subrange(0, i - 1) + seq![src@[i - 1]] == old(dst)@ + src@.subrange(
            0,
            i as int,
        ));
    }
    assert(src@.subrange(0, src.len() as int) == src@);
}

/// The ASCII-lowercased counterpart of `c`.
pub open spec fn spec_ascii_lower(c: char) -> char {
    if 'A' <= c && c <= 'Z' {
        ((c as u8) + 32) as char
    } else {
        c
    }
}

/// Lowercases one ASCII letter, leaving every other character unchanged.
pub fn ascii_lower(c: char) -> (r: char)
    ensures
        r == spec_ascii_lower(c),
{
    if 'A' <= c && c <= 'Z' {
        ((c as u8) + 32) as char
    } else {
        c
    }
}

/// The ASCII-lowercased counterpart of a sequence.
pub open spec fn spec_ascii_lower_seq(s: Seq<char>) -> Seq<char> {
    s.map_values(|c: char| spec_ascii_lower(c))
}

/// ASCII-lowercases every character of `v`.
pub fn ascii_lower_chars(v: &Vec<char>) -> (r: Vec<char>)
    ensures
        r@ == spec_ascii_lower_seq(v@),
{
    let mut r: Vec<char> = Vec::new();
    let mut i: usize = 0;
    while i < v.len()
        invariant
            i <= v.len(),
            r@ == v@.subrange(0, i as int).map_values(|c: char| spec_ascii_lower(c)),
        decreases v.len() - i,
    {
        r.push(ascii_lower(v[i]));
        i = i + 1;
        assert(v@.subrange(0, i as int).map_values(|c: char| spec_ascii_lower(c)) =~= v@.subrange(
            0,
            i - 1,
        ).map_values(|c: char| spec_ascii_lower(c)).push(spec_ascii_lower(v@[i - 1])));
    }
    assert(v@.subrange(0, v.len() as int) == v@);
    r
}

/// Whether `v` holds the value `x`.
pub fn contains_u32(v: &Vec<u32>, x: u32) -> (r: bool)
    ensures
        r == v@.contains(x),
{
    let mut i: usize = 0;
    while i < v.len()
        invariant
            i <= v.len(),
            forall|j: int| 0 <= j < i ==> v@[j] != x,
        decreases v.len() - i,
    {
        if v[i] == x {
            return true;
        }
        i = i + 1;
    }
    false
}

/// Whether every character of `s` is a decimal digit.
pub open spec fn all_digits(s: Seq<char>) -> bool {
    forall|i: int| 0 <= i < s.len() ==> is_dec_digit(s[i])
}

proof fn lemma_digits_val_bounds(s: Seq<char>)
    requires
        all_digits(s),
    ensures
        digits_val(s) >= 0,
        s.len() > 0 ==> digits_val(s) >= digits_val(s.drop_last()),
    decreases s.len(),
{
    if s.len() > 0 {
        assert(all_digits(s.drop_last())) by {
            assert(forall|i: int|
                0 <= i < s.len() - 1 ==> s.drop_last()[i] == s[i]);
        }
        lemma_digits_val_bounds(s.drop_last());
    }
}

proof fn lemma_digits_val_prefix_le(s: Seq<char>, i: int)
    requires
        all_digits(s),
        0 <= i <= s.len(),
    ensures
        digits_val(s.subrange(0, i)) <= digits_val(s),
    decreases s.len() - i,
{
    if i < s.len() {
        lemma_digits_val_prefix_le(s, i + 1);
        let a = s.subrange(0, i);
        let b = s.subrange(0, i + 1);
        assert(b.drop_last() =~= a);
        assert(digits_val(b) == digits_val(a) * 10 + (b.last() as int - '0' as int));
        assert(all_digits(b)) by {
            assert(forall|j: int| 0 <= j < b.len() ==> b[j] == s[j]);
        }
        lemma_digits_val_bounds(a);
        assert(is_dec_digit(b.last()));
        assert(digits_val(a) <= digits_val(a) * 10) by (nonlinear_arith)
            requires
                digits_val(a) >= 0,
        ;
    } else {
        assert(s.subrange(0, i) =~= s);
    }
}

/// Parses the decimal digits `v[from .. to]` as a `u32`.
///
/// Returns the value exactly when the range is nonempty, every character
/// in it is a digit, and the value fits in a `u32`; otherwise `None`.
pub fn parse_u32_range(v: &Vec<char>, from: usize, to: usize) -> (r: Option<u32>)
    requires
        from <= to <= v.len(),
    ensures
        match r {
            Some(n) => {
                &&& from < to
                &&& all_digits(v@.subrange(from as int, to as int))
                &&& n as int == digits_val(v@.subrange(from as int, to as int))
            },
            None => from == to || !all_digits(v@.subrange(from as int, to as int)) || digits_val(
                v@.subrange(from as int, to as int),
            ) > u32::MAX,
        },
{
    if from == to {
        return None;
    }
    let ghost s = v@.subrange(from as int, to as int);
    let mut val: u64 = 0;
    let mut i: usize = from;
    while i < to
        invariant
            from <= i <= to <= v.len(),
            s == v@.subrange(from as int, to as int),
            all_digits(v@.subrange(from as int, i as int)),
            val as int == digits_val(v@.subrange(from as int, i as int)),
            val <= u32::MAX,
        decreases to - i,
    {
        let c = v[i];
        if !('0' <= c && c <= '9') {
            assert(!all_digits(s)) by {
                assert(s[i - from] == v@[i as int]);
            }
            return None;
        }
        let d: u64 = (c as u32 as u64) - ('0' as u32 as u64);
        assert(d <= 9);
        let next: u64 = val * 10 + d;
        proof {
            let a = v@.subrange(from as int, i as int);
            let b = v@.subrange(from as int, i + 1);
            assert(b.drop_last() =~= a);
            assert(b.last() == v@[i as int]);
            assert(all_digits(b)) by {
                assert(forall|j: int| 0 <= j < b.len() - 1 ==> b[j] == a[j]);
            }
        }
        if next > 0xffff_ffff {
            proof {
                if all_digits(s) {
                    let b = v@.subrange(from as int, i + 1);
                    lemma_digits_val_prefix_le(s, i + 1 - from);
                    assert(s.subrange(0, i + 1 - from) =~= b);
                }
            }
            return None;
        }
        val = next;
        i = i + 1;
    }
    assert(v@.subrange(from as int, i as int) =~= s);
    Some(val as u32)
}


/// Finds the first occurrence of the string `p` in `s`.
pub fn find_str(s: &Vec<char>, p: &str) -> (r: Option<usize>)
    ensures
        match r {
            Some(at) => spec_has_at(s@, p@, at as int) && forall|k: int|
                0 <= k < at ==> !spec_has_at(s@, p@, k),
            None => !spec_contains_str(s@, p@),
        },
{
    let plen = p.unicode_len();
    if plen > s.len() {
        proof {
            if spec_contains_str(s@, p@) {
                let at = choose|at: int| spec_has_at(s@, p@, at);
            }
        }
        return None;
    }
    if plen == 0 {
        assert(s@.subrange(0, 0) =~= p@);
        assert(spec_has_at(s@, p@, 0));
        return Some(0);
    }
    let mut at: usize = 0;
    while at <= s.len() - plen
        invariant
            plen == p@.len(),
            1 <= plen <= s.len(),
            at <= s.len() - plen + 1,
            forall|k: int| 0 <= k < at ==> !spec_has_at(s@, p@, k),
        decreases s.len() - at,
    {
        if has_str_at(s, p, at) {
            return Some(at);
        }
        at = at + 1;
    }
    proof {
        if spec_contains_str(s@, p@) {
            let k = choose|k: int| spec_has_at(s@, p@, k);
            assert(!spec_has_at(s@, p@, k));
        }
    }
    None
}

/// Whether a character counts as a Unicode letter or number.
pub uninterp spec fn is_alnum_char(c: char) -> bool;

/// Relies on char::is_alphanumeric: Unicode letters and numbers; among
/// ASCII characters it accepts exactly the letters and digits.
#[verifier::external_body]
pub fn char_is_alphanumeric(c: char) -> (r: bool)
    ensures
        r == is_alnum_char(c),
        (c as u32) < 128 ==> (r == (('a' <= c && c <= 'z') || ('A' <= c && c <= 'Z') || ('0' <= c
            && c <= '9'))),
{
    c.is_alphanumeric()
}

/// The Unicode-lowercased form of a sequence of characters.
pub uninterp spec fn lower_of(s: Seq<char>) -> Seq<char>;

/// Relies on str::to_lowercase: the result depends on the characters
/// alone; an empty string stays empty.
#[verifier::external_body]
pub fn str_to_lowercase(s: &str) -> (r: String)
    ensures
        r@ == lower_of(s@),
        s@.len() == 0 ==> r@.len() == 0,
{
    s.to_lowercase()
}

} // verus!
