//! Character-sequence helpers shared by the parser, the checkers and the
//! renderers: conversion between `str`/`String` and `Vec<char>`, decimal
//! rendering of integers, whitespace trimming and ASCII case folding.
use vstd::prelude::*;

verus! {

/// The characters of `s`, in order.
pub fn str_to_chars(s: &str) -> (v: Vec<char>)
    ensures
        v@ == s@,
{
    let mut v: Vec<char> = Vec::new();
    for c in it: s.chars()
        invariant
            v@ == it.seq().take(it.index() as int),
    {
        v.push(c);
    }
    v
}

/// Collects characters into a `String` (std's `FromIterator<&char>` for
/// `String`, which appends each character in order).
#[verifier::external_body]
pub fn chars_to_string(v: &Vec<char>) -> (s: String)
    ensures
        s@ == v@,
{
    v.iter().collect()
}

/// Appends all characters of `src` to `dst`.
pub fn append_chars(dst: &mut Vec<char>, src: &Vec<char>)
    ensures
        final(dst)@ == old(dst)@ + src@,
{
    let n = src.len();
    for i in 0..n
        invariant
            n == src@.len(),
            dst@ == old(dst)@ + src@.take(i as int),
    {
        dst.push(src[i]);
        assert(src@.take(i + 1) == src@.take(i as int).push(src@[i as int]));
    }
    assert(src@.take(n as int) == src@);
}

/// Appends the characters of `s` to `dst`.
pub fn append_str(dst: &mut Vec<char>, s: &str)
    ensures
        final(dst)@ == old(dst)@ + s@,
{
    let v = str_to_chars(s);
    append_chars(dst, &v);
}

/// The ASCII digit for a value below ten.
pub open spec fn digit_char(d: nat) -> char {
    if d == 0 {
        '0'
    } else if d == 1 {
        '1'
    } else if d == 2 {
        '2'
    } else if d == 3 {
        '3'
    } else if d == 4 {
        '4'
    } else if d == 5 {
        '5'
    } else if d == 6 {
        '6'
    } else if d == 7 {
        '7'
    } else if d == 8 {
        '8'
    } else {
        '9'
    }
}

/// The decimal rendering of a natural number, without leading zeros.
pub open spec fn nat_to_decimal(n: nat) -> Seq<char>
    decreases n,
{
    if n < 10 {
        seq![digit_char(n)]
    } else {
        nat_to_decimal(n / 10).push(digit_char(n % 10))
    }
}

fn digit_exec(d: u64) -> (c: char)
    requires
        d < 10,
    ensures
        c == digit_char(d as nat),
{
    if d == 0 {
        '0'
    } else if d == 1 {
        '1'
    } else if d == 2 {
        '2'
    } else if d == 3 {
        '3'
    } else if d == 4 {
        '4'
    } else if d == 5 {
        '5'
    } else if d == 6 {
        '6'
    } else if d == 7 {
        '7'
    } else if d == 8 {
        '8'
    } else {
        '9'
    }
}

/// Appends the decimal rendering of `n` to `dst`.
pub fn push_decimal(dst: &mut Vec<char>, n: u128)
    ensures
        final(dst)@ == old(dst)@ + nat_to_decimal(n as nat),
    decreases n,
{
    if n < 10 {
        dst.push(digit_exec(n as u64));
        assert(nat_to_decimal(n as nat) == seq![digit_char(n as nat)]);
    } else {
        push_decimal(dst, n / 10);
        dst.push(digit_exec((n % 10) as u64));
    }
}

/// The decimal rendering of `n` as a `String`.
pub fn decimal_string(n: u128) -> (s: String)
    ensures
        s@ == nat_to_decimal(n as nat),
{
    let mut v: Vec<char> = Vec::new();
    push_decimal(&mut v, n);
    assert(v@ == Seq::<char>::empty() + nat_to_decimal(n as nat));
    chars_to_string(&v)
}

/// Unicode `White_Space` (what `char::is_whitespace` and `str::trim` use).
pub open spec fn is_ws(c: char) -> bool {
    ||| '\u{9}' <= c <= '\u{d}'
    ||| c == ' '
    ||| c == '\u{85}'
    ||| c == '\u{a0}'
    ||| c == '\u{1680}'
    ||| '\u{2000}' <= c <= '\u{200a}'
    ||| c == '\u{2028}'
    ||| c == '\u{2029}'
    ||| c == '\u{202f}'
    ||| c == '\u{205f}'
    ||| c == '\u{3000}'
}

/// Whether `c` is Unicode white space.
pub fn is_whitespace(c: char) -> (b: bool)
    ensures
        b == is_ws(c),
{
    ('\u{9}' <= c && c <= '\u{d}') || c == ' ' || c == '\u{85}' || c == '\u{a0}' || c
        == '\u{1680}' || ('\u{2000}' <= c && c <= '\u{200a}') || c == '\u{2028}' || c
        == '\u{2029}' || c == '\u{202f}' || c == '\u{205f}' || c == '\u{3000}'
}

/// `s` without leading white space.
pub open spec fn trim_start(s: Seq<char>) -> Seq<char>
    decreases s.len(),
{
    if s.len() > 0 && is_ws(s[0]) {
        trim_start(s.drop_first())
    } else {
        s
    }
}

/// `s` without trailing white space.
pub open spec fn trim_end(s: Seq<char>) -> Seq<char>
    decreases s.len(),
{
    if s.len() > 0 && is_ws(s.last()) {
        trim_end(s.drop_last())
    } else {
        s
    }
}

/// `s` without leading and trailing white space (`str::trim`).
pub open spec fn trim(s: Seq<char>) -> Seq<char> {
    trim_end(trim_start(s))
}

/// Trimming a line that begins and ends a non-blank prefix `p` keeps `p`
/// whole and trims only the end of what follows it.
pub proof fn lemma_trim_prefixed(p: Seq<char>, rest: Seq<char>)
    requires
        p.len() > 0,
        !is_ws(p[0]),
        !is_ws(p.last()),
    ensures
        trim(p + rest) == p + trim_end(rest),
    decreases rest.len(),
{
    assert((p + rest)[0] == p[0]);
    assert(trim_start(p + rest) == p + rest);
    if rest.len() == 0 {
        assert(p + rest == p);
        assert(trim_end(p) == p);
    } else if is_ws(rest.last()) {
        assert((p + rest).drop_last() == p + rest.drop_last());
        lemma_trim_prefixed(p, rest.drop_last());
        assert(trim_start(p + rest.drop_last()) == p + rest.drop_last());
    } else {
        assert((p + rest).last() == rest.last());
    }
}

pub proof fn lemma_trim_start_range(s: Seq<char>, a: int, b: int)
    requires
        0 <= a <= b <= s.len(),
        forall|k: int| 0 <= k < a ==> is_ws(#[trigger] s[k]),
        a == b || !is_ws(s[a]),
    ensures
        trim_start(s.subrange(0, b)) == s.subrange(a, b),
    decreases a,
{
    if a > 0 {
        let t = s.subrange(0, b);
        assert(t.drop_first() == s.drop_first().subrange(0, b - 1));
        assert forall|k: int| 0 <= k < a - 1 implies is_ws(#[trigger] s.drop_first()[k]) by {
            assert(s.drop_first()[k] == s[k + 1]);
        }
        lemma_trim_start_range(s.drop_first(), a - 1, b - 1);
        assert(s.drop_first().subrange(a - 1, b - 1) == s.subrange(a, b));
    } else {
        assert(s.subrange(0, b) == s.subrange(a, b));
    }
}

proof fn lemma_trim_end_range(s: Seq<char>, e: int)
    requires
        0 <= e <= s.len(),
        forall|k: int| e <= k < s.len() ==> is_ws(#[trigger] s[k]),
        e == 0 || !is_ws(s[e - 1]),
    ensures
        trim_end(s) == s.subrange(0, e),
    decreases s.len(),
{
    if s.len() > e {
        assert(is_ws(s[s.len() - 1]));
        assert forall|k: int| e <= k < s.drop_last().len() implies is_ws(#[trigger] s.drop_last()[k]) by {
            assert(s.drop_last()[k] == s[k]);
        }
        lemma_trim_end_range(s.drop_last(), e);
        assert(s.drop_last().subrange(0, e) == s.subrange(0, e));
    } else {
        assert(s.subrange(0, e) == s);
    }
}

/// The bounds of `s[lo..hi]` with leading and trailing white space removed.
pub fn trim_bounds(s: &Vec<char>, lo: usize, hi: usize) -> (r: (usize, usize))
    requires
        lo <= hi <= s@.len(),
    ensures
        lo <= r.0 <= r.1 <= hi,
        s@.subrange(r.0 as int, r.1 as int) == trim(s@.subrange(lo as int, hi as int)),
{
    let mut a = lo;
    while a < hi && is_whitespace(s[a])
        invariant
            lo <= a <= hi <= s@.len(),
            forall|k: int| lo <= k < a ==> is_ws(#[trigger] s@[k]),
        decreases hi - a,
    {
        a = a + 1;
    }
    let mut b = hi;
    while b > a && is_whitespace(s[b - 1])
        invariant
            lo <= a <= b <= hi <= s@.len(),
            forall|k: int| b <= k < hi ==> is_ws(#[trigger] s@[k]),
        decreases b - a,
    {
        b = b - 1;
    }
    proof {
        let sub = s@.subrange(lo as int, hi as int);
        assert forall|k: int| 0 <= k < a - lo implies is_ws(#[trigger] sub[k]) by {
            assert(sub[k] == s@[lo + k]);
        }
        lemma_trim_start_range(sub, a - lo, hi - lo);
        assert(sub.subrange(0, hi - lo) == sub);
        let t = sub.subrange(a - lo, hi - lo);
        assert(t == s@.subrange(a as int, hi as int));
        assert forall|k: int| b - a <= k < t.len() implies is_ws(#[trigger] t[k]) by {
            assert(t[k] == s@[a + k]);
        }
        if b > a {
            assert(t[b - a - 1] == s@[b - 1]);
        }
        lemma_trim_end_range(t, b - a);
        assert(t.subrange(0, b - a) == s@.subrange(a as int, b as int));
    }
    (a, b)
}

/// ASCII lower-casing of one character (`char::to_ascii_lowercase`).
pub open spec fn lower_char(c: char) -> char {
    if 'A' <= c <= 'Z' {
        ((c as u32) + 32) as char
    } else {
        c
    }
}

/// ASCII lower-casing of a sequence (`str::to_ascii_lowercase`).
pub open spec fn lower(s: Seq<char>) -> Seq<char> {
    s.map_values(|c: char| lower_char(c))
}

/// ASCII lower-casing of one character.
pub fn to_lower(c: char) -> (r: char)
    ensures
        r == lower_char(c),
{
    if 'A' <= c && c <= 'Z' {
        ((c as u8) + 32) as char
    } else {
        c
    }
}

/// ASCII lower-casing of `s[lo..hi]`.
pub fn lower_range(s: &Vec<char>, lo: usize, hi: usize) -> (r: Vec<char>)
    requires
        lo <= hi <= s@.len(),
    ensures
        r@ == lower(s@.subrange(lo as int, hi as int)),
{
    let mut r: Vec<char> = Vec::new();
    let mut i = lo;
    while i < hi
        invariant
            lo <= i <= hi <= s@.len(),
            r@ == lower(s@.subrange(lo as int, i as int)),
        decreases hi - i,
    {
        r.push(to_lower(s[i]));
        i = i + 1;
        assert(s@.subrange(lo as int, i as int) == s@.subrange(lo as int, i - 1).push(s@[i - 1]));
    }
    r
}

/// `s` starts with `p`.
pub open spec fn starts_with(s: Seq<char>, p: Seq<char>) -> bool {
    s.len() >= p.len() && s.take(p.len() as int) == p
}

/// `p` occurs in `s` as a contiguous run.
pub open spec fn contains_sub(s: Seq<char>, p: Seq<char>) -> bool {
    exists|i: int| 0 <= i && i + p.len() <= s.len() && #[trigger] s.subrange(i, i + p.len()) == p
}

/// Whether `s` starts with the characters of `p`.
pub fn has_prefix(s: &Vec<char>, p: &str) -> (b: bool)
    ensures
        b == starts_with(s@, p@),
{
    let pv = str_to_chars(p);
    if pv.len() > s.len() {
        return false;
    }
    let n = pv.len();
    for i in 0..n
        invariant
            n == pv@.len(),
            pv@ == p@,
            n <= s@.len(),
            forall|k: int| 0 <= k < i ==> s@[k] == pv@[k],
    {
        if s[i] != pv[i] {
            assert(s@.take(n as int)[i as int] != pv@[i as int]);
            return false;
        }
    }
    assert(s@.take(n as int) == pv@);
    true
}

/// Whether the characters of `p` occur contiguously in `s`.
pub fn has_substring(s: &Vec<char>, p: &str) -> (b: bool)
    ensures
        b == contains_sub(s@, p@),
{
    let pv = str_to_chars(p);
    let n = pv.len();
    if n > s.len() {
        assert forall|i: int| 0 <= i && i + n <= s@.len() implies #[trigger] s@.subrange(i, i + n) != pv@ by {}
        return false;
    }
    let last = s.len() - n;
    let mut i: usize = 0;
    while i <= last
        invariant
            n == pv@.len(),
            pv@ == p@,
            s@.len() <= usize::MAX,
            last + n == s@.len(),
            forall|a: int| 0 <= a < i ==> #[trigger] s@.subrange(a, a + n) != pv@,
        decreases last + 1 - i,
    {
        let mut j: usize = 0;
        let mut ok = true;
        while j < n
            invariant
                n == pv@.len(),
                pv@ == p@,
                s@.len() <= usize::MAX,
                i <= last,
                last + n == s@.len(),
                j <= n,
                ok ==> forall|k: int| 0 <= k < j ==> s@[i + k] == pv@[k],
                !ok ==> s@.subrange(i as int, i + n) != pv@,
            decreases n - j,
        {
            assert(i + j < s@.len());
            if s[i + j] != pv[j] {
                assert(s@.subrange(i as int, i + n)[j as int] == s@[i + j]);
                ok = false;
            }
            j = j + 1;
        }
        if ok {
            assert(s@.subrange(i as int, i + n) == pv@);
            assert(contains_sub(s@, p@));
            return true;
        }
        if i == last {
            assert forall|a: int| 0 <= a && a + n <= s@.len() implies #[trigger] s@.subrange(a, a + n) != pv@ by {
                assert(a <= last);
            }
            return false;
        }
        i = i + 1;
    }
    false
}

/// The index of the first character of `s` satisfying `p`, or `s.len()`.
pub open spec fn first_index(s: Seq<char>, p: spec_fn(char) -> bool) -> int
    decreases s.len(),
{
    if s.len() == 0 {
        0
    } else if p(s[0]) {
        0
    } else {
        1 + first_index(s.drop_first(), p)
    }
}

/// `first_index` is the position of the first match.
pub proof fn lemma_first_index(s: Seq<char>, p: spec_fn(char) -> bool, i: int)
    requires
        0 <= i <= s.len(),
        forall|k: int| 0 <= k < i ==> !p(#[trigger] s[k]),
        i == s.len() || p(s[i]),
    ensures
        first_index(s, p) == i,
    decreases i,
{
    if i > 0 {
        assert forall|k: int| 0 <= k < i - 1 implies !p(#[trigger] s.drop_first()[k]) by {
            assert(s.drop_first()[k] == s[k + 1]);
        }
        lemma_first_index(s.drop_first(), p, i - 1);
    }
}

/// The character `c`.
pub open spec fn is_char(c: char) -> spec_fn(char) -> bool {
    |x: char| x == c
}

/// The index in `s[lo..hi]` (relative to `lo`) of the first `c`, or
/// `hi - lo` when there is none.
pub fn find_char(s: &Vec<char>, lo: usize, hi: usize, c: char) -> (r: usize)
    requires
        lo <= hi <= s@.len(),
    ensures
        r <= hi - lo,
        r == first_index(s@.subrange(lo as int, hi as int), is_char(c)),
{
    let mut i = lo;
    while i < hi && s[i] != c
        invariant
            lo <= i <= hi <= s@.len(),
            forall|k: int| lo <= k < i ==> s@[k] != c,
        decreases hi - i,
    {
        i = i + 1;
    }
    proof {
        let sub = s@.subrange(lo as int, hi as int);
        assert forall|k: int| 0 <= k < i - lo implies !is_char(c)(#[trigger] sub[k]) by {
            assert(sub[k] == s@[lo + k]);
        }
        lemma_first_index(sub, is_char(c), i - lo);
    }
    i - lo
}

/// What `first_index` is: every earlier character fails `p`, and the
/// character at it (if any) satisfies `p`.
pub proof fn lemma_first_index_props(s: Seq<char>, p: spec_fn(char) -> bool)
    ensures
        0 <= first_index(s, p) <= s.len(),
        forall|k: int| 0 <= k < first_index(s, p) ==> !p(#[trigger] s[k]),
        first_index(s, p) < s.len() ==> p(s[first_index(s, p)]),
    decreases s.len(),
{
    if s.len() > 0 && !p(s[0]) {
        lemma_first_index_props(s.drop_first(), p);
        assert forall|k: int| 0 <= k < first_index(s, p) implies !p(#[trigger] s[k]) by {
            if k > 0 {
                assert(s[k] == s.drop_first()[k - 1]);
            }
        }
    }
}

/// `c` occurs in `s` exactly when its first index is inside `s`.
pub proof fn lemma_first_index_contains(s: Seq<char>, c: char)
    ensures
        s.contains(c) <==> first_index(s, is_char(c)) < s.len(),
{
    lemma_first_index_props(s, is_char(c));
    if s.contains(c) {
        let k = choose|k: int| 0 <= k < s.len() && s[k] == c;
        assert(is_char(c)(s[k]));
    }
    if first_index(s, is_char(c)) < s.len() {
        assert(s[first_index(s, is_char(c))] == c);
    }
}

/// A copy of `s[lo..hi]`.
pub fn copy_range(s: &Vec<char>, lo: usize, hi: usize) -> (r: Vec<char>)
    requires
        lo <= hi <= s@.len(),
    ensures
        r@ == s@.subrange(lo as int, hi as int),
{
    let mut r: Vec<char> = Vec::new();
    let mut i = lo;
    while i < hi
        invariant
            lo <= i <= hi <= s@.len(),
            r@ == s@.subrange(lo as int, i as int),
        decreases hi - i,
    {
        r.push(s[i]);
        i = i + 1;
        assert(r@ == s@.subrange(lo as int, i as int));
    }
    r
}

/// Whether `a` holds exactly the characters of `p`.
pub fn equals_str(a: &Vec<char>, p: &str) -> (b: bool)
    ensures
        b == (a@ == p@),
{
    let pv = str_to_chars(p);
    if pv.len() != a.len() {
        return false;
    }
    let n = a.len();
    for i in 0..n
        invariant
            n == a@.len() == pv@.len(),
            pv@ == p@,
            forall|k: int| 0 <= k < i ==> a@[k] == pv@[k],
    {
        if a[i] != pv[i] {
            return false;
        }
    }
    assert(a@ =~= pv@);
    true
}

} // verus!
