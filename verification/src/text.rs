//! Character-level text operations used throughout the library, each with a
//! specification over `Seq<char>`.

use vstd::prelude::*;

verus! {

// ---------------------------------------------------------------------------
// Thin conversions between `String`/`str` and character sequences.
// ---------------------------------------------------------------------------

/// `String::push`: appends one character at the end.
#[verifier::external_body]
pub(crate) fn string_push(s: &mut String, c: char)
    ensures
        final(s)@ == old(s)@.push(c),
{
    s.push(c);
}

/// `str::chars`, collected: the characters of a string slice, in order.
#[verifier::external_body]
pub(crate) fn str_chars(s: &str) -> (res: Vec<char>)
    ensures
        res@ == s@,
{
    s.chars().collect()
}

/// Builds a `String` holding exactly the given characters.
pub fn chars_to_string(v: &Vec<char>) -> (res: String)
    ensures
        res@ == v@,
{
    let mut out = String::new();
    let mut i: usize = 0;
    while i < v.len()
        invariant
            i <= v.len(),
            out@ == v@.take(i as int),
        decreases v.len() - i,
    {
        string_push(&mut out, v[i]);
        i = i + 1;
        assert(out@ =~= v@.take(i as int));
    }
    assert(v@.take(v.len() as int) =~= v@);
    out
}

/// Concatenation of two string slices into a new `String`.
pub fn concat_str(a: &str, b: &str) -> (res: String)
    ensures
        res@ == a@ + b@,
{
    let mut out = String::from_str(a);
    out.append(b);
    out
}

// ---------------------------------------------------------------------------
// Whitespace and trimming (Unicode `White_Space`, as `char::is_whitespace`).
// ---------------------------------------------------------------------------

/// The Unicode `White_Space` property, which `char::is_whitespace` tests.
pub open spec fn is_ws(c: char) -> bool {
    ||| ('\u{9}' <= c && c <= '\u{d}')
    ||| c == ' '
    ||| c == '\u{85}'
    ||| c == '\u{a0}'
    ||| c == '\u{1680}'
    ||| ('\u{2000}' <= c && c <= '\u{200a}')
    ||| c == '\u{2028}'
    ||| c == '\u{2029}'
    ||| c == '\u{202f}'
    ||| c == '\u{205f}'
    ||| c == '\u{3000}'
}

pub fn is_whitespace(c: char) -> (r: bool)
    ensures
        r == is_ws(c),
{
    ('\u{9}' <= c && c <= '\u{d}') || c == ' ' || c == '\u{85}' || c == '\u{a0}' || c == '\u{1680}'
        || ('\u{2000}' <= c && c <= '\u{200a}') || c == '\u{2028}' || c == '\u{2029}' || c
        == '\u{202f}' || c == '\u{205f}' || c == '\u{3000}'
}

/// Number of leading whitespace characters.
pub open spec fn lead_ws(s: Seq<char>) -> nat
    decreases s.len(),
{
    if s.len() > 0 && is_ws(s[0]) {
        1 + lead_ws(s.drop_first())
    } else {
        0
    }
}

/// Number of trailing whitespace characters.
pub open spec fn trail_ws(s: Seq<char>) -> nat
    decreases s.len(),
{
    if s.len() > 0 && is_ws(s.last()) {
        1 + trail_ws(s.drop_last())
    } else {
        0
    }
}

/// `str::trim_start`.
pub open spec fn trim_start_s(s: Seq<char>) -> Seq<char> {
    s.skip(lead_ws(s) as int)
}

/// `str::trim_end`.
pub open spec fn trim_end_s(s: Seq<char>) -> Seq<char> {
    s.take(s.len() - trail_ws(s))
}

/// `str::trim`: whitespace removed from both ends.
pub open spec fn trim_s(s: Seq<char>) -> Seq<char> {
    trim_end_s(trim_start_s(s))
}

pub proof fn lemma_lead_ws_bound(s: Seq<char>)
    ensures
        lead_ws(s) <= s.len(),
        forall|j: int| 0 <= j < lead_ws(s) ==> is_ws(#[trigger] s[j]),
        lead_ws(s) < s.len() ==> !is_ws(s[lead_ws(s) as int]),
    decreases s.len(),
{
    if s.len() > 0 && is_ws(s[0]) {
        lemma_lead_ws_bound(s.drop_first());
        assert forall|j: int| 0 <= j < lead_ws(s) implies is_ws(#[trigger] s[j]) by {
            if j > 0 {
                assert(s[j] == s.drop_first()[j - 1]);
            }
        }
    }
}

pub proof fn lemma_trail_ws_bound(s: Seq<char>)
    ensures
        trail_ws(s) <= s.len(),
        forall|j: int| s.len() - trail_ws(s) <= j < s.len() ==> is_ws(#[trigger] s[j]),
        trail_ws(s) < s.len() ==> !is_ws(s[s.len() - trail_ws(s) - 1]),
    decreases s.len(),
{
    if s.len() > 0 && is_ws(s.last()) {
        lemma_trail_ws_bound(s.drop_last());
        assert forall|j: int| s.len() - trail_ws(s) <= j < s.len() implies is_ws(#[trigger] s[j]) by {
            if j < s.len() - 1 {
                assert(s[j] == s.drop_last()[j]);
            }
        }
    }
}

/// Trimming twice is trimming once.
pub proof fn lemma_trim_idempotent(s: Seq<char>)
    ensures
        trim_s(trim_s(s)) == trim_s(s),
{
    lemma_lead_ws_bound(s);
    let a = lead_ws(s);
    let t = s.skip(a as int);
    lemma_trail_ws_bound(t);
    let r = trim_s(s);
    assert(r == t.take(t.len() - trail_ws(t)));
    if r.len() > 0 {
        assert(r[0] == s[a as int]);
        assert(r.last() == t[t.len() - trail_ws(t) - 1]);
        assert forall|j: int| 0 <= j < 0 implies is_ws(#[trigger] r[j]) by {}
        lemma_lead_ws_at(r, 0);
        assert forall|j: int| r.len() <= j < r.len() implies is_ws(#[trigger] r[j]) by {}
        lemma_trail_ws_at(r, r.len() as int);
        assert(r.skip(0) =~= r);
        assert(r.take(r.len() as int) =~= r);
    } else {
        assert(lead_ws(r) == 0);
        assert(r.skip(0) =~= r);
        assert(trail_ws(r) == 0);
        assert(r.take(0) =~= r);
    }
}

/// `lead_ws` is the index of the first non-whitespace character.
pub proof fn lemma_lead_ws_at(s: Seq<char>, i: int)
    requires
        0 <= i <= s.len(),
        forall|j: int| 0 <= j < i ==> is_ws(#[trigger] s[j]),
        i == s.len() || !is_ws(s[i]),
    ensures
        lead_ws(s) == i,
    decreases i,
{
    if i > 0 {
        let t = s.drop_first();
        assert forall|j: int| 0 <= j < i - 1 implies is_ws(#[trigger] t[j]) by {
            assert(t[j] == s[j + 1]);
        }
        if i - 1 < t.len() {
            assert(t[i - 1] == s[i]);
        }
        assert(is_ws(s[0]));
        lemma_lead_ws_at(t, i - 1);
    }
}

/// `trail_ws` counts back to the last non-whitespace character.
pub proof fn lemma_trail_ws_at(s: Seq<char>, k: int)
    requires
        0 <= k <= s.len(),
        forall|j: int| k <= j < s.len() ==> is_ws(#[trigger] s[j]),
        k == 0 || !is_ws(s[k - 1]),
    ensures
        trail_ws(s) == s.len() - k,
    decreases s.len() - k,
{
    if k < s.len() {
        let t = s.drop_last();
        assert forall|j: int| k <= j < t.len() implies is_ws(#[trigger] t[j]) by {
            assert(t[j] == s[j]);
        }
        if k > 0 {
            assert(t[k - 1] == s[k - 1]);
        }
        assert(is_ws(s[s.len() - 1]));
        lemma_trail_ws_at(t, k);
    }
}

/// Bounds `[start, end)` of the trimmed part of `v`.
pub fn trim_bounds(v: &Vec<char>) -> (r: (usize, usize))
    ensures
        r.0 <= r.1 <= v.len(),
        v@.subrange(r.0 as int, r.1 as int) == trim_s(v@),
        r.0 == lead_ws(v@),
{
    let n = v.len();
    let mut i: usize = 0;
    while i < n && is_whitespace(v[i])
        invariant
            n == v.len(),
            i <= n,
            forall|j: int| 0 <= j < i ==> is_ws(#[trigger] v@[j]),
        decreases n - i,
    {
        i = i + 1;
    }
    proof {
        lemma_lead_ws_at(v@, i as int);
    }
    let mut k: usize = n;
    while k > i && is_whitespace(v[k - 1])
        invariant
            n == v.len(),
            i <= k <= n,
            forall|j: int| k <= j < n ==> is_ws(#[trigger] v@[j]),
        decreases k,
    {
        k = k - 1;
    }
    proof {
        let t = v@.skip(i as int);
        assert(t == trim_start_s(v@));
        let kk = k - i;
        assert forall|j: int| kk <= j < t.len() implies is_ws(#[trigger] t[j]) by {
            assert(t[j] == v@[j + i]);
        }
        if kk > 0 {
            assert(t[kk - 1] == v@[k - 1]);
        }
        lemma_trail_ws_at(t, kk as int);
        assert(trim_s(v@) =~= v@.subrange(i as int, k as int));
    }
    (i, k)
}

/// Copies the characters `v[start..end]` into a new vector.
pub fn sub_chars(v: &Vec<char>, start: usize, end: usize) -> (r: Vec<char>)
    requires
        start <= end <= v.len(),
    ensures
        r@ == v@.subrange(start as int, end as int),
{
    let mut out: Vec<char> = Vec::new();
    let mut i = start;
    while i < end
        invariant
            start <= i <= end <= v.len(),
            out@ == v@.subrange(start as int, i as int),
        decreases end - i,
    {
        out.push(v[i]);
        i = i + 1;
        assert(out@ =~= v@.subrange(start as int, i as int));
    }
    out
}

/// A copy of a character vector.
pub fn copy_chars(v: &Vec<char>) -> (r: Vec<char>)
    ensures
        r@ == v@,
{
    let r = sub_chars(v, 0, v.len());
    assert(v@.subrange(0, v.len() as int) =~= v@);
    r
}

/// `s.trim()`, as characters.
pub fn trim_chars(v: &Vec<char>) -> (r: Vec<char>)
    ensures
        r@ == trim_s(v@),
{
    let (a, b) = trim_bounds(v);
    sub_chars(v, a, b)
}

/// `s.trim().to_string()`.
pub fn trim(s: &str) -> (r: String)
    ensures
        r@ == trim_s(s@),
{
    let v = str_chars(s);
    let t = trim_chars(&v);
    chars_to_string(&t)
}

/// `s.trim_start()`, as characters.
pub fn trim_start_chars(v: &Vec<char>) -> (r: Vec<char>)
    ensures
        r@ == trim_start_s(v@),
{
    let (a, _b) = trim_bounds(v);
    sub_chars(v, a, v.len())
}

// ---------------------------------------------------------------------------
// ASCII case mapping and character replacement.
// ---------------------------------------------------------------------------

pub open spec fn is_ascii_upper(c: char) -> bool {
    'A' <= c && c <= 'Z'
}

/// `char::to_ascii_lowercase`.
pub open spec fn ascii_lower_char(c: char) -> char {
    if is_ascii_upper(c) {
        ((c as u32) + 32) as char
    } else {
        c
    }
}

/// `str::to_ascii_lowercase`.
pub open spec fn lower_s(s: Seq<char>) -> Seq<char> {
    s.map_values(|c: char| ascii_lower_char(c))
}

pub fn lower_char(c: char) -> (r: char)
    ensures
        r == ascii_lower_char(c),
{
    if 'A' <= c && c <= 'Z' {
        let v: u8 = (c as u8) + 32;
        v as char
    } else {
        c
    }
}

pub fn lower_chars(v: &Vec<char>) -> (r: Vec<char>)
    ensures
        r@ == lower_s(v@),
{
    let mut out: Vec<char> = Vec::new();
    let mut i: usize = 0;
    while i < v.len()
        invariant
            i <= v.len(),
            out@ == lower_s(v@.take(i as int)),
        decreases v.len() - i,
    {
        out.push(lower_char(v[i]));
        i = i + 1;
        assert(out@ =~= lower_s(v@.take(i as int)));
    }
    assert(v@.take(v.len() as int) =~= v@);
    out
}

/// Every `from` replaced by `to`, as `str::replace` with single characters.
pub open spec fn replace_char_s(s: Seq<char>, from: char, to: char) -> Seq<char> {
    s.map_values(|c: char| if c == from { to } else { c })
}

pub fn replace_char_chars(v: &Vec<char>, from: char, to: char) -> (r: Vec<char>)
    ensures
        r@ == replace_char_s(v@, from, to),
{
    let mut out: Vec<char> = Vec::new();
    let mut i: usize = 0;
    while i < v.len()
        invariant
            i <= v.len(),
            out@ == replace_char_s(v@.take(i as int), from, to),
        decreases v.len() - i,
    {
        let c = v[i];
        out.push(if c == from { to } else { c });
        i = i + 1;
        assert(out@ =~= replace_char_s(v@.take(i as int), from, to));
    }
    assert(v@.take(v.len() as int) =~= v@);
    out
}

// ---------------------------------------------------------------------------
// Prefixes, suffixes and substrings.
// ---------------------------------------------------------------------------

pub open spec fn starts_with_s(s: Seq<char>, p: Seq<char>) -> bool {
    p.len() <= s.len() && s.take(p.len() as int) == p
}

pub open spec fn ends_with_s(s: Seq<char>, p: Seq<char>) -> bool {
    p.len() <= s.len() && s.skip(s.len() - p.len()) == p
}

/// `t` occurs in `s` starting at index `i`.
pub open spec fn occurs_at(s: Seq<char>, t: Seq<char>, i: int) -> bool {
    0 <= i && i + t.len() <= s.len() && s.subrange(i, i + t.len()) == t
}

pub open spec fn contains_s(s: Seq<char>, t: Seq<char>) -> bool {
    exists|i: int| occurs_at(s, t, i)
}

/// Whether `s[at..]` begins with `p`.
pub fn match_at(s: &Vec<char>, at: usize, p: &Vec<char>) -> (r: bool)
    requires
        at <= s.len(),
    ensures
        r == (at + p.len() <= s.len() && s@.subrange(at as int, at + p.len()) == p@),
{
    if p.len() > s.len() - at {
        return false;
    }
    let mut j: usize = 0;
    while j < p.len()
        invariant
            at + p.len() <= s.len(),
            j <= p.len(),
            forall|k: int| 0 <= k < j ==> s@[at + k] == p@[k],
        decreases p.len() - j,
    {
        if s[at + j] != p[j] {
            assert(s@.subrange(at as int, at + p.len())[j as int] != p@[j as int]);
            return false;
        }
        j = j + 1;
    }
    assert(s@.subrange(at as int, at + p.len()) =~= p@);
    true
}

pub fn starts_with_chars(s: &Vec<char>, p: &Vec<char>) -> (r: bool)
    ensures
        r == starts_with_s(s@, p@),
{
    let r = match_at(s, 0, p);
    proof {
        if p.len() <= s.len() {
            assert(s@.subrange(0, p.len() as int) =~= s@.take(p.len() as int));
        }
    }
    r
}

pub fn ends_with_chars(s: &Vec<char>, p: &Vec<char>) -> (r: bool)
    ensures
        r == ends_with_s(s@, p@),
{
    if p.len() > s.len() {
        return false;
    }
    let r = match_at(s, s.len() - p.len(), p);
    proof {
        assert(s@.subrange(s.len() - p.len(), s.len() as int) =~= s@.skip(s.len() - p.len()));
    }
    r
}

pub fn contains_chars(s: &Vec<char>, t: &Vec<char>) -> (r: bool)
    ensures
        r == contains_s(s@, t@),
{
    if t.len() > s.len() {
        assert forall|i: int| !occurs_at(s@, t@, i) by {}
        return false;
    }
    if t.len() == 0 {
        assert(s@.subrange(0, 0) =~= t@);
        assert(occurs_at(s@, t@, 0));
        return true;
    }
    let last = s.len() - t.len();
    let mut i: usize = 0;
    while i <= last
        invariant
            last == s.len() - t.len(),
            1 <= t.len() <= s.len(),
            i <= last + 1,
            forall|k: int| 0 <= k < i ==> !occurs_at(s@, t@, k),
        decreases last + 1 - i,
    {
        if match_at(s, i, t) {
            assert(occurs_at(s@, t@, i as int));
            return true;
        }
        i = i + 1;
    }
    assert forall|k: int| !occurs_at(s@, t@, k) by {
        if 0 <= k < i {
        }
    }
    false
}

/// Views of a vector of character vectors.
pub open spec fn views(v: Seq<Vec<char>>) -> Seq<Seq<char>> {
    v.map_values(|x: Vec<char>| x@)
}

/// Whether `key` is one of the vectors in `list`.
pub fn list_contains(list: &Vec<Vec<char>>, key: &Vec<char>) -> (r: bool)
    ensures
        r == views(list@).contains(key@),
{
    let mut m: usize = 0;
    while m < list.len()
        invariant
            m <= list.len(),
            forall|q: int| 0 <= q < m ==> views(list@)[q] != key@,
        decreases list.len() - m,
    {
        if chars_eq(&list[m], key) {
            assert(views(list@)[m as int] == key@);
            return true;
        }
        m = m + 1;
    }
    false
}

pub fn chars_eq(a: &Vec<char>, b: &Vec<char>) -> (r: bool)
    ensures
        r == (a@ == b@),
{
    if a.len() != b.len() {
        return false;
    }
    let r = match_at(a, 0, b);
    proof {
        if r {
            assert(a@ =~= a@.subrange(0, b.len() as int));
        } else {
            if a@ == b@ {
                assert(a@.subrange(0, b.len() as int) =~= a@);
            }
        }
    }
    r
}

// ---------------------------------------------------------------------------
// Decimal rendering of integers, as `format!("{}", n)`.
// ---------------------------------------------------------------------------

pub open spec fn digit_char(d: nat) -> char {
    if d == 0 {
        '0'
    } else if d == 1 {
        '1'
    } else if d == 2 {
        '2'
    } else if d == 3 {
        '3'
    } else if d == 4 {
        '4'
    } else if d == 5 {
        '5'
    } else if d == 6 {
        '6'
    } else if d == 7 {
        '7'
    } else if d == 8 {
        '8'
    } else {
        '9'
    }
}

/// Decimal digits of `n`, most significant first, with no leading zero.
pub open spec fn dec_s(n: nat) -> Seq<char>
    decreases n,
{
    if n < 10 {
        seq![digit_char(n)]
    } else {
        dec_s(n / 10).push(digit_char(n % 10))
    }
}

/// Decimal rendering of a signed integer.
pub open spec fn dec_i_s(n: int) -> Seq<char> {
    if n < 0 {
        seq!['-'] + dec_s((-n) as nat)
    } else {
        dec_s(n as nat)
    }
}

fn digit(d: u64) -> (c: char)
    requires
        d < 10,
    ensures
        c == digit_char(d as nat),
{
    if d == 0 {
        '0'
    } else if d == 1 {
        '1'
    } else if d == 2 {
        '2'
    } else if d == 3 {
        '3'
    } else if d == 4 {
        '4'
    } else if d == 5 {
        '5'
    } else if d == 6 {
        '6'
    } else if d == 7 {
        '7'
    } else if d == 8 {
        '8'
    } else {
        '9'
    }
}

/// Appends the decimal digits of `n` to `out`.
pub fn push_dec(out: &mut String, n: u64)
    ensures
        final(out)@ == old(out)@ + dec_s(n as nat),
    decreases n,
{
    if n >= 10 {
        push_dec(out, n / 10);
    }
    string_push(out, digit(n % 10));
    assert(final(out)@ =~= old(out)@ + dec_s(n as nat));
}

/// `n.to_string()` for an unsigned integer.
pub fn u64_to_string(n: u64) -> (r: String)
    ensures
        r@ == dec_s(n as nat),
{
    let mut s = String::new();
    push_dec(&mut s, n);
    assert(s@ =~= dec_s(n as nat));
    s
}

/// `n.to_string()` for a signed integer.
pub fn i64_to_string(n: i64) -> (r: String)
    ensures
        r@ == dec_i_s(n as int),
{
    let mut s = String::new();
    if n < 0 {
        string_push(&mut s, '-');
        let m: u64 = ((-(n + 1)) as u64) + 1;
        push_dec(&mut s, m);
        assert(s@ =~= dec_i_s(n as int));
    } else {
        push_dec(&mut s, n as u64);
        assert(s@ =~= dec_i_s(n as int));
    }
    s
}

} // verus!

verus! {

// ---------------------------------------------------------------------------
// Trimming a fixed character from both ends (`str::trim_matches(ch)`).
// ---------------------------------------------------------------------------

/// Number of leading copies of `ch`.
pub open spec fn lead_eq(s: Seq<char>, ch: char) -> nat
    decreases s.len(),
{
    if s.len() > 0 && s[0] == ch {
        1 + lead_eq(s.drop_first(), ch)
    } else {
        0
    }
}

/// Number of trailing copies of `ch`.
pub open spec fn trail_eq(s: Seq<char>, ch: char) -> nat
    decreases s.len(),
{
    if s.len() > 0 && s.last() == ch {
        1 + trail_eq(s.drop_last(), ch)
    } else {
        0
    }
}

/// `str::trim_matches(ch)`.
pub open spec fn trim_char_s(s: Seq<char>, ch: char) -> Seq<char> {
    let t = s.skip(lead_eq(s, ch) as int);
    t.take(t.len() - trail_eq(t, ch))
}

pub proof fn lemma_lead_eq_bound(s: Seq<char>, ch: char)
    ensures
        lead_eq(s, ch) <= s.len(),
    decreases s.len(),
{
    if s.len() > 0 && s[0] == ch {
        lemma_lead_eq_bound(s.drop_first(), ch);
    }
}

pub proof fn lemma_trail_eq_bound(s: Seq<char>, ch: char)
    ensures
        trail_eq(s, ch) <= s.len(),
    decreases s.len(),
{
    if s.len() > 0 && s.last() == ch {
        lemma_trail_eq_bound(s.drop_last(), ch);
    }
}

pub proof fn lemma_lead_eq_stop(s: Seq<char>, ch: char)
    ensures
        lead_eq(s, ch) <= s.len(),
        lead_eq(s, ch) < s.len() ==> s[lead_eq(s, ch) as int] != ch,
    decreases s.len(),
{
    if s.len() > 0 && s[0] == ch {
        lemma_lead_eq_stop(s.drop_first(), ch);
        let l = lead_eq(s.drop_first(), ch);
        if l < s.drop_first().len() {
            assert(s[l as int + 1] == s.drop_first()[l as int]);
        }
    }
}

pub proof fn lemma_trail_eq_stop(s: Seq<char>, ch: char)
    ensures
        trail_eq(s, ch) <= s.len(),
        trail_eq(s, ch) < s.len() ==> s[s.len() - trail_eq(s, ch) - 1] != ch,
    decreases s.len(),
{
    if s.len() > 0 && s.last() == ch {
        lemma_trail_eq_stop(s.drop_last(), ch);
        let t = trail_eq(s.drop_last(), ch);
        if t < s.drop_last().len() {
            assert(s[s.len() - 1 - t - 1] == s.drop_last()[s.drop_last().len() - t - 1]);
        }
    }
}

/// A non-empty result of `trim_char_s` neither starts nor ends with `ch`.
pub proof fn lemma_trim_char_ends(s: Seq<char>, ch: char)
    ensures
        trim_char_s(s, ch).len() > 0 ==> trim_char_s(s, ch)[0] != ch && trim_char_s(s, ch).last()
            != ch,
{
    lemma_lead_eq_stop(s, ch);
    let a = lead_eq(s, ch);
    let t = s.skip(a as int);
    lemma_trail_eq_stop(t, ch);
    let r = t.take(t.len() - trail_eq(t, ch));
    if r.len() > 0 {
        assert(r[0] == s[a as int]);
        assert(r.last() == t[t.len() - trail_eq(t, ch) - 1]);
    }
}

/// Trimming `ch` from a text that neither starts nor ends with it changes nothing.
pub proof fn lemma_trim_char_noop(s: Seq<char>, ch: char)
    requires
        s.len() > 0 ==> s[0] != ch && s.last() != ch,
    ensures
        trim_char_s(s, ch) == s,
{
    lemma_lead_eq_at(s, ch, 0);
    assert(s.skip(0) =~= s);
    if s.len() > 0 {
        lemma_trail_eq_at(s, ch, s.len() as int);
    } else {
        assert(trail_eq(s, ch) == 0);
    }
    assert(s.take(s.len() as int) =~= s);
}

pub proof fn lemma_lead_eq_at(s: Seq<char>, ch: char, i: int)
    requires
        0 <= i <= s.len(),
        forall|j: int| 0 <= j < i ==> #[trigger] s[j] == ch,
        i == s.len() || s[i] != ch,
    ensures
        lead_eq(s, ch) == i,
    decreases i,
{
    if i > 0 {
        let t = s.drop_first();
        assert forall|j: int| 0 <= j < i - 1 implies #[trigger] t[j] == ch by {
            assert(t[j] == s[j + 1]);
        }
        if i - 1 < t.len() {
            assert(t[i - 1] == s[i]);
        }
        assert(s[0] == ch);
        lemma_lead_eq_at(t, ch, i - 1);
    }
}

pub proof fn lemma_trail_eq_at(s: Seq<char>, ch: char, k: int)
    requires
        0 <= k <= s.len(),
        forall|j: int| k <= j < s.len() ==> #[trigger] s[j] == ch,
        k == 0 || s[k - 1] != ch,
    ensures
        trail_eq(s, ch) == s.len() - k,
    decreases s.len() - k,
{
    if k < s.len() {
        let t = s.drop_last();
        assert forall|j: int| k <= j < t.len() implies #[trigger] t[j] == ch by {
            assert(t[j] == s[j]);
        }
        if k > 0 {
            assert(t[k - 1] == s[k - 1]);
        }
        assert(s[s.len() - 1] == ch);
        lemma_trail_eq_at(t, ch, k);
    }
}

/// `v.trim_matches(ch)`, as characters.
pub fn trim_char_chars(v: &Vec<char>, ch: char) -> (r: Vec<char>)
    ensures
        r@ == trim_char_s(v@, ch),
{
    let n = v.len();
    let mut i: usize = 0;
    while i < n && v[i] == ch
        invariant
            n == v.len(),
            i <= n,
            forall|j: int| 0 <= j < i ==> #[trigger] v@[j] == ch,
        decreases n - i,
    {
        i = i + 1;
    }
    proof {
        lemma_lead_eq_at(v@, ch, i as int);
    }
    let mut k: usize = n;
    while k > i && v[k - 1] == ch
        invariant
            n == v.len(),
            i <= k <= n,
            forall|j: int| k <= j < n ==> #[trigger] v@[j] == ch,
        decreases k,
    {
        k = k - 1;
    }
    proof {
        let t = v@.skip(i as int);
        let kk = k - i;
        assert forall|j: int| kk <= j < t.len() implies #[trigger] t[j] == ch by {
            assert(t[j] == v@[j + i]);
        }
        if kk > 0 {
            assert(t[kk - 1] == v@[k - 1]);
        }
        lemma_trail_eq_at(t, ch, kk as int);
        assert(trim_char_s(v@, ch) =~= v@.subrange(i as int, k as int));
    }
    sub_chars(v, i, k)
}

} // verus!

verus! {

/// The pieces of `s` between occurrences of `sep` (`str::split(sep)`).
pub open spec fn split_on_s(s: Seq<char>, sep: char) -> Seq<Seq<char>>
    decreases s.len(),
{
    if s.len() == 0 {
        seq![Seq::<char>::empty()]
    } else {
        let r = split_on_s(s.drop_last(), sep);
        if s.last() == sep {
            r.push(Seq::<char>::empty())
        } else {
            r.update(r.len() - 1, r.last().push(s.last()))
        }
    }
}

pub proof fn lemma_split_on_nonempty(s: Seq<char>, sep: char)
    ensures
        split_on_s(s, sep).len() >= 1,
    decreases s.len(),
{
    if s.len() > 0 {
        lemma_split_on_nonempty(s.drop_last(), sep);
    }
}

/// Splitting at a separator splits each side.
pub proof fn lemma_split_on_concat(a: Seq<char>, b: Seq<char>, sep: char)
    ensures
        split_on_s(a + seq![sep] + b, sep) == split_on_s(a, sep) + split_on_s(b, sep),
    decreases b.len(),
{
    let s = a + seq![sep] + b;
    if b.len() == 0 {
        assert(s.drop_last() =~= a);
        assert(split_on_s(s, sep) =~= split_on_s(a, sep) + split_on_s(b, sep));
    } else {
        let b2 = b.drop_last();
        assert(s.drop_last() =~= a + seq![sep] + b2);
        lemma_split_on_concat(a, b2, sep);
        lemma_split_on_nonempty(b2, sep);
        lemma_split_on_nonempty(a, sep);
        assert(s.last() == b.last());
        assert(split_on_s(s, sep) =~= split_on_s(a, sep) + split_on_s(b, sep));
    }
}

/// A text without the separator is one piece.
pub proof fn lemma_split_on_no_sep(a: Seq<char>, sep: char)
    requires
        forall|i: int| 0 <= i < a.len() ==> a[i] != sep,
    ensures
        split_on_s(a, sep) == seq![a],
    decreases a.len(),
{
    if a.len() > 0 {
        lemma_split_on_no_sep(a.drop_last(), sep);
        assert(a.drop_last().push(a.last()) =~= a);
        assert(split_on_s(a, sep) =~= seq![a]);
    } else {
        assert(a =~= Seq::<char>::empty());
    }
}

/// Splits `p` at every `sep`.
pub fn split_on(p: &Vec<char>, sep: char) -> (r: Vec<Vec<char>>)
    ensures
        views(r@) == split_on_s(p@, sep),
{
    let mut segs: Vec<Vec<char>> = Vec::new();
    let mut cur: Vec<char> = Vec::new();
    let mut i: usize = 0;
    while i < p.len()
        invariant
            i <= p.len(),
            split_on_s(p@.take(i as int), sep) == views(segs@).push(cur@),
        decreases p.len() - i,
    {
        let c = p[i];
        proof {
            let t = p@.take(i as int + 1);
            assert(t.drop_last() =~= p@.take(i as int));
            assert(t.last() == c);
        }
        if c == sep {
            let done = cur;
            segs.push(done);
            cur = Vec::new();
            proof {
                assert(views(segs@) =~= split_on_s(p@.take(i as int), sep).drop_last().push(done@));
                assert(split_on_s(p@.take(i as int + 1), sep) =~= views(segs@).push(cur@));
            }
        } else {
            cur.push(c);
            proof {
                assert(split_on_s(p@.take(i as int + 1), sep) =~= views(segs@).push(cur@));
            }
        }
        i = i + 1;
    }
    assert(p@.take(p.len() as int) =~= p@);
    segs.push(cur);
    assert(views(segs@) =~= split_on_s(p@, sep));
    segs
}

} // verus!
