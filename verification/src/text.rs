//! Character-level helpers shared by the parsing and naming code.
//!
//! Text is handled as sequences of Unicode scalar values (`char`): the view of a
//! `String` or `&str` is its `Seq<char>`.

use vstd::prelude::*;

verus! {

broadcast use vstd::string::group_string_axioms;

/// Whether `c` has the Unicode `White_Space` property, which `char::is_whitespace` and
/// `str::trim` go by: tab to carriage return, space, next line, no-break space, ogham
/// space mark, en quad to hair space, line and paragraph separators, narrow no-break
/// space, medium mathematical space and ideographic space.
pub open spec fn unicode_whitespace(c: char) -> bool {
    ||| '\u{9}' <= c && c <= '\u{d}'
    ||| c == ' '
    ||| c == '\u{85}'
    ||| c == '\u{a0}'
    ||| c == '\u{1680}'
    ||| '\u{2000}' <= c && c <= '\u{200a}'
    ||| c == '\u{2028}'
    ||| c == '\u{2029}'
    ||| c == '\u{202f}'
    ||| c == '\u{205f}'
    ||| c == '\u{3000}'
}

/// The text that `str::to_lowercase` produces for `s` (full Unicode lower-case mapping).
pub uninterp spec fn unicode_lowercase(s: Seq<char>) -> Seq<char>;

/// Whether `c` is whitespace, as `char::is_whitespace` says (see `unicode_whitespace`).
pub fn is_whitespace(c: char) -> (r: bool)
    ensures
        r == unicode_whitespace(c),
{
    ('\u{9}' <= c && c <= '\u{d}') || c == ' ' || c == '\u{85}' || c == '\u{a0}' || c == '\u{1680}'
        || ('\u{2000}' <= c && c <= '\u{200a}') || c == '\u{2028}' || c == '\u{2029}' || c == '\u{202f}'
        || c == '\u{205f}' || c == '\u{3000}'
}

/// `str::to_lowercase`. The contract only ties the result to the argument through the
/// name `unicode_lowercase`; the Unicode case tables are left unsaid.
#[verifier::external_body]
pub(crate) fn to_lowercase(s: &str) -> (r: String)
    ensures
        r@ == unicode_lowercase(s@),
{
    s.to_lowercase()
}

/// `String::push`: appends one character at the end.
#[verifier::external_body]
fn push_char(s: &mut String, c: char)
    ensures
        final(s)@ == old(s)@.push(c),
{
    s.push(c)
}

/// The characters of `s`, in order.
pub fn chars_of(s: &str) -> (v: Vec<char>)
    ensures
        v@ == s@,
{
    let mut v: Vec<char> = Vec::new();
    for c in it: s.chars()
        invariant
            v@ == it.seq().take(it.index() as int),
    {
        v.push(c);
    }
    v
}

/// A `String` holding exactly the characters of `v`.
pub fn string_of(v: &Vec<char>) -> (s: String)
    ensures
        s@ == v@,
{
    let mut s = String::new();
    let mut i: usize = 0;
    while i < v.len()
        invariant
            i <= v.len(),
            s@ == v@.take(i as int),
        decreases v.len() - i,
    {
        push_char(&mut s, v[i]);
        i = i + 1;
        assert(s@ =~= v@.take(i as int));
    }
    assert(v@.take(v.len() as int) =~= v@);
    s
}

/// `p` occurs in `s` starting at index `i`.
pub open spec fn occurs_at(s: Seq<char>, p: Seq<char>, i: int) -> bool {
    0 <= i && i + p.len() <= s.len() && s.subrange(i, i + p.len()) == p
}

/// `p` occurs somewhere in `s`.
pub open spec fn contains_seq(s: Seq<char>, p: Seq<char>) -> bool {
    exists|i: int| occurs_at(s, p, i)
}

/// `p` is a prefix of `s`.
pub open spec fn starts_with_seq(s: Seq<char>, p: Seq<char>) -> bool {
    occurs_at(s, p, 0)
}

/// `p` is a suffix of `s`.
pub open spec fn ends_with_seq(s: Seq<char>, p: Seq<char>) -> bool {
    p.len() <= s.len() && occurs_at(s, p, s.len() - p.len())
}

/// Whether `p` occurs in `s` at index `i`.
pub fn occurs_at_exec(s: &Vec<char>, p: &Vec<char>, i: usize) -> (r: bool)
    ensures
        r == occurs_at(s@, p@, i as int),
{
    if i > s.len() || p.len() > s.len() - i {
        return false;
    }
    let mut k: usize = 0;
    while k < p.len()
        invariant
            i + p.len() <= s.len(),
            k <= p.len(),
            forall|j: int| 0 <= j < k ==> s@[i + j] == p@[j],
        decreases p.len() - k,
    {
        if s[i + k] != p[k] {
            assert(s@.subrange(i as int, i + p.len())[k as int] != p@[k as int]);
            return false;
        }
        k = k + 1;
    }
    assert(s@.subrange(i as int, i + p.len()) =~= p@);
    true
}

/// The first index at or after `start` where `p` occurs in `s`.
pub fn find_from(s: &Vec<char>, p: &Vec<char>, start: usize) -> (r: Option<usize>)
    ensures
        match r {
            Some(i) => start <= i && occurs_at(s@, p@, i as int) && forall|j: int|
                start <= j < i ==> !occurs_at(s@, p@, j),
            None => forall|j: int| start <= j ==> !occurs_at(s@, p@, j),
        },
{
    if start > s.len() {
        return None;
    }
    let mut i = start;
    while i < s.len()
        invariant
            start <= i <= s.len(),
            forall|j: int| start <= j < i ==> !occurs_at(s@, p@, j),
        decreases s.len() - i,
    {
        if occurs_at_exec(s, p, i) {
            return Some(i);
        }
        i = i + 1;
    }
    if occurs_at_exec(s, p, i) {
        return Some(i);
    }
    None
}

/// Whether `p` occurs anywhere in `s`.
pub fn contains(s: &Vec<char>, p: &Vec<char>) -> (r: bool)
    ensures
        r == contains_seq(s@, p@),
{
    match find_from(s, p, 0) {
        Some(_) => true,
        None => false,
    }
}

/// Whether `s` ends with `p`.
pub fn ends_with(s: &Vec<char>, p: &Vec<char>) -> (r: bool)
    ensures
        r == ends_with_seq(s@, p@),
{
    if p.len() > s.len() {
        false
    } else {
        occurs_at_exec(s, p, s.len() - p.len())
    }
}

/// Two character sequences are equal.
pub fn chars_eq(a: &Vec<char>, b: &Vec<char>) -> (r: bool)
    ensures
        r == (a@ == b@),
{
    if a.len() != b.len() {
        return false;
    }
    let r = occurs_at_exec(a, b, 0);
    assert(a@.subrange(0, b@.len() as int) =~= a@);
    r
}

/// `s` with every leading character satisfying `drop` removed.
pub open spec fn trim_start_by(s: Seq<char>, drop: spec_fn(char) -> bool) -> Seq<char>
    decreases s.len(),
{
    if s.len() > 0 && drop(s[0]) {
        trim_start_by(s.drop_first(), drop)
    } else {
        s
    }
}

/// `s` with every trailing character satisfying `drop` removed.
pub open spec fn trim_end_by(s: Seq<char>, drop: spec_fn(char) -> bool) -> Seq<char>
    decreases s.len(),
{
    if s.len() > 0 && drop(s.last()) {
        trim_end_by(s.drop_last(), drop)
    } else {
        s
    }
}

/// `s` with leading and trailing characters satisfying `drop` removed.
pub open spec fn trim_by(s: Seq<char>, drop: spec_fn(char) -> bool) -> Seq<char> {
    trim_end_by(trim_start_by(s, drop), drop)
}

/// What `str::trim` gives: leading and trailing Unicode whitespace removed.
pub open spec fn trim_ws(s: Seq<char>) -> Seq<char> {
    trim_by(s, |c: char| unicode_whitespace(c))
}

/// What `str::trim_matches(q)` gives for a single character `q`.
pub open spec fn trim_char(s: Seq<char>, q: char) -> Seq<char> {
    trim_by(s, is_char(q))
}

/// The predicate "is the character `q`".
pub open spec fn is_char(q: char) -> spec_fn(char) -> bool {
    |c: char| c == q
}

proof fn lemma_trim_start_step(s: Seq<char>, lo: int, drop: spec_fn(char) -> bool)
    requires
        0 <= lo < s.len(),
        drop(s[lo]),
    ensures
        trim_start_by(s.subrange(lo, s.len() as int), drop) == trim_start_by(
            s.subrange(lo + 1, s.len() as int),
            drop,
        ),
{
    assert(s.subrange(lo, s.len() as int).drop_first() =~= s.subrange(lo + 1, s.len() as int));
}

proof fn lemma_trim_end_step(s: Seq<char>, lo: int, hi: int, drop: spec_fn(char) -> bool)
    requires
        0 <= lo < hi <= s.len(),
        drop(s[hi - 1]),
    ensures
        trim_end_by(s.subrange(lo, hi), drop) == trim_end_by(s.subrange(lo, hi - 1), drop),
{
    assert(s.subrange(lo, hi).drop_last() =~= s.subrange(lo, hi - 1));
}

/// Trimming the start of `s` leaves a suffix of it, from `j` on, every character before
/// `j` being one that is dropped.
pub proof fn lemma_trim_start_suffix(s: Seq<char>, drop: spec_fn(char) -> bool) -> (j: int)
    ensures
        0 <= j <= s.len(),
        trim_start_by(s, drop) == s.subrange(j, s.len() as int),
        forall|i: int| 0 <= i < j ==> drop(#[trigger] s[i]),
    decreases s.len(),
{
    if s.len() > 0 && drop(s[0]) {
        let t = s.drop_first();
        let j1 = lemma_trim_start_suffix(t, drop);
        assert(t.subrange(j1, t.len() as int) =~= s.subrange(j1 + 1, s.len() as int));
        assert forall|i: int| 0 <= i < j1 + 1 implies drop(#[trigger] s[i]) by {
            if i > 0 {
                assert(s[i] == t[i - 1]);
            }
        }
        j1 + 1
    } else {
        assert(s.subrange(0, s.len() as int) =~= s);
        0
    }
}

/// Trimming keeps the end of `s` from `k` on when none of its characters is dropped:
/// the result is `s` from some `j <= k` on.
pub proof fn lemma_trim_keeps_tail(s: Seq<char>, drop: spec_fn(char) -> bool, k: int) -> (j: int)
    requires
        0 <= k < s.len(),
        forall|i: int| k <= i < s.len() ==> !drop(#[trigger] s[i]),
    ensures
        0 <= j <= k,
        trim_by(s, drop) == s.subrange(j, s.len() as int),
{
    let j = lemma_trim_start_suffix(s, drop);
    if j > k {
        assert(drop(s[k]));
    }
    let t = s.subrange(j, s.len() as int);
    assert(t.last() == s[s.len() - 1]);
    assert(!drop(t.last()));
    j
}

/// The bounds `(lo, hi)` of `s` once leading and trailing whitespace are removed.
fn trim_ws_bounds(s: &Vec<char>) -> (r: (usize, usize))
    ensures
        r.0 <= r.1 <= s.len(),
        s@.subrange(r.0 as int, r.1 as int) == trim_ws(s@),
{
    let ghost drop = |c: char| unicode_whitespace(c);
    let mut lo: usize = 0;
    assert(s@.subrange(0, s@.len() as int) =~= s@);
    while lo < s.len() && is_whitespace(s[lo])
        invariant
            lo <= s.len(),
            drop == (|c: char| unicode_whitespace(c)),
            trim_start_by(s@, drop) == trim_start_by(s@.subrange(lo as int, s@.len() as int), drop),
        decreases s.len() - lo,
    {
        proof {
            lemma_trim_start_step(s@, lo as int, drop);
        }
        lo = lo + 1;
    }
    let mut hi: usize = s.len();
    while hi > lo && is_whitespace(s[hi - 1])
        invariant
            lo <= hi <= s.len(),
            drop == (|c: char| unicode_whitespace(c)),
            trim_by(s@, drop) == trim_end_by(s@.subrange(lo as int, hi as int), drop),
        decreases hi,
    {
        proof {
            lemma_trim_end_step(s@, lo as int, hi as int, drop);
        }
        hi = hi - 1;
    }
    (lo, hi)
}

/// `str::trim` on a character sequence.
pub fn trim_whitespace(s: &Vec<char>) -> (r: Vec<char>)
    ensures
        r@ == trim_ws(s@),
{
    let (lo, hi) = trim_ws_bounds(s);
    slice_chars(s, lo, hi)
}

/// `str::trim_matches(q)` on a character sequence, for one character `q`.
pub fn trim_matching(s: &Vec<char>, q: char) -> (r: Vec<char>)
    ensures
        r@ == trim_char(s@, q),
{
    let ghost drop = is_char(q);
    let mut lo: usize = 0;
    assert(s@.subrange(0, s@.len() as int) =~= s@);
    while lo < s.len() && s[lo] == q
        invariant
            lo <= s.len(),
            drop == is_char(q),
            trim_start_by(s@, drop) == trim_start_by(s@.subrange(lo as int, s@.len() as int), drop),
        decreases s.len() - lo,
    {
        proof {
            lemma_trim_start_step(s@, lo as int, drop);
        }
        lo = lo + 1;
    }
    let mut hi: usize = s.len();
    while hi > lo && s[hi - 1] == q
        invariant
            lo <= hi <= s.len(),
            drop == is_char(q),
            trim_by(s@, drop) == trim_end_by(s@.subrange(lo as int, hi as int), drop),
        decreases hi,
    {
        proof {
            lemma_trim_end_step(s@, lo as int, hi as int, drop);
        }
        hi = hi - 1;
    }
    slice_chars(s, lo, hi)
}

/// The characters of `s` from `lo` up to (not including) `hi`.
pub fn slice_chars(s: &Vec<char>, lo: usize, hi: usize) -> (r: Vec<char>)
    requires
        lo <= hi <= s.len(),
    ensures
        r@ == s@.subrange(lo as int, hi as int),
{
    let mut r: Vec<char> = Vec::new();
    let mut i = lo;
    while i < hi
        invariant
            lo <= i <= hi <= s.len(),
            r@ == s@.subrange(lo as int, i as int),
        decreases hi - i,
    {
        r.push(s[i]);
        i = i + 1;
        assert(r@ =~= s@.subrange(lo as int, i as int));
    }
    r
}

/// `a` followed by `b`.
pub fn concat_chars(a: &Vec<char>, b: &Vec<char>) -> (r: Vec<char>)
    ensures
        r@ == a@ + b@,
{
    let mut r: Vec<char> = Vec::new();
    let mut i: usize = 0;
    while i < a.len()
        invariant
            i <= a.len(),
            r@ == a@.take(i as int),
        decreases a.len() - i,
    {
        r.push(a[i]);
        i = i + 1;
        assert(r@ =~= a@.take(i as int));
    }
    let mut j: usize = 0;
    assert(a@.take(a.len() as int) =~= a@);
    while j < b.len()
        invariant
            j <= b.len(),
            r@ == a@ + b@.take(j as int),
        decreases b.len() - j,
    {
        r.push(b[j]);
        j = j + 1;
        assert(r@ =~= a@ + b@.take(j as int));
    }
    assert(b@.take(b.len() as int) =~= b@);
    r
}

/// The decimal digit character for `d < 10`.
pub open spec fn digit_char(d: nat) -> char {
    ((48 + d) as u8) as char
}

/// The decimal notation of `n`, without leading zeros.
pub open spec fn decimal(n: nat) -> Seq<char>
    decreases n,
{
    if n < 10 {
        seq![digit_char(n)]
    } else {
        decimal(n / 10) + seq![digit_char(n % 10)]
    }
}

/// The decimal notation of `n`, with a leading `-` when it is negative.
pub open spec fn signed_decimal(n: int) -> Seq<char> {
    if n < 0 {
        seq!['-'] + decimal((-n) as nat)
    } else {
        decimal(n as nat)
    }
}

/// The decimal notation of `n`.
pub fn decimal_chars(n: u64) -> (r: Vec<char>)
    ensures
        r@ == decimal(n as nat),
    decreases n,
{
    if n < 10 {
        let mut r: Vec<char> = Vec::new();
        r.push(((48 + n) as u8) as char);
        assert(r@ =~= decimal(n as nat));
        r
    } else {
        let mut r = decimal_chars(n / 10);
        r.push(((48 + n % 10) as u8) as char);
        assert(r@ =~= decimal(n as nat));
        r
    }
}

/// The decimal notation of `n`, with a leading `-` when it is negative.
pub fn signed_decimal_chars(n: i64) -> (r: Vec<char>)
    ensures
        r@ == signed_decimal(n as int),
{
    if n < 0 {
        let magnitude: u64 = if n == i64::MIN {
            9223372036854775808u64
        } else {
            (-n) as u64
        };
        let mut r: Vec<char> = Vec::new();
        r.push('-');
        let digits = decimal_chars(magnitude);
        let r = concat_chars(&r, &digits);
        assert(r@ =~= signed_decimal(n as int));
        r
    } else {
        decimal_chars(n as u64)
    }
}

} // verus!
