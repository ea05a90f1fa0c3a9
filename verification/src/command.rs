//! Reading a start-up command line: `%NAME%` expansion and locating the program it runs.

use vstd::prelude::*;
use crate::model::opt_view;
use crate::text::{
    chars_of, chars_eq, is_char, lemma_trim_keeps_tail, unicode_whitespace, concat_chars, slice_chars, string_of, trim_char, trim_matching,
    trim_whitespace, trim_ws,
};

verus! {

broadcast use vstd::string::group_string_axioms;

/// A table of text keys to text values, such as environment variables; the first
/// binding of a key wins.
pub struct Bindings {
    vars: Vec<(String, String)>,
}

/// What the host reports that naming an entry reads: the environment variables that
/// commands refer to, and the name that each program file's version resource gives (its
/// description, else its product name), keyed by the file's path.
pub struct HostFacts {
    pub env: Bindings,
    pub version_names: Bindings,
}

impl HostFacts {
    /// No environment variables and no version names.
    pub fn new() -> (f: HostFacts)
        ensures
            f.env@ == Seq::<(Seq<char>, Seq<char>)>::empty(),
            f.version_names@ == Seq::<(Seq<char>, Seq<char>)>::empty(),
    {
        HostFacts { env: Bindings::new(), version_names: Bindings::new() }
    }
}

/// The value bound to `key` in `vars`, first binding first.
pub open spec fn env_lookup(vars: Seq<(Seq<char>, Seq<char>)>, key: Seq<char>) -> Option<Seq<char>>
    decreases vars.len(),
{
    if vars.len() == 0 {
        None
    } else if vars[0].0 == key {
        Some(vars[0].1)
    } else {
        env_lookup(vars.drop_first(), key)
    }
}

impl View for Bindings {
    type V = Seq<(Seq<char>, Seq<char>)>;

    closed spec fn view(&self) -> Seq<(Seq<char>, Seq<char>)> {
        self.vars@.map_values(|p: (String, String)| (p.0@, p.1@))
    }
}

impl Bindings {
    /// A table with no bindings.
    pub fn new() -> (e: Bindings)
        ensures
            e@ == Seq::<(Seq<char>, Seq<char>)>::empty(),
    {
        let e = Bindings { vars: Vec::new() };
        assert(e@ =~= Seq::<(Seq<char>, Seq<char>)>::empty());
        e
    }

    /// Adds a binding of `name` to `value` after the existing ones.
    pub fn insert(&mut self, name: String, value: String)
        ensures
            final(self)@ == old(self)@.push((name@, value@)),
    {
        self.vars.push((name, value));
        assert(self@ =~= old(self)@.push((name@, value@)));
    }

    /// The value of `key`, if it is bound.
    pub fn lookup(&self, key: &Vec<char>) -> (r: Option<Vec<char>>)
        ensures
            match r {
                Some(v) => env_lookup(self@, key@) == Some(v@),
                None => env_lookup(self@, key@) is None,
            },
    {
        let mut i: usize = 0;
        assert(self@.skip(0) =~= self@);
        while i < self.vars.len()
            invariant
                i <= self.vars.len(),
                env_lookup(self@, key@) == env_lookup(self@.skip(i as int), key@),
            decreases self.vars.len() - i,
        {
            let name = chars_of(self.vars[i].0.as_str());
            assert(self@.skip(i as int)[0] == self@[i as int]);
            if chars_eq(&name, key) {
                return Some(chars_of(self.vars[i].1.as_str()));
            }
            assert(self@.skip(i as int).drop_first() =~= self@.skip(i + 1));
            i = i + 1;
        }
        None
    }
}

/// The first index at or after `i` where `s` holds `c`, or `s.len()` if there is none.
pub open spec fn index_of_from(s: Seq<char>, c: char, i: int) -> int
    decreases s.len() - i,
{
    if i < 0 || i >= s.len() {
        s.len() as int
    } else if s[i] == c {
        i
    } else {
        index_of_from(s, c, i + 1)
    }
}

/// `index_of_from` lands on `c` or at the end, and skips no `c`.
pub proof fn lemma_index_of_from(s: Seq<char>, c: char, i: int)
    requires
        0 <= i <= s.len(),
    ensures
        i <= index_of_from(s, c, i) <= s.len(),
        index_of_from(s, c, i) < s.len() ==> s[index_of_from(s, c, i)] == c,
        forall|j: int| i <= j < index_of_from(s, c, i) ==> s[j] != c,
    decreases s.len() - i,
{
    if i < s.len() && s[i] != c {
        lemma_index_of_from(s, c, i + 1);
    }
}

/// Expansion of `%NAME%` references from index `i` on: a `%` with a later `%` whose
/// enclosed name is bound is replaced, value included; any other character is kept.
pub open spec fn expand_from(s: Seq<char>, env: Seq<(Seq<char>, Seq<char>)>, i: int) -> Seq<char>
    decreases s.len() - i,
{
    if i < 0 || i >= s.len() {
        Seq::empty()
    } else {
        let e = index_of_from(s, '%', i + 1);
        proof {
            lemma_index_of_from(s, '%', i + 1);
        }
        if s[i] == '%' && e < s.len() && env_lookup(env, s.subrange(i + 1, e)) is Some {
            env_lookup(env, s.subrange(i + 1, e))->0 + expand_from(s, env, e + 1)
        } else {
            seq![s[i]] + expand_from(s, env, i + 1)
        }
    }
}

/// `s` with its environment references expanded.
pub open spec fn expand_env(s: Seq<char>, env: Seq<(Seq<char>, Seq<char>)>) -> Seq<char> {
    expand_from(s, env, 0)
}

proof fn lemma_index_of_shift(x: Seq<char>, b: Seq<char>, c: char, j: int)
    requires
        0 <= j,
    ensures
        index_of_from(x + b, c, x.len() + j) == x.len() + index_of_from(b, c, j),
    decreases b.len() - j,
{
    if j < b.len() {
        assert((x + b)[x.len() + j] == b[j]);
        if b[j] != c {
            lemma_index_of_shift(x, b, c, j + 1);
        }
    }
}

proof fn lemma_expand_shift(x: Seq<char>, b: Seq<char>, env: Seq<(Seq<char>, Seq<char>)>, j: int)
    requires
        0 <= j,
    ensures
        expand_from(x + b, env, x.len() + j) == expand_from(b, env, j),
    decreases b.len() - j,
{
    let s = x + b;
    let n = x.len() as int;
    if j < b.len() {
        assert(s[n + j] == b[j]);
        lemma_index_of_shift(x, b, '%', j + 1);
        lemma_index_of_from(b, '%', j + 1);
        let e = index_of_from(b, '%', j + 1);
        if e < b.len() {
            assert(s.subrange(n + j + 1, n + e) =~= b.subrange(j + 1, e));
            lemma_expand_shift(x, b, env, e + 1);
        }
        lemma_expand_shift(x, b, env, j + 1);
    }
}

proof fn lemma_expand_plain_prefix(a: Seq<char>, t: Seq<char>, env: Seq<(Seq<char>, Seq<char>)>, j: int)
    requires
        0 <= j <= a.len(),
        forall|k: int| 0 <= k < a.len() ==> a[k] != '%',
    ensures
        expand_from(a + t, env, j) == a.skip(j) + expand_from(a + t, env, a.len() as int),
    decreases a.len() - j,
{
    if j < a.len() {
        assert((a + t)[j] == a[j]);
        lemma_expand_plain_prefix(a, t, env, j + 1);
        assert(a.skip(j) =~= seq![a[j]] + a.skip(j + 1));
    } else {
        assert(a.skip(j) =~= Seq::<char>::empty());
    }
}

/// How `%NAME%` references are expanded: text without `%` is kept as it is; a reference
/// `%k%` after such text, with `k` free of `%` and bound to `v`, becomes `v` and the rest
/// is expanded on its own; an unbound one keeps its `%` and `k`, and expansion goes on
/// from its closing `%`.
pub proof fn lemma_expansion_laws(
    a: Seq<char>,
    k: Seq<char>,
    v: Seq<char>,
    b: Seq<char>,
    env: Seq<(Seq<char>, Seq<char>)>,
)
    ensures
        (forall|i: int| 0 <= i < a.len() ==> a[i] != '%') ==> expand_env(a, env) == a,
        (forall|i: int| 0 <= i < a.len() ==> a[i] != '%') && (forall|i: int| 0 <= i < k.len() ==> k[i] != '%')
            && env_lookup(env, k) == Some(v) ==> expand_env(a + seq!['%'] + k + seq!['%'] + b, env) == a + v
            + expand_env(b, env),
        (forall|i: int| 0 <= i < a.len() ==> a[i] != '%') && (forall|i: int| 0 <= i < k.len() ==> k[i] != '%')
            && env_lookup(env, k) is None ==> expand_env(a + seq!['%'] + k + seq!['%'] + b, env) == a + seq!['%']
            + k + expand_env(seq!['%'] + b, env),
{
    if forall|i: int| 0 <= i < a.len() ==> a[i] != '%' {
        lemma_expand_plain_prefix(a, Seq::<char>::empty(), env, 0);
        assert(a + Seq::<char>::empty() =~= a);
        assert(a.skip(0) =~= a);
        if forall|i: int| 0 <= i < k.len() ==> k[i] != '%' {
            let t = seq!['%'] + k + seq!['%'] + b;
            let s = a + t;
            assert(s =~= a + seq!['%'] + k + seq!['%'] + b);
            let n = a.len() as int;
            lemma_expand_plain_prefix(a, t, env, 0);
            assert(a.skip(0) =~= a);
            assert(s[n] == '%');
            let e = n + 1 + k.len();
            assert forall|i: int| n + 1 <= i < e implies s[i] != '%' by {
                assert(s[i] == k[i - n - 1]);
            }
            assert(s[e] == '%');
            assert(index_of_from(s, '%', n + 1) == e) by {
                lemma_index_of_from(s, '%', n + 1);
            }
            assert(s.subrange(n + 1, e) =~= k);
            let x = a + seq!['%'] + k + seq!['%'];
            assert(s =~= x + b);
            lemma_expand_shift(x, b, env, 0);
            let y = a + seq!['%'] + k;
            assert(s =~= y + (seq!['%'] + b));
            lemma_expand_shift(y, seq!['%'] + b, env, 0);
            if env_lookup(env, k) is None {
                let z = a + seq!['%'];
                assert(s =~= z + (k + (seq!['%'] + b)));
                lemma_expand_plain_prefix(k, seq!['%'] + b, env, 0);
                lemma_expand_shift(z, k + (seq!['%'] + b), env, 0);
                assert(k.skip(0) =~= k);
                assert(k + (seq!['%'] + b) =~= k + seq!['%'] + b);
                lemma_expand_shift(k, seq!['%'] + b, env, 0);
                assert(expand_from(s, env, n + 1) == expand_from(k + (seq!['%'] + b), env, 0));
            }
        }
    }
}

/// The names that expansion may look up in `s`, from index `i` on: for each `%` with a
/// later `%`, the text between them.
pub open spec fn env_keys_from(s: Seq<char>, i: int) -> Seq<Seq<char>>
    decreases s.len() - i,
{
    if i < 0 || i >= s.len() {
        Seq::empty()
    } else {
        let e = index_of_from(s, '%', i + 1);
        if s[i] == '%' && e < s.len() {
            seq![s.subrange(i + 1, e)] + env_keys_from(s, i + 1)
        } else {
            env_keys_from(s, i + 1)
        }
    }
}

/// The first index at or after `i` where `v` holds `c`, or `v.len()`.
fn index_of(v: &Vec<char>, c: char, i: usize) -> (r: usize)
    requires
        i <= v.len(),
    ensures
        r as int == index_of_from(v@, c, i as int),
        i <= r <= v.len(),
{
    let mut j = i;
    while j < v.len() && v[j] != c
        invariant
            i <= j <= v.len(),
            index_of_from(v@, c, i as int) == index_of_from(v@, c, j as int),
        decreases v.len() - j,
    {
        j = j + 1;
    }
    j
}

/// Expands every `%NAME%` of `input` whose name `env` binds, left to right; a `%` that
/// starts no bound reference is kept as it is.
pub fn expand_env_vars(input: &str, env: &Bindings) -> (r: String)
    ensures
        r@ == expand_env(input@, env@),
{
    let s = chars_of(input);
    let out = expand_chars(&s, env);
    string_of(&out)
}

/// `expand_env_vars` on characters.
pub fn expand_chars(s: &Vec<char>, env: &Bindings) -> (r: Vec<char>)
    ensures
        r@ == expand_env(s@, env@),
{
    let mut out: Vec<char> = Vec::new();
    let mut i: usize = 0;
    while i < s.len()
        invariant
            i <= s.len(),
            out@ + expand_from(s@, env@, i as int) == expand_env(s@, env@),
        decreases s.len() - i,
    {
        let e = index_of(s, '%', i + 1);
        proof {
            lemma_index_of_from(s@, '%', i + 1);
        }
        if s[i] == '%' && e < s.len() {
            let key = slice_chars(s, i + 1, e);
            match env.lookup(&key) {
                Some(value) => {
                    let ghost before = out@;
                    out = concat_chars(&out, &value);
                    assert(out@ + expand_from(s@, env@, e + 1) =~= before + expand_from(
                        s@,
                        env@,
                        i as int,
                    ));
                    i = e + 1;
                    continue;
                },
                None => {},
            }
        }
        let ghost before = out@;
        out.push(s[i]);
        assert(out@ + expand_from(s@, env@, i + 1) =~= before + expand_from(s@, env@, i as int));
        i = i + 1;
    }
    assert(out@ + expand_from(s@, env@, i as int) =~= out@);
    out
}

/// Every name that expanding `command` could look up, in order of appearance; the
/// caller reads these from the process environment before calling
/// `executable_path_from_command`.
pub fn env_keys_in(command: &str) -> (r: Vec<String>)
    ensures
        r@.map_values(|k: String| k@) == env_keys_from(trim_ws(command@), 0),
{
    let s = trim_whitespace(&chars_of(command));
    let mut keys: Vec<String> = Vec::new();
    let mut i: usize = s.len();
    let ghost s_view = s@;
    assert(env_keys_from(s@, s.len() as int) =~= Seq::<Seq<char>>::empty());
    while i > 0
        invariant
            i <= s.len(),
            s@ == s_view,
            keys@.map_values(|k: String| k@) == env_keys_from(s@, i as int).reverse(),
        decreases i,
    {
        i = i - 1;
        let e = index_of(&s, '%', i + 1);
        let ghost before = keys@.map_values(|k: String| k@);
        if s[i] == '%' && e < s.len() {
            let key = string_of(&slice_chars(&s, i + 1, e));
            keys.push(key);
            assert(keys@.map_values(|k: String| k@) =~= before.push(s@.subrange(i + 1, e as int)));
            assert(env_keys_from(s@, i as int).reverse() =~= env_keys_from(s@, i + 1).reverse().push(
                s@.subrange(i + 1, e as int),
            ));
        } else {
            assert(keys@.map_values(|k: String| k@) =~= before);
        }
    }
    let out = reverse_strings(keys);
    assert(env_keys_from(s@, 0).reverse().reverse() =~= env_keys_from(s@, 0));
    out
}

/// `v` in reverse order.
fn reverse_strings(v: Vec<String>) -> (r: Vec<String>)
    ensures
        r@.map_values(|k: String| k@) == v@.map_values(|k: String| k@).reverse(),
{
    let mut v = v;
    let mut r: Vec<String> = Vec::new();
    let ghost orig = v@.map_values(|k: String| k@);
    while v.len() > 0
        invariant
            r@.map_values(|k: String| k@) + v@.map_values(|k: String| k@).reverse() == orig.reverse(),
        decreases v.len(),
    {
        let ghost pre_v = v@.map_values(|k: String| k@);
        let ghost pre_r = r@.map_values(|k: String| k@);
        let x = v.pop().unwrap();
        r.push(x);
        assert(pre_v.reverse() =~= seq![x@] + v@.map_values(|k: String| k@).reverse());
        assert(r@.map_values(|k: String| k@) =~= pre_r.push(x@));
        assert(r@.map_values(|k: String| k@) + v@.map_values(|k: String| k@).reverse() =~= pre_r
            + pre_v.reverse());
    }
    assert(v@.map_values(|k: String| k@).reverse() =~= Seq::<Seq<char>>::empty());
    assert(r@.map_values(|k: String| k@) =~= orig.reverse());
    r
}

/// `s` holds `.exe`, in any letter case, at index `i`.
pub open spec fn is_exe_at(s: Seq<char>, i: int) -> bool {
    &&& 0 <= i
    &&& i + 4 <= s.len()
    &&& s[i] == '.'
    &&& (s[i + 1] == 'e' || s[i + 1] == 'E')
    &&& (s[i + 2] == 'x' || s[i + 2] == 'X')
    &&& (s[i + 3] == 'e' || s[i + 3] == 'E')
}

/// `s` ends with `.exe` in any letter case.
pub open spec fn ends_with_exe(s: Seq<char>) -> bool {
    s.len() >= 4 && is_exe_at(s, s.len() - 4)
}

/// The first index at or after `i` where `s` holds `.exe` in any letter case, or `s.len()`.
pub open spec fn first_exe_from(s: Seq<char>, i: int) -> int
    decreases s.len() - i,
{
    if i < 0 || i >= s.len() {
        s.len() as int
    } else if is_exe_at(s, i) {
        i
    } else {
        first_exe_from(s, i + 1)
    }
}

/// A character that ends the text before a program path: a quote, a tab or a line break.
pub open spec fn is_path_break(c: char) -> bool {
    c == '"' || c == '\'' || c == '\t' || c == '\n' || c == '\r'
}

/// Where a program path that ends before index `j` begins: just after the last break
/// character before `j`, or at 0.
pub open spec fn path_start(s: Seq<char>, j: int) -> int
    decreases j,
{
    if j <= 0 {
        0
    } else if is_path_break(s[j - 1]) {
        j
    } else {
        path_start(s, j - 1)
    }
}

/// The program of a command that opens with a quoted `.exe` path.
pub open spec fn quoted_exe(e: Seq<char>) -> Option<Seq<char>> {
    if e.len() > 0 && e[0] == '"' {
        let end = index_of_from(e, '"', 1);
        if end < e.len() && ends_with_exe(e.subrange(1, end)) {
            Some(e.subrange(1, end))
        } else {
            None
        }
    } else {
        None
    }
}

/// The program that an expanded command line runs: the quoted `.exe` path it opens
/// with, else the text from the last quote, tab or line break before its first `.exe`
/// up to that `.exe`, trimmed of whitespace and then of quotes.
///
/// `.exe` is looked for on the characters themselves, in any ASCII letter case. Looking
/// for it in the lower-cased text and then cutting the text as written at the byte
/// position found there gives the same path as long as lower-casing keeps the encoded
/// length of every character before it; where it does not (as for `Ⱥ`, whose lower case
/// takes one byte more), that way cuts the text elsewhere or fails, and this one still
/// gives the path.
pub open spec fn exe_path_in(e: Seq<char>) -> Option<Seq<char>> {
    match quoted_exe(e) {
        Some(p) => Some(p),
        None => {
            let idx = first_exe_from(e, 0);
            if idx < e.len() {
                Some(trim_char(trim_ws(e.subrange(path_start(e, idx), idx + 4)), '"'))
            } else {
                None
            }
        },
    }
}

/// The program that `command` runs once trimmed and expanded in `env`.
pub open spec fn exe_path_of(command: Seq<char>, env: Seq<(Seq<char>, Seq<char>)>) -> Option<Seq<char>> {
    exe_path_in(expand_env(trim_ws(command), env))
}

fn is_exe_at_exec(s: &Vec<char>, i: usize) -> (r: bool)
    ensures
        r == is_exe_at(s@, i as int),
{
    if i >= s.len() || s.len() - i < 4 {
        return false;
    }
    s[i] == '.' && (s[i + 1] == 'e' || s[i + 1] == 'E') && (s[i + 2] == 'x' || s[i + 2] == 'X')
        && (s[i + 3] == 'e' || s[i + 3] == 'E')
}

fn first_exe(s: &Vec<char>) -> (r: usize)
    ensures
        r as int == first_exe_from(s@, 0),
        r <= s.len(),
{
    let mut i: usize = 0;
    while i < s.len() && !is_exe_at_exec(s, i)
        invariant
            i <= s.len(),
            first_exe_from(s@, 0) == first_exe_from(s@, i as int),
        decreases s.len() - i,
    {
        i = i + 1;
    }
    i
}

fn path_start_exec(s: &Vec<char>, j: usize) -> (r: usize)
    requires
        j <= s.len(),
    ensures
        r as int == path_start(s@, j as int),
        r <= j,
{
    let mut k = j;
    while k > 0 && !(s[k - 1] == '"' || s[k - 1] == '\'' || s[k - 1] == '\t' || s[k - 1] == '\n'
        || s[k - 1] == '\r')
        invariant
            k <= j <= s.len(),
            path_start(s@, j as int) == path_start(s@, k as int),
        decreases k,
    {
        k = k - 1;
    }
    k
}

/// The program of an already expanded command line (see `exe_path_in`).
pub fn executable_path_in(e: &Vec<char>) -> (r: Option<Vec<char>>)
    ensures
        opt_chars(r) == exe_path_in(e@),
{
    if e.len() > 0 && e[0] == '"' {
        let end = index_of(e, '"', 1);
        if end < e.len() {
            let candidate = slice_chars(e, 1, end);
            if candidate.len() >= 4 && is_exe_at_exec(&candidate, candidate.len() - 4) {
                return Some(candidate);
            }
        }
    }
    let idx = first_exe(e);
    if idx < e.len() {
        proof {
            assert(is_exe_at(e@, idx as int)) by {
                lemma_first_exe_from(e@, 0);
            }
        }
        let start = path_start_exec(e, idx);
        let piece = slice_chars(e, start, idx + 4);
        let trimmed = trim_whitespace(&piece);
        Some(trim_matching(&trimmed, '"'))
    } else {
        None
    }
}

/// `first_exe_from` lands on a `.exe` or at the end.
pub proof fn lemma_first_exe_from(s: Seq<char>, i: int)
    requires
        0 <= i <= s.len(),
    ensures
        i <= first_exe_from(s, i) <= s.len(),
        first_exe_from(s, i) < s.len() ==> is_exe_at(s, first_exe_from(s, i)),
        forall|j: int| i <= j < first_exe_from(s, i) ==> !is_exe_at(s, j),
    decreases s.len() - i,
{
    if i < s.len() && !is_exe_at(s, i) {
        lemma_first_exe_from(s, i + 1);
    }
}

/// `path_start` lies between 0 and `j`.
proof fn lemma_path_start_bounds(s: Seq<char>, j: int)
    requires
        0 <= j,
    ensures
        0 <= path_start(s, j) <= j,
    decreases j,
{
    if j > 0 && !is_path_break(s[j - 1]) {
        lemma_path_start_bounds(s, j - 1);
    }
}

proof fn lemma_path_start_is(e: Seq<char>, j: int, st: int)
    requires
        0 <= st <= j <= e.len(),
        st == 0 || is_path_break(e[st - 1]),
        forall|k: int| st <= k < j ==> !is_path_break(#[trigger] e[k]),
    ensures
        path_start(e, j) == st,
    decreases j,
{
    if j > st {
        lemma_path_start_is(e, j - 1, st);
    }
}

/// Where the program path of an expanded command line `e` comes from, in full.
/// - When `e` opens with a quote whose closing quote (the first one after it, at `q`)
///   follows `.exe` in any letter case, the path is the text between the quotes.
/// - Otherwise, when `e` holds `.exe` (any letter case), with `i` the first index where
///   it does and `st` the index just after the last quote, apostrophe, tab or line break
///   before `i` (or 0), the path is `e[st..i + 4]`, trimmed of whitespace and then of
///   quotes: it ends at the first `.exe`, never at a later one.
/// - When `e` holds no `.exe` at all, there is no path.
pub proof fn lemma_program_path_rules(e: Seq<char>, q: int, i: int, st: int)
    ensures
        (e.len() > 0 && e[0] == '"' && 5 <= q < e.len() && e[q] == '"' && (forall|k: int| 1 <= k < q ==> e[k]
            != '"') && e[q - 4] == '.' && (e[q - 3] == 'e' || e[q - 3] == 'E') && (e[q - 2] == 'x' || e[q - 2]
            == 'X') && (e[q - 1] == 'e' || e[q - 1] == 'E')) ==> exe_path_in(e) == Some(e.subrange(1, q)),
        ({
            &&& (e.len() == 0 || e[0] != '"' || forall|r: int|
                1 <= r < e.len() && #[trigger] e[r] == '"' && (forall|k: int| 1 <= k < r ==> e[k] != '"') ==> !(r
                    >= 5 && e[r - 4] == '.' && (e[r - 3] == 'e' || e[r - 3] == 'E') && (e[r - 2] == 'x' || e[r - 2]
                    == 'X') && (e[r - 1] == 'e' || e[r - 1] == 'E')))
            &&& 0 <= i && i + 4 <= e.len() && e[i] == '.' && (e[i + 1] == 'e' || e[i + 1] == 'E') && (e[i + 2]
                == 'x' || e[i + 2] == 'X') && (e[i + 3] == 'e' || e[i + 3] == 'E')
            &&& forall|j: int| 0 <= j < i ==> !(#[trigger] e[j] == '.' && (e[j + 1] == 'e' || e[j + 1] == 'E') && (
                e[j + 2] == 'x' || e[j + 2] == 'X') && (e[j + 3] == 'e' || e[j + 3] == 'E'))
            &&& 0 <= st <= i
            &&& (st == 0 || e[st - 1] == '"' || e[st - 1] == '\'' || e[st - 1] == '\t' || e[st - 1] == '\n' || e[st
                - 1] == '\r')
            &&& forall|k: int| st <= k < i ==> !(#[trigger] e[k] == '"' || e[k] == '\'' || e[k] == '\t' || e[k]
                == '\n' || e[k] == '\r')
        }) ==> exe_path_in(e) == Some(trim_char(trim_ws(e.subrange(st, i + 4)), '"')),
        (forall|j: int| 0 <= j && j + 4 <= e.len() ==> !(#[trigger] e[j] == '.' && (e[j + 1] == 'e' || e[j + 1]
            == 'E') && (e[j + 2] == 'x' || e[j + 2] == 'X') && (e[j + 3] == 'e' || e[j + 3] == 'E')))
            ==> exe_path_in(e) is None,
{
    if e.len() > 0 {
        lemma_index_of_from(e, '"', 1);
    }
    lemma_first_exe_from(e, 0);
    let end = index_of_from(e, '"', 1);
    if e.len() > 0 && e[0] == '"' && end < e.len() {
        let sub = e.subrange(1, end);
        if sub.len() >= 4 {
            assert(sub[sub.len() - 4] == e[end - 4]);
            assert(sub[sub.len() - 3] == e[end - 3]);
            assert(sub[sub.len() - 2] == e[end - 2]);
            assert(sub[sub.len() - 1] == e[end - 1]);
        }
        if 5 <= q < e.len() && e[q] == '"' && (forall|k: int| 1 <= k < q ==> e[k] != '"') {
            assert(end == q);
        }
    }
    let f = first_exe_from(e, 0);
    if 0 <= i && i + 4 <= e.len() && e[i] == '.' && (e[i + 1] == 'e' || e[i + 1] == 'E') && (e[i + 2] == 'x'
        || e[i + 2] == 'X') && (e[i + 3] == 'e' || e[i + 3] == 'E') && (forall|j: int| 0 <= j < i ==> !(
        #[trigger] e[j] == '.' && (e[j + 1] == 'e' || e[j + 1] == 'E') && (e[j + 2] == 'x' || e[j + 2] == 'X')
        && (e[j + 3] == 'e' || e[j + 3] == 'E'))) {
        assert(is_exe_at(e, i));
        if f < i {
            assert(is_exe_at(e, f));
            assert(e[f] == '.');
        }
        assert(f == i);
        if 0 <= st <= i && (st == 0 || is_path_break(e[st - 1])) && (forall|k: int| st <= k < i ==> !(
            #[trigger] e[k] == '"' || e[k] == '\'' || e[k] == '\t' || e[k] == '\n' || e[k] == '\r')) {
            assert forall|k: int| st <= k < i implies !is_path_break(#[trigger] e[k]) by {}
            lemma_path_start_is(e, i, st);
        }
    }
    if f < e.len() {
        assert(is_exe_at(e, f));
        assert(e[f] == '.');
    }
}

/// Every program path found in an expanded command line ends with `.exe`, in any
/// letter case.
pub proof fn lemma_program_path_ends_with_exe(e: Seq<char>)
    ensures
        exe_path_in(e) matches Some(p) ==> ends_with_exe(p),
{
    if quoted_exe(e) is None {
        let idx = first_exe_from(e, 0);
        if idx < e.len() {
            lemma_first_exe_from(e, 0);
            lemma_path_start_bounds(e, idx);
            let piece = e.subrange(path_start(e, idx), idx + 4);
            let n = piece.len() - 4;
            assert forall|i: int| n <= i < piece.len() implies !unicode_whitespace(#[trigger] piece[i]) by {
                assert(piece[i] == e[idx + (i - n)]);
            }
            let ws = |c: char| unicode_whitespace(c);
            let j1 = lemma_trim_keeps_tail(piece, ws, n);
            let t1 = trim_ws(piece);
            assert(t1 == piece.subrange(j1, piece.len() as int));
            let n1 = t1.len() - 4;
            assert forall|i: int| n1 <= i < t1.len() implies t1[i] == piece[n + (i - n1)] by {}
            assert(is_exe_at(t1, n1));
            assert forall|i: int| n1 <= i < t1.len() implies !is_char('"')(#[trigger] t1[i]) by {
                assert(t1[i] == piece[n + (i - n1)]);
                assert(piece[n + (i - n1)] == e[idx + (i - n1)]);
            }
            let j2 = lemma_trim_keeps_tail(t1, is_char('"'), n1);
            let t2 = trim_char(t1, '"');
            assert(t2 == t1.subrange(j2, t1.len() as int));
            assert(t2[t2.len() - 4] == t1[n1]);
            assert(t2[t2.len() - 3] == t1[n1 + 1]);
            assert(t2[t2.len() - 2] == t1[n1 + 2]);
            assert(t2[t2.len() - 1] == t1[n1 + 3]);
        }
    }
}

/// Every program path that `executable_path_from_command` finds ends with `.exe`, in
/// any letter case.
pub proof fn lemma_command_program_ends_with_exe(command: Seq<char>, env: Seq<(Seq<char>, Seq<char>)>)
    ensures
        exe_path_of(command, env) matches Some(p) ==> ends_with_exe(p),
{
    lemma_program_path_ends_with_exe(expand_env(trim_ws(command), env));
}

/// The text of an optional character vector.
pub open spec fn opt_chars(o: Option<Vec<char>>) -> Option<Seq<char>> {
    match o {
        Some(v) => Some(v@),
        None => None,
    }
}

/// The program that `command` runs: the command is trimmed, its `%NAME%` references
/// are expanded from `env`, and the program path is taken as `exe_path_in` says.
pub fn executable_path_from_command(command: &str, facts: &HostFacts) -> (r: Option<String>)
    ensures
        opt_view(r) == exe_path_of(command@, facts.env@),
{
    match executable_path_chars(&chars_of(command), &facts.env) {
        Some(p) => Some(string_of(&p)),
        None => None,
    }
}

/// `executable_path_from_command` on characters.
pub fn executable_path_chars(command: &Vec<char>, env: &Bindings) -> (r: Option<Vec<char>>)
    ensures
        opt_chars(r) == exe_path_of(command@, env@),
{
    let trimmed = trim_whitespace(command);
    let expanded = expand_chars(&trimmed, env);
    executable_path_in(&expanded)
}


proof fn lemma_later_keys_listed(s: Seq<char>, i: int, j: int, x: int)
    requires
        0 <= i <= j,
        0 <= x < env_keys_from(s, j).len(),
    ensures
        exists|y: int| 0 <= y < env_keys_from(s, i).len() && #[trigger] env_keys_from(s, i)[y] == env_keys_from(s, j)[x],
    decreases j - i,
{
    if i == j {
        assert(env_keys_from(s, i)[x] == env_keys_from(s, j)[x]);
    } else {
        lemma_later_keys_listed(s, i + 1, j, x);
        let y = choose|y: int| 0 <= y < env_keys_from(s, i + 1).len() && #[trigger] env_keys_from(s, i + 1)[y] == env_keys_from(s, j)[x];
        let e = index_of_from(s, '%', i + 1);
        if i < s.len() && s[i] == '%' && e < s.len() {
            assert(env_keys_from(s, i)[y + 1] == env_keys_from(s, i + 1)[y]);
        } else {
            assert(env_keys_from(s, i)[y] == env_keys_from(s, i + 1)[y]);
        }
    }
}

/// Two tables give the same value to every key of `keys`.
pub open spec fn agree_on(a: Seq<(Seq<char>, Seq<char>)>, b: Seq<(Seq<char>, Seq<char>)>, keys: Seq<Seq<char>>) -> bool {
    forall|j: int| 0 <= j < keys.len() ==> env_lookup(a, #[trigger] keys[j]) == env_lookup(b, keys[j])
}

proof fn lemma_expand_from_agree(s: Seq<char>, a: Seq<(Seq<char>, Seq<char>)>, b: Seq<(Seq<char>, Seq<char>)>, i: int)
    requires
        0 <= i,
        agree_on(a, b, env_keys_from(s, 0)),
    ensures
        expand_from(s, a, i) == expand_from(s, b, i),
    decreases s.len() - i,
{
    if i < s.len() {
        let e = index_of_from(s, '%', i + 1);
        lemma_index_of_from(s, '%', i + 1);
        if s[i] == '%' && e < s.len() {
            assert(env_keys_from(s, i)[0] == s.subrange(i + 1, e));
            lemma_later_keys_listed(s, 0, i, 0);
            let y = choose|y: int| 0 <= y < env_keys_from(s, 0).len() && #[trigger] env_keys_from(s, 0)[y] == env_keys_from(s, i)[0];
            assert(env_lookup(a, env_keys_from(s, 0)[y]) == env_lookup(b, env_keys_from(s, 0)[y]));
            lemma_expand_from_agree(s, a, b, e + 1);
        }
        lemma_expand_from_agree(s, a, b, i + 1);
    }
}

/// Expansion reads only the variables that `env_keys_in` lists: two environments that
/// agree on those names give the same expansion and the same program path, so reading
/// just those names from the system is enough.
pub proof fn lemma_expansion_reads_only_listed_keys(
    command: Seq<char>,
    a: Seq<(Seq<char>, Seq<char>)>,
    b: Seq<(Seq<char>, Seq<char>)>,
)
    requires
        agree_on(a, b, env_keys_from(trim_ws(command), 0)),
    ensures
        expand_env(trim_ws(command), a) == expand_env(trim_ws(command), b),
        exe_path_of(command, a) == exe_path_of(command, b),
{
    lemma_expand_from_agree(trim_ws(command), a, b, 0);
}

} // verus!
