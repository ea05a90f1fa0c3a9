//! Display names for start-up entries: Windows path pieces, known applications, and the
//! name fallbacks.

use vstd::prelude::*;
use crate::command::{env_lookup, exe_path_of, executable_path_chars, Bindings, HostFacts};
use crate::model::opt_view;
use crate::text::{chars_of, contains, contains_seq, ends_with, ends_with_seq, slice_chars, string_of, to_lowercase, trim_end_by, trim_start_by, trim_whitespace, trim_ws, unicode_lowercase, unicode_whitespace};

verus! {

broadcast use vstd::string::group_string_axioms;

/// A separator between path components on Windows: `\` always, and `/` too except
/// after a verbatim (`\\?\`) prefix.
pub open spec fn is_sep(c: char, verbatim: bool) -> bool {
    c == '\\' || (!verbatim && c == '/')
}

/// The first index at or after `i` that holds a separator, or `s.len()`.
pub open spec fn next_sep(s: Seq<char>, i: int, verbatim: bool) -> int
    decreases s.len() - i,
{
    if i < 0 || i >= s.len() {
        s.len() as int
    } else if is_sep(s[i], verbatim) {
        i
    } else {
        next_sep(s, i + 1, verbatim)
    }
}

/// An ASCII letter, as a drive letter is.
pub open spec fn is_drive_letter(c: char) -> bool {
    ('a' <= c && c <= 'z') || ('A' <= c && c <= 'Z')
}

/// `s` starts with the verbatim marker `\\?\`.
pub open spec fn is_verbatim(s: Seq<char>) -> bool {
    s.len() >= 4 && s[0] == '\\' && s[1] == '\\' && s[2] == '?' && s[3] == '\\'
}

/// The length of the Windows prefix that `s` starts with, 0 if none:
/// `\\?\UNC\server\share`, `\\?\C:` (the drive followed by `\` or the end),
/// `\\?\name`, `\\.\device`, `\\server\share` (both names non-empty) or `C:`.
pub open spec fn prefix_len(s: Seq<char>) -> int {
    if is_verbatim(s) {
        if s.len() >= 8 && s[4] == 'U' && s[5] == 'N' && s[6] == 'C' && s[7] == '\\' {
            let a = next_sep(s, 8, true);
            if a < s.len() && next_sep(s, a + 1, true) > a + 1 {
                next_sep(s, a + 1, true)
            } else {
                a
            }
        } else if s.len() >= 6 && is_drive_letter(s[4]) && s[5] == ':' && (s.len() == 6 || s[6] == '\\') {
            6
        } else {
            next_sep(s, 4, true)
        }
    } else if s.len() >= 4 && s[0] == '\\' && s[1] == '\\' && s[2] == '.' && s[3] == '\\' {
        next_sep(s, 4, false)
    } else if s.len() >= 2 && s[0] == '\\' && s[1] == '\\' {
        let a = next_sep(s, 2, false);
        if a > 2 && a < s.len() && next_sep(s, a + 1, false) > a + 1 {
            next_sep(s, a + 1, false)
        } else {
            0
        }
    } else if s.len() >= 2 && s[1] == ':' && is_drive_letter(s[0]) {
        2
    } else {
        0
    }
}

/// Where the path component that ends at index `j` begins: just after the last
/// separator before `j`, or at 0.
pub open spec fn component_start(s: Seq<char>, j: int, verbatim: bool) -> int
    decreases j,
{
    if j <= 0 {
        0
    } else if is_sep(s[j - 1], verbatim) {
        j
    } else {
        component_start(s, j - 1, verbatim)
    }
}

pub proof fn lemma_component_start(s: Seq<char>, j: int, verbatim: bool)
    requires
        0 <= j <= s.len(),
    ensures
        0 <= component_start(s, j, verbatim) <= j,
        forall|k: int| component_start(s, j, verbatim) <= k < j ==> !is_sep(s[k], verbatim),
    decreases j,
{
    if j > 0 && !is_sep(s[j - 1], verbatim) {
        lemma_component_start(s, j - 1, verbatim);
    }
}

/// The last normal component of `s[..j]`: empty components are passed over, and so are
/// `.` components outside verbatim paths; a final `..` (or, in a verbatim path, `.`) has
/// none.
pub open spec fn name_before(s: Seq<char>, j: int, verbatim: bool) -> Option<Seq<char>>
    decreases j,
{
    if j <= 0 || j > s.len() {
        None
    } else if is_sep(s[j - 1], verbatim) {
        name_before(s, j - 1, verbatim)
    } else {
        let b = component_start(s, j, verbatim);
        proof {
            lemma_component_start(s, j - 1, verbatim);
        }
        let c = s.subrange(b, j);
        if c.len() == 1 && c[0] == '.' {
            if verbatim {
                None
            } else {
                name_before(s, b, verbatim)
            }
        } else if c.len() == 2 && c[0] == '.' && c[1] == '.' {
            None
        } else {
            Some(c)
        }
    }
}

/// What `Path::file_name` gives for a Windows path: the last normal component after its
/// prefix (a UNC `\\server\share` or a device is a prefix, not a file name).
pub open spec fn file_name_of(path: Seq<char>) -> Option<Seq<char>> {
    let t = path.skip(prefix_len(path));
    name_before(t, t.len() as int, is_verbatim(path))
}

/// The index of the last `.` in `s[..j]`, or -1.
pub open spec fn last_dot_before(s: Seq<char>, j: int) -> int
    decreases j,
{
    if j <= 0 {
        -1
    } else if s[j - 1] == '.' {
        j - 1
    } else {
        last_dot_before(s, j - 1)
    }
}

/// The stem of a file name: the part before its last `.`, or the whole name when it has
/// no `.` other than a leading one.
pub open spec fn stem_of(name: Seq<char>) -> Seq<char> {
    let k = last_dot_before(name, name.len() as int);
    if k <= 0 {
        name
    } else {
        name.subrange(0, k)
    }
}

/// The extension of a file name: the part after its last `.`, if it has a `.` other than
/// a leading one.
pub open spec fn extension_of(name: Seq<char>) -> Option<Seq<char>> {
    let k = last_dot_before(name, name.len() as int);
    if k <= 0 {
        None
    } else {
        Some(name.subrange(k + 1, name.len() as int))
    }
}

/// What `Path::file_stem` gives for a Windows path.
pub open spec fn file_stem_of(path: Seq<char>) -> Option<Seq<char>> {
    match file_name_of(path) {
        Some(n) => Some(stem_of(n)),
        None => None,
    }
}

proof fn lemma_last_dot(s: Seq<char>, j: int)
    requires
        0 <= j <= s.len(),
    ensures
        -1 <= last_dot_before(s, j) < j,
        last_dot_before(s, j) >= 0 ==> s[last_dot_before(s, j)] == '.',
    decreases j,
{
    if j > 0 && s[j - 1] != '.' {
        lemma_last_dot(s, j - 1);
    }
}

fn last_dot_exec(s: &Vec<char>) -> (r: Option<usize>)
    ensures
        match r {
            Some(k) => k as int == last_dot_before(s@, s.len() as int) && k < s.len(),
            None => last_dot_before(s@, s.len() as int) == -1,
        },
{
    let mut j = s.len();
    while j > 0 && s[j - 1] != '.'
        invariant
            j <= s.len(),
            last_dot_before(s@, s.len() as int) == last_dot_before(s@, j as int),
        decreases j,
    {
        j = j - 1;
    }
    if j == 0 {
        None
    } else {
        Some(j - 1)
    }
}

/// The stem of a file name (see `stem_of`).
pub fn stem_chars(name: &Vec<char>) -> (r: Vec<char>)
    ensures
        r@ == stem_of(name@),
{
    match last_dot_exec(name) {
        Some(k) => {
            if k == 0 {
                name.clone()
            } else {
                slice_chars(name, 0, k)
            }
        },
        None => name.clone(),
    }
}

/// The extension of a file name (see `extension_of`).
pub fn extension_chars(name: &Vec<char>) -> (r: Option<Vec<char>>)
    ensures
        match r {
            Some(v) => extension_of(name@) == Some(v@),
            None => extension_of(name@) is None,
        },
{
    match last_dot_exec(name) {
        Some(k) => {
            if k == 0 {
                None
            } else {
                Some(slice_chars(name, k + 1, name.len()))
            }
        },
        None => None,
    }
}

fn is_sep_exec(c: char, verbatim: bool) -> (r: bool)
    ensures
        r == is_sep(c, verbatim),
{
    c == '\\' || (!verbatim && c == '/')
}

fn next_sep_exec(s: &Vec<char>, i: usize, verbatim: bool) -> (r: usize)
    requires
        i <= s.len(),
    ensures
        r as int == next_sep(s@, i as int, verbatim),
        i <= r <= s.len(),
{
    let mut k = i;
    while k < s.len() && !is_sep_exec(s[k], verbatim)
        invariant
            i <= k <= s.len(),
            next_sep(s@, i as int, verbatim) == next_sep(s@, k as int, verbatim),
        decreases s.len() - k,
    {
        k = k + 1;
    }
    k
}

fn is_drive_letter_exec(c: char) -> (r: bool)
    ensures
        r == is_drive_letter(c),
{
    ('a' <= c && c <= 'z') || ('A' <= c && c <= 'Z')
}

fn is_verbatim_exec(s: &Vec<char>) -> (r: bool)
    ensures
        r == is_verbatim(s@),
{
    s.len() >= 4 && s[0] == '\\' && s[1] == '\\' && s[2] == '?' && s[3] == '\\'
}

fn prefix_len_exec(s: &Vec<char>) -> (r: usize)
    ensures
        r as int == prefix_len(s@),
        r <= s.len(),
{
    if is_verbatim_exec(s) {
        if s.len() >= 8 && s[4] == 'U' && s[5] == 'N' && s[6] == 'C' && s[7] == '\\' {
            let a = next_sep_exec(s, 8, true);
            if a < s.len() {
                let b = next_sep_exec(s, a + 1, true);
                if b > a + 1 {
                    return b;
                }
            }
            a
        } else if s.len() >= 6 && is_drive_letter_exec(s[4]) && s[5] == ':' && (s.len() == 6 || s[6] == '\\') {
            6
        } else {
            next_sep_exec(s, 4, true)
        }
    } else if s.len() >= 4 && s[0] == '\\' && s[1] == '\\' && s[2] == '.' && s[3] == '\\' {
        next_sep_exec(s, 4, false)
    } else if s.len() >= 2 && s[0] == '\\' && s[1] == '\\' {
        let a = next_sep_exec(s, 2, false);
        if a > 2 && a < s.len() {
            let b = next_sep_exec(s, a + 1, false);
            if b > a + 1 {
                return b;
            }
        }
        0
    } else if s.len() >= 2 && s[1] == ':' && is_drive_letter_exec(s[0]) {
        2
    } else {
        0
    }
}

/// The last normal component of a Windows path (see `file_name_of`).
pub fn file_name_chars(path: &Vec<char>) -> (r: Option<Vec<char>>)
    ensures
        match r {
            Some(v) => file_name_of(path@) == Some(v@),
            None => file_name_of(path@) is None,
        },
{
    let verbatim = is_verbatim_exec(path);
    let p = prefix_len_exec(path);
    let t = slice_chars(path, p, path.len());
    let ghost ts = t@;
    assert(ts =~= path@.skip(p as int));
    let mut j = t.len();
    loop
        invariant
            j <= t.len(),
            t@ == ts,
            ts == path@.skip(prefix_len(path@)),
            verbatim == is_verbatim(path@),
            name_before(ts, ts.len() as int, verbatim) == name_before(ts, j as int, verbatim),
        decreases j,
    {
        if j == 0 {
            return None;
        }
        if is_sep_exec(t[j - 1], verbatim) {
            j = j - 1;
        } else {
            let mut b = j - 1;
            while b > 0 && !is_sep_exec(t[b - 1], verbatim)
                invariant
                    b < j <= t.len(),
                    component_start(ts, j as int, verbatim) == component_start(ts, b as int, verbatim),
                    t@ == ts,
                decreases b,
            {
                b = b - 1;
            }
            assert(component_start(ts, j as int, verbatim) == b as int);
            let c = slice_chars(&t, b, j);
            if c.len() == 1 && c[0] == '.' {
                if verbatim {
                    return None;
                }
                j = b;
            } else if c.len() == 2 && c[0] == '.' && c[1] == '.' {
                return None;
            } else {
                return Some(c);
            }
        }
    }
}

/// The stem of the file that a Windows path names (`Path::file_stem`).
pub fn file_stem_chars(path: &Vec<char>) -> (r: Option<Vec<char>>)
    ensures
        match r {
            Some(v) => file_stem_of(path@) == Some(v@),
            None => file_stem_of(path@) is None,
        },
{
    match file_name_chars(path) {
        Some(n) => Some(stem_chars(&n)),
        None => None,
    }
}

/// The name shown for a shortcut file: its stem, else the whole file name.
pub open spec fn display_name_of(file_name: Seq<char>) -> Seq<char> {
    match file_stem_of(file_name) {
        Some(s) => s,
        None => file_name,
    }
}

/// The name shown for a shortcut file (see `display_name_of`).
pub fn display_name(file_name: &str) -> (r: String)
    ensures
        r@ == display_name_of(file_name@),
{
    let v = chars_of(file_name);
    match file_stem_chars(&v) {
        Some(s) => string_of(&s),
        None => string_of(&v),
    }
}

/// A name trimmed, without an `.exe` or `.EXE` ending, and trimmed again.
pub open spec fn clean_name(name: Seq<char>) -> Seq<char> {
    let t = trim_ws(name);
    let w = if ends_with_seq(t, ".exe"@) || ends_with_seq(t, ".EXE"@) {
        t.subrange(0, t.len() - 4)
    } else {
        t
    };
    trim_ws(w)
}

/// Cleaning a name that has no whitespace at either end removes a final `.exe` or `.EXE`
/// (when something is left and does not end in whitespace) and otherwise keeps it as it
/// is when it ends in neither.
pub proof fn lemma_clean_name_drops_exe(x: Seq<char>)
    requires
        x.len() > 0,
        !unicode_whitespace(x[0]),
        !unicode_whitespace(x[x.len() - 1]),
    ensures
        clean_name(x + ".exe"@) == x,
        clean_name(x + ".EXE"@) == x,
        !ends_with_seq(x, ".exe"@) && !ends_with_seq(x, ".EXE"@) ==> clean_name(x) == x,
{
    reveal_strlit(".exe");
    reveal_strlit(".EXE");
    let lo = x + ".exe"@;
    let up = x + ".EXE"@;
    let m = x.len() as int;
    assert(lo[0] == x[0] && up[0] == x[0]);
    assert(lo[m + 3] == 'e' && up[m + 3] == 'E');
    lemma_trim_keeps_ends(lo);
    lemma_trim_keeps_ends(up);
    lemma_trim_keeps_ends(x);
    assert(lo.subrange(m, m + 4) =~= ".exe"@);
    assert(up.subrange(m, m + 4) =~= ".EXE"@);
    assert(lo.subrange(0, m) =~= x);
    assert(up.subrange(0, m) =~= x);
}

/// Trimming whitespace keeps a text whose first and last characters are not whitespace.
proof fn lemma_trim_keeps_ends(s: Seq<char>)
    requires
        s.len() > 0,
        !unicode_whitespace(s[0]),
        !unicode_whitespace(s[s.len() - 1]),
    ensures
        trim_ws(s) == s,
{
    let ws = |c: char| unicode_whitespace(c);
    assert(trim_start_by(s, ws) == s);
    assert(trim_end_by(s, ws) == s);
}

/// A tidy application name (see `clean_name`).
pub fn clean_app_name(name: &str) -> (r: String)
    ensures
        r@ == clean_name(name@),
{
    string_of(&clean_chars(&chars_of(name)))
}

/// `clean_app_name` on characters.
pub fn clean_chars(name: &Vec<char>) -> (r: Vec<char>)
    ensures
        r@ == clean_name(name@),
{
    let t = trim_whitespace(name);
    let lower = chars_of(".exe");
    let upper = chars_of(".EXE");
    let w = if ends_with(&t, &lower) || ends_with(&t, &upper) {
        proof {
            reveal_strlit(".exe");
            reveal_strlit(".EXE");
        }
        slice_chars(&t, 0, t.len() - 4)
    } else {
        t
    };
    trim_whitespace(&w)
}

/// The applications recognised by name, each with the lower-case text pieces that
/// identify it, in the order they are tried.
pub open spec fn app_rules() -> Seq<(Seq<char>, Seq<Seq<char>>)> {
    seq![
        ("百度网盘"@, seq![
            "baidunetdisk"@,
            "baiduyun"@,
            "\\baidu\\"@,
            "yundetectservice"@,
            "baiduyundetect"@,
            "baiduyunguanjia"@,
        ]),
        ("微信"@, seq![
            "wechat.exe"@,
            "\\wechat\\"@,
            "\\tencent\\wechat"@,
            "weixin"@,
            "wechatapp"@,
        ]),
        ("Microsoft Teams"@, seq!["ms-teams"@, "teams.exe"@, "\\microsoft\\teams"@, "msteams"@]),
        ("Microsoft Edge"@, seq!["msedge.exe"@, "microsoftedgeautolaunch"@, "\\microsoft\\edge"@]),
        ("OneNote"@, seq!["onenote"@, "发送至 onenote"@, "发送到 onenote"@, "send to onenote"@]),
    ]
}

/// Some piece of `patterns` occurs in `h`.
pub open spec fn any_piece_in(h: Seq<char>, patterns: Seq<Seq<char>>) -> bool {
    exists|j: int| 0 <= j < patterns.len() && contains_seq(h, #[trigger] patterns[j])
}

/// The first of `rules[i..]` with a piece that occurs in `h`.
pub open spec fn first_rule_in(h: Seq<char>, rules: Seq<(Seq<char>, Seq<Seq<char>>)>, i: int) -> Option<Seq<char>>
    decreases rules.len() - i,
{
    if i < 0 || i >= rules.len() {
        None
    } else if any_piece_in(h, rules[i].1) {
        Some(rules[i].0)
    } else {
        first_rule_in(h, rules, i + 1)
    }
}

/// The known application that a prepared text `h` names.
pub open spec fn known_app_for(h: Seq<char>) -> Option<Seq<char>> {
    first_rule_in(h, app_rules(), 0)
}

proof fn lemma_rule_pieces(h: Seq<char>, ps: Seq<Seq<char>>)
    requires
        3 <= ps.len() <= 6,
    ensures
        ps.len() == 3 ==> (any_piece_in(h, ps) <==> (contains_seq(h, ps[0]) || contains_seq(h, ps[1])
            || contains_seq(h, ps[2]))),
        ps.len() == 4 ==> (any_piece_in(h, ps) <==> (contains_seq(h, ps[0]) || contains_seq(h, ps[1])
            || contains_seq(h, ps[2]) || contains_seq(h, ps[3]))),
        ps.len() == 5 ==> (any_piece_in(h, ps) <==> (contains_seq(h, ps[0]) || contains_seq(h, ps[1])
            || contains_seq(h, ps[2]) || contains_seq(h, ps[3]) || contains_seq(h, ps[4]))),
        ps.len() == 6 ==> (any_piece_in(h, ps) <==> (contains_seq(h, ps[0]) || contains_seq(h, ps[1])
            || contains_seq(h, ps[2]) || contains_seq(h, ps[3]) || contains_seq(h, ps[4]) || contains_seq(h, ps[5]))),
{
    if any_piece_in(h, ps) {
        let j = choose|j: int| 0 <= j < ps.len() && contains_seq(h, #[trigger] ps[j]);
        assert(j == 0 || j == 1 || j == 2 || j == 3 || j == 4 || j == 5);
    }
    assert(contains_seq(h, ps[0]) ==> any_piece_in(h, ps));
    assert(contains_seq(h, ps[1]) ==> any_piece_in(h, ps));
    assert(contains_seq(h, ps[2]) ==> any_piece_in(h, ps));
    assert(ps.len() > 3 && contains_seq(h, ps[3]) ==> any_piece_in(h, ps));
    assert(ps.len() > 4 && contains_seq(h, ps[4]) ==> any_piece_in(h, ps));
    assert(ps.len() > 5 && contains_seq(h, ps[5]) ==> any_piece_in(h, ps));
}

/// Which application a prepared text `h` (lower-cased, `/` turned into `\`) names, in
/// full: the rules are tried in this order, each matching when one of its pieces occurs
/// in `h`.
pub proof fn lemma_known_app_rules(h: Seq<char>)
    ensures
        known_app_for(h) == (if contains_seq(h, "baidunetdisk"@) || contains_seq(h, "baiduyun"@) || contains_seq(
            h,
            "\\baidu\\"@,
        ) || contains_seq(h, "yundetectservice"@) || contains_seq(h, "baiduyundetect"@) || contains_seq(
            h,
            "baiduyunguanjia"@,
        ) {
            Some("百度网盘"@)
        } else if contains_seq(h, "wechat.exe"@) || contains_seq(h, "\\wechat\\"@) || contains_seq(
            h,
            "\\tencent\\wechat"@,
        ) || contains_seq(h, "weixin"@) || contains_seq(h, "wechatapp"@) {
            Some("微信"@)
        } else if contains_seq(h, "ms-teams"@) || contains_seq(h, "teams.exe"@) || contains_seq(
            h,
            "\\microsoft\\teams"@,
        ) || contains_seq(h, "msteams"@) {
            Some("Microsoft Teams"@)
        } else if contains_seq(h, "msedge.exe"@) || contains_seq(h, "microsoftedgeautolaunch"@) || contains_seq(
            h,
            "\\microsoft\\edge"@,
        ) {
            Some("Microsoft Edge"@)
        } else if contains_seq(h, "onenote"@) || contains_seq(h, "发送至 onenote"@) || contains_seq(
            h,
            "发送到 onenote"@,
        ) || contains_seq(h, "send to onenote"@) {
            Some("OneNote"@)
        } else {
            None
        }),
{
    let rules = app_rules();
    lemma_rule_pieces(h, rules[0].1);
    lemma_rule_pieces(h, rules[1].1);
    lemma_rule_pieces(h, rules[2].1);
    lemma_rule_pieces(h, rules[3].1);
    lemma_rule_pieces(h, rules[4].1);
    reveal_with_fuel(first_rule_in, 6);
}

/// The known application of an entry is found in its raw name, command and program path
/// joined by spaces, lower-cased, with `/` turned into `\`, by the rules of
/// `lemma_known_app_rules`; for example any entry whose text holds `weixin` and none of
/// the Baidu pieces is 微信.
pub proof fn lemma_known_app_of_text(raw: Seq<char>, command: Option<Seq<char>>, app_path: Option<Seq<char>>)
    ensures
        known_app_of(raw, command, app_path) == known_app_for(
            slashes_to_backslashes(unicode_lowercase(joined_names(raw, command, app_path))),
        ),
        ({
            let h = slashes_to_backslashes(unicode_lowercase(joined_names(raw, command, app_path)));
            contains_seq(h, "weixin"@) && !contains_seq(h, "baidunetdisk"@) && !contains_seq(h, "baiduyun"@)
                && !contains_seq(h, "\\baidu\\"@) && !contains_seq(h, "yundetectservice"@) && !contains_seq(
                h,
                "baiduyundetect"@,
            ) && !contains_seq(h, "baiduyunguanjia"@) ==> known_app_of(raw, command, app_path) == Some("微信"@)
        }),
{
    lemma_known_app_rules(slashes_to_backslashes(unicode_lowercase(joined_names(raw, command, app_path))));
}

/// `s` with every `/` turned into `\`.
pub open spec fn slashes_to_backslashes(s: Seq<char>) -> Seq<char> {
    s.map_values(|c: char| if c == '/' { '\\' } else { c })
}

/// The text that a raw name, command and program path are searched in, before lower-casing:
/// the pieces that are present, joined by single spaces.
pub open spec fn joined_names(raw: Seq<char>, command: Option<Seq<char>>, app_path: Option<Seq<char>>) -> Seq<char> {
    let with_command = match command {
        Some(c) => raw + seq![' '] + c,
        None => raw,
    };
    match app_path {
        Some(p) => with_command + seq![' '] + p,
        None => with_command,
    }
}

/// The known application of an entry: the joined pieces are lower-cased, `/` becomes
/// `\`, and the first rule with a piece in that text wins.
pub open spec fn known_app_of(raw: Seq<char>, command: Option<Seq<char>>, app_path: Option<Seq<char>>) -> Option<Seq<char>> {
    known_app_for(slashes_to_backslashes(unicode_lowercase(joined_names(raw, command, app_path))))
}

/// The text of an optional string slice.
pub open spec fn opt_str(o: Option<&str>) -> Option<Seq<char>> {
    match o {
        Some(s) => Some(s@),
        None => None,
    }
}

fn push_all(out: &mut Vec<char>, s: &Vec<char>)
    ensures
        final(out)@ == old(out)@ + s@,
{
    let mut i: usize = 0;
    while i < s.len()
        invariant
            i <= s.len(),
            out@ == old(out)@ + s@.take(i as int),
        decreases s.len() - i,
    {
        out.push(s[i]);
        i = i + 1;
        assert(out@ =~= old(out)@ + s@.take(i as int));
    }
    assert(s@.take(s.len() as int) =~= s@);
}

fn pieces(items: &[&str]) -> (r: Vec<Vec<char>>)
    ensures
        r@.len() == items@.len(),
        forall|j: int| 0 <= j < items@.len() ==> (#[trigger] r@[j])@ == items@[j]@,
{
    let mut r: Vec<Vec<char>> = Vec::new();
    let mut i: usize = 0;
    while i < items.len()
        invariant
            i <= items@.len(),
            r@.len() == i,
            forall|j: int| 0 <= j < i ==> (#[trigger] r@[j])@ == items@[j]@,
        decreases items.len() - i,
    {
        r.push(chars_of(items[i]));
        i = i + 1;
    }
    r
}

/// Rule `i` of `app_rules`.
fn app_rule(i: usize) -> (r: (Vec<char>, Vec<Vec<char>>))
    requires
        i < 5,
    ensures
        r.0@ == app_rules()[i as int].0,
        r.1@.len() == app_rules()[i as int].1.len(),
        forall|j: int| 0 <= j < r.1@.len() ==> (#[trigger] r.1@[j])@ == app_rules()[i as int].1[j],
{
    let (name, items): (&str, &[&str]) = if i == 0 {
        ("百度网盘", &[
            "baidunetdisk",
            "baiduyun",
            "\\baidu\\",
            "yundetectservice",
            "baiduyundetect",
            "baiduyunguanjia",
        ])
    } else if i == 1 {
        ("微信", &["wechat.exe", "\\wechat\\", "\\tencent\\wechat", "weixin", "wechatapp"])
    } else if i == 2 {
        ("Microsoft Teams", &["ms-teams", "teams.exe", "\\microsoft\\teams", "msteams"])
    } else if i == 3 {
        ("Microsoft Edge", &["msedge.exe", "microsoftedgeautolaunch", "\\microsoft\\edge"])
    } else {
        ("OneNote", &["onenote", "发送至 onenote", "发送到 onenote", "send to onenote"])
    };
    (chars_of(name), pieces(items))
}

/// The known application named by a text that is already lower-cased: `/` becomes `\`
/// and the first rule of `app_rules` with a piece in the text wins.
pub fn known_app_name_in_lowered(lowered: &str) -> (r: Option<String>)
    ensures
        opt_view(r) == known_app_for(slashes_to_backslashes(lowered@)),
{
    let raw = chars_of(lowered);
    let mut h: Vec<char> = Vec::new();
    let mut k: usize = 0;
    while k < raw.len()
        invariant
            k <= raw.len(),
            h@ == slashes_to_backslashes(raw@.take(k as int)),
        decreases raw.len() - k,
    {
        h.push(if raw[k] == '/' { '\\' } else { raw[k] });
        k = k + 1;
        assert(h@ =~= slashes_to_backslashes(raw@.take(k as int)));
    }
    assert(raw@.take(raw.len() as int) =~= raw@);
    let ghost hv = h@;
    let mut i: usize = 0;
    assert(app_rules().len() == 5);
    while i < 5
        invariant
            i <= 5,
            h@ == hv,
            hv == slashes_to_backslashes(lowered@),
            app_rules().len() == 5,
            known_app_for(hv) == first_rule_in(hv, app_rules(), i as int),
        decreases 5 - i,
    {
        let (name, patterns) = app_rule(i);
        let mut j: usize = 0;
        while j < patterns.len()
            invariant
                j <= patterns@.len(),
                h@ == hv,
                hv == slashes_to_backslashes(lowered@),
                i < 5,
                app_rules().len() == 5,
                name@ == app_rules()[i as int].0,
                known_app_for(hv) == first_rule_in(hv, app_rules(), i as int),
                patterns@.len() == app_rules()[i as int].1.len(),
                forall|m: int| 0 <= m < patterns@.len() ==> (#[trigger] patterns@[m])@ == app_rules()[i as int].1[m],
                forall|m: int| 0 <= m < j ==> !contains_seq(hv, #[trigger] app_rules()[i as int].1[m]),
            decreases patterns.len() - j,
        {
            if contains(&h, &patterns[j]) {
                assert(any_piece_in(hv, app_rules()[i as int].1));
                return Some(string_of(&name));
            }
            j = j + 1;
        }
        i = i + 1;
    }
    None
}

/// The known application of an entry (see `known_app_of`), from its raw name, its command
/// and its program path.
pub fn known_app_name(raw_name: &str, command: Option<&str>, app_path: Option<&str>) -> (r: Option<String>)
    ensures
        opt_view(r) == known_app_of(raw_name@, opt_str(command), opt_str(app_path)),
{
    let mut joined = chars_of(raw_name);
    match command {
        Some(c) => {
            joined.push(' ');
            push_all(&mut joined, &chars_of(c));
        },
        None => {},
    }
    match app_path {
        Some(p) => {
            joined.push(' ');
            push_all(&mut joined, &chars_of(p));
        },
        None => {},
    }
    assert(joined@ =~= joined_names(raw_name@, opt_str(command), opt_str(app_path)));
    let joined_text = string_of(&joined);
    let lowered = to_lowercase(joined_text.as_str());
    known_app_name_in_lowered(lowered.as_str())
}

/// The name shown for a program path or command when no known application matched.
pub open spec fn name_from_command(raw: Seq<char>, command: Option<Seq<char>>, env: Seq<(Seq<char>, Seq<char>)>) -> Seq<char> {
    match command {
        Some(c) => match exe_path_of(c, env) {
            Some(p) => match file_stem_of(p) {
                Some(st) => clean_name(st),
                None => clean_name(raw),
            },
            None => clean_name(raw),
        },
        None => clean_name(raw),
    }
}

/// The name shown for an entry: a known application; else, when a program path is given,
/// the cleaned version-resource name reported for it, or the cleaned stem of the path;
/// else the cleaned stem of the program that the command runs; else the cleaned raw name.
pub open spec fn friendly_name(
    raw: Seq<char>,
    command: Option<Seq<char>>,
    app_path: Option<Seq<char>>,
    version_name: Option<Seq<char>>,
    env: Seq<(Seq<char>, Seq<char>)>,
) -> Seq<char> {
    match known_app_of(raw, command, app_path) {
        Some(n) => n,
        None => match app_path {
            Some(p) => match version_name {
                Some(v) => clean_name(v),
                None => match file_stem_of(p) {
                    Some(st) => clean_name(st),
                    None => name_from_command(raw, command, env),
                },
            },
            None => name_from_command(raw, command, env),
        },
    }
}

/// How an entry is named, in full: a known application's name wins; else, when a
/// program path is given, the cleaned version-resource name reported for it, or else the
/// cleaned stem of the path; else (or when that path has no stem) the cleaned stem of the
/// program that the command runs; else the cleaned raw name.
pub proof fn lemma_friendly_name_rules(
    raw: Seq<char>,
    command: Option<Seq<char>>,
    app_path: Option<Seq<char>>,
    version_name: Option<Seq<char>>,
    env: Seq<(Seq<char>, Seq<char>)>,
)
    ensures
        known_app_of(raw, command, app_path) matches Some(n) ==> friendly_name(raw, command, app_path, version_name, env)
            == n,
        ({
            &&& known_app_of(raw, command, app_path) is None
            &&& app_path is Some
            &&& version_name is Some
        }) ==> friendly_name(raw, command, app_path, version_name, env) == clean_name(version_name->0),
        ({
            &&& known_app_of(raw, command, app_path) is None
            &&& app_path is Some
            &&& version_name is None
            &&& file_stem_of(app_path->0) is Some
        }) ==> friendly_name(raw, command, app_path, version_name, env) == clean_name(file_stem_of(app_path->0)->0),
        ({
            &&& known_app_of(raw, command, app_path) is None
            &&& (app_path is Some ==> version_name is None && file_stem_of(app_path->0) is None)
            &&& command is Some
            &&& exe_path_of(command->0, env) is Some
            &&& file_stem_of(exe_path_of(command->0, env)->0) is Some
        }) ==> friendly_name(raw, command, app_path, version_name, env) == clean_name(
            file_stem_of(exe_path_of(command->0, env)->0)->0,
        ),
        ({
            &&& known_app_of(raw, command, app_path) is None
            &&& (app_path is Some ==> version_name is None && file_stem_of(app_path->0) is None)
            &&& !(command is Some && exe_path_of(command->0, env) is Some && file_stem_of(exe_path_of(command->0, env)->0)
                is Some)
        }) ==> friendly_name(raw, command, app_path, version_name, env) == clean_name(raw),
{
}

/// The last component of a drive path: for a path `d\f` that starts with a drive such
/// as `C:`, where `f` is a name without separators other than `.` and `..`, the file
/// name is `f`.
pub proof fn lemma_drive_path_file_name(d: Seq<char>, f: Seq<char>)
    requires
        d.len() >= 2,
        d[1] == ':',
        is_drive_letter(d[0]),
        f.len() > 0,
        forall|k: int| 0 <= k < f.len() ==> f[k] != '\\' && f[k] != '/',
        f != seq!['.'],
        f != seq!['.', '.'],
    ensures
        file_name_of(d + seq!['\\'] + f) == Some(f),
{
    let p = d + seq!['\\'] + f;
    assert(!is_verbatim(p));
    assert(prefix_len(p) == 2);
    let t = p.skip(2);
    let n = t.len() as int;
    let b = n - f.len();
    assert(t[b - 1] == '\\');
    assert forall|k: int| b <= k < n implies !is_sep(#[trigger] t[k], false) by {
        assert(t[k] == f[k - b]);
    }
    assert forall|j: int| b <= j <= n implies component_start(t, j, false) == b by {
        lemma_component_start_at(t, j, b);
    }
    assert(t.subrange(b, n) =~= f);
    assert(!is_sep(t[n - 1], false));
    if f.len() == 1 {
        assert(f[0] != '.') by {
            if f[0] == '.' {
                assert(f =~= seq!['.']);
            }
        }
    }
    if f.len() == 2 {
        assert(!(f[0] == '.' && f[1] == '.')) by {
            if f[0] == '.' && f[1] == '.' {
                assert(f =~= seq!['.', '.']);
            }
        }
    }
}

proof fn lemma_component_start_at(t: Seq<char>, j: int, b: int)
    requires
        1 <= b <= j <= t.len(),
        is_sep(t[b - 1], false),
        forall|k: int| b <= k < t.len() ==> !is_sep(#[trigger] t[k], false),
    ensures
        component_start(t, j, false) == b,
    decreases j,
{
    if j > b {
        lemma_component_start_at(t, j - 1, b);
    }
}

/// A file name that is a non-empty name followed by `.lnk` has that name as its stem
/// and `lnk` as its extension.
pub proof fn lemma_shortcut_stem(f: Seq<char>)
    requires
        f.len() > 0,
    ensures
        stem_of(f + ".lnk"@) == f,
        extension_of(f + ".lnk"@) == Some("lnk"@),
{
    reveal_strlit(".lnk");
    reveal_strlit("lnk");
    let n = f + ".lnk"@;
    let m = f.len() as int;
    assert(n[m] == '.' && n[m + 1] == 'l' && n[m + 2] == 'n' && n[m + 3] == 'k');
    assert(last_dot_before(n, n.len() as int) == f.len()) by {
        reveal_with_fuel(last_dot_before, 5);
    }
    assert(n.subrange(0, f.len() as int) =~= f);
    assert(n.subrange(m + 1, n.len() as int) =~= "lnk"@);
}

proof fn lemma_last_dot_at(s: Seq<char>, j: int, m: int)
    requires
        0 <= m < j <= s.len(),
        s[m] == '.',
        forall|k: int| m < k < j ==> s[k] != '.',
    ensures
        last_dot_before(s, j) == m,
    decreases j,
{
    if j > m + 1 {
        lemma_last_dot_at(s, j - 1, m);
    }
}

/// A file name made of a non-empty name, a `.` and a dot-free extension has that name as
/// its stem and that extension.
pub proof fn lemma_name_with_extension(f: Seq<char>, x: Seq<char>)
    requires
        f.len() > 0,
        forall|k: int| 0 <= k < x.len() ==> x[k] != '.',
    ensures
        stem_of(f + seq!['.'] + x) == f,
        extension_of(f + seq!['.'] + x) == Some(x),
{
    let n = f + seq!['.'] + x;
    let m = f.len() as int;
    assert forall|k: int| m < k < n.len() implies n[k] != '.' by {
        assert(n[k] == x[k - m - 1]);
    }
    lemma_last_dot_at(n, n.len() as int, m);
    assert(n.subrange(0, m) =~= f);
    assert(n.subrange(m + 1, n.len() as int) =~= x);
}

/// A Startup-folder shortcut `d\f.lnk` on a drive path, with no known application and
/// no version-resource name, is shown by its cleaned stem `f`, without `.lnk`.
pub proof fn lemma_shortcut_named_by_stem(
    raw: Seq<char>,
    command: Option<Seq<char>>,
    d: Seq<char>,
    f: Seq<char>,
    env: Seq<(Seq<char>, Seq<char>)>,
)
    requires
        d.len() >= 2,
        d[1] == ':',
        is_drive_letter(d[0]),
        f.len() > 0,
        forall|k: int| 0 <= k < f.len() ==> f[k] != '\\' && f[k] != '/',
        known_app_of(raw, command, Some(d + seq!['\\'] + (f + ".lnk"@))) is None,
    ensures
        friendly_name(raw, command, Some(d + seq!['\\'] + (f + ".lnk"@)), None, env) == clean_name(f),
{
    reveal_strlit(".lnk");
    let n = f + ".lnk"@;
    assert forall|k: int| 0 <= k < n.len() implies n[k] != '\\' && n[k] != '/' by {
        if k >= f.len() {
            assert(n[k] == (".lnk"@)[k - f.len()]);
        }
    }
    assert(n != seq!['.']) by {
        assert(n.len() >= 5);
    }
    assert(n != seq!['.', '.']) by {
        assert(n.len() >= 5);
    }
    lemma_drive_path_file_name(d, n);
    lemma_shortcut_stem(f);
}

/// The version-resource name held for an optional program path.
pub open spec fn version_name_of(versions: Seq<(Seq<char>, Seq<char>)>, app_path: Option<Seq<char>>) -> Option<Seq<char>> {
    match app_path {
        Some(p) => env_lookup(versions, p),
        None => None,
    }
}

/// The name shown for an entry (see `friendly_name`), with the version-resource name of
/// `app_path` and the environment variables of `command` taken from `facts`.
pub fn friendly_app_name(
    raw_name: &str,
    command: Option<&str>,
    app_path: Option<&str>,
    facts: &HostFacts,
) -> (r: String)
    ensures
        r@ == friendly_name(
            raw_name@,
            opt_str(command),
            opt_str(app_path),
            version_name_of(facts.version_names@, opt_str(app_path)),
            facts.env@,
        ),
{
    let env = &facts.env;
    match known_app_name(raw_name, command, app_path) {
        Some(n) => return n,
        None => {},
    }
    match app_path {
        Some(p) => {
            match facts.version_names.lookup(&chars_of(p)) {
                Some(v) => return string_of(&clean_chars(&v)),
                None => {},
            }
            match file_stem_chars(&chars_of(p)) {
                Some(st) => return string_of(&clean_chars(&st)),
                None => {},
            }
        },
        None => {},
    }
    string_of(&name_from_command_chars(raw_name, command, env))
}

fn name_from_command_chars(raw_name: &str, command: Option<&str>, env: &Bindings) -> (r: Vec<char>)
    ensures
        r@ == name_from_command(raw_name@, opt_str(command), env@),
{
    match command {
        Some(c) => {
            match executable_path_chars(&chars_of(c), env) {
                Some(p) => {
                    match file_stem_chars(&p) {
                        Some(st) => return clean_chars(&st),
                        None => {},
                    }
                },
                None => {},
            }
        },
        None => {},
    }
    clean_chars(&chars_of(raw_name))
}

} // verus!
