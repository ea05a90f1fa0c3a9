//! Risk hints: entries that start through a command interpreter or script host, and
//! entries that look like vendor or security components.

use vstd::prelude::*;
use crate::model::{opt_view, RiskLevel};
use crate::naming::opt_str;
use crate::text::{
    chars_of, concat_chars, contains, contains_seq, find_from, occurs_at, string_of, to_lowercase,
    unicode_lowercase,
};

verus! {

broadcast use vstd::string::group_string_axioms;

/// A character that may stand just before an executable's name in a command.
pub open spec fn is_boundary_before(c: char) -> bool {
    c == '\\' || c == '/' || c == '"' || c == '\'' || c == ' ' || c == '\t' || c == '\r' || c
        == '\n'
}

/// A character that may stand just after an executable's name in a command.
pub open spec fn is_boundary_after(c: char) -> bool {
    is_boundary_before(c) || c == '-'
}

/// `char` test of `is_boundary_before`.
pub fn is_executable_boundary_before(ch: char) -> (r: bool)
    ensures
        r == is_boundary_before(ch),
{
    ch == '\\' || ch == '/' || ch == '"' || ch == '\'' || ch == ' ' || ch == '\t' || ch == '\r'
        || ch == '\n'
}

/// `char` test of `is_boundary_after`.
pub fn is_executable_boundary_after(ch: char) -> (r: bool)
    ensures
        r == is_boundary_after(ch),
{
    is_executable_boundary_before(ch) || ch == '-'
}

/// `e` occurs in `s` at `i` as a whole name: at the start or after a boundary, and at
/// the end or before a boundary.
pub open spec fn whole_at(s: Seq<char>, e: Seq<char>, i: int) -> bool {
    &&& occurs_at(s, e, i)
    &&& (i == 0 || is_boundary_before(s[i - 1]))
    &&& (i + e.len() == s.len() || is_boundary_after(s[i + e.len()]))
}

/// The first index at or after `i` where `e` occurs in `s`, or -1.
pub open spec fn occurrence_from(s: Seq<char>, e: Seq<char>, i: int) -> int
    decreases s.len() + 1 - i,
{
    if i < 0 || i > s.len() {
        -1
    } else if occurs_at(s, e, i) {
        i
    } else {
        occurrence_from(s, e, i + 1)
    }
}

pub proof fn lemma_occurrence_from(s: Seq<char>, e: Seq<char>, i: int)
    requires
        0 <= i,
    ensures
        occurrence_from(s, e, i) == -1 || (i <= occurrence_from(s, e, i) && occurs_at(
            s,
            e,
            occurrence_from(s, e, i),
        )),
        occurrence_from(s, e, i) == -1 ==> forall|j: int| i <= j ==> !occurs_at(s, e, j),
        forall|j: int| i <= j < occurrence_from(s, e, i) ==> !occurs_at(s, e, j),
    decreases s.len() + 1 - i,
{
    if i <= s.len() && !occurs_at(s, e, i) {
        lemma_occurrence_from(s, e, i + 1);
    }
}

/// Scanning `s` from index `start` occurrence by occurrence (each search resuming after
/// the previous occurrence), some occurrence of `e` is a whole name.
pub open spec fn includes_from(s: Seq<char>, e: Seq<char>, start: int) -> bool
    decreases s.len() + 1 - start,
{
    if e.len() == 0 || start < 0 || start > s.len() {
        false
    } else {
        let i = occurrence_from(s, e, start);
        proof {
            lemma_occurrence_from(s, e, start);
        }
        if i < 0 {
            false
        } else if whole_at(s, e, i) {
            true
        } else {
            includes_from(s, e, i + e.len())
        }
    }
}

/// Whether `command` runs `executable` (see `includes_from`): the name must be preceded
/// by the start or a path separator, quote or whitespace, and followed by the end, such a
/// character or `-`. `hkcmd.exe` does not count as `cmd.exe`.
pub fn includes_executable(command: &Vec<char>, executable: &Vec<char>) -> (r: bool)
    requires
        executable@.len() > 0,
    ensures
        r == includes_from(command@, executable@, 0),
{
    let mut start: usize = 0;
    loop
        invariant
            start <= command.len(),
            executable@.len() > 0,
            includes_from(command@, executable@, 0) == includes_from(command@, executable@, start as int),
        decreases command.len() + 1 - start,
    {
        match find_from(command, executable, start) {
            None => {
                proof {
                    lemma_occurrence_from(command@, executable@, start as int);
                    assert(occurrence_from(command@, executable@, start as int) == -1);
                }
                return false;
            },
            Some(absolute) => {
                proof {
                    lemma_occurrence_from(command@, executable@, start as int);
                    assert(occurrence_from(command@, executable@, start as int) == absolute);
                }
                let before_ok = absolute == 0 || is_executable_boundary_before(command[absolute - 1]);
                let after_index = absolute + executable.len();
                let after_ok = after_index == command.len() || is_executable_boundary_after(
                    command[after_index],
                );
                if before_ok && after_ok {
                    return true;
                }
                start = after_index;
            },
        }
    }
}

/// No proper suffix of `e` is also a prefix of it, so two occurrences cannot overlap.
pub open spec fn never_overlaps(e: Seq<char>) -> bool {
    forall|d: int| 0 < d < e.len() ==> #[trigger] e.subrange(d, e.len() as int) != e.subrange(0, e.len() - d)
}

proof fn lemma_no_overlap(s: Seq<char>, e: Seq<char>, i: int, j: int)
    requires
        never_overlaps(e),
        occurs_at(s, e, i),
        i < j < i + e.len(),
    ensures
        !occurs_at(s, e, j),
{
    if occurs_at(s, e, j) {
        let d = j - i;
        assert(e.subrange(d, e.len() as int) =~= e.subrange(0, e.len() - d)) by {
            assert forall|k: int| 0 <= k < e.len() - d implies e.subrange(d, e.len() as int)[k] == e.subrange(
                0,
                e.len() - d,
            )[k] by {
                assert(s.subrange(i, i + e.len())[d + k] == s[j + k]);
                assert(s.subrange(j, j + e.len())[k] == s[j + k]);
            }
        }
    }
}

proof fn lemma_includes_from_whole(s: Seq<char>, e: Seq<char>, start: int)
    requires
        e.len() > 0,
        never_overlaps(e),
        0 <= start <= s.len(),
        start == 0 || (start >= e.len() && occurs_at(s, e, start - e.len())),
    ensures
        includes_from(s, e, start) <==> exists|i: int| start <= i && #[trigger] whole_at(s, e, i),
    decreases s.len() + 1 - start,
{
    lemma_occurrence_from(s, e, start);
    let i = occurrence_from(s, e, start);
    if i >= 0 && !whole_at(s, e, i) {
        if i + e.len() <= s.len() {
            lemma_includes_from_whole(s, e, i + e.len());
        }
        assert forall|j: int| start <= j && #[trigger] whole_at(s, e, j) implies i + e.len() <= j by {
            if j < i + e.len() {
                if j > i {
                    lemma_no_overlap(s, e, i, j);
                }
            }
        }
    }
}

/// For a name that cannot overlap itself (as `cmd.exe`, `powershell.exe`, `rundll32.exe`
/// and `wscript.exe` cannot), `includes_from` says exactly whether the name occurs
/// somewhere in the command as a whole name.
pub proof fn lemma_includes_means_whole_name(s: Seq<char>, e: Seq<char>)
    requires
        e.len() > 0,
        never_overlaps(e),
    ensures
        includes_from(s, e, 0) <==> exists|i: int| whole_at(s, e, i),
{
    lemma_includes_from_whole(s, e, 0);
    assert forall|i: int| whole_at(s, e, i) implies 0 <= i by {}
}

/// The executables whose presence in a command makes its start-up method unclear.
pub open spec fn risky_executables() -> Seq<Seq<char>> {
    seq!["cmd.exe"@, "powershell.exe"@, "rundll32.exe"@, "wscript.exe"@]
}

/// The words whose presence in a name suggests keeping the entry.
pub open spec fn keep_words() -> Seq<Seq<char>> {
    seq!["lenovo"@, "intel"@, "realtek"@, "defender"@, "security"@, "hotkeys"@]
}

/// The first of `risky_executables()[i..]` that the lower-cased command runs.
pub open spec fn first_risky_from(lower_command: Seq<char>, i: int) -> Option<Seq<char>>
    decreases 4 - i,
{
    if i < 0 || i >= 4 {
        None
    } else if includes_from(lower_command, risky_executables()[i], 0) {
        Some(risky_executables()[i])
    } else {
        first_risky_from(lower_command, i + 1)
    }
}

/// The first of `keep_words()[i..]` that occurs in the lower-cased name.
pub open spec fn first_keep_word_from(lower_name: Seq<char>, i: int) -> Option<Seq<char>>
    decreases 6 - i,
{
    if i < 0 || i >= 6 {
        None
    } else if contains_seq(lower_name, keep_words()[i]) {
        Some(keep_words()[i])
    } else {
        first_keep_word_from(lower_name, i + 1)
    }
}

/// The risk of an entry given its lower-cased name and command: a risky executable in
/// the command makes it `Unknown`; else a keep word in the name makes it `Keep`; else it
/// is `Normal`. The reason names what matched.
pub open spec fn risk_of_lowered(lower_name: Seq<char>, lower_command: Seq<char>) -> (RiskLevel, Option<Seq<char>>) {
    match first_risky_from(lower_command, 0) {
        Some(e) => (RiskLevel::Unknown, Some("命令包含 "@ + e + "，启动方式不明确"@)),
        None => match first_keep_word_from(lower_name, 0) {
            Some(w) => (RiskLevel::Keep, Some("名称包含 "@ + w + "，建议保留"@)),
            None => (RiskLevel::Normal, None),
        },
    }
}

/// The risk of an entry from its name and command: both are lower-cased (an absent
/// command counts as empty) and judged as `risk_of_lowered` says.
pub open spec fn risk_of(name: Seq<char>, command: Option<Seq<char>>) -> (RiskLevel, Option<Seq<char>>) {
    let c = match command {
        Some(c) => c,
        None => Seq::empty(),
    };
    risk_of_lowered(unicode_lowercase(name), unicode_lowercase(c))
}

fn risky_executable(i: usize) -> (r: Vec<char>)
    requires
        i < 4,
    ensures
        r@ == risky_executables()[i as int],
        r@.len() > 0,
{
    proof {
        reveal_strlit("cmd.exe");
        reveal_strlit("powershell.exe");
        reveal_strlit("rundll32.exe");
        reveal_strlit("wscript.exe");
    }
    if i == 0 {
        chars_of("cmd.exe")
    } else if i == 1 {
        chars_of("powershell.exe")
    } else if i == 2 {
        chars_of("rundll32.exe")
    } else {
        chars_of("wscript.exe")
    }
}

fn keep_word(i: usize) -> (r: Vec<char>)
    requires
        i < 6,
    ensures
        r@ == keep_words()[i as int],
{
    if i == 0 {
        chars_of("lenovo")
    } else if i == 1 {
        chars_of("intel")
    } else if i == 2 {
        chars_of("realtek")
    } else if i == 3 {
        chars_of("defender")
    } else if i == 4 {
        chars_of("security")
    } else {
        chars_of("hotkeys")
    }
}

proof fn lemma_unique_first_char(e: Seq<char>)
    requires
        e.len() > 0,
        forall|d: int| 0 < d < e.len() ==> #[trigger] e[d] != e[0],
    ensures
        never_overlaps(e),
{
    assert forall|d: int| 0 < d < e.len() implies #[trigger] e.subrange(d, e.len() as int) != e.subrange(0, e.len() - d) by {
        assert(e.subrange(d, e.len() as int)[0] == e[d]);
        assert(e.subrange(0, e.len() - d)[0] == e[0]);
    }
}

proof fn lemma_first_risky(c: Seq<char>, i: int)
    requires
        0 <= i <= 4,
    ensures
        first_risky_from(c, i) is Some <==> exists|k: int| i <= k < 4 && includes_from(c, #[trigger] risky_executables()[k], 0),
    decreases 4 - i,
{
    if i < 4 {
        lemma_first_risky(c, i + 1);
    }
}

/// A command is judged to start in an unclear way exactly when one of `cmd.exe`,
/// `powershell.exe`, `rundll32.exe` or `wscript.exe` occurs in its lower-cased text as a
/// whole name: at the start or after a path separator, quote or whitespace, and at the end
/// or before such a character or `-`.
pub proof fn lemma_unknown_iff_interpreter(lower_name: Seq<char>, lower_command: Seq<char>)
    ensures
        risk_of_lowered(lower_name, lower_command).0 == RiskLevel::Unknown <==> exists|k: int, i: int|
            0 <= k < 4 && #[trigger] whole_at(lower_command, risky_executables()[k], i),
{
    reveal_strlit("cmd.exe");
    reveal_strlit("powershell.exe");
    reveal_strlit("rundll32.exe");
    reveal_strlit("wscript.exe");
    lemma_first_risky(lower_command, 0);
    assert forall|k: int| 0 <= k < 4 implies (includes_from(lower_command, #[trigger] risky_executables()[k], 0)
        <==> exists|i: int| whole_at(lower_command, risky_executables()[k], i)) by {
        let e = risky_executables()[k];
        assert(e.len() > 0);
        lemma_unique_first_char(e);
        lemma_includes_means_whole_name(lower_command, e);
    }
}

/// An executable's name stands whole at `i` exactly when it occurs there, is at the
/// start or just after `\`, `/`, a quote, an apostrophe, a space, a tab or a line break,
/// and is at the end or just before one of those or `-`.
pub proof fn lemma_whole_name_boundaries(s: Seq<char>, e: Seq<char>, i: int)
    ensures
        whole_at(s, e, i) <==> ({
            &&& 0 <= i && i + e.len() <= s.len() && s.subrange(i, i + e.len()) == e
            &&& i == 0 || s[i - 1] == '\\' || s[i - 1] == '/' || s[i - 1] == '"' || s[i - 1] == '\'' || s[i - 1] == ' '
                || s[i - 1] == '\t' || s[i - 1] == '\r' || s[i - 1] == '\n'
            &&& i + e.len() == s.len() || s[i + e.len()] == '\\' || s[i + e.len()] == '/' || s[i + e.len()] == '"'
                || s[i + e.len()] == '\'' || s[i + e.len()] == ' ' || s[i + e.len()] == '\t' || s[i + e.len()] == '\r'
                || s[i + e.len()] == '\n' || s[i + e.len()] == '-'
        }),
{
}

/// How an entry's risk is judged, in full, from its lower-cased name `n` and command
/// `c`: it is `Unknown` when the command runs `cmd.exe`, `powershell.exe`,
/// `rundll32.exe` or `wscript.exe` (the first of these that it runs is named in the
/// reason); else `Keep` when the name contains `lenovo`, `intel`, `realtek`, `defender`,
/// `security` or `hotkeys` (the first of these it contains is named); else `Normal`,
/// with no reason.
pub proof fn lemma_risk_rules(n: Seq<char>, c: Seq<char>)
    ensures
        risk_of_lowered(n, c) == (if exists|i: int| whole_at(c, "cmd.exe"@, i) {
            (RiskLevel::Unknown, Some("命令包含 "@ + "cmd.exe"@ + "，启动方式不明确"@))
        } else if exists|i: int| whole_at(c, "powershell.exe"@, i) {
            (RiskLevel::Unknown, Some("命令包含 "@ + "powershell.exe"@ + "，启动方式不明确"@))
        } else if exists|i: int| whole_at(c, "rundll32.exe"@, i) {
            (RiskLevel::Unknown, Some("命令包含 "@ + "rundll32.exe"@ + "，启动方式不明确"@))
        } else if exists|i: int| whole_at(c, "wscript.exe"@, i) {
            (RiskLevel::Unknown, Some("命令包含 "@ + "wscript.exe"@ + "，启动方式不明确"@))
        } else if contains_seq(n, "lenovo"@) {
            (RiskLevel::Keep, Some("名称包含 "@ + "lenovo"@ + "，建议保留"@))
        } else if contains_seq(n, "intel"@) {
            (RiskLevel::Keep, Some("名称包含 "@ + "intel"@ + "，建议保留"@))
        } else if contains_seq(n, "realtek"@) {
            (RiskLevel::Keep, Some("名称包含 "@ + "realtek"@ + "，建议保留"@))
        } else if contains_seq(n, "defender"@) {
            (RiskLevel::Keep, Some("名称包含 "@ + "defender"@ + "，建议保留"@))
        } else if contains_seq(n, "security"@) {
            (RiskLevel::Keep, Some("名称包含 "@ + "security"@ + "，建议保留"@))
        } else if contains_seq(n, "hotkeys"@) {
            (RiskLevel::Keep, Some("名称包含 "@ + "hotkeys"@ + "，建议保留"@))
        } else {
            (RiskLevel::Normal, None)
        }),
{
    reveal_strlit("cmd.exe");
    reveal_strlit("powershell.exe");
    reveal_strlit("rundll32.exe");
    reveal_strlit("wscript.exe");
    assert forall|k: int| 0 <= k < 4 implies (includes_from(c, #[trigger] risky_executables()[k], 0)
        <==> exists|i: int| whole_at(c, risky_executables()[k], i)) by {
        let e = risky_executables()[k];
        assert(e.len() > 0);
        lemma_unique_first_char(e);
        lemma_includes_means_whole_name(c, e);
    }
    assert(includes_from(c, risky_executables()[0], 0) <==> exists|i: int| whole_at(c, "cmd.exe"@, i));
    assert(includes_from(c, risky_executables()[1], 0) <==> exists|i: int| whole_at(c, "powershell.exe"@, i));
    assert(includes_from(c, risky_executables()[2], 0) <==> exists|i: int| whole_at(c, "rundll32.exe"@, i));
    assert(includes_from(c, risky_executables()[3], 0) <==> exists|i: int| whole_at(c, "wscript.exe"@, i));
    reveal_with_fuel(first_risky_from, 5);
    reveal_with_fuel(first_keep_word_from, 7);
}

/// The risk of an entry from its already lower-cased name and command (see
/// `risk_of_lowered`).
pub fn classify_lowered(lower_name: &str, lower_command: &str) -> (r: (RiskLevel, Option<String>))
    ensures
        (r.0, opt_view(r.1)) == risk_of_lowered(lower_name@, lower_command@),
{
    let command = chars_of(lower_command);
    let mut i: usize = 0;
    while i < 4
        invariant
            i <= 4,
            command@ == lower_command@,
            first_risky_from(lower_command@, 0) == first_risky_from(lower_command@, i as int),
        decreases 4 - i,
    {
        let entry = risky_executable(i);
        if includes_executable(&command, &entry) {
            let reason = concat_chars(&concat_chars(&chars_of("命令包含 "), &entry), &chars_of(
                "，启动方式不明确",
            ));
            return (RiskLevel::Unknown, Some(string_of(&reason)));
        }
        i = i + 1;
    }
    let name = chars_of(lower_name);
    let mut k: usize = 0;
    while k < 6
        invariant
            k <= 6,
            name@ == lower_name@,
            first_risky_from(lower_command@, 0) is None,
            first_keep_word_from(lower_name@, 0) == first_keep_word_from(lower_name@, k as int),
        decreases 6 - k,
    {
        let entry = keep_word(k);
        if contains(&name, &entry) {
            let reason = concat_chars(&concat_chars(&chars_of("名称包含 "), &entry), &chars_of(
                "，建议保留",
            ));
            return (RiskLevel::Keep, Some(string_of(&reason)));
        }
        k = k + 1;
    }
    (RiskLevel::Normal, None)
}

/// The risk of an entry from its name and command (see `risk_of`).
pub fn classify_risk(name: &str, command: Option<&str>) -> (r: (RiskLevel, Option<String>))
    ensures
        (r.0, opt_view(r.1)) == risk_of(name@, opt_str(command)),
{
    let lower_command = match command {
        Some(c) => to_lowercase(c),
        None => to_lowercase(""),
    };
    proof {
        reveal_strlit("");
        assert(""@ =~= Seq::<char>::empty());
    }
    let lower_name = to_lowercase(name);
    classify_lowered(lower_name.as_str(), lower_command.as_str())
}

} // verus!
