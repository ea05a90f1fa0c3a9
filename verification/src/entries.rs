//! Start-up entries as found on the system: their ids, where they live, and the items
//! that show them.

use vstd::prelude::*;
use crate::command::{exe_path_of, executable_path_from_command, HostFacts};
use crate::model::{StartupItem, StartupSource};
use crate::naming::{extension_chars, extension_of, file_name_chars, file_name_of, friendly_app_name, friendly_name, is_drive_letter, lemma_drive_path_file_name, lemma_name_with_extension, version_name_of};
use crate::records::ItemView;
use crate::risk::{classify_risk, risk_of};
use crate::text::{chars_eq, chars_of, concat_chars, occurs_at_exec, starts_with_seq, string_of};

verus! {

broadcast use vstd::string::group_string_axioms;

/// The per-user `Run` key.
pub open spec fn run_key() -> Seq<char> {
    "Software\\Microsoft\\Windows\\CurrentVersion\\Run"@
}

/// The per-user `Run` key of 32-bit programs.
pub open spec fn run_key_32() -> Seq<char> {
    "Software\\WOW6432Node\\Microsoft\\Windows\\CurrentVersion\\Run"@
}

/// The id prefix of values under `run_key()`.
pub open spec fn registry_prefix() -> Seq<char> {
    "registry"@
}

/// The id prefix of values under `run_key_32()`.
pub open spec fn registry32_prefix() -> Seq<char> {
    "registry32"@
}

/// The id prefix of Startup-folder shortcuts.
pub open spec fn folder_prefix() -> Seq<char> {
    "startup-folder"@
}

/// The id of an entry: its kind's prefix, `:`, and its value or file name.
pub open spec fn entry_id(prefix: Seq<char>, name: Seq<char>) -> Seq<char> {
    prefix + seq![':'] + name
}

/// The key that holds the registry entry `id`: the 32-bit `Run` key for `registry32:`
/// ids, the `Run` key for every other id.
pub open spec fn key_path_for(id: Seq<char>) -> Seq<char> {
    if starts_with_seq(id, "registry32:"@) {
        run_key_32()
    } else {
        run_key()
    }
}

/// The per-user `Run` key.
pub fn run_key_path() -> (r: &'static str)
    ensures
        r@ == run_key(),
{
    "Software\\Microsoft\\Windows\\CurrentVersion\\Run"
}

/// The per-user `Run` key of 32-bit programs.
pub fn run_key_path_32() -> (r: &'static str)
    ensures
        r@ == run_key_32(),
{
    "Software\\WOW6432Node\\Microsoft\\Windows\\CurrentVersion\\Run"
}

/// The key that holds the registry entry `id` (see `key_path_for`).
pub fn registry_key_path_for_id(id: &str) -> (r: &'static str)
    ensures
        r@ == key_path_for(id@),
{
    if occurs_at_exec(&chars_of(id), &chars_of("registry32:"), 0) {
        run_key_path_32()
    } else {
        run_key_path()
    }
}

/// `prefix`, `:` and `name`.
pub fn make_entry_id(prefix: &str, name: &str) -> (r: String)
    ensures
        r@ == entry_id(prefix@, name@),
{
    let mut v = chars_of(prefix);
    v.push(':');
    let r = concat_chars(&v, &chars_of(name));
    string_of(&r)
}

/// The item that shows the value `value_name` of a `Run` key, with id prefix `prefix` and
/// command `command`: its program is the one the command runs, its name the friendly
/// name, its risk that of this name and command; switched on, not yet remembered.
pub open spec fn registry_item_view(
    prefix: Seq<char>,
    value_name: Seq<char>,
    command: Seq<char>,
    versions: Seq<(Seq<char>, Seq<char>)>,
    env: Seq<(Seq<char>, Seq<char>)>,
) -> ItemView {
    let app_path = exe_path_of(command, env);
    let name = friendly_name(value_name, Some(command), app_path, version_name_of(versions, app_path), env);
    let risk = risk_of(name, Some(command));
    ItemView {
        id: entry_id(prefix, value_name),
        name: name,
        raw_name: Some(value_name),
        source: StartupSource::Registry,
        enabled: true,
        command: Some(command),
        path: None,
        app_path: app_path,
        risk_level: risk.0,
        risk_reason: risk.1,
        disabled_at: None,
        remembered: false,
    }
}

/// The item that shows a `Run` key value (see `registry_item_view`).
pub fn registry_item(prefix: &str, value_name: &str, command: &str, facts: &HostFacts) -> (r: StartupItem)
    ensures
        r@ == registry_item_view(prefix@, value_name@, command@, facts.version_names@, facts.env@),
{
    let app_path = executable_path_from_command(command, facts);
    let app_path_str = match &app_path {
        Some(p) => Some(p.as_str()),
        None => None,
    };
    let name = friendly_app_name(value_name, Some(command), app_path_str, facts);
    let (risk_level, risk_reason) = classify_risk(name.as_str(), Some(command));
    StartupItem {
        id: make_entry_id(prefix, value_name),
        name,
        raw_name: Some(value_name.to_string()),
        source: StartupSource::Registry,
        enabled: true,
        command: Some(command.to_string()),
        path: None,
        app_path,
        risk_level,
        risk_reason,
        disabled_at: None,
        remembered: false,
    }
}

/// The item that shows the Startup-folder shortcut `file_name` found at `path`: the path
/// is its command, path and program, its name the friendly name of the file name with
/// that path, its risk that of this name and path; switched on, not yet remembered.
pub open spec fn shortcut_item_view(
    file_name: Seq<char>,
    path: Seq<char>,
    versions: Seq<(Seq<char>, Seq<char>)>,
    env: Seq<(Seq<char>, Seq<char>)>,
) -> ItemView {
    let name = friendly_name(file_name, Some(path), Some(path), version_name_of(versions, Some(path)), env);
    let risk = risk_of(name, Some(path));
    ItemView {
        id: entry_id(folder_prefix(), file_name),
        name: name,
        raw_name: Some(file_name),
        source: StartupSource::StartupFolder,
        enabled: true,
        command: Some(path),
        path: Some(path),
        app_path: Some(path),
        risk_level: risk.0,
        risk_reason: risk.1,
        disabled_at: None,
        remembered: false,
    }
}

/// The item that shows a Startup-folder shortcut (see `shortcut_item_view`).
pub fn shortcut_item(file_name: &str, path: &str, facts: &HostFacts) -> (r: StartupItem)
    ensures
        r@ == shortcut_item_view(file_name@, path@, facts.version_names@, facts.env@),
{
    let name = friendly_app_name(file_name, Some(path), Some(path), facts);
    let (risk_level, risk_reason) = classify_risk(name.as_str(), Some(path));
    StartupItem {
        id: make_entry_id("startup-folder", file_name),
        name,
        raw_name: Some(file_name.to_string()),
        source: StartupSource::StartupFolder,
        enabled: true,
        command: Some(path.to_string()),
        path: Some(path.to_string()),
        app_path: Some(path.to_string()),
        risk_level,
        risk_reason,
        disabled_at: None,
        remembered: false,
    }
}

/// `a` and `b` are equal once ASCII upper case is folded.
pub open spec fn ascii_ci_eq(a: Seq<char>, b: Seq<char>) -> bool {
    a.len() == b.len() && forall|i: int| 0 <= i < a.len() ==> crate::order::fold_ascii_char(#[trigger] a[i]) == crate::order::fold_ascii_char(b[i])
}

/// The path names a shortcut: the extension of its file name is `lnk` in any ASCII case.
pub open spec fn is_shortcut(path: Seq<char>) -> bool {
    match file_name_of(path) {
        Some(n) => match extension_of(n) {
            Some(e) => ascii_ci_eq(e, "lnk"@),
            None => false,
        },
        None => false,
    }
}

/// Whether `path` names a shortcut (see `is_shortcut`).
pub fn is_shortcut_path(path: &str) -> (r: bool)
    ensures
        r == is_shortcut(path@),
{
    let lnk = chars_of("lnk");
    match file_name_chars(&chars_of(path)) {
        Some(n) => match extension_chars(&n) {
            Some(e) => {
                let a = crate::order::fold_ascii_chars(&e);
                let b = crate::order::fold_ascii_chars(&lnk);
                let r = chars_eq(&a, &b);
                proof {
                    if r {
                        assert forall|i: int| 0 <= i < e@.len() implies crate::order::fold_ascii_char(#[trigger] e@[i])
                            == crate::order::fold_ascii_char(lnk@[i]) by {
                            assert(a@[i] == b@[i]);
                        }
                    } else if e@.len() == lnk@.len() {
                        assert(!(a@ =~= b@));
                    }
                }
                r
            },
            None => false,
        },
        None => false,
    }
}

/// A file `d\f.x` on a drive path (`f` a non-empty name and `x` a non-empty, dot-free
/// extension, neither holding a separator) is a shortcut exactly when `x` is `lnk` in any ASCII
/// letter case.
pub proof fn lemma_shortcut_by_extension(d: Seq<char>, f: Seq<char>, x: Seq<char>)
    requires
        d.len() >= 2,
        d[1] == ':',
        is_drive_letter(d[0]),
        f.len() > 0,
        x.len() > 0,
        forall|k: int| 0 <= k < f.len() ==> f[k] != '\\' && f[k] != '/',
        forall|k: int| 0 <= k < x.len() ==> x[k] != '\\' && x[k] != '/' && x[k] != '.',
    ensures
        is_shortcut(d + seq!['\\'] + (f + seq!['.'] + x)) <==> (x.len() == 3 && (x[0] == 'l' || x[0] == 'L') && (x[1]
            == 'n' || x[1] == 'N') && (x[2] == 'k' || x[2] == 'K')),
{
    reveal_strlit("lnk");
    let n = f + seq!['.'] + x;
    assert forall|k: int| 0 <= k < n.len() implies n[k] != '\\' && n[k] != '/' by {
        if k > f.len() {
            assert(n[k] == x[k - f.len() - 1]);
        }
    }
    assert(n != seq!['.']) by {
        assert(n.len() >= 2);
    }
    assert(n != seq!['.', '.']) by {
        assert(n.len() >= 3);
    }
    lemma_drive_path_file_name(d, n);
    lemma_name_with_extension(f, x);
    if x.len() == 3 {
        let l = "lnk"@;
        assert(l[0] == 'l' && l[1] == 'n' && l[2] == 'k');
        if ascii_ci_eq(x, l) {
            assert(crate::order::fold_ascii_char(x[0]) == crate::order::fold_ascii_char(l[0]));
            assert(crate::order::fold_ascii_char(x[1]) == crate::order::fold_ascii_char(l[1]));
            assert(crate::order::fold_ascii_char(x[2]) == crate::order::fold_ascii_char(l[2]));
        }
        if (x[0] == 'l' || x[0] == 'L') && (x[1] == 'n' || x[1] == 'N') && (x[2] == 'k' || x[2] == 'K') {
            assert forall|i: int| 0 <= i < x.len() implies crate::order::fold_ascii_char(#[trigger] x[i])
                == crate::order::fold_ascii_char(l[i]) by {
                assert(i == 0 || i == 1 || i == 2);
            }
        }
    }
}

} // verus!
