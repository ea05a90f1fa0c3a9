//! The data that the start-up manager shows and remembers.

use vstd::prelude::*;
use crate::text::{chars_of, chars_eq};

verus! {

/// Where a start-up entry lives.
#[derive(Debug, Clone, Copy, PartialEq, Eq, Structural)]
pub enum StartupSource {
    /// A value under a per-user `Run` registry key.
    Registry,
    /// A shortcut in the per-user Startup folder.
    StartupFolder,
}

/// How careful the user should be before switching an entry off.
#[derive(Debug, Clone, Copy, PartialEq, Eq, Structural)]
pub enum RiskLevel {
    /// Nothing notable.
    Normal,
    /// Looks like a vendor or security component: better kept.
    Keep,
    /// Starts through a command interpreter or script host: unclear what it runs.
    Unknown,
}

/// One start-up entry as the user sees it.
#[derive(Debug, Clone)]
pub struct StartupItem {
    pub id: String,
    pub name: String,
    pub raw_name: Option<String>,
    pub source: StartupSource,
    pub enabled: bool,
    pub command: Option<String>,
    pub path: Option<String>,
    pub app_path: Option<String>,
    pub risk_level: RiskLevel,
    pub risk_reason: Option<String>,
    pub disabled_at: Option<String>,
    pub remembered: bool,
}

/// One remembered entry of the history store.
#[derive(Debug, Clone)]
pub struct StartupRecord {
    pub id: String,
    pub source: StartupSource,
    pub name: String,
    pub raw_name: Option<String>,
    pub value_name: Option<String>,
    pub command: Option<String>,
    pub original_path: Option<String>,
    pub backup_path: Option<String>,
    pub app_path: Option<String>,
    pub disabled_at: Option<String>,
    pub last_seen_at: Option<String>,
    pub created_at: String,
    pub updated_at: String,
}

/// An entry of the older JSON state file, which only listed disabled entries.
#[derive(Debug, Clone)]
pub enum DisabledRecord {
    Registry {
        id: String,
        name: String,
        value_name: String,
        command: String,
        disabled_at: String,
    },
    StartupFolder {
        id: String,
        name: String,
        original_path: String,
        backup_path: String,
        disabled_at: String,
    },
}

/// The library's error: a message for the user.
#[derive(Debug, Clone)]
pub enum FreshStartError {
    Message(String),
}

/// The text of an optional string.
pub open spec fn opt_view(o: Option<String>) -> Option<Seq<char>> {
    match o {
        Some(s) => Some(s@),
        None => None,
    }
}

/// `a` unless it is absent, then `b`.
pub open spec fn or_else<T>(a: Option<T>, b: Option<T>) -> Option<T> {
    match a {
        Some(x) => Some(x),
        None => b,
    }
}

/// A copy of an optional string.
pub fn clone_opt(o: &Option<String>) -> (r: Option<String>)
    ensures
        opt_view(r) == opt_view(*o),
{
    match o {
        Some(s) => Some(s.clone()),
        None => None,
    }
}

/// An error that carries `text`.
pub fn message(text: &str) -> (e: FreshStartError)
    ensures
        e matches FreshStartError::Message(m) && m@ == text@,
{
    FreshStartError::Message(text.to_string())
}

/// The text under which a source is stored.
pub open spec fn source_text(source: StartupSource) -> Seq<char> {
    match source {
        StartupSource::Registry => "registry"@,
        StartupSource::StartupFolder => "startup-folder"@,
    }
}

/// The text under which `source` is stored.
pub fn source_to_str(source: &StartupSource) -> (r: &'static str)
    ensures
        r@ == source_text(*source),
{
    match source {
        StartupSource::Registry => "registry",
        StartupSource::StartupFolder => "startup-folder",
    }
}

/// The source that a stored text names: `startup-folder`, and anything else is the registry.
pub open spec fn source_named(text: Seq<char>) -> StartupSource {
    if text == "startup-folder"@ {
        StartupSource::StartupFolder
    } else {
        StartupSource::Registry
    }
}

/// The source that a stored text names (see `source_named`).
pub fn str_to_source(source: &str) -> (r: StartupSource)
    ensures
        r == source_named(source@),
{
    let folder = chars_of("startup-folder");
    if chars_eq(&chars_of(source), &folder) {
        StartupSource::StartupFolder
    } else {
        StartupSource::Registry
    }
}

/// Reading back what `source_to_str` stored gives the same source.
pub proof fn lemma_source_text_round_trip(source: StartupSource)
    ensures
        source_named(source_text(source)) == source,
{
    reveal_strlit("registry");
    reveal_strlit("startup-folder");
    if source is Registry {
        assert(("registry"@)[0] != ("startup-folder"@)[0]);
    }
}

} // verus!
