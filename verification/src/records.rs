//! The contents of items and remembered rows, and the items shown for remembered
//! entries.

use vstd::prelude::*;
use crate::command::HostFacts;
use crate::model::{clone_opt, opt_view, or_else, RiskLevel, StartupItem, StartupRecord, StartupSource};
use crate::naming::{friendly_app_name, friendly_name, opt_str, version_name_of};
use crate::risk::{classify_risk, risk_of};

verus! {

broadcast use vstd::string::group_string_axioms;

/// The content of a `StartupItem`.
pub struct ItemView {
    pub id: Seq<char>,
    pub name: Seq<char>,
    pub raw_name: Option<Seq<char>>,
    pub source: StartupSource,
    pub enabled: bool,
    pub command: Option<Seq<char>>,
    pub path: Option<Seq<char>>,
    pub app_path: Option<Seq<char>>,
    pub risk_level: RiskLevel,
    pub risk_reason: Option<Seq<char>>,
    pub disabled_at: Option<Seq<char>>,
    pub remembered: bool,
}

impl View for StartupItem {
    type V = ItemView;

    open spec fn view(&self) -> ItemView {
        ItemView {
            id: self.id@,
            name: self.name@,
            raw_name: opt_view(self.raw_name),
            source: self.source,
            enabled: self.enabled,
            command: opt_view(self.command),
            path: opt_view(self.path),
            app_path: opt_view(self.app_path),
            risk_level: self.risk_level,
            risk_reason: opt_view(self.risk_reason),
            disabled_at: opt_view(self.disabled_at),
            remembered: self.remembered,
        }
    }
}

/// The content of a `StartupRecord`.
pub struct RecordView {
    pub id: Seq<char>,
    pub source: StartupSource,
    pub name: Seq<char>,
    pub raw_name: Option<Seq<char>>,
    pub value_name: Option<Seq<char>>,
    pub command: Option<Seq<char>>,
    pub original_path: Option<Seq<char>>,
    pub backup_path: Option<Seq<char>>,
    pub app_path: Option<Seq<char>>,
    pub disabled_at: Option<Seq<char>>,
    pub last_seen_at: Option<Seq<char>>,
    pub created_at: Seq<char>,
    pub updated_at: Seq<char>,
}

impl View for StartupRecord {
    type V = RecordView;

    open spec fn view(&self) -> RecordView {
        RecordView {
            id: self.id@,
            source: self.source,
            name: self.name@,
            raw_name: opt_view(self.raw_name),
            value_name: opt_view(self.value_name),
            command: opt_view(self.command),
            original_path: opt_view(self.original_path),
            backup_path: opt_view(self.backup_path),
            app_path: opt_view(self.app_path),
            disabled_at: opt_view(self.disabled_at),
            last_seen_at: opt_view(self.last_seen_at),
            created_at: self.created_at@,
            updated_at: self.updated_at@,
        }
    }
}

/// A copy of a record.
pub fn clone_record(r: &StartupRecord) -> (c: StartupRecord)
    ensures
        c@ == r@,
{
    StartupRecord {
        id: r.id.clone(),
        source: r.source,
        name: r.name.clone(),
        raw_name: clone_opt(&r.raw_name),
        value_name: clone_opt(&r.value_name),
        command: clone_opt(&r.command),
        original_path: clone_opt(&r.original_path),
        backup_path: clone_opt(&r.backup_path),
        app_path: clone_opt(&r.app_path),
        disabled_at: clone_opt(&r.disabled_at),
        last_seen_at: clone_opt(&r.last_seen_at),
        created_at: r.created_at.clone(),
        updated_at: r.updated_at.clone(),
    }
}

/// The item shown for an entry that is present on the system, with what the history
/// remembers of it: the remembered name, the remembered raw name if any, its own program
/// path else the remembered one, not disabled, remembered when it was seen before, and
/// the risk of the remembered name with its command (else its path).
pub open spec fn enriched(item: ItemView, record: RecordView) -> ItemView {
    let risk = risk_of(record.name, or_else(item.command, item.path));
    ItemView {
        name: record.name,
        raw_name: or_else(record.raw_name, item.raw_name),
        disabled_at: None,
        remembered: record.last_seen_at is Some,
        app_path: or_else(item.app_path, record.app_path),
        risk_level: risk.0,
        risk_reason: risk.1,
        ..item
    }
}

fn or_clone(a: &Option<String>, b: Option<String>) -> (r: Option<String>)
    ensures
        opt_view(r) == or_else(opt_view(*a), opt_view(b)),
{
    match a {
        Some(x) => Some(x.clone()),
        None => b,
    }
}

fn as_opt_str(o: &Option<String>) -> (r: Option<&str>)
    ensures
        opt_str(r) == opt_view(*o),
{
    match o {
        Some(s) => Some(s.as_str()),
        None => None,
    }
}

/// The item shown for an entry that is present (see `enriched`).
pub fn enrich_active_item(item: StartupItem, record: &StartupRecord) -> (r: StartupItem)
    ensures
        r@ == enriched(item@, record@),
{
    let mut item = item;
    item.name = record.name.clone();
    item.raw_name = or_clone(&record.raw_name, item.raw_name);
    item.disabled_at = None;
    item.remembered = record.last_seen_at.is_some();
    if item.app_path.is_none() {
        item.app_path = clone_opt(&record.app_path);
    }
    let shown = match &item.command {
        Some(c) => Some(c.as_str()),
        None => as_opt_str(&item.path),
    };
    let (risk_level, risk_reason) = classify_risk(item.name.as_str(), shown);
    item.risk_level = risk_level;
    item.risk_reason = risk_reason;
    item
}

/// The item shown for a remembered entry that is no longer present: switched off and
/// remembered, with the remembered command (else original path) as its command, a
/// friendly name worked out from the raw name (else the remembered name), that command
/// and the remembered program path, and the risk of the remembered name with that command.
pub open spec fn disabled_item(record: RecordView, versions: Seq<(Seq<char>, Seq<char>)>, env: Seq<(Seq<char>, Seq<char>)>) -> ItemView {
    let command = or_else(record.command, record.original_path);
    let raw = match record.raw_name {
        Some(r) => r,
        None => record.name,
    };
    let risk = risk_of(record.name, command);
    ItemView {
        id: record.id,
        name: friendly_name(raw, command, record.app_path, version_name_of(versions, record.app_path), env),
        raw_name: record.raw_name,
        source: record.source,
        enabled: false,
        command: command,
        path: record.original_path,
        app_path: record.app_path,
        risk_level: risk.0,
        risk_reason: risk.1,
        disabled_at: record.disabled_at,
        remembered: true,
    }
}

/// The item shown for a remembered entry that is no longer present (see `disabled_item`).
pub fn record_to_disabled_item(record: &StartupRecord, facts: &HostFacts) -> (r: StartupItem)
    ensures
        r@ == disabled_item(record@, facts.version_names@, facts.env@),
{
    let command = or_clone(&record.command, clone_opt(&record.original_path));
    let raw_name = match &record.raw_name {
        Some(r) => r.as_str(),
        None => record.name.as_str(),
    };
    let name = friendly_app_name(raw_name, as_opt_str(&command), as_opt_str(&record.app_path), facts);
    let (risk_level, risk_reason) = classify_risk(record.name.as_str(), as_opt_str(&command));
    StartupItem {
        id: record.id.clone(),
        name,
        raw_name: clone_opt(&record.raw_name),
        source: record.source,
        enabled: false,
        command,
        path: clone_opt(&record.original_path),
        app_path: clone_opt(&record.app_path),
        risk_level,
        risk_reason,
        disabled_at: clone_opt(&record.disabled_at),
        remembered: true,
    }
}

} // verus!
