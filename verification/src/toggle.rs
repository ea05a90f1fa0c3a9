//! Switching a start-up entry off or back on.
//!
//! The steps that touch the registry, the file system or the clock are performed by the
//! caller; the decisions between them are taken here. `set_startup_enabled` starts a
//! `ToggleMachine`; the caller then feeds `ToggleMachine::step` the outcome of each
//! action it asked for, starting with `ToggleEvent::Begin`, until it is asked to
//! `Finish`. The history store is updated on the way.

use vstd::prelude::*;
use crate::command::{exe_path_of, executable_path_from_command, Bindings, HostFacts};
use crate::entries::{entry_id, folder_prefix, key_path_for, registry32_prefix, registry_key_path_for_id, registry_prefix, run_key, run_key_32};
use crate::model::{opt_view, RiskLevel, StartupItem, StartupSource};
use crate::naming::{display_name, display_name_of, extension_chars, extension_of, file_name_chars, file_name_of, file_stem_chars, file_stem_of, friendly_app_name, friendly_name, known_app_name, known_app_of, opt_str};
use crate::records::{ItemView, RecordView};
use crate::store::{after_cleared, after_disabled, after_seen, disabled_row, lemma_changes_keep_other_rows, lemma_read_after_write, lookup_row, RecordStore};
use crate::text::{chars_eq, chars_of, concat_chars, decimal, decimal_chars, occurs_at_exec, signed_decimal, signed_decimal_chars, slice_chars, starts_with_seq, string_of};

verus! {

broadcast use vstd::string::group_string_axioms;

/// What the caller is to do next. Texts are `S`: `String`, or `Seq<char>` in contracts.
pub enum ToggleAction<S> {
    /// Read the string value `value_name` of the per-user key `key_path`.
    ReadRegistryValue { key_path: S, value_name: S },
    /// Read the environment variables that `command` refers to (see `env_keys_in`).
    ReadEnvironment { command: S },
    /// Read the name that the version resource of the program file `path` gives.
    ReadVersionName { path: S },
    /// Delete the value `value_name` of the per-user key `key_path`.
    DeleteRegistryValue { key_path: S, value_name: S },
    /// Tell whether the value `value_name` of the per-user key `key_path` can be read.
    CheckRegistryValue { key_path: S, value_name: S },
    /// Write `command` as the value `value_name` of the per-user key `key_path`.
    WriteRegistryValue { key_path: S, value_name: S, command: S },
    /// Find the shortcut `file_name` in the per-user Startup folder: its path and whether
    /// it exists.
    LocateShortcut { file_name: S },
    /// Make sure the backup folder exists, and give its path.
    PrepareBackupDir,
    /// Tell whether the file `name` exists in the backup folder `dir`.
    CheckBackupCandidate { dir: S, name: S },
    /// Give the current time in milliseconds since the Unix epoch.
    ReadClockMillis,
    /// Move the file `from` to the file `name` of the folder `dir`, and give the new path.
    MoveToBackup { from: S, dir: S, name: S },
    /// Tell whether the file `path` exists.
    CheckPathExists { path: S },
    /// Create the folder of `to` if needed and move the file `from` to `to`.
    MoveBack { from: S, to: S },
    /// Stop: success, or the error message.
    Finish(Option<S>),
}

/// The outcome of the last action. Texts are `S`; a set of bindings is `B`.
pub enum ToggleEvent<S, B> {
    /// Nothing happened yet.
    Begin,
    /// The registry value read.
    RegistryValue(S),
    /// The environment variables read.
    Environment(B),
    /// The version-resource name read, if any.
    VersionName(Option<S>),
    /// The answer to a check.
    Exists(bool),
    /// The shortcut located.
    Shortcut { path: S, exists: bool },
    /// The backup folder's path.
    BackupDir(S),
    /// The current time in milliseconds.
    Millis(i64),
    /// The path a file was moved to.
    Moved(S),
    /// The write, delete or move asked for was done.
    Completed,
    /// The action failed, with this message.
    Failed(S),
}

/// What a toggle request is about.
pub enum TogglePlan<S> {
    /// Restore a disabled entry from what the history store remembers.
    Restore,
    /// Switch off the registry value `value_name` of `key_path`.
    DisableRegistry { key_path: S, value_name: S },
    /// Switch off the Startup-folder shortcut `file_name`.
    DisableShortcut { file_name: S },
    /// An id of no known kind.
    UnknownId,
}

/// How far a toggle request has got.
pub enum ToggleStage<S, B> {
    /// Nothing asked yet.
    Start,
    /// Switching off a registry value: waiting for its current command.
    ReadingValue,
    /// Waiting for the environment variables that `command` refers to.
    ReadingEnvironment { command: S },
    /// Waiting for the version-resource name of `app_path`.
    ReadingVersion { command: S, env: B, app_path: S },
    /// Waiting for the value to be deleted.
    Deleting { command: S },
    /// Waiting to learn whether the deleted value is really gone.
    CheckingDeleted { command: S },
    /// Switching off a shortcut: waiting for its path.
    Locating,
    /// Waiting for the backup folder.
    PreparingBackup { original: S },
    /// Waiting to learn whether backup name number `index` is taken.
    CheckingCandidate { original: S, dir: S, index: u32 },
    /// Waiting for the clock, every numbered backup name being taken.
    ReadingClock { original: S, dir: S },
    /// Waiting to learn whether the backup name made from the clock reading `millis` is
    /// taken.
    CheckingClockName { original: S, dir: S, millis: i64 },
    /// Waiting for the shortcut to be moved into the backup folder.
    MovingToBackup { original: S },
    /// Restoring a registry value: waiting to learn whether one of that name exists.
    CheckingConflict { key_path: S, value_name: S, command: S },
    /// Waiting for the value to be written back.
    Writing,
    /// Restoring a shortcut: waiting to learn whether its original place is taken.
    CheckingOriginal { original: S, backup: S },
    /// Waiting to learn whether the backup still exists.
    CheckingBackup { original: S, backup: S },
    /// Waiting for the backup to be moved back.
    MovingBack,
    /// Finished.
    Done,
}

/// A toggle request in progress.
pub struct ToggleMachine {
    id: String,
    expected_command: Option<String>,
    now: String,
    plan: TogglePlan<String>,
    stage: ToggleStage<String, Bindings>,
}

/// The content of a `ToggleMachine`.
pub struct MachineView {
    pub id: Seq<char>,
    pub expected_command: Option<Seq<char>>,
    pub now: Seq<char>,
    pub plan: TogglePlan<Seq<char>>,
    pub stage: ToggleStage<Seq<char>, Seq<(Seq<char>, Seq<char>)>>,
}

/// Text in contracts.
pub type Text = Seq<char>;

/// Bindings in contracts.
pub type Binds = Seq<(Seq<char>, Seq<char>)>;

impl View for ToggleAction<String> {
    type V = ToggleAction<Text>;

    open spec fn view(&self) -> ToggleAction<Text> {
        match self {
            ToggleAction::ReadRegistryValue { key_path, value_name } => ToggleAction::ReadRegistryValue {
                key_path: key_path@,
                value_name: value_name@,
            },
            ToggleAction::ReadEnvironment { command } => ToggleAction::ReadEnvironment { command: command@ },
            ToggleAction::ReadVersionName { path } => ToggleAction::ReadVersionName { path: path@ },
            ToggleAction::DeleteRegistryValue { key_path, value_name } => ToggleAction::DeleteRegistryValue {
                key_path: key_path@,
                value_name: value_name@,
            },
            ToggleAction::CheckRegistryValue { key_path, value_name } => ToggleAction::CheckRegistryValue {
                key_path: key_path@,
                value_name: value_name@,
            },
            ToggleAction::WriteRegistryValue { key_path, value_name, command } => ToggleAction::WriteRegistryValue {
                key_path: key_path@,
                value_name: value_name@,
                command: command@,
            },
            ToggleAction::LocateShortcut { file_name } => ToggleAction::LocateShortcut { file_name: file_name@ },
            ToggleAction::PrepareBackupDir => ToggleAction::PrepareBackupDir,
            ToggleAction::CheckBackupCandidate { dir, name } => ToggleAction::CheckBackupCandidate {
                dir: dir@,
                name: name@,
            },
            ToggleAction::ReadClockMillis => ToggleAction::ReadClockMillis,
            ToggleAction::MoveToBackup { from, dir, name } => ToggleAction::MoveToBackup {
                from: from@,
                dir: dir@,
                name: name@,
            },
            ToggleAction::CheckPathExists { path } => ToggleAction::CheckPathExists { path: path@ },
            ToggleAction::MoveBack { from, to } => ToggleAction::MoveBack { from: from@, to: to@ },
            ToggleAction::Finish(r) => ToggleAction::Finish(opt_view(*r)),
        }
    }
}

impl View for ToggleEvent<String, Bindings> {
    type V = ToggleEvent<Text, Binds>;

    open spec fn view(&self) -> ToggleEvent<Text, Binds> {
        match self {
            ToggleEvent::Begin => ToggleEvent::Begin,
            ToggleEvent::RegistryValue(s) => ToggleEvent::RegistryValue(s@),
            ToggleEvent::Environment(b) => ToggleEvent::Environment(b@),
            ToggleEvent::VersionName(v) => ToggleEvent::VersionName(opt_view(*v)),
            ToggleEvent::Exists(b) => ToggleEvent::Exists(*b),
            ToggleEvent::Shortcut { path, exists } => ToggleEvent::Shortcut { path: path@, exists: *exists },
            ToggleEvent::BackupDir(s) => ToggleEvent::BackupDir(s@),
            ToggleEvent::Millis(m) => ToggleEvent::Millis(*m),
            ToggleEvent::Moved(s) => ToggleEvent::Moved(s@),
            ToggleEvent::Completed => ToggleEvent::Completed,
            ToggleEvent::Failed(s) => ToggleEvent::Failed(s@),
        }
    }
}

/// The content of a plan.
pub open spec fn plan_view(p: TogglePlan<String>) -> TogglePlan<Text> {
    match p {
        TogglePlan::Restore => TogglePlan::Restore,
        TogglePlan::DisableRegistry { key_path, value_name } => TogglePlan::DisableRegistry {
            key_path: key_path@,
            value_name: value_name@,
        },
        TogglePlan::DisableShortcut { file_name } => TogglePlan::DisableShortcut { file_name: file_name@ },
        TogglePlan::UnknownId => TogglePlan::UnknownId,
    }
}

/// The content of a stage.
pub open spec fn stage_view(s: ToggleStage<String, Bindings>) -> ToggleStage<Text, Binds> {
    match s {
        ToggleStage::Start => ToggleStage::Start,
        ToggleStage::ReadingValue => ToggleStage::ReadingValue,
        ToggleStage::ReadingEnvironment { command } => ToggleStage::ReadingEnvironment { command: command@ },
        ToggleStage::ReadingVersion { command, env, app_path } => ToggleStage::ReadingVersion {
            command: command@,
            env: env@,
            app_path: app_path@,
        },
        ToggleStage::Deleting { command } => ToggleStage::Deleting { command: command@ },
        ToggleStage::CheckingDeleted { command } => ToggleStage::CheckingDeleted { command: command@ },
        ToggleStage::Locating => ToggleStage::Locating,
        ToggleStage::PreparingBackup { original } => ToggleStage::PreparingBackup { original: original@ },
        ToggleStage::CheckingCandidate { original, dir, index } => ToggleStage::CheckingCandidate {
            original: original@,
            dir: dir@,
            index: index,
        },
        ToggleStage::ReadingClock { original, dir } => ToggleStage::ReadingClock { original: original@, dir: dir@ },
        ToggleStage::CheckingClockName { original, dir, millis } => ToggleStage::CheckingClockName {
            original: original@,
            dir: dir@,
            millis: millis,
        },
        ToggleStage::MovingToBackup { original } => ToggleStage::MovingToBackup { original: original@ },
        ToggleStage::CheckingConflict { key_path, value_name, command } => ToggleStage::CheckingConflict {
            key_path: key_path@,
            value_name: value_name@,
            command: command@,
        },
        ToggleStage::Writing => ToggleStage::Writing,
        ToggleStage::CheckingOriginal { original, backup } => ToggleStage::CheckingOriginal {
            original: original@,
            backup: backup@,
        },
        ToggleStage::CheckingBackup { original, backup } => ToggleStage::CheckingBackup {
            original: original@,
            backup: backup@,
        },
        ToggleStage::MovingBack => ToggleStage::MovingBack,
        ToggleStage::Done => ToggleStage::Done,
    }
}

impl View for ToggleMachine {
    type V = MachineView;

    closed spec fn view(&self) -> MachineView {
        MachineView {
            id: self.id@,
            expected_command: opt_view(self.expected_command),
            now: self.now@,
            plan: plan_view(self.plan),
            stage: stage_view(self.stage),
        }
    }
}

/// The message for an outcome that does not answer the action asked for.
pub open spec fn unexpected_message() -> Text {
    "unexpected outcome for this step"@
}

/// Stop with `msg` (`None` for success).
pub open spec fn finish(m: MachineView, rows: Seq<RecordView>, msg: Option<Text>) -> (MachineView, Seq<RecordView>, ToggleAction<Text>) {
    (MachineView { stage: ToggleStage::Done, ..m }, rows, ToggleAction::Finish(msg))
}

/// Go on to `stage`, asking for `action`.
pub open spec fn go(
    m: MachineView,
    stage: ToggleStage<Text, Binds>,
    rows: Seq<RecordView>,
    action: ToggleAction<Text>,
) -> (MachineView, Seq<RecordView>, ToggleAction<Text>) {
    (MachineView { stage: stage, ..m }, rows, action)
}

/// The item recorded when a registry entry is switched off.
pub open spec fn disabling_registry_item(
    id: Text,
    value_name: Text,
    command: Text,
    app_path: Option<Text>,
    name: Text,
) -> ItemView {
    ItemView {
        id: id,
        name: name,
        raw_name: Some(value_name),
        source: StartupSource::Registry,
        enabled: true,
        command: Some(command),
        path: None,
        app_path: app_path,
        risk_level: RiskLevel::Normal,
        risk_reason: None,
        disabled_at: None,
        remembered: false,
    }
}

/// The item recorded when a Startup-folder shortcut is switched off.
pub open spec fn disabling_shortcut_item(id: Text, file_name: Text, original: Text) -> ItemView {
    ItemView {
        id: id,
        name: display_name_of(file_name),
        raw_name: Some(file_name),
        source: StartupSource::StartupFolder,
        enabled: true,
        command: Some(original),
        path: Some(original),
        app_path: Some(original),
        risk_level: RiskLevel::Normal,
        risk_reason: None,
        disabled_at: None,
        remembered: false,
    }
}

/// The stem of a backup file name: the shortcut's stem, else `startup-item`.
pub open spec fn backup_stem(file_name: Text) -> Text {
    match file_stem_of(file_name) {
        Some(s) => s,
        None => "startup-item"@,
    }
}

/// The extension of a backup file name: the shortcut's extension, else `lnk`.
pub open spec fn backup_ext(file_name: Text) -> Text {
    match file_name_of(file_name) {
        Some(n) => match extension_of(n) {
            Some(e) => e,
            None => "lnk"@,
        },
        None => "lnk"@,
    }
}

/// The backup file name tried at attempt `index`: the shortcut's own name first, then
/// `stem-index.ext`.
pub open spec fn backup_candidate(file_name: Text, index: nat) -> Text {
    if index == 0 {
        file_name
    } else {
        backup_stem(file_name) + seq!['-'] + decimal(index) + seq!['.'] + backup_ext(file_name)
    }
}

/// The backup file name used when every candidate up to attempt 999 is taken:
/// `stem-millis.ext`.
pub open spec fn backup_clock_name(file_name: Text, millis: int) -> Text {
    backup_stem(file_name) + seq!['-'] + signed_decimal(millis) + seq!['.'] + backup_ext(file_name)
}

/// The next state, store and action of a toggle request, given the outcome `e` of the
/// action it last asked for.
pub open spec fn next(m: MachineView, rows: Seq<RecordView>, e: ToggleEvent<Text, Binds>) -> (MachineView, Seq<RecordView>, ToggleAction<Text>) {
    let unexpected = finish(m, rows, Some(unexpected_message()));
    match e {
        ToggleEvent::Failed(msg) => finish(m, rows, Some(msg)),
        _ => match m.stage {
            ToggleStage::Start => match e {
                ToggleEvent::Begin => match m.plan {
                    TogglePlan::Restore => match lookup_row(rows, m.id) {
                        None => finish(m, rows, Some("没有找到可恢复记录，请刷新后重试"@)),
                        Some(rec) => match rec.source {
                            StartupSource::Registry => match (rec.value_name, rec.command) {
                                (None, _) => finish(m, rows, Some("缺少注册表值名，无法恢复"@)),
                                (Some(_), None) => finish(m, rows, Some("缺少原始启动命令，无法恢复"@)),
                                (Some(v), Some(c)) => go(
                                    m,
                                    ToggleStage::CheckingConflict { key_path: key_path_for(m.id), value_name: v, command: c },
                                    rows,
                                    ToggleAction::CheckRegistryValue { key_path: key_path_for(m.id), value_name: v },
                                ),
                            },
                            StartupSource::StartupFolder => match (rec.original_path, rec.backup_path) {
                                (None, _) => finish(m, rows, Some("缺少原始快捷方式路径，无法恢复"@)),
                                (Some(_), None) => finish(m, rows, Some("缺少备份快捷方式路径，无法恢复"@)),
                                (Some(o), Some(b)) => go(
                                    m,
                                    ToggleStage::CheckingOriginal { original: o, backup: b },
                                    rows,
                                    ToggleAction::CheckPathExists { path: o },
                                ),
                            },
                        },
                    },
                    TogglePlan::DisableRegistry { key_path, value_name } => go(
                        m,
                        ToggleStage::ReadingValue,
                        rows,
                        ToggleAction::ReadRegistryValue { key_path: key_path, value_name: value_name },
                    ),
                    TogglePlan::DisableShortcut { file_name } => go(
                        m,
                        ToggleStage::Locating,
                        rows,
                        ToggleAction::LocateShortcut { file_name: file_name },
                    ),
                    TogglePlan::UnknownId => finish(m, rows, Some("未知启动项 ID"@)),
                },
                _ => unexpected,
            },
            ToggleStage::ReadingValue => match e {
                ToggleEvent::RegistryValue(command) => match m.expected_command {
                    Some(x) if x != command => finish(m, rows, Some("启动项已变化，请刷新后重试"@)),
                    _ => go(
                        m,
                        ToggleStage::ReadingEnvironment { command: command },
                        rows,
                        ToggleAction::ReadEnvironment { command: command },
                    ),
                },
                _ => unexpected,
            },
            ToggleStage::ReadingEnvironment { command } => match (e, m.plan) {
                (ToggleEvent::Environment(env), TogglePlan::DisableRegistry { key_path, value_name }) => {
                    let app_path = exe_path_of(command, env);
                    if known_app_of(value_name, Some(command), app_path) is None && app_path is Some {
                        go(
                            m,
                            ToggleStage::ReadingVersion { command: command, env: env, app_path: app_path->0 },
                            rows,
                            ToggleAction::ReadVersionName { path: app_path->0 },
                        )
                    } else {
                        let name = friendly_name(value_name, Some(command), app_path, None, env);
                        go(
                            m,
                            ToggleStage::Deleting { command: command },
                            after_seen(rows, disabling_registry_item(m.id, value_name, command, app_path, name), m.now),
                            ToggleAction::DeleteRegistryValue { key_path: key_path, value_name: value_name },
                        )
                    }
                },
                _ => unexpected,
            },
            ToggleStage::ReadingVersion { command, env, app_path } => match (e, m.plan) {
                (ToggleEvent::VersionName(v), TogglePlan::DisableRegistry { key_path, value_name }) => {
                    let name = friendly_name(value_name, Some(command), Some(app_path), v, env);
                    go(
                        m,
                        ToggleStage::Deleting { command: command },
                        after_seen(rows, disabling_registry_item(m.id, value_name, command, Some(app_path), name), m.now),
                        ToggleAction::DeleteRegistryValue { key_path: key_path, value_name: value_name },
                    )
                },
                _ => unexpected,
            },
            ToggleStage::Deleting { command } => match (e, m.plan) {
                (ToggleEvent::Completed, TogglePlan::DisableRegistry { key_path, value_name }) => go(
                    m,
                    ToggleStage::CheckingDeleted { command: command },
                    rows,
                    ToggleAction::CheckRegistryValue { key_path: key_path, value_name: value_name },
                ),
                _ => unexpected,
            },
            ToggleStage::CheckingDeleted { command } => match e {
                ToggleEvent::Exists(true) => finish(m, rows, Some("注册表启动项删除后仍然存在，请刷新后重试"@)),
                ToggleEvent::Exists(false) => finish(
                    m,
                    after_disabled(rows, m.id, Some(command), None, None, m.now),
                    None,
                ),
                _ => unexpected,
            },
            ToggleStage::Locating => match e {
                ToggleEvent::Shortcut { path, exists } => if !exists {
                    finish(m, rows, Some("启动文件夹快捷方式不存在，请刷新后重试"@))
                } else if m.expected_command is Some && m.expected_command->0 != path {
                    finish(m, rows, Some("启动文件夹项已变化，请刷新后重试"@))
                } else {
                    go(m, ToggleStage::PreparingBackup { original: path }, rows, ToggleAction::PrepareBackupDir)
                },
                _ => unexpected,
            },
            ToggleStage::PreparingBackup { original } => match (e, m.plan) {
                (ToggleEvent::BackupDir(dir), TogglePlan::DisableShortcut { file_name }) => go(
                    m,
                    ToggleStage::CheckingCandidate { original: original, dir: dir, index: 0 },
                    rows,
                    ToggleAction::CheckBackupCandidate { dir: dir, name: backup_candidate(file_name, 0) },
                ),
                _ => unexpected,
            },
            ToggleStage::CheckingCandidate { original, dir, index } => match (e, m.plan) {
                (ToggleEvent::Exists(false), TogglePlan::DisableShortcut { file_name }) => go(
                    m,
                    ToggleStage::MovingToBackup { original: original },
                    after_seen(rows, disabling_shortcut_item(m.id, file_name, original), m.now),
                    ToggleAction::MoveToBackup { from: original, dir: dir, name: backup_candidate(file_name, index as nat) },
                ),
                (ToggleEvent::Exists(true), TogglePlan::DisableShortcut { file_name }) => if index < 999 {
                    go(
                        m,
                        ToggleStage::CheckingCandidate { original: original, dir: dir, index: (index + 1) as u32 },
                        rows,
                        ToggleAction::CheckBackupCandidate { dir: dir, name: backup_candidate(file_name, (index + 1) as nat) },
                    )
                } else {
                    go(m, ToggleStage::ReadingClock { original: original, dir: dir }, rows, ToggleAction::ReadClockMillis)
                },
                _ => unexpected,
            },
            ToggleStage::ReadingClock { original, dir } => match (e, m.plan) {
                (ToggleEvent::Millis(ms), TogglePlan::DisableShortcut { file_name }) => go(
                    m,
                    ToggleStage::CheckingClockName { original: original, dir: dir, millis: ms },
                    rows,
                    ToggleAction::CheckBackupCandidate { dir: dir, name: backup_clock_name(file_name, ms as int) },
                ),
                _ => unexpected,
            },
            ToggleStage::CheckingClockName { original, dir, millis } => match (e, m.plan) {
                (ToggleEvent::Exists(false), TogglePlan::DisableShortcut { file_name }) => go(
                    m,
                    ToggleStage::MovingToBackup { original: original },
                    after_seen(rows, disabling_shortcut_item(m.id, file_name, original), m.now),
                    ToggleAction::MoveToBackup { from: original, dir: dir, name: backup_clock_name(file_name, millis as int) },
                ),
                (ToggleEvent::Exists(true), TogglePlan::DisableShortcut { .. }) => go(
                    m,
                    ToggleStage::ReadingClock { original: original, dir: dir },
                    rows,
                    ToggleAction::ReadClockMillis,
                ),
                _ => unexpected,
            },
            ToggleStage::MovingToBackup { original } => match e {
                ToggleEvent::Moved(backup) => finish(
                    m,
                    after_disabled(rows, m.id, Some(original), Some(original), Some(backup), m.now),
                    None,
                ),
                _ => unexpected,
            },
            ToggleStage::CheckingConflict { key_path, value_name, command } => match e {
                ToggleEvent::Exists(true) => finish(m, rows, Some("同名注册表启动项已存在，已拒绝覆盖"@)),
                ToggleEvent::Exists(false) => go(
                    m,
                    ToggleStage::Writing,
                    rows,
                    ToggleAction::WriteRegistryValue { key_path: key_path, value_name: value_name, command: command },
                ),
                _ => unexpected,
            },
            ToggleStage::Writing => match e {
                ToggleEvent::Completed => finish(m, after_cleared(rows, m.id, m.now), None),
                _ => unexpected,
            },
            ToggleStage::CheckingOriginal { original, backup } => match e {
                ToggleEvent::Exists(true) => finish(m, rows, Some("Startup 文件夹同名快捷方式已存在，已拒绝覆盖"@)),
                ToggleEvent::Exists(false) => go(
                    m,
                    ToggleStage::CheckingBackup { original: original, backup: backup },
                    rows,
                    ToggleAction::CheckPathExists { path: backup },
                ),
                _ => unexpected,
            },
            ToggleStage::CheckingBackup { original, backup } => match e {
                ToggleEvent::Exists(false) => finish(m, rows, Some("备份快捷方式不存在，无法恢复"@)),
                ToggleEvent::Exists(true) => go(
                    m,
                    ToggleStage::MovingBack,
                    rows,
                    ToggleAction::MoveBack { from: backup, to: original },
                ),
                _ => unexpected,
            },
            ToggleStage::MovingBack => match e {
                ToggleEvent::Completed => finish(m, after_cleared(rows, m.id, m.now), None),
                _ => unexpected,
            },
            ToggleStage::Done => unexpected,
        },
    }
}

/// What a request about `id` is: restoring when switching on, else switching off the
/// registry value or the shortcut that the id names.
pub open spec fn plan_for(id: Text, enabled: bool) -> TogglePlan<Text> {
    if enabled {
        TogglePlan::Restore
    } else if starts_with_seq(id, "registry:"@) {
        TogglePlan::DisableRegistry { key_path: key_path_for(id), value_name: id.skip("registry:"@.len() as int) }
    } else if starts_with_seq(id, "registry32:"@) {
        TogglePlan::DisableRegistry { key_path: key_path_for(id), value_name: id.skip("registry32:"@.len() as int) }
    } else if starts_with_seq(id, "startup-folder:"@) {
        TogglePlan::DisableShortcut { file_name: id.skip("startup-folder:"@.len() as int) }
    } else {
        TogglePlan::UnknownId
    }
}

/// Ids route back to where they came from: switching off the entry of a `Run` key value
/// found with prefix `registry` (or `registry32`) acts on that same value of the `Run`
/// key (or of the 32-bit `Run` key); switching off a shortcut's entry acts on that same
/// file; and restoring a registry entry writes back to the key its id names.
pub proof fn lemma_ids_route_back(value_name: Text, file_name: Text)
    ensures
        plan_for(entry_id(registry_prefix(), value_name), false) == (TogglePlan::DisableRegistry {
            key_path: run_key(),
            value_name: value_name,
        }),
        plan_for(entry_id(registry32_prefix(), value_name), false) == (TogglePlan::DisableRegistry {
            key_path: run_key_32(),
            value_name: value_name,
        }),
        plan_for(entry_id(folder_prefix(), file_name), false) == (TogglePlan::DisableShortcut {
            file_name: file_name,
        }),
        key_path_for(entry_id(registry_prefix(), value_name)) == run_key(),
        key_path_for(entry_id(registry32_prefix(), value_name)) == run_key_32(),
{
    reveal_strlit("registry");
    reveal_strlit("registry32");
    reveal_strlit("startup-folder");
    reveal_strlit("registry:");
    reveal_strlit("registry32:");
    reveal_strlit("startup-folder:");
    let r = entry_id(registry_prefix(), value_name);
    let r32 = entry_id(registry32_prefix(), value_name);
    let f = entry_id(folder_prefix(), file_name);
    assert(r.subrange(0, 9) =~= "registry:"@);
    assert(r.skip(9) =~= value_name);
    assert(r.len() < 11 || r[8] != ("registry32:"@)[8]);
    assert(!starts_with_seq(r, "registry32:"@)) by {
        if starts_with_seq(r, "registry32:"@) {
            assert(r.subrange(0, 11)[8] == ("registry32:"@)[8]);
        }
    }
    assert(r32.subrange(0, 11) =~= "registry32:"@);
    assert(r32.skip(11) =~= value_name);
    assert(!starts_with_seq(r32, "registry:"@)) by {
        if starts_with_seq(r32, "registry:"@) {
            assert(r32.subrange(0, 9)[8] == ("registry:"@)[8]);
        }
    }
    assert(f.subrange(0, 15) =~= "startup-folder:"@);
    assert(f.skip(15) =~= file_name);
    assert(!starts_with_seq(f, "registry:"@)) by {
        if starts_with_seq(f, "registry:"@) {
            assert(f.subrange(0, 9)[0] == ("registry:"@)[0]);
        }
    }
    assert(!starts_with_seq(f, "registry32:"@)) by {
        if starts_with_seq(f, "registry32:"@) {
            assert(f.subrange(0, 11)[0] == ("registry32:"@)[0]);
        }
    }
}

/// The request has not seen anything that differs from `expected_command` when it
/// carries `c`: no expected command was given, or it is `c`.
pub open spec fn matches_expected(m: MachineView, c: Text) -> bool {
    m.expected_command is None || m.expected_command == Some(c)
}

/// Every command or shortcut path that a request carries while switching an entry off
/// is the expected one.
pub open spec fn consistent(m: MachineView) -> bool {
    match m.stage {
        ToggleStage::ReadingEnvironment { command } => matches_expected(m, command),
        ToggleStage::ReadingVersion { command, .. } => matches_expected(m, command),
        ToggleStage::Deleting { command } => matches_expected(m, command),
        ToggleStage::CheckingDeleted { command } => matches_expected(m, command),
        ToggleStage::PreparingBackup { original } => matches_expected(m, original),
        ToggleStage::CheckingCandidate { original, .. } => matches_expected(m, original),
        ToggleStage::ReadingClock { original, .. } => matches_expected(m, original),
        ToggleStage::CheckingClockName { original, .. } => matches_expected(m, original),
        ToggleStage::MovingToBackup { original } => matches_expected(m, original),
        _ => true,
    }
}

/// The state in which a request about `id` starts.
pub open spec fn start_state(id: Text, enabled: bool, expected_command: Option<Text>, now: Text) -> MachineView {
    MachineView {
        id: id,
        expected_command: expected_command,
        now: now,
        plan: plan_for(id, enabled),
        stage: ToggleStage::Start,
    }
}

/// A request starts consistent, and every step keeps it so.
pub proof fn lemma_requests_stay_consistent(
    id: Text,
    enabled: bool,
    expected_command: Option<Text>,
    now: Text,
    m: MachineView,
    rows: Seq<RecordView>,
    e: ToggleEvent<Text, Binds>,
)
    ensures
        consistent(start_state(id, enabled, expected_command, now)),
        consistent(m) ==> consistent(next(m, rows, e).0),
{
}

/// The step from `m` takes an entry away only while it is what the user saw.
pub open spec fn removes_only_unchanged(m: MachineView, rows: Seq<RecordView>, e: ToggleEvent<Text, Binds>) -> bool {
    let (m2, _, a) = next(m, rows, e);
    &&& a matches ToggleAction::DeleteRegistryValue { key_path, value_name } ==> {
        &&& m.plan == TogglePlan::DisableRegistry { key_path: key_path, value_name: value_name }
        &&& m2.stage matches ToggleStage::Deleting { command }
        &&& matches_expected(m, command)
    }
    &&& a matches ToggleAction::MoveToBackup { from, .. } ==> {
        &&& m.plan is DisableShortcut
        &&& matches_expected(m, from)
    }
}

/// An entry is only taken away while it is still what the user saw: a registry value is
/// deleted only after it was read and found equal to the expected command, and only the
/// value the request is about; a shortcut is moved away only when its path is the
/// expected one.
pub proof fn lemma_removes_only_unchanged(m: MachineView, rows: Seq<RecordView>, e: ToggleEvent<Text, Binds>)
    requires
        consistent(m),
    ensures
        removes_only_unchanged(m, rows, e),
{
}

/// The step from `m` writes or moves nothing that it has not just checked.
pub open spec fn checks_before_writes(m: MachineView, rows: Seq<RecordView>, e: ToggleEvent<Text, Binds>) -> bool {
    let (m2, _, a) = next(m, rows, e);
    &&& a matches ToggleAction::WriteRegistryValue { key_path, value_name, command } ==> {
        &&& m.stage == ToggleStage::<Text, Binds>::CheckingConflict {
            key_path: key_path,
            value_name: value_name,
            command: command,
        }
        &&& e == ToggleEvent::<Text, Binds>::Exists(false)
    }
    &&& m2.stage matches ToggleStage::CheckingConflict { key_path, value_name, .. } ==> {
        &&& key_path == key_path_for(m.id)
        &&& a == ToggleAction::<Text>::CheckRegistryValue { key_path: key_path, value_name: value_name }
    }
    &&& a matches ToggleAction::MoveBack { from, to } ==> {
        &&& m.stage == ToggleStage::<Text, Binds>::CheckingBackup { original: to, backup: from }
        &&& e == ToggleEvent::<Text, Binds>::Exists(true)
    }
    &&& m2.stage matches ToggleStage::CheckingBackup { original, backup } ==> {
        &&& m.stage == ToggleStage::<Text, Binds>::CheckingOriginal { original: original, backup: backup }
        &&& e == ToggleEvent::<Text, Binds>::Exists(false)
        &&& a == ToggleAction::<Text>::CheckPathExists { path: backup }
    }
    &&& m2.stage matches ToggleStage::CheckingOriginal { original, .. } ==> a
        == ToggleAction::<Text>::CheckPathExists { path: original }
    &&& a matches ToggleAction::MoveToBackup { from, dir, name } ==> {
        &&& m.plan matches TogglePlan::DisableShortcut { file_name }
        &&& {
            ||| m.stage matches ToggleStage::CheckingCandidate { original, dir: d, index } && original == from
                && d == dir && e == ToggleEvent::<Text, Binds>::Exists(false) && name == backup_candidate(
                file_name,
                index as nat,
            )
            ||| m.stage matches ToggleStage::CheckingClockName { original, dir: d, millis } && original == from
                && d == dir && e == ToggleEvent::<Text, Binds>::Exists(false) && name == backup_clock_name(
                file_name,
                millis as int,
            )
        }
    }
    &&& m2.stage matches ToggleStage::CheckingCandidate { dir, index, .. } ==> {
        &&& m.plan matches TogglePlan::DisableShortcut { file_name }
        &&& a == ToggleAction::<Text>::CheckBackupCandidate {
            dir: dir,
            name: backup_candidate(file_name, index as nat),
        }
    }
    &&& m2.stage matches ToggleStage::CheckingClockName { dir, millis, .. } ==> {
        &&& m.plan matches TogglePlan::DisableShortcut { file_name }
        &&& a == ToggleAction::<Text>::CheckBackupCandidate {
            dir: dir,
            name: backup_clock_name(file_name, millis as int),
        }
    }
}

/// Nothing is overwritten or moved blindly: a registry value is written back only right
/// after the check for that very value found none, on the key the entry's id names; a
/// shortcut is moved back only right after its backup was found, which in turn is
/// checked only after the original place was found free; a shortcut is moved into the
/// backup folder only under a name whose check just found it free (a numbered one, or,
/// once every numbered name up to 999 is taken, one made from the clock).
pub proof fn lemma_checks_before_writes(m: MachineView, rows: Seq<RecordView>, e: ToggleEvent<Text, Binds>)
    ensures
        checks_before_writes(m, rows, e),
{
}

/// A step that ends in an error leaves the history as it was.
pub proof fn lemma_errors_leave_history(m: MachineView, rows: Seq<RecordView>, e: ToggleEvent<Text, Binds>)
    ensures
        (next(m, rows, e).2 matches ToggleAction::Finish(Some(_))) ==> next(m, rows, e).1 == rows,
{
}

/// The state, the store and the actions asked for, in order, after the outcomes `events`
/// are fed one by one to a request in state `m` over a store holding `rows`.
pub open spec fn run(m: MachineView, rows: Seq<RecordView>, events: Seq<ToggleEvent<Text, Binds>>) -> (
    MachineView,
    Seq<RecordView>,
    Seq<ToggleAction<Text>>,
)
    decreases events.len(),
{
    if events.len() == 0 {
        (m, rows, Seq::empty())
    } else {
        let step = next(m, rows, events[0]);
        let rest = run(step.0, step.1, events.drop_first());
        (rest.0, rest.1, seq![step.2] + rest.2)
    }
}

/// What a switch-off request has written to the store so far is what a restore of its
/// entry reads: from the moment the request records the entry (just before the value is
/// deleted or the shortcut moved), the store holds a row for the request's id of the
/// entry's kind, and a registry row names the value being switched off.
pub open spec fn recorded_for_restore(m: MachineView, rows: Seq<RecordView>) -> bool {
    match m.stage {
        ToggleStage::Deleting { .. } => registry_row_recorded(m, rows),
        ToggleStage::CheckingDeleted { .. } => registry_row_recorded(m, rows),
        ToggleStage::MovingToBackup { .. } => lookup_row(rows, m.id) matches Some(r) && r.source
            == StartupSource::StartupFolder,
        _ => true,
    }
}

/// A switch-off of a registry value has its row: of a registry entry, naming the value.
pub open spec fn registry_row_recorded(m: MachineView, rows: Seq<RecordView>) -> bool {
    m.plan matches TogglePlan::DisableRegistry { value_name, .. } ==> (lookup_row(rows, m.id) matches Some(r)
        && r.source == StartupSource::Registry && r.value_name == Some(value_name))
}

/// One step keeps the request's id, expectation, time and plan, and keeps what it has
/// recorded for a restore.
proof fn lemma_next_keeps_record(m: MachineView, rows: Seq<RecordView>, e: ToggleEvent<Text, Binds>)
    requires
        recorded_for_restore(m, rows),
    ensures
        recorded_for_restore(next(m, rows, e).0, next(m, rows, e).1),
        next(m, rows, e).0.id == m.id,
        next(m, rows, e).0.expected_command == m.expected_command,
        next(m, rows, e).0.now == m.now,
        next(m, rows, e).0.plan == m.plan,
{
    match (m.stage, m.plan) {
        (ToggleStage::ReadingEnvironment { command }, TogglePlan::DisableRegistry { value_name, .. }) => {
            match e {
                ToggleEvent::Environment(env) => {
                    let app_path = exe_path_of(command, env);
                    let name = friendly_name(value_name, Some(command), app_path, None, env);
                    lemma_read_after_write(rows, disabling_registry_item(m.id, value_name, command, app_path, name), m.id, None, None, None, m.now);
                },
                _ => {},
            }
        },
        (ToggleStage::ReadingVersion { command, env, app_path }, TogglePlan::DisableRegistry { value_name, .. }) => {
            match e {
                ToggleEvent::VersionName(v) => {
                    let name = friendly_name(value_name, Some(command), Some(app_path), v, env);
                    lemma_read_after_write(rows, disabling_registry_item(m.id, value_name, command, Some(app_path), name), m.id, None, None, None, m.now);
                },
                _ => {},
            }
        },
        (ToggleStage::CheckingCandidate { original, .. }, TogglePlan::DisableShortcut { file_name }) => {
            lemma_read_after_write(rows, disabling_shortcut_item(m.id, file_name, original), m.id, None, None, None, m.now);
        },
        (ToggleStage::CheckingClockName { original, .. }, TogglePlan::DisableShortcut { file_name }) => {
            lemma_read_after_write(rows, disabling_shortcut_item(m.id, file_name, original), m.id, None, None, None, m.now);
        },
        _ => {},
    }
}

/// Any run of steps keeps the request's id, expectation, time and plan, and keeps what it
/// has recorded for a restore.
proof fn lemma_run_keeps_record(m: MachineView, rows: Seq<RecordView>, events: Seq<ToggleEvent<Text, Binds>>)
    requires
        recorded_for_restore(m, rows),
    ensures
        recorded_for_restore(run(m, rows, events).0, run(m, rows, events).1),
        run(m, rows, events).0.id == m.id,
        run(m, rows, events).0.expected_command == m.expected_command,
        run(m, rows, events).0.now == m.now,
        run(m, rows, events).0.plan == m.plan,
    decreases events.len(),
{
    if events.len() > 0 {
        lemma_next_keeps_record(m, rows, events[0]);
        let step = next(m, rows, events[0]);
        lemma_run_keeps_record(step.0, step.1, events.drop_first());
    }
}

/// A request about one entry leaves every other entry's row as it was, whatever the
/// outcome of each step.
pub proof fn lemma_other_requests_keep_row(m: MachineView, rows: Seq<RecordView>, e: ToggleEvent<Text, Binds>, id: Text)
    requires
        m.id != id,
    ensures
        lookup_row(next(m, rows, e).1, id) == lookup_row(rows, id),
{
    match (m.stage, m.plan) {
        (ToggleStage::ReadingEnvironment { command }, TogglePlan::DisableRegistry { value_name, .. }) => {
            match e {
                ToggleEvent::Environment(env) => {
                    let app_path = exe_path_of(command, env);
                    let name = friendly_name(value_name, Some(command), app_path, None, env);
                    let it = disabling_registry_item(m.id, value_name, command, app_path, name);
                    lemma_changes_keep_other_rows(rows, it, m.id, id, None, None, None, m.now);
                },
                _ => {},
            }
        },
        (ToggleStage::ReadingVersion { command, env, app_path }, TogglePlan::DisableRegistry { value_name, .. }) => {
            match e {
                ToggleEvent::VersionName(v) => {
                    let name = friendly_name(value_name, Some(command), Some(app_path), v, env);
                    let it = disabling_registry_item(m.id, value_name, command, Some(app_path), name);
                    lemma_changes_keep_other_rows(rows, it, m.id, id, None, None, None, m.now);
                },
                _ => {},
            }
        },
        (ToggleStage::CheckingDeleted { command }, _) => {
            let it = disabling_shortcut_item(m.id, m.id, command);
            lemma_changes_keep_other_rows(rows, it, m.id, id, Some(command), None, None, m.now);
        },
        (ToggleStage::CheckingCandidate { original, .. }, TogglePlan::DisableShortcut { file_name }) => {
            let it = disabling_shortcut_item(m.id, file_name, original);
            lemma_changes_keep_other_rows(rows, it, m.id, id, None, None, None, m.now);
        },
        (ToggleStage::CheckingClockName { original, .. }, TogglePlan::DisableShortcut { file_name }) => {
            let it = disabling_shortcut_item(m.id, file_name, original);
            lemma_changes_keep_other_rows(rows, it, m.id, id, None, None, None, m.now);
        },
        (ToggleStage::MovingToBackup { original }, _) => {
            match e {
                ToggleEvent::Moved(backup) => {
                    let it = disabling_shortcut_item(m.id, m.id, original);
                    lemma_changes_keep_other_rows(rows, it, m.id, id, Some(original), Some(original), Some(backup), m.now);
                },
                _ => {},
            }
        },
        (ToggleStage::Writing, _) => {
            let it = disabling_shortcut_item(m.id, m.id, m.id);
            lemma_changes_keep_other_rows(rows, it, m.id, id, None, None, None, m.now);
        },
        (ToggleStage::MovingBack, _) => {
            let it = disabling_shortcut_item(m.id, m.id, m.id);
            lemma_changes_keep_other_rows(rows, it, m.id, id, None, None, None, m.now);
        },
        _ => {},
    }
}

/// The state and store that a request about `id` reaches after the outcomes `events`.
pub open spec fn reached(
    id: Text,
    enabled: bool,
    expected_command: Option<Text>,
    now: Text,
    rows: Seq<RecordView>,
    events: Seq<ToggleEvent<Text, Binds>>,
) -> (MachineView, Seq<RecordView>) {
    let r = run(start_state(id, enabled, expected_command, now), rows, events);
    (r.0, r.1)
}

/// What switching a registry entry off and back on asks and leaves: see
/// `lemma_registry_off_then_on`.
pub open spec fn registry_off_then_on(
    prefix: Text,
    value_name: Text,
    expected_command: Option<Text>,
    now: Text,
    rows: Seq<RecordView>,
    events: Seq<ToggleEvent<Text, Binds>>,
    command: Text,
    restore_expected: Option<Text>,
    restore_now: Text,
) -> bool {
    let id = entry_id(prefix, value_name);
    let (m, before) = reached(id, false, expected_command, now, rows, events);
    let (_, off, a) = next(m, before, ToggleEvent::Exists(false));
    let on = run(start_state(id, true, restore_expected, restore_now), off, seq![
        ToggleEvent::Begin,
        ToggleEvent::Exists(false),
        ToggleEvent::Completed,
    ]);
    &&& m.plan == TogglePlan::DisableRegistry { key_path: key_path_for(id), value_name: value_name }
    &&& a == ToggleAction::<Text>::Finish(None)
    &&& lookup_row(off, id) matches Some(r) && r.disabled_at == Some(now) && r.command == Some(command)
        && r.value_name == Some(value_name) && r.source == StartupSource::Registry
    &&& on.2 == seq![
        ToggleAction::CheckRegistryValue { key_path: key_path_for(id), value_name: value_name },
        ToggleAction::WriteRegistryValue {
            key_path: key_path_for(id),
            value_name: value_name,
            command: command,
        },
        ToggleAction::Finish(None),
    ]
    &&& lookup_row(on.1, id) matches Some(r) && r.disabled_at is None && r.backup_path is None
        && r.command == Some(command) && r.value_name == Some(value_name)
}

/// Switching a registry entry off and back on gives it back. Take a request, made at
/// time `now`, that switches off the value `value_name` of the `Run` key (`prefix` is
/// `registry`) or of the 32-bit `Run` key (`registry32`), and that has got, after any
/// outcomes, to checking that the value it deleted is gone, having deleted it while it
/// held `command`. It deleted that value of the key that the entry's id names. When the
/// value is found gone, the request succeeds and the store remembers the entry as
/// switched off at `now`, with `command` and the value name. A later request to switch
/// the entry back on, over that store, first checks that value of that key; when it is
/// free, it writes `command` back to it, nothing guessed; once written, the request
/// succeeds and the entry is no longer remembered as switched off.
pub proof fn lemma_registry_off_then_on(
    prefix: Text,
    value_name: Text,
    expected_command: Option<Text>,
    now: Text,
    rows: Seq<RecordView>,
    events: Seq<ToggleEvent<Text, Binds>>,
    command: Text,
    restore_expected: Option<Text>,
    restore_now: Text,
)
    requires
        prefix == registry_prefix() || prefix == registry32_prefix(),
        reached(entry_id(prefix, value_name), false, expected_command, now, rows, events).0.stage
            == (ToggleStage::<Text, Binds>::CheckingDeleted { command: command }),
    ensures
        registry_off_then_on(prefix, value_name, expected_command, now, rows, events, command, restore_expected, restore_now),
{
    let id = entry_id(prefix, value_name);
    let s0 = start_state(id, false, expected_command, now);
    lemma_run_keeps_record(s0, rows, events);
    lemma_ids_route_back(value_name, value_name);
    let (m, before) = reached(id, false, expected_command, now, rows, events);
    let old_row = lookup_row(before, id)->0;
    lemma_read_after_write(before, disabling_shortcut_item(id, value_name, value_name), id, Some(command), None, None, now);
    let off = next(m, before, ToggleEvent::Exists(false)).1;
    assert(lookup_row(off, id) == Some(disabled_row(old_row, Some(command), None, None, now)));
    lemma_registry_restore_run(id, off, value_name, command, restore_expected, restore_now);
}

/// Restoring a registry entry whose row remembers `value_name` and `command`.
proof fn lemma_registry_restore_run(
    id: Text,
    off: Seq<RecordView>,
    value_name: Text,
    command: Text,
    restore_expected: Option<Text>,
    restore_now: Text,
)
    requires
        lookup_row(off, id) matches Some(r) && r.source == StartupSource::Registry && r.value_name == Some(value_name)
            && r.command == Some(command),
    ensures
        ({
            let on = run(start_state(id, true, restore_expected, restore_now), off, seq![
                ToggleEvent::Begin,
                ToggleEvent::Exists(false),
                ToggleEvent::Completed,
            ]);
            &&& on.2 == seq![
                ToggleAction::CheckRegistryValue { key_path: key_path_for(id), value_name: value_name },
                ToggleAction::WriteRegistryValue {
                    key_path: key_path_for(id),
                    value_name: value_name,
                    command: command,
                },
                ToggleAction::Finish(None),
            ]
            &&& lookup_row(on.1, id) matches Some(r) && r.disabled_at is None && r.backup_path is None
                && r.command == Some(command) && r.value_name == Some(value_name)
        }),
{
    let r0 = start_state(id, true, restore_expected, restore_now);
    let e = seq![ToggleEvent::<Text, Binds>::Begin, ToggleEvent::Exists(false), ToggleEvent::Completed];
    let n1 = next(r0, off, e[0]);
    let n2 = next(n1.0, n1.1, e[1]);
    let n3 = next(n2.0, n2.1, e[2]);
    assert(n1.1 == off && n2.1 == off);
    lemma_read_after_write(off, disabling_shortcut_item(id, value_name, value_name), id, None, None, None, restore_now);
    assert(e.drop_first().drop_first().drop_first() =~= Seq::<ToggleEvent<Text, Binds>>::empty());
    assert(run(n3.0, n3.1, e.drop_first().drop_first().drop_first()) == (n3.0, n3.1, Seq::<ToggleAction<Text>>::empty()));
    assert(run(n2.0, n2.1, e.drop_first().drop_first()).2 =~= seq![n3.2]);
    assert(run(n1.0, n1.1, e.drop_first()).2 =~= seq![n2.2, n3.2]);
    assert(run(r0, off, e).2 =~= seq![n1.2, n2.2, n3.2]);
}

/// What switching a shortcut off and back on asks and leaves: see
/// `lemma_shortcut_off_then_on`.
pub open spec fn shortcut_off_then_on(
    file_name: Text,
    expected_command: Option<Text>,
    now: Text,
    rows: Seq<RecordView>,
    events: Seq<ToggleEvent<Text, Binds>>,
    original: Text,
    backup: Text,
    restore_expected: Option<Text>,
    restore_now: Text,
) -> bool {
    let id = entry_id(folder_prefix(), file_name);
    let (m, before) = reached(id, false, expected_command, now, rows, events);
    let (_, off, a) = next(m, before, ToggleEvent::Moved(backup));
    let on = run(start_state(id, true, restore_expected, restore_now), off, seq![
        ToggleEvent::Begin,
        ToggleEvent::Exists(false),
        ToggleEvent::Exists(true),
        ToggleEvent::Completed,
    ]);
    &&& m.plan == TogglePlan::DisableShortcut { file_name: file_name }
    &&& a == ToggleAction::<Text>::Finish(None)
    &&& lookup_row(off, id) matches Some(r) && r.disabled_at == Some(now) && r.original_path == Some(original)
        && r.backup_path == Some(backup) && r.source == StartupSource::StartupFolder
    &&& on.2 == seq![
        ToggleAction::CheckPathExists { path: original },
        ToggleAction::CheckPathExists { path: backup },
        ToggleAction::MoveBack { from: backup, to: original },
        ToggleAction::Finish(None),
    ]
    &&& lookup_row(on.1, id) matches Some(r) && r.disabled_at is None && r.backup_path is None
        && r.original_path == Some(original)
}

/// Switching a Startup-folder shortcut off and back on gives it back. Take a request,
/// made at time `now`, that switches off the shortcut `file_name` and that has got, after
/// any outcomes, to moving the shortcut found at `original` into the backup folder. When
/// the shortcut has been moved to `backup`, the request succeeds and the store remembers
/// the entry as switched off at `now`, with both paths. A later request to switch the
/// entry back on, over that store, first checks that `original` is free, then that
/// `backup` is there, and then moves `backup` back to `original`, nothing guessed; once
/// moved, the request succeeds and the entry is no longer remembered as switched off.
pub proof fn lemma_shortcut_off_then_on(
    file_name: Text,
    expected_command: Option<Text>,
    now: Text,
    rows: Seq<RecordView>,
    events: Seq<ToggleEvent<Text, Binds>>,
    original: Text,
    backup: Text,
    restore_expected: Option<Text>,
    restore_now: Text,
)
    requires
        reached(entry_id(folder_prefix(), file_name), false, expected_command, now, rows, events).0.stage
            == (ToggleStage::<Text, Binds>::MovingToBackup { original: original }),
    ensures
        shortcut_off_then_on(file_name, expected_command, now, rows, events, original, backup, restore_expected, restore_now),
{
    let id = entry_id(folder_prefix(), file_name);
    let s0 = start_state(id, false, expected_command, now);
    lemma_run_keeps_record(s0, rows, events);
    lemma_ids_route_back(file_name, file_name);
    let (m, before) = reached(id, false, expected_command, now, rows, events);
    let old_row = lookup_row(before, id)->0;
    lemma_read_after_write(before, disabling_shortcut_item(id, file_name, original), id, Some(original), Some(original), Some(backup), now);
    let off = next(m, before, ToggleEvent::Moved(backup)).1;
    assert(lookup_row(off, id) == Some(disabled_row(old_row, Some(original), Some(original), Some(backup), now)));
    lemma_shortcut_restore_run(id, off, original, backup, restore_expected, restore_now);
}

/// Restoring a shortcut entry whose row remembers `original` and `backup`.
proof fn lemma_shortcut_restore_run(
    id: Text,
    off: Seq<RecordView>,
    original: Text,
    backup: Text,
    restore_expected: Option<Text>,
    restore_now: Text,
)
    requires
        lookup_row(off, id) matches Some(r) && r.source == StartupSource::StartupFolder && r.original_path
            == Some(original) && r.backup_path == Some(backup),
    ensures
        ({
            let on = run(start_state(id, true, restore_expected, restore_now), off, seq![
                ToggleEvent::Begin,
                ToggleEvent::Exists(false),
                ToggleEvent::Exists(true),
                ToggleEvent::Completed,
            ]);
            &&& on.2 == seq![
                ToggleAction::CheckPathExists { path: original },
                ToggleAction::CheckPathExists { path: backup },
                ToggleAction::MoveBack { from: backup, to: original },
                ToggleAction::Finish(None),
            ]
            &&& lookup_row(on.1, id) matches Some(r) && r.disabled_at is None && r.backup_path is None
                && r.original_path == Some(original)
        }),
{
    let r0 = start_state(id, true, restore_expected, restore_now);
    let e = seq![
        ToggleEvent::<Text, Binds>::Begin,
        ToggleEvent::Exists(false),
        ToggleEvent::Exists(true),
        ToggleEvent::Completed,
    ];
    let n1 = next(r0, off, e[0]);
    let n2 = next(n1.0, n1.1, e[1]);
    let n3 = next(n2.0, n2.1, e[2]);
    let n4 = next(n3.0, n3.1, e[3]);
    assert(n1.1 == off && n2.1 == off && n3.1 == off);
    lemma_read_after_write(off, disabling_shortcut_item(id, id, original), id, None, None, None, restore_now);
    let t3 = e.drop_first().drop_first().drop_first();
    assert(t3.drop_first() =~= Seq::<ToggleEvent<Text, Binds>>::empty());
    assert(run(n4.0, n4.1, t3.drop_first()) == (n4.0, n4.1, Seq::<ToggleAction<Text>>::empty()));
    assert(run(n3.0, n3.1, t3).2 =~= seq![n4.2]);
    assert(run(n2.0, n2.1, e.drop_first().drop_first()).2 =~= seq![n3.2, n4.2]);
    assert(run(n1.0, n1.1, e.drop_first()).2 =~= seq![n2.2, n3.2, n4.2]);
    assert(run(r0, off, e).2 =~= seq![n1.2, n2.2, n3.2, n4.2]);
}

/// `m` at stage `stage`.
pub open spec fn at_stage(m: MachineView, stage: ToggleStage<Text, Binds>) -> MachineView {
    MachineView { stage: stage, ..m }
}

fn strip_prefix_chars(id: &Vec<char>, prefix: &str) -> (r: Option<Vec<char>>)
    ensures
        match r {
            Some(rest) => starts_with_seq(id@, prefix@) && rest@ == id@.skip(prefix@.len() as int),
            None => !starts_with_seq(id@, prefix@),
        },
{
    let p = chars_of(prefix);
    if occurs_at_exec(id, &p, 0) {
        let rest = slice_chars(id, p.len(), id.len());
        assert(rest@ =~= id@.skip(prefix@.len() as int));
        Some(rest)
    } else {
        None
    }
}

/// Starts a request to switch the entry `id` on (`enabled`) or off. Switching off
/// refuses to act when `expected_command` is given and the entry's command (for a
/// shortcut, its path) is no longer that. `now` is the time recorded in the history.
pub fn set_startup_enabled(id: &str, enabled: bool, expected_command: Option<&str>, now: &str) -> (m: ToggleMachine)
    ensures
        m@ == start_state(id@, enabled, opt_str(expected_command), now@),
{
    let idv = chars_of(id);
    let plan = if enabled {
        TogglePlan::Restore
    } else {
        match strip_prefix_chars(&idv, "registry:") {
            Some(rest) => TogglePlan::DisableRegistry {
                key_path: registry_key_path_for_id(id).to_string(),
                value_name: string_of(&rest),
            },
            None => match strip_prefix_chars(&idv, "registry32:") {
                Some(rest) => TogglePlan::DisableRegistry {
                    key_path: registry_key_path_for_id(id).to_string(),
                    value_name: string_of(&rest),
                },
                None => match strip_prefix_chars(&idv, "startup-folder:") {
                    Some(rest) => TogglePlan::DisableShortcut { file_name: string_of(&rest) },
                    None => TogglePlan::UnknownId,
                },
            },
        }
    };
    let expected = match expected_command {
        Some(c) => Some(c.to_string()),
        None => None,
    };
    ToggleMachine { id: id.to_string(), expected_command: expected, now: now.to_string(), plan, stage: ToggleStage::Start }
}

fn backup_stem_chars(file_name: &Vec<char>) -> (r: Vec<char>)
    ensures
        r@ == backup_stem(file_name@),
{
    match file_stem_chars(file_name) {
        Some(s) => s,
        None => chars_of("startup-item"),
    }
}

fn backup_ext_chars(file_name: &Vec<char>) -> (r: Vec<char>)
    ensures
        r@ == backup_ext(file_name@),
{
    match file_name_chars(file_name) {
        Some(n) => match extension_chars(&n) {
            Some(e) => e,
            None => chars_of("lnk"),
        },
        None => chars_of("lnk"),
    }
}

fn numbered_name(file_name: &Vec<char>, number: &Vec<char>) -> (r: Vec<char>)
    ensures
        r@ == backup_stem(file_name@) + seq!['-'] + number@ + seq!['.'] + backup_ext(file_name@),
{
    let mut r = backup_stem_chars(file_name);
    r.push('-');
    let mut r = concat_chars(&r, number);
    r.push('.');
    let r = concat_chars(&r, &backup_ext_chars(file_name));
    r
}

/// The backup file name tried at attempt `index` (see `backup_candidate`).
pub fn backup_candidate_name(file_name: &str, index: u32) -> (r: String)
    ensures
        r@ == backup_candidate(file_name@, index as nat),
{
    let f = chars_of(file_name);
    if index == 0 {
        string_of(&f)
    } else {
        string_of(&numbered_name(&f, &decimal_chars(index as u64)))
    }
}

/// The backup file name used once every candidate is taken (see `backup_clock_name`).
pub fn backup_clock_file_name(file_name: &str, millis: i64) -> (r: String)
    ensures
        r@ == backup_clock_name(file_name@, millis as int),
{
    let f = chars_of(file_name);
    string_of(&numbered_name(&f, &signed_decimal_chars(millis)))
}

fn registry_item_for(id: &String, value_name: &String, command: &String, app_path: Option<String>, name: String) -> (r: StartupItem)
    ensures
        r@ == disabling_registry_item(id@, value_name@, command@, opt_view(app_path), name@),
{
    StartupItem {
        id: id.clone(),
        name,
        raw_name: Some(value_name.clone()),
        source: StartupSource::Registry,
        enabled: true,
        command: Some(command.clone()),
        path: None,
        app_path,
        risk_level: RiskLevel::Normal,
        risk_reason: None,
        disabled_at: None,
        remembered: false,
    }
}

fn shortcut_item_for(id: &String, file_name: &String, original: &String) -> (r: StartupItem)
    ensures
        r@ == disabling_shortcut_item(id@, file_name@, original@),
{
    StartupItem {
        id: id.clone(),
        name: display_name(file_name.as_str()),
        raw_name: Some(file_name.clone()),
        source: StartupSource::StartupFolder,
        enabled: true,
        command: Some(original.clone()),
        path: Some(original.clone()),
        app_path: Some(original.clone()),
        risk_level: RiskLevel::Normal,
        risk_reason: None,
        disabled_at: None,
        remembered: false,
    }
}

fn text_eq(a: &String, b: &String) -> (r: bool)
    ensures
        r == (a@ == b@),
{
    chars_eq(&chars_of(a.as_str()), &chars_of(b.as_str()))
}

fn done(msg: &str) -> (a: ToggleAction<String>)
    ensures
        a@ == ToggleAction::<Text>::Finish(Some(msg@)),
{
    ToggleAction::Finish(Some(msg.to_string()))
}

impl ToggleMachine {
    /// Whether the request has finished.
    pub fn is_done(&self) -> (b: bool)
        ensures
            b == (self@.stage is Done),
    {
        match self.stage {
            ToggleStage::Done => true,
            _ => false,
        }
    }

    /// Takes the outcome `event` of the last action asked for and gives the next action
    /// (see `next`), updating `store` on the way.
    pub fn step(&mut self, store: &mut RecordStore, event: ToggleEvent<String, Bindings>) -> (a: ToggleAction<String>)
        ensures
            (final(self)@, final(store)@, a@) == next(old(self)@, old(store)@, event@),
    {
        let mut stage = ToggleStage::Done;
        std::mem::swap(&mut stage, &mut self.stage);
        let ghost m0 = old(self)@;
        assert(self@ == at_stage(m0, ToggleStage::Done));
        assert(m0 == at_stage(m0, stage_view(stage)));
        match event {
            ToggleEvent::Failed(msg) => ToggleAction::Finish(Some(msg)),
            event => self.advance(store, stage, event),
        }
    }

    fn advance(
        &mut self,
        store: &mut RecordStore,
        stage: ToggleStage<String, Bindings>,
        event: ToggleEvent<String, Bindings>,
    ) -> (a: ToggleAction<String>)
        requires
            old(self)@.stage is Done,
            !(event is Failed),
        ensures
            (final(self)@, final(store)@, a@) == next(at_stage(old(self)@, stage_view(stage)), old(store)@, event@),
    {
        match stage {
            ToggleStage::Start => self.on_start(store, event),
            ToggleStage::ReadingValue => match event {
                ToggleEvent::RegistryValue(command) => {
                    let changed = match &self.expected_command {
                        Some(x) => !text_eq(x, &command),
                        None => false,
                    };
                    if changed {
                        done("启动项已变化，请刷新后重试")
                    } else {
                        self.stage = ToggleStage::ReadingEnvironment { command: command.clone() };
                        ToggleAction::ReadEnvironment { command }
                    }
                },
                _ => done("unexpected outcome for this step"),
            },
            ToggleStage::ReadingEnvironment { command } => self.on_environment(store, command, event),
            ToggleStage::ReadingVersion { command, env, app_path } => self.on_version(store, command, env, app_path, event),
            ToggleStage::Deleting { command } => match (event, &self.plan) {
                (ToggleEvent::Completed, TogglePlan::DisableRegistry { key_path, value_name }) => {
                    let a = ToggleAction::CheckRegistryValue { key_path: key_path.clone(), value_name: value_name.clone() };
                    self.stage = ToggleStage::CheckingDeleted { command };
                    a
                },
                _ => done("unexpected outcome for this step"),
            },
            ToggleStage::CheckingDeleted { command } => match event {
                ToggleEvent::Exists(true) => done("注册表启动项删除后仍然存在，请刷新后重试"),
                ToggleEvent::Exists(false) => {
                    store.mark_disabled(self.id.as_str(), Some(command.as_str()), None, None, self.now.as_str());
                    ToggleAction::Finish(None)
                },
                _ => done("unexpected outcome for this step"),
            },
            ToggleStage::Locating => match event {
                ToggleEvent::Shortcut { path, exists } => {
                    if !exists {
                        done("启动文件夹快捷方式不存在，请刷新后重试")
                    } else {
                        let changed = match &self.expected_command {
                            Some(x) => !text_eq(x, &path),
                            None => false,
                        };
                        if changed {
                            done("启动文件夹项已变化，请刷新后重试")
                        } else {
                            self.stage = ToggleStage::PreparingBackup { original: path };
                            ToggleAction::PrepareBackupDir
                        }
                    }
                },
                _ => done("unexpected outcome for this step"),
            },
            ToggleStage::PreparingBackup { original } => match (event, &self.plan) {
                (ToggleEvent::BackupDir(dir), TogglePlan::DisableShortcut { file_name }) => {
                    let a = ToggleAction::CheckBackupCandidate {
                        dir: dir.clone(),
                        name: backup_candidate_name(file_name.as_str(), 0),
                    };
                    self.stage = ToggleStage::CheckingCandidate { original, dir, index: 0 };
                    a
                },
                _ => done("unexpected outcome for this step"),
            },
            ToggleStage::CheckingCandidate { original, dir, index } => self.on_candidate(store, original, dir, index, event),
            ToggleStage::ReadingClock { original, dir } => match (event, &self.plan) {
                (ToggleEvent::Millis(ms), TogglePlan::DisableShortcut { file_name }) => {
                    let a = ToggleAction::CheckBackupCandidate {
                        dir: dir.clone(),
                        name: backup_clock_file_name(file_name.as_str(), ms),
                    };
                    self.stage = ToggleStage::CheckingClockName { original, dir, millis: ms };
                    a
                },
                _ => done("unexpected outcome for this step"),
            },
            ToggleStage::CheckingClockName { original, dir, millis } => match (event, &self.plan) {
                (ToggleEvent::Exists(false), TogglePlan::DisableShortcut { file_name }) => {
                    let item = shortcut_item_for(&self.id, file_name, &original);
                    store.upsert_seen_item(&item, self.now.as_str());
                    let a = ToggleAction::MoveToBackup {
                        from: original.clone(),
                        dir,
                        name: backup_clock_file_name(file_name.as_str(), millis),
                    };
                    self.stage = ToggleStage::MovingToBackup { original };
                    a
                },
                (ToggleEvent::Exists(true), TogglePlan::DisableShortcut { .. }) => {
                    self.stage = ToggleStage::ReadingClock { original, dir };
                    ToggleAction::ReadClockMillis
                },
                _ => done("unexpected outcome for this step"),
            },
            ToggleStage::MovingToBackup { original } => match event {
                ToggleEvent::Moved(backup) => {
                    store.mark_disabled(
                        self.id.as_str(),
                        Some(original.as_str()),
                        Some(original.as_str()),
                        Some(backup.as_str()),
                        self.now.as_str(),
                    );
                    ToggleAction::Finish(None)
                },
                _ => done("unexpected outcome for this step"),
            },
            ToggleStage::CheckingConflict { key_path, value_name, command } => match event {
                ToggleEvent::Exists(true) => done("同名注册表启动项已存在，已拒绝覆盖"),
                ToggleEvent::Exists(false) => {
                    self.stage = ToggleStage::Writing;
                    ToggleAction::WriteRegistryValue { key_path, value_name, command }
                },
                _ => done("unexpected outcome for this step"),
            },
            ToggleStage::Writing => match event {
                ToggleEvent::Completed => {
                    store.clear_disabled(self.id.as_str(), self.now.as_str());
                    ToggleAction::Finish(None)
                },
                _ => done("unexpected outcome for this step"),
            },
            ToggleStage::CheckingOriginal { original, backup } => match event {
                ToggleEvent::Exists(true) => done("Startup 文件夹同名快捷方式已存在，已拒绝覆盖"),
                ToggleEvent::Exists(false) => {
                    let a = ToggleAction::CheckPathExists { path: backup.clone() };
                    self.stage = ToggleStage::CheckingBackup { original, backup };
                    a
                },
                _ => done("unexpected outcome for this step"),
            },
            ToggleStage::CheckingBackup { original, backup } => match event {
                ToggleEvent::Exists(false) => done("备份快捷方式不存在，无法恢复"),
                ToggleEvent::Exists(true) => {
                    self.stage = ToggleStage::MovingBack;
                    ToggleAction::MoveBack { from: backup, to: original }
                },
                _ => done("unexpected outcome for this step"),
            },
            ToggleStage::MovingBack => match event {
                ToggleEvent::Completed => {
                    store.clear_disabled(self.id.as_str(), self.now.as_str());
                    ToggleAction::Finish(None)
                },
                _ => done("unexpected outcome for this step"),
            },
            ToggleStage::Done => done("unexpected outcome for this step"),
        }
    }

    fn on_start(&mut self, store: &mut RecordStore, event: ToggleEvent<String, Bindings>) -> (a: ToggleAction<String>)
        requires
            old(self)@.stage is Done,
            !(event is Failed),
        ensures
            (final(self)@, final(store)@, a@) == next(at_stage(old(self)@, ToggleStage::Start), old(store)@, event@),
    {
        match event {
            ToggleEvent::Begin => {},
            _ => return done("unexpected outcome for this step"),
        }
        match &self.plan {
            TogglePlan::Restore => {
                match store.load_record(self.id.as_str()) {
                    None => done("没有找到可恢复记录，请刷新后重试"),
                    Some(rec) => match rec.source {
                        StartupSource::Registry => match (rec.value_name, rec.command) {
                            (None, _) => done("缺少注册表值名，无法恢复"),
                            (Some(_), None) => done("缺少原始启动命令，无法恢复"),
                            (Some(v), Some(c)) => {
                                let key_path = registry_key_path_for_id(self.id.as_str()).to_string();
                                let a = ToggleAction::CheckRegistryValue { key_path: key_path.clone(), value_name: v.clone() };
                                self.stage = ToggleStage::CheckingConflict { key_path, value_name: v, command: c };
                                a
                            },
                        },
                        StartupSource::StartupFolder => match (rec.original_path, rec.backup_path) {
                            (None, _) => done("缺少原始快捷方式路径，无法恢复"),
                            (Some(_), None) => done("缺少备份快捷方式路径，无法恢复"),
                            (Some(o), Some(b)) => {
                                let a = ToggleAction::CheckPathExists { path: o.clone() };
                                self.stage = ToggleStage::CheckingOriginal { original: o, backup: b };
                                a
                            },
                        },
                    },
                }
            },
            TogglePlan::DisableRegistry { key_path, value_name } => {
                let a = ToggleAction::ReadRegistryValue { key_path: key_path.clone(), value_name: value_name.clone() };
                self.stage = ToggleStage::ReadingValue;
                a
            },
            TogglePlan::DisableShortcut { file_name } => {
                let a = ToggleAction::LocateShortcut { file_name: file_name.clone() };
                self.stage = ToggleStage::Locating;
                a
            },
            TogglePlan::UnknownId => done("未知启动项 ID"),
        }
    }

    fn on_environment(
        &mut self,
        store: &mut RecordStore,
        command: String,
        event: ToggleEvent<String, Bindings>,
    ) -> (a: ToggleAction<String>)
        requires
            old(self)@.stage is Done,
            !(event is Failed),
        ensures
            (final(self)@, final(store)@, a@) == next(
                at_stage(old(self)@, ToggleStage::ReadingEnvironment { command: command@ }),
                old(store)@,
                event@,
            ),
    {
        match (event, &self.plan) {
            (ToggleEvent::Environment(env), TogglePlan::DisableRegistry { key_path, value_name }) => {
                let facts = HostFacts { env, version_names: Bindings::new() };
                let app_path = executable_path_from_command(command.as_str(), &facts);
                let app_path_str = match &app_path {
                    Some(p) => Some(p.as_str()),
                    None => None,
                };
                let known = known_app_name(value_name.as_str(), Some(command.as_str()), app_path_str);
                if known.is_none() && app_path.is_some() {
                    let p = match app_path {
                        Some(p) => p,
                        None => String::new(),
                    };
                    let a = ToggleAction::ReadVersionName { path: p.clone() };
                    self.stage = ToggleStage::ReadingVersion { command, env: facts.env, app_path: p };
                    a
                } else {
                    let name = friendly_app_name(value_name.as_str(), Some(command.as_str()), app_path_str, &facts);
                    let item = registry_item_for(&self.id, value_name, &command, app_path, name);
                    store.upsert_seen_item(&item, self.now.as_str());
                    let a = ToggleAction::DeleteRegistryValue { key_path: key_path.clone(), value_name: value_name.clone() };
                    self.stage = ToggleStage::Deleting { command };
                    a
                }
            },
            _ => done("unexpected outcome for this step"),
        }
    }

    fn on_version(
        &mut self,
        store: &mut RecordStore,
        command: String,
        env: Bindings,
        app_path: String,
        event: ToggleEvent<String, Bindings>,
    ) -> (a: ToggleAction<String>)
        requires
            old(self)@.stage is Done,
            !(event is Failed),
        ensures
            (final(self)@, final(store)@, a@) == next(
                at_stage(old(self)@, ToggleStage::ReadingVersion { command: command@, env: env@, app_path: app_path@ }),
                old(store)@,
                event@,
            ),
    {
        match (event, &self.plan) {
            (ToggleEvent::VersionName(v), TogglePlan::DisableRegistry { key_path, value_name }) => {
                let mut versions = Bindings::new();
                match v {
                    Some(name) => versions.insert(app_path.clone(), name),
                    None => {},
                }
                let facts = HostFacts { env, version_names: versions };
                let name = friendly_app_name(value_name.as_str(), Some(command.as_str()), Some(app_path.as_str()), &facts);
                let item = registry_item_for(&self.id, value_name, &command, Some(app_path), name);
                store.upsert_seen_item(&item, self.now.as_str());
                let a = ToggleAction::DeleteRegistryValue { key_path: key_path.clone(), value_name: value_name.clone() };
                self.stage = ToggleStage::Deleting { command };
                a
            },
            _ => done("unexpected outcome for this step"),
        }
    }

    fn on_candidate(
        &mut self,
        store: &mut RecordStore,
        original: String,
        dir: String,
        index: u32,
        event: ToggleEvent<String, Bindings>,
    ) -> (a: ToggleAction<String>)
        requires
            old(self)@.stage is Done,
            !(event is Failed),
        ensures
            (final(self)@, final(store)@, a@) == next(
                at_stage(old(self)@, ToggleStage::CheckingCandidate { original: original@, dir: dir@, index: index }),
                old(store)@,
                event@,
            ),
    {
        match (event, &self.plan) {
            (ToggleEvent::Exists(false), TogglePlan::DisableShortcut { file_name }) => {
                let item = shortcut_item_for(&self.id, file_name, &original);
                store.upsert_seen_item(&item, self.now.as_str());
                let a = ToggleAction::MoveToBackup {
                    from: original.clone(),
                    dir,
                    name: backup_candidate_name(file_name.as_str(), index),
                };
                self.stage = ToggleStage::MovingToBackup { original };
                a
            },
            (ToggleEvent::Exists(true), TogglePlan::DisableShortcut { file_name }) => {
                if index < 999 {
                    let a = ToggleAction::CheckBackupCandidate {
                        dir: dir.clone(),
                        name: backup_candidate_name(file_name.as_str(), index + 1),
                    };
                    self.stage = ToggleStage::CheckingCandidate { original, dir, index: index + 1 };
                    a
                } else {
                    self.stage = ToggleStage::ReadingClock { original, dir };
                    ToggleAction::ReadClockMillis
                }
            },
            _ => done("unexpected outcome for this step"),
        }
    }
}

} // verus!
