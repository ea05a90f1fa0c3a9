use freshstart::command::{env_keys_in, executable_path_from_command, expand_env_vars, Bindings, HostFacts};
use freshstart::entries::{is_shortcut_path, make_entry_id, registry_item, shortcut_item};
use freshstart::listing::list_startup_items;
use freshstart::model::{
    message, source_to_str, str_to_source, DisabledRecord, FreshStartError, RiskLevel, StartupItem,
    StartupSource,
};
use freshstart::naming::{clean_app_name, display_name, friendly_app_name, known_app_name};
use freshstart::records::{enrich_active_item, record_to_disabled_item};
use freshstart::risk::{classify_lowered, classify_risk, includes_executable};
use freshstart::store::RecordStore;
use freshstart::version::{pick_version_name, until_nul_units, version_name_queries, version_translations};
use freshstart::text::chars_of;
use freshstart::toggle::{
    backup_candidate_name, backup_clock_file_name, set_startup_enabled, ToggleAction, ToggleEvent,
};

fn facts_with_env(pairs: &[(&str, &str)]) -> HostFacts {
    let mut facts = HostFacts::new();
    for (k, v) in pairs {
        facts.env.insert(k.to_string(), v.to_string());
    }
    facts
}

fn item(id: &str, name: &str, command: &str, enabled: bool) -> StartupItem {
    StartupItem {
        id: id.to_string(),
        name: name.to_string(),
        raw_name: Some(name.to_string()),
        source: StartupSource::Registry,
        enabled,
        command: Some(command.to_string()),
        path: None,
        app_path: None,
        risk_level: RiskLevel::Normal,
        risk_reason: None,
        disabled_at: None,
        remembered: false,
    }
}

#[test]
fn expands_bound_variables_and_keeps_the_rest() {
    let facts = facts_with_env(&[("APPDATA", "C:\\Users\\u\\AppData\\Roaming")]);
    assert_eq!(
        expand_env_vars("%APPDATA%\\App\\app.exe %MISSING% 100%", &facts.env),
        "C:\\Users\\u\\AppData\\Roaming\\App\\app.exe %MISSING% 100%"
    );
    assert_eq!(expand_env_vars("%%", &Bindings::new()), "%%");
}

#[test]
fn first_binding_of_a_name_wins() {
    let mut env = Bindings::new();
    env.insert("A".to_string(), "one".to_string());
    env.insert("A".to_string(), "two".to_string());
    assert_eq!(expand_env_vars("%A%", &env), "one");
}

#[test]
fn lists_every_name_expansion_may_read() {
    let keys = env_keys_in("  %A%\\%B%  ");
    assert_eq!(keys, vec!["A".to_string(), "\\".to_string(), "B".to_string()]);
    assert!(env_keys_in("no references").is_empty());
}

#[test]
fn executable_path_uses_environment() {
    let facts = facts_with_env(&[("ProgramFiles", "C:\\Program Files")]);
    let path = executable_path_from_command("\"%ProgramFiles%\\Tool\\tool.exe\" /min", &facts);
    assert_eq!(path.as_deref(), Some("C:\\Program Files\\Tool\\tool.exe"));
}

#[test]
fn executable_path_edge_cases() {
    let facts = HostFacts::new();
    assert_eq!(
        executable_path_from_command("C:\\A\\B.EXE -x", &facts).as_deref(),
        Some("C:\\A\\B.EXE")
    );
    assert_eq!(
        executable_path_from_command("\"C:\\x\\readme.txt\" run.exe", &facts).as_deref(),
        Some("run.exe")
    );
    assert_eq!(
        executable_path_from_command("rundll32 shell32.dll,Control_RunDLL", &facts),
        None
    );
    assert_eq!(
        executable_path_from_command("'C:\\q\\a.exe' x", &facts).as_deref(),
        Some("C:\\q\\a.exe")
    );
}

#[test]
fn cleans_application_names() {
    assert_eq!(clean_app_name("  App.exe  "), "App");
    assert_eq!(clean_app_name("TOOL.EXE"), "TOOL");
    assert_eq!(clean_app_name("Mixed.Exe"), "Mixed.Exe");
    assert_eq!(clean_app_name(" Name .exe"), "Name");
}

#[test]
fn display_names_of_shortcuts() {
    assert_eq!(display_name("a.b.lnk"), "a.b");
    assert_eq!(display_name(".hidden"), ".hidden");
    assert_eq!(display_name("plain"), "plain");
    assert_eq!(display_name("C:\\Users\\u\\Startup\\Tool.lnk"), "Tool");
}

#[test]
fn known_application_rules() {
    assert_eq!(known_app_name("x", Some("C:/Users/u/AppData/Local/Microsoft/Teams/current/Teams.exe"), None).as_deref(), Some("Microsoft Teams"));
    assert_eq!(known_app_name("MicrosoftEdgeAutoLaunch_1", None, None).as_deref(), Some("Microsoft Edge"));
    assert_eq!(known_app_name("Send to OneNote", None, None).as_deref(), Some("OneNote"));
    assert_eq!(known_app_name("Spotify", Some("C:\\Spotify\\Spotify.exe"), None), None);
}

#[test]
fn friendly_name_fallbacks() {
    let mut facts = HostFacts::new();
    facts.version_names.insert("C:\\Tools\\tool.exe".to_string(), " Super Tool.exe ".to_string());
    assert_eq!(
        friendly_app_name("raw", Some("C:\\Tools\\tool.exe"), Some("C:\\Tools\\tool.exe"), &facts),
        "Super Tool"
    );
    assert_eq!(
        friendly_app_name("raw", Some("C:\\Other\\other.exe"), Some("C:\\Other\\other.exe"), &facts),
        "other"
    );
    assert_eq!(friendly_app_name("raw", Some("\"C:\\Dir\\viewer.exe\" -s"), None, &facts), "viewer");
    assert_eq!(friendly_app_name(" Raw Name.exe ", Some("no program here"), None, &facts), "Raw Name");
}

#[test]
fn risk_levels_and_reasons() {
    let (level, reason) = classify_risk("Helper", Some("C:\\Windows\\System32\\CMD.EXE /c start x"));
    assert_eq!(level, RiskLevel::Unknown);
    assert_eq!(reason.as_deref(), Some("命令包含 cmd.exe，启动方式不明确"));
    let (level, reason) = classify_risk("Lenovo Vantage", Some("C:\\x\\vantage.exe"));
    assert_eq!(level, RiskLevel::Keep);
    assert_eq!(reason.as_deref(), Some("名称包含 lenovo，建议保留"));
    let (level, reason) = classify_risk("Intel Helper", Some("powershell.exe -File a.ps1"));
    assert_eq!(level, RiskLevel::Unknown);
    assert_eq!(reason.as_deref(), Some("命令包含 powershell.exe，启动方式不明确"));
    let (level, reason) = classify_risk("Spotify", None);
    assert_eq!(level, RiskLevel::Normal);
    assert_eq!(reason, None);
    assert_eq!(classify_lowered("security center", "").0, RiskLevel::Keep);
}

#[test]
fn executable_must_stand_alone_in_the_command() {
    let exe = chars_of("cmd.exe");
    assert!(includes_executable(&chars_of("c:\\windows\\system32\\cmd.exe"), &exe));
    assert!(includes_executable(&chars_of("cmd.exe-x"), &exe));
    assert!(!includes_executable(&chars_of("mycmd.exe"), &exe));
    assert!(!includes_executable(&chars_of("cmd.exex"), &exe));
    assert!(includes_executable(&chars_of("xcmd.exe \"cmd.exe\""), &exe));
}

#[test]
fn sources_round_trip_through_text() {
    assert_eq!(source_to_str(&StartupSource::Registry), "registry");
    assert_eq!(source_to_str(&StartupSource::StartupFolder), "startup-folder");
    assert_eq!(str_to_source("startup-folder"), StartupSource::StartupFolder);
    assert_eq!(str_to_source("registry"), StartupSource::Registry);
    assert_eq!(str_to_source("anything"), StartupSource::Registry);
    let FreshStartError::Message(text) = message("未知启动项 ID");
    assert_eq!(text, "未知启动项 ID");
}

#[test]
fn entries_found_on_the_system() {
    let facts = HostFacts::new();
    let reg = registry_item("registry32", "Updater", "\"C:\\Vendor\\updater.exe\" /bg", &facts);
    assert_eq!(reg.id, "registry32:Updater");
    assert_eq!(reg.name, "updater");
    assert_eq!(reg.app_path.as_deref(), Some("C:\\Vendor\\updater.exe"));
    assert!(reg.enabled && !reg.remembered);
    let lnk = shortcut_item("Tool.lnk", "C:\\Startup\\Tool.lnk", &facts);
    assert_eq!(lnk.id, "startup-folder:Tool.lnk");
    assert_eq!(lnk.source, StartupSource::StartupFolder);
    assert_eq!(lnk.command.as_deref(), Some("C:\\Startup\\Tool.lnk"));
    assert_eq!(make_entry_id("registry", "A:B"), "registry:A:B");
    assert!(is_shortcut_path("C:\\x\\A.LNK"));
    assert!(!is_shortcut_path("C:\\x\\.lnk"));
    assert!(!is_shortcut_path("C:\\x\\a.exe"));
}

#[test]
fn store_coalesces_sightings_and_clears_marks() {
    let mut store = RecordStore::new();
    let mut first = item("registry:A", "A", "a.exe", true);
    first.app_path = Some("a.exe".to_string());
    store.upsert_seen_item(&first, "t1");
    let mut again = item("registry:A", "A2", "a2.exe", true);
    again.raw_name = None;
    store.upsert_seen_item(&again, "t2");
    let rec = store.load_record("registry:A").unwrap();
    assert_eq!(rec.name, "A2");
    assert_eq!(rec.raw_name.as_deref(), Some("A"));
    assert_eq!(rec.command.as_deref(), Some("a2.exe"));
    assert_eq!(rec.app_path.as_deref(), Some("a.exe"));
    assert_eq!(rec.created_at, "t1");
    assert_eq!(rec.updated_at, "t2");
    store.mark_disabled("registry:A", None, Some("orig"), Some("backup"), "t3");
    let rec = store.load_record("registry:A").unwrap();
    assert_eq!(rec.disabled_at.as_deref(), Some("t3"));
    assert_eq!(rec.command.as_deref(), Some("a2.exe"));
    assert_eq!(rec.backup_path.as_deref(), Some("backup"));
    store.clear_disabled("registry:A", "t4");
    let rec = store.load_record("registry:A").unwrap();
    assert_eq!(rec.disabled_at, None);
    assert_eq!(rec.backup_path, None);
    assert_eq!(rec.original_path.as_deref(), Some("orig"));
    store.mark_disabled("registry:missing", None, None, None, "t5");
    assert_eq!(store.len(), 1);
    assert!(store.load_record("registry:missing").is_none());
}

#[test]
fn store_inserts_rows_once_and_lists_by_name() {
    let mut store = RecordStore::new();
    store.upsert_seen_item(&item("registry:b", "beta", "b.exe", true), "t");
    store.upsert_seen_item(&item("registry:a", "Alpha", "a.exe", true), "t");
    store.upsert_seen_item(&item("registry:c", "alpha", "c.exe", true), "t");
    let again = store.load_record("registry:b").unwrap();
    assert!(!store.insert_row(again));
    let names: Vec<String> = store.records_by_name().into_iter().map(|r| r.name).collect();
    assert_eq!(names, vec!["Alpha", "alpha", "beta"]);
}

#[test]
fn legacy_state_is_migrated_only_into_an_empty_store() {
    let records = vec![
        DisabledRecord::Registry {
            id: "registry:Old".to_string(),
            name: "Old".to_string(),
            value_name: "Old".to_string(),
            command: "C:\\Old\\old.exe".to_string(),
            disabled_at: "d1".to_string(),
        },
        DisabledRecord::StartupFolder {
            id: "startup-folder:x.lnk".to_string(),
            name: "x.lnk".to_string(),
            original_path: "C:\\S\\x.lnk".to_string(),
            backup_path: "C:\\B\\x.lnk".to_string(),
            disabled_at: "d2".to_string(),
        },
    ];
    let facts = HostFacts::new();
    let mut store = RecordStore::new();
    store.migrate_legacy_records(&records, "now", &facts);
    assert_eq!(store.len(), 2);
    let reg = store.load_record("registry:Old").unwrap();
    assert_eq!(reg.name, "old");
    assert_eq!(reg.value_name.as_deref(), Some("Old"));
    assert_eq!(reg.app_path.as_deref(), Some("C:\\Old\\old.exe"));
    let lnk = store.load_record("startup-folder:x.lnk").unwrap();
    assert_eq!(lnk.source, StartupSource::StartupFolder);
    assert_eq!(lnk.backup_path.as_deref(), Some("C:\\B\\x.lnk"));
    assert_eq!(lnk.disabled_at.as_deref(), Some("d2"));

    let mut busy = RecordStore::new();
    busy.upsert_seen_item(&item("registry:a", "a", "a.exe", true), "t");
    busy.migrate_legacy_records(&records, "now", &facts);
    assert_eq!(busy.len(), 1);
}

#[test]
fn enriched_and_disabled_items() {
    let mut store = RecordStore::new();
    let seen = item("registry:Intel", "Intel Graphics", "C:\\Intel\\igfx.exe", true);
    store.upsert_seen_item(&seen, "t0");
    let record = store.load_record("registry:Intel").unwrap();
    let mut present = item("registry:Intel", "other", "C:\\Intel\\igfx.exe", true);
    present.raw_name = None;
    let shown = enrich_active_item(present, &record);
    assert_eq!(shown.name, "Intel Graphics");
    assert_eq!(shown.raw_name.as_deref(), Some("Intel Graphics"));
    assert_eq!(shown.risk_level, RiskLevel::Keep);
    assert!(shown.remembered);
    let off = record_to_disabled_item(&record, &HostFacts::new());
    assert!(!off.enabled);
    assert_eq!(off.name, "igfx");
}

#[test]
fn listing_keeps_disabled_entries_and_orders_them() {
    let facts = HostFacts::new();
    let mut store = RecordStore::new();
    store.upsert_seen_item(&item("registry:Gone", "Gone", "C:\\g\\zz.exe", true), "t0");
    store.mark_disabled("registry:Gone", Some("C:\\g\\zz.exe"), None, None, "t0");
    let active = vec![
        item("registry:Beta", "Beta", "C:\\b\\beta.exe", true),
        item("registry:Alpha", "Alpha", "C:\\a\\alpha.exe", true),
    ];
    let list = list_startup_items(&mut store, &active, "t1", &facts);
    let ids: Vec<&str> = list.iter().map(|i| i.id.as_str()).collect();
    assert_eq!(ids, vec!["registry:Alpha", "registry:Beta", "registry:Gone"]);
    assert!(list[0].enabled && list[1].enabled && !list[2].enabled);
    assert!(list[2].remembered);
    assert_eq!(list[2].name, "zz");
    assert_eq!(store.len(), 3);
    let alpha = store.load_record("registry:Alpha").unwrap();
    assert_eq!(alpha.last_seen_at.as_deref(), Some("t1"));
}

fn expect_finish(action: ToggleAction<String>) -> Option<String> {
    match action {
        ToggleAction::Finish(r) => r,
        _ => panic!("expected the request to finish"),
    }
}

#[test]
fn switching_off_a_registry_entry() {
    let mut store = RecordStore::new();
    let mut m = set_startup_enabled("registry32:Tool", false, Some("C:\\T\\tool.exe"), "now");
    match m.step(&mut store, ToggleEvent::Begin) {
        ToggleAction::ReadRegistryValue { key_path, value_name } => {
            assert_eq!(key_path, "Software\\WOW6432Node\\Microsoft\\Windows\\CurrentVersion\\Run");
            assert_eq!(value_name, "Tool");
        }
        _ => panic!("expected a registry read"),
    }
    match m.step(&mut store, ToggleEvent::RegistryValue("C:\\T\\tool.exe".to_string())) {
        ToggleAction::ReadEnvironment { command } => assert_eq!(command, "C:\\T\\tool.exe"),
        _ => panic!("expected an environment read"),
    }
    match m.step(&mut store, ToggleEvent::Environment(Bindings::new())) {
        ToggleAction::ReadVersionName { path } => assert_eq!(path, "C:\\T\\tool.exe"),
        _ => panic!("expected a version read"),
    }
    match m.step(&mut store, ToggleEvent::VersionName(Some("Tool Suite".to_string()))) {
        ToggleAction::DeleteRegistryValue { value_name, .. } => assert_eq!(value_name, "Tool"),
        _ => panic!("expected a delete"),
    }
    assert_eq!(store.load_record("registry32:Tool").unwrap().name, "Tool Suite");
    match m.step(&mut store, ToggleEvent::Completed) {
        ToggleAction::CheckRegistryValue { value_name, .. } => assert_eq!(value_name, "Tool"),
        _ => panic!("expected a check"),
    }
    assert_eq!(expect_finish(m.step(&mut store, ToggleEvent::Exists(false))), None);
    assert!(m.is_done());
    let rec = store.load_record("registry32:Tool").unwrap();
    assert_eq!(rec.disabled_at.as_deref(), Some("now"));
    assert_eq!(rec.command.as_deref(), Some("C:\\T\\tool.exe"));
}

#[test]
fn refuses_to_switch_off_a_changed_entry() {
    let mut store = RecordStore::new();
    let mut m = set_startup_enabled("registry:Tool", false, Some("old.exe"), "now");
    m.step(&mut store, ToggleEvent::Begin);
    let r = expect_finish(m.step(&mut store, ToggleEvent::RegistryValue("new.exe".to_string())));
    assert_eq!(r.as_deref(), Some("启动项已变化，请刷新后重试"));
    assert_eq!(store.len(), 0);
}

#[test]
fn reports_a_value_that_survives_deletion() {
    let mut store = RecordStore::new();
    let mut m = set_startup_enabled("registry:Edge", false, None, "now");
    m.step(&mut store, ToggleEvent::Begin);
    m.step(&mut store, ToggleEvent::RegistryValue("msedge.exe --auto".to_string()));
    match m.step(&mut store, ToggleEvent::Environment(Bindings::new())) {
        ToggleAction::DeleteRegistryValue { .. } => {}
        _ => panic!("a known application needs no version read"),
    }
    m.step(&mut store, ToggleEvent::Completed);
    let r = expect_finish(m.step(&mut store, ToggleEvent::Exists(true)));
    assert_eq!(r.as_deref(), Some("注册表启动项删除后仍然存在，请刷新后重试"));
    assert_eq!(store.load_record("registry:Edge").unwrap().disabled_at, None);
}

#[test]
fn failures_and_unknown_ids_end_the_request() {
    let mut store = RecordStore::new();
    let mut m = set_startup_enabled("service:X", false, None, "now");
    assert_eq!(expect_finish(m.step(&mut store, ToggleEvent::Begin)).as_deref(), Some("未知启动项 ID"));
    let mut m = set_startup_enabled("registry:X", false, None, "now");
    m.step(&mut store, ToggleEvent::Begin);
    let r = expect_finish(m.step(&mut store, ToggleEvent::Failed("access denied".to_string())));
    assert_eq!(r.as_deref(), Some("access denied"));
    let mut m = set_startup_enabled("registry:X", true, None, "now");
    let r = expect_finish(m.step(&mut store, ToggleEvent::Begin));
    assert_eq!(r.as_deref(), Some("没有找到可恢复记录，请刷新后重试"));
}

#[test]
fn restoring_a_registry_entry_never_overwrites() {
    let mut store = RecordStore::new();
    store.upsert_seen_item(&item("registry:App", "App", "app.exe", true), "t0");
    store.mark_disabled("registry:App", Some("app.exe"), None, None, "t0");
    let mut m = set_startup_enabled("registry:App", true, None, "t1");
    match m.step(&mut store, ToggleEvent::Begin) {
        ToggleAction::CheckRegistryValue { key_path, value_name } => {
            assert_eq!(key_path, "Software\\Microsoft\\Windows\\CurrentVersion\\Run");
            assert_eq!(value_name, "App");
        }
        _ => panic!("expected a conflict check"),
    }
    let r = expect_finish(m.step(&mut store, ToggleEvent::Exists(true)));
    assert_eq!(r.as_deref(), Some("同名注册表启动项已存在，已拒绝覆盖"));
    assert_eq!(store.load_record("registry:App").unwrap().disabled_at.as_deref(), Some("t0"));

    let mut m = set_startup_enabled("registry:App", true, None, "t2");
    m.step(&mut store, ToggleEvent::Begin);
    match m.step(&mut store, ToggleEvent::Exists(false)) {
        ToggleAction::WriteRegistryValue { command, .. } => assert_eq!(command, "app.exe"),
        _ => panic!("expected a write"),
    }
    assert_eq!(expect_finish(m.step(&mut store, ToggleEvent::Completed)), None);
    let rec = store.load_record("registry:App").unwrap();
    assert_eq!(rec.disabled_at, None);
    assert_eq!(rec.updated_at, "t2");
}

#[test]
fn switching_off_and_restoring_a_shortcut() {
    let mut store = RecordStore::new();
    let mut m = set_startup_enabled("startup-folder:Tool.lnk", false, None, "t1");
    match m.step(&mut store, ToggleEvent::Begin) {
        ToggleAction::LocateShortcut { file_name } => assert_eq!(file_name, "Tool.lnk"),
        _ => panic!("expected a lookup"),
    }
    let path = "C:\\Startup\\Tool.lnk".to_string();
    match m.step(&mut store, ToggleEvent::Shortcut { path: path.clone(), exists: true }) {
        ToggleAction::PrepareBackupDir => {}
        _ => panic!("expected the backup folder"),
    }
    match m.step(&mut store, ToggleEvent::BackupDir("C:\\Backup".to_string())) {
        ToggleAction::CheckBackupCandidate { name, .. } => assert_eq!(name, "Tool.lnk"),
        _ => panic!("expected a candidate check"),
    }
    match m.step(&mut store, ToggleEvent::Exists(true)) {
        ToggleAction::CheckBackupCandidate { name, .. } => assert_eq!(name, "Tool-1.lnk"),
        _ => panic!("expected a candidate check"),
    }
    match m.step(&mut store, ToggleEvent::Exists(false)) {
        ToggleAction::MoveToBackup { from, dir, name } => {
            assert_eq!(from, path);
            assert_eq!(dir, "C:\\Backup");
            assert_eq!(name, "Tool-1.lnk");
        }
        _ => panic!("expected a move"),
    }
    assert_eq!(store.load_record("startup-folder:Tool.lnk").unwrap().name, "Tool");
    let backup = "C:\\Backup\\Tool-1.lnk".to_string();
    assert_eq!(expect_finish(m.step(&mut store, ToggleEvent::Moved(backup.clone()))), None);
    let rec = store.load_record("startup-folder:Tool.lnk").unwrap();
    assert_eq!(rec.backup_path.as_deref(), Some(backup.as_str()));
    assert_eq!(rec.original_path.as_deref(), Some(path.as_str()));

    let mut m = set_startup_enabled("startup-folder:Tool.lnk", true, None, "t2");
    match m.step(&mut store, ToggleEvent::Begin) {
        ToggleAction::CheckPathExists { path: p } => assert_eq!(p, path),
        _ => panic!("expected an original check"),
    }
    match m.step(&mut store, ToggleEvent::Exists(false)) {
        ToggleAction::CheckPathExists { path: p } => assert_eq!(p, backup),
        _ => panic!("expected a backup check"),
    }
    match m.step(&mut store, ToggleEvent::Exists(true)) {
        ToggleAction::MoveBack { from, to } => {
            assert_eq!(from, backup);
            assert_eq!(to, path);
        }
        _ => panic!("expected a move back"),
    }
    assert_eq!(expect_finish(m.step(&mut store, ToggleEvent::Completed)), None);
    assert_eq!(store.load_record("startup-folder:Tool.lnk").unwrap().backup_path, None);
}

#[test]
fn shortcut_checks_and_backup_names() {
    let mut store = RecordStore::new();
    let mut m = set_startup_enabled("startup-folder:A.lnk", false, Some("C:\\S\\A.lnk"), "t");
    m.step(&mut store, ToggleEvent::Begin);
    let r = expect_finish(m.step(&mut store, ToggleEvent::Shortcut { path: "C:\\T\\A.lnk".to_string(), exists: true }));
    assert_eq!(r.as_deref(), Some("启动文件夹项已变化，请刷新后重试"));
    let mut m = set_startup_enabled("startup-folder:A.lnk", false, None, "t");
    m.step(&mut store, ToggleEvent::Begin);
    let r = expect_finish(m.step(&mut store, ToggleEvent::Shortcut { path: "C:\\S\\A.lnk".to_string(), exists: false }));
    assert_eq!(r.as_deref(), Some("启动文件夹快捷方式不存在，请刷新后重试"));

    let mut m = set_startup_enabled("startup-folder:A.lnk", false, None, "t");
    m.step(&mut store, ToggleEvent::Begin);
    m.step(&mut store, ToggleEvent::Shortcut { path: "C:\\S\\A.lnk".to_string(), exists: true });
    m.step(&mut store, ToggleEvent::BackupDir("C:\\B".to_string()));
    let mut last = None;
    for _ in 0..1000 {
        last = Some(m.step(&mut store, ToggleEvent::Exists(true)));
    }
    match last {
        Some(ToggleAction::ReadClockMillis) => {}
        _ => panic!("expected a clock read after 999 taken names"),
    }
    match m.step(&mut store, ToggleEvent::Millis(1718496000123)) {
        ToggleAction::CheckBackupCandidate { name, .. } => assert_eq!(name, "A-1718496000123.lnk"),
        _ => panic!("expected the clock-based name to be checked"),
    }
    match m.step(&mut store, ToggleEvent::Exists(true)) {
        ToggleAction::ReadClockMillis => {}
        _ => panic!("expected another clock read when the clock-based name is taken"),
    }
    match m.step(&mut store, ToggleEvent::Millis(1718496000124)) {
        ToggleAction::CheckBackupCandidate { name, .. } => assert_eq!(name, "A-1718496000124.lnk"),
        _ => panic!("expected the new clock-based name to be checked"),
    }
    match m.step(&mut store, ToggleEvent::Exists(false)) {
        ToggleAction::MoveToBackup { name, .. } => assert_eq!(name, "A-1718496000124.lnk"),
        _ => panic!("expected a move"),
    }

    assert_eq!(backup_candidate_name("App.lnk", 0), "App.lnk");
    assert_eq!(backup_candidate_name("App.lnk", 42), "App-42.lnk");
    assert_eq!(backup_candidate_name("noext", 2), "noext-2.lnk");
    assert_eq!(backup_clock_file_name("x.url", -5), "x--5.url");
}

#[test]
fn trims_unicode_whitespace() {
    assert_eq!(clean_app_name(" App .EXE "), "App");
    assert_eq!(clean_app_name("\u{3000}Tool.exe\u{a0}"), "Tool");
    assert_eq!(clean_app_name("\u{200b}Tool"), "\u{200b}Tool");
}

#[test]
fn registry_entry_off_then_on_gives_it_back() {
    let facts = HostFacts::new();
    let mut store = RecordStore::new();
    let mut m = set_startup_enabled("registry:Edge", false, Some("msedge.exe --auto"), "t0");
    m.step(&mut store, ToggleEvent::Begin);
    m.step(&mut store, ToggleEvent::RegistryValue("msedge.exe --auto".to_string()));
    let (key, value) = match m.step(&mut store, ToggleEvent::Environment(Bindings::new())) {
        ToggleAction::DeleteRegistryValue { key_path, value_name } => (key_path, value_name),
        _ => panic!("expected a delete"),
    };
    m.step(&mut store, ToggleEvent::Completed);
    assert_eq!(expect_finish(m.step(&mut store, ToggleEvent::Exists(false))), None);

    let list = list_startup_items(&mut store, &vec![], "t1", &facts);
    let shown: Vec<_> = list.iter().filter(|i| i.id == "registry:Edge").collect();
    assert_eq!(shown.len(), 1);
    assert!(!shown[0].enabled && shown[0].remembered);
    assert_eq!(shown[0].disabled_at.as_deref(), Some("t0"));

    let mut m = set_startup_enabled("registry:Edge", true, None, "t2");
    match m.step(&mut store, ToggleEvent::Begin) {
        ToggleAction::CheckRegistryValue { key_path, value_name } => {
            assert_eq!(key_path, key);
            assert_eq!(value_name, value);
        }
        _ => panic!("expected a conflict check"),
    }
    match m.step(&mut store, ToggleEvent::Exists(false)) {
        ToggleAction::WriteRegistryValue { key_path, value_name, command } => {
            assert_eq!(key_path, key);
            assert_eq!(value_name, value);
            assert_eq!(command, "msedge.exe --auto");
        }
        _ => panic!("expected a write"),
    }
    assert_eq!(expect_finish(m.step(&mut store, ToggleEvent::Completed)), None);
    let rec = store.load_record("registry:Edge").unwrap();
    assert_eq!(rec.disabled_at, None);
    assert_eq!(rec.backup_path, None);
}

#[test]
fn windows_path_prefixes() {
    assert_eq!(display_name("\\\\server\\share\\Tool.lnk"), "Tool");
    assert_eq!(display_name("\\\\server\\share.lnk"), "\\\\server\\share.lnk");
    assert_eq!(display_name("\\\\?\\C:\\dir/Tool.lnk"), "dir/Tool");
    assert_eq!(display_name("C:/dir/Tool.lnk"), "Tool");
    assert_eq!(display_name("\\\\.\\COM42"), "\\\\.\\COM42");
    assert_eq!(display_name("\\\\?\\UNC\\server\\share\\a.b.lnk"), "a.b");
}

#[test]
fn version_resource_lookups() {
    assert_eq!(version_translations(None), vec![(0x0409, 0x04b0), (0x0804, 0x04b0)]);
    assert_eq!(version_translations(Some(vec![0x0409])), vec![(0x0409, 0x04b0), (0x0804, 0x04b0)]);
    assert_eq!(version_translations(Some(vec![0x0804, 0x03a8, 0x0409])), vec![(0x0804, 0x03a8)]);
    let queries = version_name_queries(&vec![(0x0409, 0x04b0), (0x0804, 0x03a8)]);
    assert_eq!(
        queries,
        vec![
            "\\StringFileInfo\\040904b0\\FileDescription".to_string(),
            "\\StringFileInfo\\080403a8\\FileDescription".to_string(),
            "\\StringFileInfo\\040904b0\\ProductName".to_string(),
            "\\StringFileInfo\\080403a8\\ProductName".to_string(),
        ]
    );
    assert_eq!(until_nul_units(&vec![0x41, 0x42, 0, 0x43]), vec![0x41, 0x42]);
    assert_eq!(until_nul_units(&vec![0x41]), vec![0x41]);
    let answers = vec![None, Some("  ".to_string()), Some("Tool Suite".to_string()), Some("Other".to_string())];
    assert_eq!(pick_version_name(&answers).as_deref(), Some("Tool Suite"));
    assert_eq!(pick_version_name(&vec![None, Some("\u{3000}".to_string())]), None);
}
