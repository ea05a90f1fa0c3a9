use freshstart::command::{executable_path_from_command, HostFacts};
use freshstart::entries::registry_key_path_for_id;
use freshstart::model::{RiskLevel, StartupItem, StartupSource};
use freshstart::naming::friendly_app_name;
use freshstart::records::record_to_disabled_item;
use freshstart::risk::classify_risk;
use freshstart::store::RecordStore;

#[test]
fn parses_quoted_executable_path() {
    let path = executable_path_from_command("\"C:\\Program Files\\App\\app.exe\" --startup", &HostFacts::new());
    assert_eq!(path.as_deref(), Some("C:\\Program Files\\App\\app.exe"));
}

#[test]
fn parses_unquoted_executable_path_with_spaces() {
    let path = executable_path_from_command(
        "C:\\Program Files\\Microsoft\\Edge\\Application\\msedge.exe --auto",
        &HostFacts::new(),
    );
    assert_eq!(
        path.as_deref(),
        Some("C:\\Program Files\\Microsoft\\Edge\\Application\\msedge.exe")
    );
}

#[test]
fn does_not_treat_hkcmd_as_cmd() {
    let (risk, _) = classify_risk("Intel Hotkeys", Some("C:\\Intel\\hkcmd.exe"));
    assert_eq!(risk, RiskLevel::Keep);
}

#[test]
fn sqlite_keeps_disabled_history_after_active_item_disappears() {
    let mut store = RecordStore::new();
    let now = "2026-06-16T00:00:00Z";
    let item = StartupItem {
        id: "registry:FreshStartTest".to_string(),
        name: "FreshStartTest".to_string(),
        raw_name: Some("FreshStartTest".to_string()),
        source: StartupSource::Registry,
        enabled: true,
        command: Some("notepad.exe".to_string()),
        path: None,
        app_path: Some("notepad.exe".to_string()),
        risk_level: RiskLevel::Normal,
        risk_reason: None,
        disabled_at: None,
        remembered: false,
    };

    store.upsert_seen_item(&item, now);
    store.mark_disabled(&item.id, item.command.as_deref(), None, None, now);

    let record = store.load_record(&item.id).unwrap();
    let disabled = record_to_disabled_item(&record, &HostFacts::new());
    assert!(!disabled.enabled);
    assert!(disabled.remembered);
    assert_eq!(disabled.command.as_deref(), Some("notepad.exe"));
}

#[test]
fn recognizes_baidu_netdisk_components() {
    let name = friendly_app_name(
        "BaiduYunDetect",
        Some("\"C:\\Users\\u\\AppData\\Roaming\\baidu\\BaiduNetdisk\\YunDetectService.exe\""),
        Some("C:\\Users\\u\\AppData\\Roaming\\baidu\\BaiduNetdisk\\YunDetectService.exe"),
        &HostFacts::new(),
    );
    assert_eq!(name, "百度网盘");
}

#[test]
fn recognizes_wechat_from_path() {
    let name = friendly_app_name(
        "WeChat",
        Some("\"C:\\Program Files\\Tencent\\WeChat\\WeChat.exe\""),
        Some("C:\\Program Files\\Tencent\\WeChat\\WeChat.exe"),
        &HostFacts::new(),
    );
    assert_eq!(name, "微信");
}

#[test]
fn registry32_uses_wow6432node_run_path() {
    assert_eq!(
        registry_key_path_for_id("registry32:Example"),
        "Software\\WOW6432Node\\Microsoft\\Windows\\CurrentVersion\\Run"
    );
}

#[test]
fn recognizes_send_to_onenote_shortcut() {
    let name = friendly_app_name(
        "发送至 OneNote.lnk",
        Some("C:\\Users\\u\\AppData\\Roaming\\Microsoft\\Windows\\Start Menu\\Programs\\Startup\\发送至 OneNote.lnk"),
        Some("C:\\Users\\u\\AppData\\Roaming\\Microsoft\\Windows\\Start Menu\\Programs\\Startup\\发送至 OneNote.lnk"),
        &HostFacts::new(),
    );
    assert_eq!(name, "OneNote");
}
