use machine_code::diagnostics::{
    app_data_dir, begin_session, log_line, log_path, log_text, message_lines, APP_DIR_NAME,
    LOG_FILE_NAME,
};
use machine_code::hardware::{collect_machine_info, FieldResult, MachineInfo};
use machine_code::ui::{
    command_id, edit_margins, field_value, handle_command, privacy_policy_text, to_wide,
    update_ui, user_agreement_text, UiCommand, DISPLAY_VERSION, ID_AUTH, ID_CHECK_UPDATE,
    ID_PRIVACY_POLICY, ID_USER_AGREEMENT,
};

fn info() -> MachineInfo {
    let ok = |label: &str, v: &str| FieldResult::ok(label, v.to_string(), "test");
    let fail = |label: &str| FieldResult::fail(label, "multi-source", "n/a".to_string());
    collect_machine_info(
        ok("mac", "AA:BB:CC:DD:EE:FF"),
        ok("motherboard", "MB1"),
        fail("cpu"),
        ok("disk", "WD-1"),
        fail("system_uuid"),
        fail("bios"),
        ok("computer_name", "PC"),
        "0.1.0".to_string(),
    )
}

#[test]
fn wide_text() {
    assert_eq!(to_wide("A😀"), vec![0x41, 0xD83D, 0xDE00, 0]);
    assert_eq!(to_wide(""), vec![0]);
    let text = "机器码 tool";
    let mut expected: Vec<u16> = text.encode_utf16().collect();
    expected.push(0);
    assert_eq!(to_wide(text), expected);
}

#[test]
fn command_ids_and_margins() {
    assert_eq!(command_id(0x12345), 0x2345);
    assert_eq!(command_id(1003), 1003);
    assert_eq!(command_id(0x1_03eb), 1003);
    assert_eq!(edit_margins(8), 0x0008_0008);
    assert_eq!(edit_margins(-1), 0xFFFF_FFFF);
    assert_eq!(edit_margins(0), 0);
}

#[test]
fn window_texts_without_authorization() {
    let t = update_ui(false, &Some(info()));
    assert_eq!(t.auth_button, "开启授权");
    assert_eq!(t.software_version, DISPLAY_VERSION);
    assert_eq!(t.mac, "——未授权——");
    assert_eq!(t.motherboard, "——未授权——");
    assert_eq!(t.cpu, "——未授权——");
    assert_eq!(t.disk, "——未授权——");
}

#[test]
fn window_texts_with_authorization() {
    let t = update_ui(true, &Some(info()));
    assert_eq!(t.auth_button, "取消授权");
    assert_eq!(t.software_version, "2.1.0");
    assert_eq!(t.mac, "AA:BB:CC:DD:EE:FF");
    assert_eq!(t.motherboard, "MB1");
    assert_eq!(t.cpu, "————");
    assert_eq!(t.disk, "WD-1");
    let t = update_ui(true, &None);
    assert_eq!(t.mac, "————");
    assert_eq!(t.disk, "————");
}

#[test]
fn shown_field_values() {
    assert_eq!(field_value(&FieldResult::ok("cpu", "X".to_string(), "s")), "X");
    assert_eq!(field_value(&FieldResult::fail("cpu", "s", "e".to_string())), "————");
}

#[test]
fn buttons() {
    assert!(matches!(handle_command(ID_AUTH), UiCommand::ToggleAuthorization));
    match handle_command(ID_CHECK_UPDATE) {
        UiCommand::ShowMessage { title, text } => {
            assert_eq!(title, "检查更新");
            assert_eq!(text, "当前已是最新版本");
        }
        _ => panic!("expected a message"),
    }
    match handle_command(ID_USER_AGREEMENT) {
        UiCommand::ShowMessage { title, text } => {
            assert_eq!(title, "用户协议");
            assert_eq!(text, user_agreement_text());
            assert!(text.starts_with("用户协议\r\n\r\n欢迎使用机器码获取工具！"));
        }
        _ => panic!("expected a message"),
    }
    match handle_command(ID_PRIVACY_POLICY) {
        UiCommand::ShowMessage { title, text } => {
            assert_eq!(title, "隐私策略");
            assert_eq!(text, privacy_policy_text());
        }
        _ => panic!("expected a message"),
    }
    assert!(matches!(handle_command(0), UiCommand::Ignore));
    assert!(matches!(handle_command(1005), UiCommand::Ignore));
}

#[test]
fn log_locations() {
    assert_eq!(
        log_path(Some("C:\\Users\\u\\AppData\\Roaming".to_string()), Some("D:\\x".to_string())),
        vec!["C:\\Users\\u\\AppData\\Roaming", APP_DIR_NAME, LOG_FILE_NAME]
    );
    assert_eq!(app_data_dir(None, Some("D:\\x".to_string())), vec!["D:\\x", "machine-code-native"]);
    assert_eq!(log_path(None, None), vec![".", "machine-code-native", "startup.log"]);
}

#[test]
fn log_lines() {
    assert_eq!(
        begin_session(),
        vec!["============================================================", "新的程序启动会话"]
    );
    assert_eq!(message_lines("a\r\nb\n"), vec!["a", "b"]);
    assert!(message_lines("").is_empty());
    assert_eq!(
        log_line("2024-01-02 03:04:05.678", 4321, "ThreadId(1)", "开始采集机器码"),
        "[2024-01-02 03:04:05.678] [pid:4321] [tid:ThreadId(1)] 开始采集机器码"
    );
    assert_eq!(log_text(None), "暂无日志");
    assert_eq!(log_text(Some("x\n".to_string())), "x\n");
}
