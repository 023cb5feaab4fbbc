use machine_code::hardware::{
    collect_baseboard_serial, collect_computer_name, collect_machine_info, collect_mac,
    confidence, env_error, first_valid, first_valid_log, generate_machine_id, machine_id_from_digest,
    machine_id_input, mask_hardware_value,
    normalize_for_hash, valid_hardware_value, Attempt, FieldResult,
};

fn ok(label: &str, value: &str) -> FieldResult {
    FieldResult::ok(label, value.to_string(), "test")
}

fn failed(label: &str) -> FieldResult {
    FieldResult::fail(label, "test", "unavailable".to_string())
}

fn attempt(source: &str, result: Result<&str, &str>) -> Attempt {
    Attempt {
        source: source.to_string(),
        result: result.map(|v| v.to_string()).map_err(|e| e.to_string()),
    }
}

#[test]
fn field_result_ok_and_fail() {
    let f = FieldResult::ok("cpu", "BFEBFBFF000906EA".to_string(), "wmi");
    assert_eq!(f.label, "cpu");
    assert_eq!(f.value, "BFEBFBFF000906EA");
    assert!(f.ok);
    assert_eq!(f.source, "wmi");
    assert_eq!(f.error, "");
    let g = FieldResult::fail("disk", "multi-source", "no disk".to_string());
    assert_eq!(g.value, "————");
    assert!(!g.ok);
    assert_eq!(g.source, "multi-source");
    assert_eq!(g.error, "no disk");
}

#[test]
fn valid_values_are_trimmed() {
    assert_eq!(valid_hardware_value("  ABC123\0\0 "), Some("ABC123".to_string()));
    assert_eq!(valid_hardware_value("\u{3000}SN-77\t"), Some("SN-77".to_string()));
}

#[test]
fn filler_values_are_rejected() {
    assert_eq!(valid_hardware_value("To Be Filled By O.E.M."), None);
    assert_eq!(valid_hardware_value("  Default String "), None);
    assert_eq!(valid_hardware_value("NONE"), None);
    assert_eq!(valid_hardware_value("System Serial Number"), None);
    assert_eq!(valid_hardware_value("0000-FFFF"), None);
    assert_eq!(valid_hardware_value("ffff"), None);
    assert_eq!(valid_hardware_value(""), None);
    assert_eq!(valid_hardware_value(" \0 "), None);
    assert_eq!(valid_hardware_value("0F-1"), Some("0F-1".to_string()));
}

#[test]
fn masking_long_and_short_values() {
    assert_eq!(mask_hardware_value("ABCDEFGHIJ"), "ABCD***GHIJ(len=10)");
    assert_eq!(mask_hardware_value("  short  "), "short");
    assert_eq!(mask_hardware_value("12345678"), "12345678");
    assert_eq!(mask_hardware_value("主板序列号一二三四"), "主板序列***一二三四(len=9)");
}

#[test]
fn normalising_for_the_hash() {
    assert_eq!(normalize_for_hash(" aa:bb-cc dd "), "AABBCCDD");
    assert_eq!(normalize_for_hash("x\u{a0}y"), "XY");
    assert_eq!(normalize_for_hash(""), "");
    let once = normalize_for_hash(" a-b:c d ");
    assert_eq!(normalize_for_hash(&once), once);
}

#[test]
fn confidence_levels() {
    let m = ok("mac", "AA");
    let no = failed("x");
    let y = ok("x", "1");
    assert_eq!(confidence(&m, &y, &y, &y, &no), "high");
    assert_eq!(confidence(&m, &y, &no, &no, &no), "medium");
    assert_eq!(confidence(&m, &no, &no, &no, &no), "low");
    assert_eq!(confidence(&failed("mac"), &y, &y, &no, &no), "medium");
    assert_eq!(confidence(&failed("mac"), &no, &no, &y, &no), "low");
    assert_eq!(confidence(&failed("mac"), &no, &no, &no, &no), "invalid");
}

#[test]
fn first_valid_takes_first_accepted_source() {
    let attempts = vec![
        attempt("s1", Err("boom")),
        attempt("s2", Ok("  default ")),
        attempt("s3", Ok(" SN1 ")),
        attempt("s4", Ok("SN2")),
    ];
    let r = first_valid("disk", &attempts);
    assert!(r.ok);
    assert_eq!(r.value, "SN1");
    assert_eq!(r.source, "s3");
    assert_eq!(r.label, "disk");
    assert_eq!(r.error, "");
}

#[test]
fn first_valid_lists_every_reason() {
    let attempts = vec![
        attempt("s1", Err("boom")),
        attempt("s2", Ok(" none ")),
        attempt("s3", Ok("0000000000000000000")),
    ];
    let r = first_valid("bios", &attempts);
    assert!(!r.ok);
    assert_eq!(r.value, "————");
    assert_eq!(r.source, "multi-source");
    assert_eq!(
        r.error,
        "s1 失败: boom; s2 返回无效值: none; s3 返回无效值: 0000***0000(len=19)"
    );
}

#[test]
fn first_valid_with_no_sources() {
    let r = first_valid("mac", &[]);
    assert!(!r.ok);
    assert_eq!(r.error, "");
}

#[test]
fn collectors_name_their_sources() {
    let (r, log) = collect_baseboard_serial(
        Err("WMI down".to_string()),
        Ok("MB123".to_string()),
        Ok("OTHER".to_string()),
    );
    assert_eq!(
        log,
        vec![
            "motherboard 来源失败: source=wmi:Win32_BaseBoard.SerialNumber, error=WMI down",
            "motherboard 获取成功: source=smbios:baseboard.serial, value=MB123",
        ]
    );
    assert!(r.ok);
    assert_eq!(r.label, "motherboard");
    assert_eq!(r.source, "smbios:baseboard.serial");
    let (m, log) = collect_mac(Err("no adapter".to_string()));
    assert_eq!(
        log,
        vec!["mac 来源失败: source=ip-helper, error=no adapter", "mac 获取失败: ip-helper 失败: no adapter"]
    );
    assert!(!m.ok);
    assert_eq!(m.error, "ip-helper 失败: no adapter");
    let (c, _) = collect_computer_name(Err(env_error("environment variable not found")));
    assert_eq!(c.error, "env:COMPUTERNAME 失败: 读取环境变量失败: environment variable not found");
}

#[test]
fn machine_id_of_two_readings() {
    let fields = vec![ok("mac", "aa:bb"), ok("cpu", "x y"), failed("disk")];
    assert_eq!(
        generate_machine_id(&fields),
        "sha256:ef83bf338226e4f3fca7991131352b1ac4552723232b4a1a2898af5b702f52f8"
    );
    assert_eq!(generate_machine_id(&fields).chars().count(), 71);
}

#[test]
fn machine_id_without_readings_is_placeholder() {
    let fields = vec![failed("mac"), failed("cpu")];
    assert_eq!(generate_machine_id(&fields), "————");
    assert_eq!(generate_machine_id(&[]), "————");
}

#[test]
fn machine_id_ignores_order_separators_and_failures() {
    let a = vec![ok("mac", "aa:bb"), ok("cpu", "x y"), failed("disk")];
    let b = vec![FieldResult::fail("disk", "other", "other reason".to_string()), ok("cpu", "XY"), ok("mac", "AA-BB")];
    assert_eq!(generate_machine_id(&a), generate_machine_id(&b));
}

#[test]
fn machine_info_assembled() {
    let info = collect_machine_info(
        ok("mac", "aa:bb"),
        ok("motherboard", "MB123"),
        failed("cpu"),
        failed("disk"),
        failed("system_uuid"),
        failed("bios"),
        failed("computer_name"),
        "0.1.0".to_string(),
    );
    assert_eq!(
        info.machine_id,
        "sha256:746e9e5a239a694810b3539b814fa9bf9d398738c2b928fbb9e1a0e4a281f834"
    );
    assert_eq!(info.confidence, "medium");
    assert_eq!(info.version, "0.1.0");
    assert_eq!(info.motherboard.value, "MB123");
}

#[test]
fn hashed_text_of_readings() {
    let fields = vec![ok("mac", " aa:bb "), ok("cpu", "x y"), failed("disk"), ok("bios", "s-1")];
    assert_eq!(machine_id_input(&fields), Some("bios=S1|cpu=XY|mac=AABB".to_string()));
    assert_eq!(machine_id_input(&[failed("mac")]), None);
}

#[test]
fn code_of_a_digest() {
    assert_eq!(machine_id_from_digest(&[0xde, 0xad, 0x00, 0x0f]), "sha256:dead000f");
    assert_eq!(machine_id_from_digest(&[]), "sha256:");
}

#[test]
fn log_of_rejected_values() {
    let attempts = vec![attempt("s1", Ok("  0000000000000000000 ")), attempt("s2", Ok(" SN-1 "))];
    assert_eq!(
        first_valid_log("disk", &attempts),
        vec!["disk 来源返回无效值: source=s1, value=0000***0000(len=19)", "disk 获取成功: source=s2, value=SN-1"]
    );
}
