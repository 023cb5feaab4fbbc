use machine_code::json::{object_get_exec, parse_usize, JsonValue};
use machine_code::remote_content::{
    extract_content, format_result_preview, network_error, normalize_content_value,
    path_content, powershell_fetch_script, powershell_output_text, powershell_single_quote,
    privacy_policy_text, remote_content_dialog_text, remote_reply, remote_response,
    search_content_deep, user_agreement_text, PRIVACY_POLICY_URL, USER_AGREEMENT_URL,
};

fn s(t: &str) -> JsonValue {
    JsonValue::String(t.to_string())
}

fn obj(members: Vec<(&str, JsonValue)>) -> JsonValue {
    JsonValue::Object(members.into_iter().map(|(k, v)| (k.to_string(), v)).collect())
}

fn cs(t: &str) -> Vec<char> {
    t.chars().collect()
}

const AGREEMENT: &str = "用户协议\r\n\r\n欢迎使用机器码获取工具。\r\n\r\n本工具用于采集本机必要的硬件识别信息，以便完成软件授权、设备识别和问题排查。请在确认同意后继续使用。";
const POLICY: &str = "隐私策略\r\n\r\n本工具可能读取网卡 MAC 地址、主板序列号、CPU 序列号、硬盘序列号等设备信息，用于生成机器码和完成授权校验。相关信息仅用于工具功能实现和技术支持。";

#[test]
fn parsing_decimal_indices() {
    assert_eq!(parse_usize(&cs("42")), Some(42));
    assert_eq!(parse_usize(&cs("+7")), Some(7));
    assert_eq!(parse_usize(&cs("007")), Some(7));
    assert_eq!(parse_usize(&cs("")), None);
    assert_eq!(parse_usize(&cs("+")), None);
    assert_eq!(parse_usize(&cs("-1")), None);
    assert_eq!(parse_usize(&cs("1a")), None);
    assert_eq!(parse_usize(&cs(" 1")), None);
    let too_big = format!("{}0", usize::MAX);
    assert_eq!(parse_usize(&cs(&too_big)), None);
    assert_eq!(parse_usize(&cs(&usize::MAX.to_string())), Some(usize::MAX));
    for t in ["0", "65535", "+12", "x", "", "99999999999999999999999"] {
        assert_eq!(parse_usize(&cs(t)), t.parse::<usize>().ok());
    }
}

#[test]
fn object_members_by_name() {
    let entries = vec![
        ("a".to_string(), s("1")),
        ("b".to_string(), JsonValue::Null),
        ("a".to_string(), s("2")),
    ];
    assert!(matches!(object_get_exec(&entries, "a"), Some(JsonValue::String(t)) if t == "1"));
    assert!(matches!(object_get_exec(&entries, "b"), Some(JsonValue::Null)));
    assert!(object_get_exec(&entries, "c").is_none());
}

#[test]
fn non_blank_strings_only() {
    assert_eq!(normalize_content_value(&s(" hi ")), Some(" hi ".to_string()));
    assert_eq!(normalize_content_value(&s(" \r\n ")), None);
    assert_eq!(normalize_content_value(&JsonValue::Number("1".to_string())), None);
    assert_eq!(normalize_content_value(&JsonValue::Bool(true)), None);
}

#[test]
fn following_paths() {
    let v = obj(vec![(
        "rows",
        JsonValue::Array(vec![obj(vec![("v", s("first"))]), obj(vec![("v", s("second"))])]),
    )]);
    assert!(matches!(path_content(&v, &["rows", "1", "v"]), Some(JsonValue::String(t)) if t == "second"));
    assert!(path_content(&v, &["rows", "2", "v"]).is_none());
    assert!(path_content(&v, &["rows", "x"]).is_none());
    assert!(path_content(&v, &["rows", "0", "v", "deeper"]).is_none());
    assert!(matches!(path_content(&v, &[]), Some(JsonValue::Object(_))));
}

#[test]
fn content_from_known_paths() {
    assert_eq!(extract_content(&s("plain")), Some("plain".to_string()));
    let v = obj(vec![("data", obj(vec![("v", s("<p>协议</p>"))]))]);
    assert_eq!(extract_content(&v), Some("<p>协议</p>".to_string()));
    let v = obj(vec![("v", s("  ")), ("value", s("second path"))]);
    assert_eq!(extract_content(&v), Some("second path".to_string()));
    let v = obj(vec![
        ("message", s("from message")),
        ("records", JsonValue::Array(vec![obj(vec![("value", s("from records"))])])),
    ]);
    assert_eq!(extract_content(&v), Some("from message".to_string()));
}

#[test]
fn content_from_deep_search() {
    let v = obj(vec![(
        "a",
        obj(vec![("b", JsonValue::Array(vec![JsonValue::Null, obj(vec![("configValue", s("deep"))])]))]),
    )]);
    assert_eq!(extract_content(&v), Some("deep".to_string()));
    assert_eq!(search_content_deep(&v, 0), Some("deep".to_string()));
    let nested = obj(vec![("a", obj(vec![("a", obj(vec![("a", obj(vec![("a", obj(vec![("v", s("x"))]))]))]))]))]);
    assert_eq!(extract_content(&nested), Some("x".to_string()));
    let too_deep = obj(vec![("a", obj(vec![("a", obj(vec![("a", obj(vec![("a", obj(vec![("a", s("x"))]))]))]))]))]);
    assert_eq!(extract_content(&too_deep), None);
    assert_eq!(search_content_deep(&s("x"), 5), None);
    assert_eq!(extract_content(&obj(vec![("code", JsonValue::Number("200".to_string()))])), None);
}

#[test]
fn preview_of_a_reply() {
    assert_eq!(format_result_preview(""), "空响应");
    assert_eq!(format_result_preview("{}"), "{}");
    let long: String = std::iter::repeat('码').take(1201).collect();
    let expected: String = std::iter::repeat('码').take(1200).collect::<String>() + "\r\n...(已截断)";
    assert_eq!(format_result_preview(&long), expected);
    let exact: String = std::iter::repeat('a').take(1200).collect();
    assert_eq!(format_result_preview(&exact), exact);
}

#[test]
fn reply_value_of_plain_text() {
    let v = remote_response("not json".to_string());
    assert_eq!(extract_content(&v), Some("not json".to_string()));
    let v = remote_response("false".to_string());
    assert!(matches!(v, JsonValue::Bool(false)));
    let v = remote_response("{\"data\": {\"v\": \"协议\"}, \"code\": 200}".to_string());
    assert_eq!(extract_content(&v), Some("协议".to_string()));
}

#[test]
fn reply_or_network_error() {
    assert!(matches!(remote_reply(Ok("[1]".to_string())), Ok(JsonValue::Array(_))));
    assert_eq!(remote_reply(Err("boom".to_string())).err(), Some("网络请求失败: boom".to_string()));
}

#[test]
fn dialog_shows_remote_content() {
    let value = obj(vec![("data", obj(vec![("value", s("在线协议"))]))]);
    assert_eq!(user_agreement_text(Ok(value)), "在线协议");
    let value = remote_response("{\"rows\": [{\"v\": \"第一行\"}]}".to_string());
    assert_eq!(user_agreement_text(Ok(value)), "第一行");
}

#[test]
fn dialog_falls_back_without_content() {
    let value = obj(vec![("code", JsonValue::Number("0".to_string()))]);
    assert_eq!(
        privacy_policy_text(Ok(value)),
        format!(
            "{}\r\n\r\n提示：在线内容为空或接口结构不符合预期，已显示本地兜底内容。\r\n\r\n响应预览：\r\n{}",
            POLICY, "{\n  \"code\": 0\n}"
        )
    );
    let value = remote_response("   ".to_string());
    assert_eq!(
        remote_content_dialog_text("本地", Ok(value)),
        "本地\r\n\r\n提示：在线内容为空或接口结构不符合预期，已显示本地兜底内容。\r\n\r\n响应预览：\r\n{\n  \"v\": \"   \"\n}"
    );
}

#[test]
fn dialog_falls_back_on_error() {
    let err = network_error("timed out");
    assert_eq!(err, "网络请求失败: timed out");
    assert_eq!(
        user_agreement_text(Err(err)),
        format!("{}\r\n\r\n提示：无法加载在线内容，已显示本地兜底内容。\r\n失败原因：网络请求失败: timed out", AGREEMENT)
    );
    assert_eq!(remote_content_dialog_text("本地", Err("x".to_string())), "本地\r\n\r\n提示：无法加载在线内容，已显示本地兜底内容。\r\n失败原因：x");
}

#[test]
fn quoting_for_powershell() {
    assert_eq!(powershell_single_quote("it's"), "it''s");
    assert_eq!(powershell_single_quote("''"), "''''");
    assert_eq!(powershell_single_quote("plain"), "plain");
    for t in ["a'b", "''", "x'''y'", "none"] {
        assert_eq!(powershell_single_quote(t).replace("''", "'"), t);
    }
}

#[test]
fn fetch_script_embeds_the_address() {
    let script = powershell_fetch_script("https://x/y?a='b'");
    assert!(script.starts_with("$ErrorActionPreference='Stop';"));
    assert!(script.contains("[Net.HttpWebRequest]::Create('https://x/y?a=''b''');"));
    assert!(script.contains("$request.UserAgent = 'Machine-Code-Tool/2.1.0';"));
    assert!(script.ends_with("if ($null -ne $response) { $response.Close() };}"));
    assert!(USER_AGREEMENT_URL.ends_with("hardware_information_tool_user_agreement"));
    assert!(PRIVACY_POLICY_URL.ends_with("hardware_information_tool_privacy_policy"));
}

#[test]
fn powershell_run_outcome() {
    assert_eq!(powershell_output_text(true, "exit code: 0", "{\"v\":1}".as_bytes(), b""), Ok("{\"v\":1}".to_string()));
    assert_eq!(
        powershell_output_text(false, "exit code: 1", b"", b"\r\nboom\r\n"),
        Err("PowerShell 退出码: exit code: 1, stderr=boom".to_string())
    );
}
