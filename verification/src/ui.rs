//! What the main window shows and does: the texts of its controls for a
//! given state, the action behind each button, and the small encodings the
//! window system needs (UTF-16 text, packed margins, command ids).
use vstd::prelude::*;
use crate::hardware::{placeholder, placeholder_string, FieldResult, FieldView, MachineInfo};

verus! {

/// The authorize / withdraw button.
pub const ID_AUTH: i32 = 1001;

/// The check-for-updates button.
pub const ID_CHECK_UPDATE: i32 = 1002;

/// The user agreement button.
pub const ID_USER_AGREEMENT: i32 = 1003;

/// The privacy policy button.
pub const ID_PRIVACY_POLICY: i32 = 1004;

/// The version shown in the window.
pub const DISPLAY_VERSION: &'static str = "2.1.0";

/// The user agreement shown by the window's button.
pub open spec fn window_user_agreement() -> Seq<char> {
    "用户协议\r\n\r\n欢迎使用机器码获取工具！\r\n\r\n本工具用于采集本机授权所需的硬件信息。点击开启授权即表示您同意工具读取必要的设备信息。"@
}

/// The privacy policy shown by the window's button.
pub open spec fn window_privacy_policy() -> Seq<char> {
    "隐私策略\r\n\r\n本工具会读取网卡MAC地址、主板序列号、CPU序列号、硬盘序列号等设备信息，用于生成机器码和授权校验。"@
}

/// The user agreement shown by the window's button.
pub fn user_agreement_text() -> (r: &'static str)
    ensures
        r@ == window_user_agreement(),
{
    "用户协议\r\n\r\n欢迎使用机器码获取工具！\r\n\r\n本工具用于采集本机授权所需的硬件信息。点击开启授权即表示您同意工具读取必要的设备信息。"
}

/// The privacy policy shown by the window's button.
pub fn privacy_policy_text() -> (r: &'static str)
    ensures
        r@ == window_privacy_policy(),
{
    "隐私策略\r\n\r\n本工具会读取网卡MAC地址、主板序列号、CPU序列号、硬盘序列号等设备信息，用于生成机器码和授权校验。"
}

/// What a reading shows: its value when it succeeded, else the placeholder.
pub open spec fn shown_value(f: FieldView) -> Seq<char> {
    if f.ok {
        f.value
    } else {
        placeholder()
    }
}

/// What a reading shows.
pub fn field_value(field: &FieldResult) -> (r: String)
    ensures
        r@ == shown_value(field@),
{
    if field.ok {
        field.value.clone()
    } else {
        placeholder_string()
    }
}

/// The texts of the window's controls.
pub struct UiTexts {
    pub auth_button: String,
    pub software_version: String,
    pub mac: String,
    pub motherboard: String,
    pub cpu: String,
    pub disk: String,
}

/// What the four identifier boxes show when access is not authorized.
pub open spec fn unauthorized_text() -> Seq<char> {
    "——未授权——"@
}

/// The texts of the window's controls: the button offers to withdraw or
/// grant access; without access the boxes say so; with access they show
/// the cached readings, or the placeholder when nothing is cached.
pub open spec fn ui_texts_spec(authorized: bool, info: Option<MachineInfo>, t: UiTexts) -> bool {
    &&& t.auth_button@ == (if authorized {
        "取消授权"@
    } else {
        "开启授权"@
    })
    &&& t.software_version@ == DISPLAY_VERSION@
    &&& if !authorized {
        &&& t.mac@ == unauthorized_text()
        &&& t.motherboard@ == unauthorized_text()
        &&& t.cpu@ == unauthorized_text()
        &&& t.disk@ == unauthorized_text()
    } else {
        match info {
            Some(i) => {
                &&& t.mac@ == shown_value(i.mac@)
                &&& t.motherboard@ == shown_value(i.motherboard@)
                &&& t.cpu@ == shown_value(i.cpu@)
                &&& t.disk@ == shown_value(i.disk@)
            },
            None => {
                &&& t.mac@ == placeholder()
                &&& t.motherboard@ == placeholder()
                &&& t.cpu@ == placeholder()
                &&& t.disk@ == placeholder()
            },
        }
    }
}

/// The texts of the window's controls for the given state.
pub fn update_ui(authorized: bool, info: &Option<MachineInfo>) -> (r: UiTexts)
    ensures
        ui_texts_spec(authorized, *info, r),
{
    let auth_button = if authorized {
        "取消授权".to_owned()
    } else {
        "开启授权".to_owned()
    };
    let software_version = DISPLAY_VERSION.to_owned();
    if !authorized {
        return UiTexts {
            auth_button,
            software_version,
            mac: "——未授权——".to_owned(),
            motherboard: "——未授权——".to_owned(),
            cpu: "——未授权——".to_owned(),
            disk: "——未授权——".to_owned(),
        };
    }
    match info {
        Some(i) => UiTexts {
            auth_button,
            software_version,
            mac: field_value(&i.mac),
            motherboard: field_value(&i.motherboard),
            cpu: field_value(&i.cpu),
            disk: field_value(&i.disk),
        },
        None => UiTexts {
            auth_button,
            software_version,
            mac: placeholder_string(),
            motherboard: placeholder_string(),
            cpu: placeholder_string(),
            disk: placeholder_string(),
        },
    }
}

/// What a button does.
pub enum UiCommand {
    /// Flip the authorization, read the machine afresh when it is granted,
    /// and refresh the window.
    ToggleAuthorization,
    /// Show a message box.
    ShowMessage { title: String, text: String },
    /// Nothing.
    Ignore,
}

/// Whether a command shows this message.
pub open spec fn shows_message(c: UiCommand, title: Seq<char>, text: Seq<char>) -> bool {
    match c {
        UiCommand::ShowMessage { title: t, text: x } => t@ == title && x@ == text,
        _ => false,
    }
}

/// What the button with this id does.
pub fn handle_command(id: i32) -> (r: UiCommand)
    ensures
        id == ID_AUTH ==> r is ToggleAuthorization,
        id == ID_CHECK_UPDATE ==> shows_message(r, "检查更新"@, "当前已是最新版本"@),
        id == ID_USER_AGREEMENT ==> shows_message(r, "用户协议"@, window_user_agreement()),
        id == ID_PRIVACY_POLICY ==> shows_message(r, "隐私策略"@, window_privacy_policy()),
        id != ID_AUTH && id != ID_CHECK_UPDATE && id != ID_USER_AGREEMENT && id
            != ID_PRIVACY_POLICY ==> r is Ignore,
{
    if id == ID_AUTH {
        UiCommand::ToggleAuthorization
    } else if id == ID_CHECK_UPDATE {
        UiCommand::ShowMessage { title: "检查更新".to_owned(), text: "当前已是最新版本".to_owned() }
    } else if id == ID_USER_AGREEMENT {
        UiCommand::ShowMessage { title: "用户协议".to_owned(), text: user_agreement_text().to_owned() }
    } else if id == ID_PRIVACY_POLICY {
        UiCommand::ShowMessage { title: "隐私策略".to_owned(), text: privacy_policy_text().to_owned() }
    } else {
        UiCommand::Ignore
    }
}

/// The control id in a `WM_COMMAND` message's `wParam`: its low 16 bits.
pub fn command_id(wparam: usize) -> (r: i32)
    ensures
        r as int == wparam as int % 65536,
{
    let low = wparam & 0xffff;
    assert(low == wparam % 65536) by (bit_vector)
        requires
            low == wparam & 0xffff,
    ;
    low as i32
}

/// The `EM_SETMARGINS` argument that sets both margins to `margin`: its
/// low 16 bits in both halves of the word.
pub fn edit_margins(margin: i32) -> (r: u32)
    ensures
        r as int == (margin as u32 as int % 65536) * 65537,
{
    let m = margin as u32;
    let low = m & 0xffff;
    let packed = low | (low << 16);
    assert(low == m % 65536 && (low | (low << 16)) == low * 65537) by (bit_vector)
        requires
            low == m & 0xffff,
    ;
    packed
}

/// The UTF-16 code units of a character.
pub open spec fn utf16_units(c: char) -> Seq<u16> {
    let u = c as u32;
    if u < 0x10000 {
        seq![u as u16]
    } else {
        let v = (u - 0x10000) as int;
        seq![(0xD800 + v / 1024) as u16, (0xDC00 + v % 1024) as u16]
    }
}

/// The UTF-16 encoding of a character sequence.
pub open spec fn utf16(s: Seq<char>) -> Seq<u16>
    decreases s.len(),
{
    if s.len() == 0 {
        Seq::empty()
    } else {
        utf16(s.drop_last()) + utf16_units(s.last())
    }
}

/// Text as the window system takes it: UTF-16 with a terminating zero.
pub fn to_wide(text: &str) -> (r: Vec<u16>)
    ensures
        r@ == utf16(text@).push(0u16),
{
    let chars = crate::text::chars_of(text);
    let n = chars.len();
    let mut r: Vec<u16> = Vec::new();
    for i in 0..n
        invariant
            n == chars@.len() == text@.len(),
            chars@ == text@,
            r@ == utf16(chars@.take(i as int)),
    {
        let c = chars[i];
        proof {
            vstd::utf8::char_is_scalar(c);
        }
        assert(chars@.take(i + 1).drop_last() =~= chars@.take(i as int));
        let u = c as u32;
        if u < 0x10000 {
            r.push(u as u16);
            assert(r@ =~= utf16(chars@.take(i as int)) + utf16_units(c));
        } else {
            let v = u - 0x10000;
            r.push((0xD800 + v / 1024) as u16);
            r.push((0xDC00 + v % 1024) as u16);
            assert(r@ =~= utf16(chars@.take(i as int)) + utf16_units(c));
        }
    }
    assert(chars@.take(n as int) =~= chars@);
    r.push(0);
    r
}

} // verus!
