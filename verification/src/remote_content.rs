//! The user agreement and privacy policy texts: the content found in the
//! server's JSON reply, or the built-in text with a note on what went
//! wrong; and the PowerShell command that fetches the reply.
use vstd::prelude::*;
use crate::json::{
    json_pretty_text, json_text_value, object_get, object_get_exec, parse_json_text, parse_usize,
    parse_usize_spec, pretty_json_text, JsonValue,
};
use crate::text::{
    chars_of, copy_range, extend_chars, extend_str, from_utf8_lossy, push_char, string_of, trim,
    trim_chars, decode_lossy,
};

verus! {

/// Where the user agreement is published.
pub const USER_AGREEMENT_URL: &'static str =
    "https://srm.cnzgc.com/base/sys/setting/findConfByKey?key=hardware_information_tool_user_agreement";

/// Where the privacy policy is published.
pub const PRIVACY_POLICY_URL: &'static str =
    "https://srm.cnzgc.com/base/sys/setting/findConfByKey?key=hardware_information_tool_privacy_policy";

/// The built-in user agreement.
pub open spec fn default_user_agreement() -> Seq<char> {
    "用户协议\r\n\r\n欢迎使用机器码获取工具。\r\n\r\n本工具用于采集本机必要的硬件识别信息，以便完成软件授权、设备识别和问题排查。请在确认同意后继续使用。"@
}

/// The built-in privacy policy.
pub open spec fn default_privacy_policy() -> Seq<char> {
    "隐私策略\r\n\r\n本工具可能读取网卡 MAC 地址、主板序列号、CPU 序列号、硬盘序列号等设备信息，用于生成机器码和完成授权校验。相关信息仅用于工具功能实现和技术支持。"@
}

// ------------------------------------------------------------------
// Finding the content in the reply
// ------------------------------------------------------------------

/// The text of a JSON string that is not blank.
pub open spec fn normalize_content(v: JsonValue) -> Option<Seq<char>> {
    match v {
        JsonValue::String(t) => if trim(t@).len() > 0 {
            Some(t@)
        } else {
            None
        },
        _ => None,
    }
}

/// The text of a JSON string that is not blank.
pub fn normalize_content_value(value: &JsonValue) -> (r: Option<String>)
    ensures
        match r {
            Some(s) => normalize_content(*value) == Some(s@),
            None => normalize_content(*value) is None,
        },
{
    match value {
        JsonValue::String(t) => {
            let tv = chars_of(t.as_str());
            let tt = trim_chars(tv.as_slice());
            if tt.len() > 0 {
                Some(t.clone())
            } else {
                None
            }
        },
        _ => None,
    }
}

/// One step into a JSON value: an object's member, or an array's element
/// at a decimal index.
pub open spec fn json_step(v: JsonValue, key: Seq<char>) -> Option<JsonValue> {
    match v {
        JsonValue::Object(entries) => object_get(entries@, key),
        JsonValue::Array(items) => match parse_usize_spec(key) {
            Some(i) => if i < items@.len() {
                Some(items@[i as int])
            } else {
                None
            },
            None => None,
        },
        _ => None,
    }
}

/// The value at the end of a path of steps.
pub open spec fn path_value(v: JsonValue, path: Seq<Seq<char>>) -> Option<JsonValue>
    decreases path.len(),
{
    if path.len() == 0 {
        Some(v)
    } else {
        match json_step(v, path[0]) {
            Some(c) => path_value(c, path.drop_first()),
            None => None,
        }
    }
}

/// The contents of a sequence of string slices.
pub open spec fn str_views(s: Seq<&str>) -> Seq<Seq<char>> {
    s.map_values(|x: &str| x@)
}

/// Follows a path of steps into a JSON value.
pub fn path_content<'a>(value: &'a JsonValue, path: &[&str]) -> (r: Option<&'a JsonValue>)
    ensures
        match r {
            Some(v) => path_value(*value, str_views(path@)) == Some(*v),
            None => path_value(*value, str_views(path@)) is None,
        },
{
    let ghost p = str_views(path@);
    let mut current = value;
    let n = path.len();
    let mut i: usize = 0;
    assert(p.skip(0) =~= p);
    while i < n
        invariant
            n == p.len() == path@.len(),
            p == str_views(path@),
            i <= n,
            path_value(*value, p) == path_value(*current, p.skip(i as int)),
        decreases n - i,
    {
        let key = path[i];
        assert(p.skip(i as int)[0] == key@);
        assert(p.skip(i as int).drop_first() =~= p.skip(i + 1));
        let next = match current {
            JsonValue::Object(entries) => object_get_exec(entries, key),
            JsonValue::Array(items) => {
                let kc = chars_of(key);
                match parse_usize(kc.as_slice()) {
                    Some(idx) => if idx < items.len() {
                        Some(&items[idx])
                    } else {
                        None
                    },
                    None => None,
                }
            },
            _ => None,
        };
        match next {
            Some(c) => {
                current = c;
            },
            None => {
                return None;
            },
        }
        i = i + 1;
    }
    assert(p.skip(n as int) =~= Seq::<Seq<char>>::empty());
    Some(current)
}

/// The paths tried, in order, after the whole reply.
pub open spec fn content_paths() -> Seq<Seq<Seq<char>>> {
    seq![
        seq!["v"@],
        seq!["value"@],
        seq!["content"@],
        seq!["text"@],
        seq!["html"@],
        seq!["message"@],
        seq!["data"@, "v"@],
        seq!["data"@, "value"@],
        seq!["data"@, "content"@],
        seq!["data"@, "text"@],
        seq!["data"@, "html"@],
        seq!["result"@, "v"@],
        seq!["result"@, "value"@],
        seq!["result"@, "content"@],
        seq!["rows"@, "0"@, "v"@],
        seq!["rows"@, "0"@, "value"@],
        seq!["rows"@, "0"@, "content"@],
        seq!["list"@, "0"@, "v"@],
        seq!["list"@, "0"@, "value"@],
        seq!["records"@, "0"@, "v"@],
        seq!["records"@, "0"@, "value"@],
    ]
}

fn content_path(i: usize) -> (r: Vec<&'static str>)
    requires
        i < 21,
    ensures
        str_views(r@) == content_paths()[i as int],
{
    let r = match i {
        0 => vec!["v"],
        1 => vec!["value"],
        2 => vec!["content"],
        3 => vec!["text"],
        4 => vec!["html"],
        5 => vec!["message"],
        6 => vec!["data", "v"],
        7 => vec!["data", "value"],
        8 => vec!["data", "content"],
        9 => vec!["data", "text"],
        10 => vec!["data", "html"],
        11 => vec!["result", "v"],
        12 => vec!["result", "value"],
        13 => vec!["result", "content"],
        14 => vec!["rows", "0", "v"],
        15 => vec!["rows", "0", "value"],
        16 => vec!["rows", "0", "content"],
        17 => vec!["list", "0", "v"],
        18 => vec!["list", "0", "value"],
        19 => vec!["records", "0", "v"],
        _ => vec!["records", "0", "value"],
    };
    assert(str_views(r@) =~= content_paths()[i as int]);
    r
}

/// The first non-blank string at the end of one of `paths`.
pub open spec fn paths_content(v: JsonValue, paths: Seq<Seq<Seq<char>>>) -> Option<Seq<char>>
    decreases paths.len(),
{
    if paths.len() == 0 {
        None
    } else {
        match path_value(v, paths[0]) {
            Some(c) => match normalize_content(c) {
                Some(t) => Some(t),
                None => paths_content(v, paths.drop_first()),
            },
            None => paths_content(v, paths.drop_first()),
        }
    }
}

/// The member names looked at first in every object met in the search.
pub open spec fn preferred_keys() -> Seq<Seq<char>> {
    seq![
        "v"@,
        "value"@,
        "content"@,
        "text"@,
        "html"@,
        "body"@,
        "configValue"@,
        "confValue"@,
    ]
}

fn preferred_key(i: usize) -> (r: &'static str)
    requires
        i < 8,
    ensures
        r@ == preferred_keys()[i as int],
{
    match i {
        0 => "v",
        1 => "value",
        2 => "content",
        3 => "text",
        4 => "html",
        5 => "body",
        6 => "configValue",
        _ => "confValue",
    }
}

/// The first non-blank string among the members named by `keys`.
pub open spec fn preferred_content(entries: Seq<(String, JsonValue)>, keys: Seq<Seq<char>>) -> Option<
    Seq<char>,
>
    decreases keys.len(),
{
    if keys.len() == 0 {
        None
    } else {
        match object_get(entries, keys[0]) {
            Some(c) => match normalize_content(c) {
                Some(t) => Some(t),
                None => preferred_content(entries, keys.drop_first()),
            },
            None => preferred_content(entries, keys.drop_first()),
        }
    }
}

/// A depth-first search for content, to nesting depth 4: in an object,
/// the preferred members, then each member's value in turn; in an array,
/// each element in turn; otherwise a non-blank string.
pub open spec fn search_deep(v: JsonValue, depth: int) -> Option<Seq<char>>
    decreases 5 - depth, 0int,
{
    if depth > 4 {
        None
    } else {
        match v {
            JsonValue::Object(entries) => match preferred_content(entries@, preferred_keys()) {
                Some(c) => Some(c),
                None => search_members(entries@, 0, depth + 1),
            },
            JsonValue::Array(items) => search_items(items@, 0, depth + 1),
            _ => normalize_content(v),
        }
    }
}

/// The search over an array's elements from position `from` on.
pub open spec fn search_items(items: Seq<JsonValue>, from: int, depth: int) -> Option<Seq<char>>
    decreases 5 - depth, items.len() - from,
{
    if from < 0 || from >= items.len() || depth > 5 {
        None
    } else {
        match search_deep(items[from], depth) {
            Some(c) => Some(c),
            None => search_items(items, from + 1, depth),
        }
    }
}

/// The search over an object's member values from position `from` on.
pub open spec fn search_members(entries: Seq<(String, JsonValue)>, from: int, depth: int) -> Option<
    Seq<char>,
>
    decreases 5 - depth, entries.len() - from,
{
    if from < 0 || from >= entries.len() || depth > 5 {
        None
    } else {
        match search_deep(entries[from].1, depth) {
            Some(c) => Some(c),
            None => search_members(entries, from + 1, depth),
        }
    }
}

fn preferred_content_exec(entries: &Vec<(String, JsonValue)>) -> (r: Option<String>)
    ensures
        match r {
            Some(s) => preferred_content(entries@, preferred_keys()) == Some(s@),
            None => preferred_content(entries@, preferred_keys()) is None,
        },
{
    let ghost keys = preferred_keys();
    assert(keys.skip(0) =~= keys);
    for i in 0..8
        invariant
            keys == preferred_keys(),
            keys.len() == 8,
            preferred_content(entries@, keys) == preferred_content(entries@, keys.skip(i as int)),
    {
        let key = preferred_key(i);
        assert(keys.skip(i as int)[0] == key@);
        assert(keys.skip(i as int).drop_first() =~= keys.skip(i + 1));
        if let Some(v) = object_get_exec(entries, key) {
            if let Some(t) = normalize_content_value(v) {
                return Some(t);
            }
        }
    }
    assert(keys.skip(8) =~= Seq::<Seq<char>>::empty());
    None
}

/// Searches a JSON value for content, depth first, to nesting depth 4.
pub fn search_content_deep(value: &JsonValue, depth: usize) -> (r: Option<String>)
    ensures
        match r {
            Some(s) => search_deep(*value, depth as int) == Some(s@),
            None => search_deep(*value, depth as int) is None,
        },
    decreases 5 - depth,
{
    if depth > 4 {
        return None;
    }
    match value {
        JsonValue::Object(entries) => {
            if let Some(c) = preferred_content_exec(entries) {
                return Some(c);
            }
            let n = entries.len();
            for i in 0..n
                invariant
                    n == entries@.len(),
                    depth <= 4,
                    search_deep(*value, depth as int) == search_members(entries@, 0, depth + 1),
                    search_members(entries@, 0, depth + 1) == search_members(
                        entries@,
                        i as int,
                        depth + 1,
                    ),
            {
                if let Some(c) = search_content_deep(&entries[i].1, depth + 1) {
                    return Some(c);
                }
            }
            None
        },
        JsonValue::Array(items) => {
            let n = items.len();
            for i in 0..n
                invariant
                    n == items@.len(),
                    depth <= 4,
                    search_deep(*value, depth as int) == search_items(items@, 0, depth + 1),
                    search_items(items@, 0, depth + 1) == search_items(
                        items@,
                        i as int,
                        depth + 1,
                    ),
            {
                if let Some(c) = search_content_deep(&items[i], depth + 1) {
                    return Some(c);
                }
            }
            None
        },
        _ => normalize_content_value(value),
    }
}

/// The content of a reply: the reply itself if it is a non-blank string;
/// else the first non-blank string at one of the known paths; else the
/// first found by the depth-first search.
pub open spec fn extract(v: JsonValue) -> Option<Seq<char>> {
    match normalize_content(v) {
        Some(c) => Some(c),
        None => match paths_content(v, content_paths()) {
            Some(c) => Some(c),
            None => search_deep(v, 0),
        },
    }
}

/// Finds the content in a reply.
pub fn extract_content(result: &JsonValue) -> (r: Option<String>)
    ensures
        match r {
            Some(s) => extract(*result) == Some(s@),
            None => extract(*result) is None,
        },
{
    if let Some(c) = normalize_content_value(result) {
        return Some(c);
    }
    let ghost paths = content_paths();
    assert(paths.skip(0) =~= paths);
    for i in 0..21
        invariant
            paths == content_paths(),
            paths.len() == 21,
            paths_content(*result, paths) == paths_content(*result, paths.skip(i as int)),
    {
        let path = content_path(i);
        assert(paths.skip(i as int)[0] == str_views(path@));
        assert(paths.skip(i as int).drop_first() =~= paths.skip(i + 1));
        if let Some(v) = path_content(result, path.as_slice()) {
            if let Some(t) = normalize_content_value(v) {
                return Some(t);
            }
        }
    }
    assert(paths.skip(21) =~= Seq::<Seq<Seq<char>>>::empty());
    search_content_deep(result, 0)
}

/// Whether found content, if any, holds more than white space.
pub open spec fn non_blank(found: Option<Seq<char>>) -> bool {
    found matches Some(t) ==> trim(t).len() > 0
}

proof fn lemma_paths_content_non_blank(v: JsonValue, paths: Seq<Seq<Seq<char>>>)
    ensures
        non_blank(paths_content(v, paths)),
    decreases paths.len(),
{
    if paths.len() > 0 {
        lemma_paths_content_non_blank(v, paths.drop_first());
    }
}

proof fn lemma_preferred_content_non_blank(entries: Seq<(String, JsonValue)>, keys: Seq<Seq<char>>)
    ensures
        non_blank(preferred_content(entries, keys)),
    decreases keys.len(),
{
    if keys.len() > 0 {
        lemma_preferred_content_non_blank(entries, keys.drop_first());
    }
}

proof fn lemma_search_deep_non_blank(v: JsonValue, depth: int)
    ensures
        non_blank(search_deep(v, depth)),
    decreases 5 - depth, 0int,
{
    if depth <= 4 {
        match v {
            JsonValue::Object(entries) => {
                lemma_preferred_content_non_blank(entries@, preferred_keys());
                lemma_search_members_non_blank(entries@, 0, depth + 1);
            },
            JsonValue::Array(items) => {
                lemma_search_items_non_blank(items@, 0, depth + 1);
            },
            _ => {},
        }
    }
}

proof fn lemma_search_items_non_blank(items: Seq<JsonValue>, from: int, depth: int)
    ensures
        non_blank(search_items(items, from, depth)),
    decreases 5 - depth, items.len() - from,
{
    if !(from < 0 || from >= items.len() || depth > 5) {
        lemma_search_deep_non_blank(items[from], depth);
        lemma_search_items_non_blank(items, from + 1, depth);
    }
}

proof fn lemma_search_members_non_blank(entries: Seq<(String, JsonValue)>, from: int, depth: int)
    ensures
        non_blank(search_members(entries, from, depth)),
    decreases 5 - depth, entries.len() - from,
{
    if !(from < 0 || from >= entries.len() || depth > 5) {
        lemma_search_deep_non_blank(entries[from].1, depth);
        lemma_search_members_non_blank(entries, from + 1, depth);
    }
}

/// The content found in a reply is never blank: every candidate, at a
/// known path or met in the search, must hold more than white space.
pub proof fn lemma_content_not_blank(v: JsonValue)
    ensures
        non_blank(extract(v)),
{
    lemma_paths_content_non_blank(v, content_paths());
    lemma_search_deep_non_blank(v, 0);
}

// ------------------------------------------------------------------
// The dialog text
// ------------------------------------------------------------------

/// Whether `v` is the object `{"v": text}`.
pub open spec fn is_text_object(v: JsonValue, text: Seq<char>) -> bool {
    match v {
        JsonValue::Object(entries) => entries@.len() == 1 && entries@[0].0@ == "v"@ && (match entries@[0].1 {
            JsonValue::String(t) => t@ == text,
            _ => false,
        }),
        _ => false,
    }
}

/// Whether `v` is the value of the reply `text`: its JSON value, or, when
/// the text is not JSON, the object `{"v": text}`.
pub open spec fn reply_value_is(v: JsonValue, text: Seq<char>) -> bool {
    match json_text_value(text) {
        Some(x) => v == x,
        None => is_text_object(v, text),
    }
}

/// The value of the reply `text`: its JSON value, or, when the text is not
/// JSON, the object `{"v": text}`.
pub fn remote_response(text: String) -> (r: JsonValue)
    ensures
        reply_value_is(r, text@),
{
    match parse_json_text(text.as_str()) {
        Some(v) => v,
        None => {
            let entries = vec![("v".to_owned(), JsonValue::String(text))];
            JsonValue::Object(entries)
        },
    }
}

/// The reply from the outcome of fetching it: its value, or, when it
/// could not be fetched, the reason.
pub fn remote_reply(fetched: Result<String, String>) -> (r: Result<JsonValue, String>)
    ensures
        match fetched {
            Ok(t) => r matches Ok(v) && reply_value_is(v, t@),
            Err(e) => r matches Err(m) && m@ == network_error_text(e@),
        },
{
    match fetched {
        Ok(text) => Ok(remote_response(text)),
        Err(error) => Err(network_error(error.as_str())),
    }
}

/// The preview of a reply, from its pretty-printed text: that text, cut to 1200
/// characters with a note when longer, or a note when empty.
pub open spec fn result_preview(pretty: Seq<char>) -> Seq<char> {
    if pretty.len() == 0 {
        "空响应"@
    } else if pretty.len() > 1200 {
        pretty.take(1200) + "\r\n...(已截断)"@
    } else {
        pretty
    }
}

/// The preview of a reply, from its pretty-printed text.
pub fn format_result_preview(pretty: &str) -> (r: String)
    ensures
        r@ == result_preview(pretty@),
{
    let text = chars_of(pretty);
    if text.len() == 0 {
        return "空响应".to_owned();
    }
    if text.len() > 1200 {
        let mut v = copy_range(text.as_slice(), 0, 1200);
        assert(v@ =~= pretty@.take(1200));
        extend_str(&mut v, "\r\n...(已截断)");
        string_of(v.as_slice())
    } else {
        string_of(text.as_slice())
    }
}

/// The text of a remote-content dialog: the content of the reply; else the
/// built-in text with a note that the reply had none and a preview of it;
/// or, when the reply could not be had, the built-in text with the reason.
pub open spec fn dialog_text(fallback: Seq<char>, fetched: Result<JsonValue, String>) -> Seq<char> {
    match fetched {
        Ok(v) => match extract(v) {
            Some(c) => c,
            None => fallback
                + "\r\n\r\n提示：在线内容为空或接口结构不符合预期，已显示本地兜底内容。\r\n\r\n响应预览：\r\n"@
                + result_preview(json_pretty_text(v)),
        },
        Err(e) => fallback + "\r\n\r\n提示：无法加载在线内容，已显示本地兜底内容。\r\n失败原因："@ + e@,
    }
}

/// The text of a remote-content dialog, given the built-in text and the
/// outcome of fetching the reply.
pub fn remote_content_dialog_text(fallback: &str, fetched: Result<JsonValue, String>) -> (r: String)
    ensures
        r@ == dialog_text(fallback@, fetched),
{
    match fetched {
        Ok(value) => {
            if let Some(content) = extract_content(&value) {
                return content;
            }
            let mut v = chars_of(fallback);
            extend_str(
                &mut v,
                "\r\n\r\n提示：在线内容为空或接口结构不符合预期，已显示本地兜底内容。\r\n\r\n响应预览：\r\n",
            );
            let pretty = pretty_json_text(&value);
            let preview = format_result_preview(pretty.as_str());
            extend_str(&mut v, preview.as_str());
            string_of(v.as_slice())
        },
        Err(e) => {
            let mut v = chars_of(fallback);
            extend_str(&mut v, "\r\n\r\n提示：无法加载在线内容，已显示本地兜底内容。\r\n失败原因：");
            extend_str(&mut v, e.as_str());
            string_of(v.as_slice())
        },
    }
}

/// The user agreement, from the outcome of fetching it.
pub fn user_agreement_text(fetched: Result<JsonValue, String>) -> (r: String)
    ensures
        r@ == dialog_text(default_user_agreement(), fetched),
{
    remote_content_dialog_text(
        "用户协议\r\n\r\n欢迎使用机器码获取工具。\r\n\r\n本工具用于采集本机必要的硬件识别信息，以便完成软件授权、设备识别和问题排查。请在确认同意后继续使用。",
        fetched,
    )
}

/// The privacy policy, from the outcome of fetching it.
pub fn privacy_policy_text(fetched: Result<JsonValue, String>) -> (r: String)
    ensures
        r@ == dialog_text(default_privacy_policy(), fetched),
{
    remote_content_dialog_text(
        "隐私策略\r\n\r\n本工具可能读取网卡 MAC 地址、主板序列号、CPU 序列号、硬盘序列号等设备信息，用于生成机器码和完成授权校验。相关信息仅用于工具功能实现和技术支持。",
        fetched,
    )
}

/// The reason given when the reply could not be fetched.
pub open spec fn network_error_text(error: Seq<char>) -> Seq<char> {
    "网络请求失败: "@ + error
}

/// The reason given when the reply could not be fetched, from the
/// fetch's own error.
pub fn network_error(error: &str) -> (r: String)
    ensures
        r@ == network_error_text(error@),
{
    let mut v = chars_of("网络请求失败: ");
    extend_str(&mut v, error);
    string_of(v.as_slice())
}

// ------------------------------------------------------------------
// Fetching with PowerShell
// ------------------------------------------------------------------

/// `s` with every `'` doubled, as a PowerShell single-quoted string needs.
pub open spec fn single_quote_escaped(s: Seq<char>) -> Seq<char>
    decreases s.len(),
{
    if s.len() == 0 {
        Seq::empty()
    } else if s.last() == '\'' {
        single_quote_escaped(s.drop_last()) + seq!['\'', '\'']
    } else {
        single_quote_escaped(s.drop_last()).push(s.last())
    }
}

/// Doubles every `'` in `value`.
pub fn powershell_single_quote(value: &str) -> (r: String)
    ensures
        r@ == single_quote_escaped(value@),
{
    let v = chars_of(value);
    let n = v.len();
    let mut out = String::new();
    for i in 0..n
        invariant
            n == v@.len(),
            out@ == single_quote_escaped(v@.take(i as int)),
    {
        assert(v@.take(i + 1).drop_last() =~= v@.take(i as int));
        let c = v[i];
        if c == '\'' {
            push_char(&mut out, '\'');
            push_char(&mut out, '\'');
            assert(out@ =~= single_quote_escaped(v@.take(i as int)) + seq!['\'', '\'']);
        } else {
            push_char(&mut out, c);
        }
    }
    assert(v@.take(n as int) =~= v@);
    out
}

/// The text of the PowerShell command before the quoted address.
pub open spec fn script_head() -> Seq<char> {
    "$ErrorActionPreference='Stop';$ProgressPreference='SilentlyContinue';try { [Net.ServicePointManager]::SecurityProtocol = [Net.SecurityProtocolType]::Tls12 } catch { };[Console]::OutputEncoding = [Text.Encoding]::UTF8;$request = [Net.HttpWebRequest]::Create('"@
}

/// The text of the PowerShell command after the quoted address.
pub open spec fn script_tail() -> Seq<char> {
    "');$request.Method = 'GET';$request.UserAgent = 'Machine-Code-Tool/2.1.0';$request.Timeout = 10000;$request.ReadWriteTimeout = 10000;$request.Accept = 'application/json,text/plain,*/*';$response = $request.GetResponse();try {$stream = $response.GetResponseStream();$reader = New-Object IO.StreamReader($stream, [Text.Encoding]::UTF8);[Console]::Write($reader.ReadToEnd());} finally {if ($null -ne $reader) { $reader.Dispose() };if ($null -ne $response) { $response.Close() };}"@
}

/// The PowerShell command that fetches `url` and writes the reply.
pub fn powershell_fetch_script(url: &str) -> (r: String)
    ensures
        r@ == script_head() + single_quote_escaped(url@) + script_tail(),
{
    let mut v = chars_of(
        "$ErrorActionPreference='Stop';$ProgressPreference='SilentlyContinue';try { [Net.ServicePointManager]::SecurityProtocol = [Net.SecurityProtocolType]::Tls12 } catch { };[Console]::OutputEncoding = [Text.Encoding]::UTF8;$request = [Net.HttpWebRequest]::Create('",
    );
    let quoted = powershell_single_quote(url);
    extend_str(&mut v, quoted.as_str());
    extend_str(
        &mut v,
        "');$request.Method = 'GET';$request.UserAgent = 'Machine-Code-Tool/2.1.0';$request.Timeout = 10000;$request.ReadWriteTimeout = 10000;$request.Accept = 'application/json,text/plain,*/*';$response = $request.GetResponse();try {$stream = $response.GetResponseStream();$reader = New-Object IO.StreamReader($stream, [Text.Encoding]::UTF8);[Console]::Write($reader.ReadToEnd());} finally {if ($null -ne $reader) { $reader.Dispose() };if ($null -ne $response) { $response.Close() };}",
    );
    string_of(v.as_slice())
}

/// The outcome of a PowerShell run: on a failed exit, the exit status and
/// the trimmed error output; else the whole output, decoded.
pub open spec fn powershell_outcome(success: bool, status: Seq<char>, stdout: Seq<u8>, stderr: Seq<
    u8,
>) -> Result<Seq<char>, Seq<char>> {
    if !success {
        Err("PowerShell 退出码: "@ + status + ", stderr="@ + trim(decode_lossy(stderr)))
    } else {
        Ok(decode_lossy(stdout))
    }
}

/// The reply text from a finished PowerShell run, given whether it exited
/// successfully, its exit status as text, and its output streams.
pub fn powershell_output_text(success: bool, status: &str, stdout: &[u8], stderr: &[u8]) -> (r:
    Result<String, String>)
    ensures
        match r {
            Ok(s) => powershell_outcome(success, status@, stdout@, stderr@) == Ok::<
                Seq<char>,
                Seq<char>,
            >(s@),
            Err(e) => powershell_outcome(success, status@, stdout@, stderr@) == Err::<
                Seq<char>,
                Seq<char>,
            >(e@),
        },
{
    if !success {
        let err = from_utf8_lossy(stderr);
        let ev = chars_of(err.as_str());
        let et = trim_chars(ev.as_slice());
        let mut v = chars_of("PowerShell 退出码: ");
        extend_str(&mut v, status);
        extend_str(&mut v, ", stderr=");
        extend_chars(&mut v, et.as_slice());
        return Err(string_of(v.as_slice()));
    }
    Ok(from_utf8_lossy(stdout))
}

/// Whether every run of `'` in `s` comes in pairs, read from the end.
pub open spec fn quotes_paired(s: Seq<char>) -> bool
    decreases s.len(),
{
    if s.len() == 0 {
        true
    } else if s.last() == '\'' {
        s.len() >= 2 && s[s.len() - 2] == '\'' && quotes_paired(s.take(s.len() - 2))
    } else {
        quotes_paired(s.drop_last())
    }
}

/// An escaped address cannot end the single-quoted PowerShell string it
/// is placed in: its quotes all come in pairs.
pub proof fn lemma_escaped_quotes_paired(s: Seq<char>)
    ensures
        quotes_paired(single_quote_escaped(s)),
    decreases s.len(),
{
    if s.len() > 0 {
        lemma_escaped_quotes_paired(s.drop_last());
        let e = single_quote_escaped(s);
        let p = single_quote_escaped(s.drop_last());
        if s.last() == '\'' {
            assert(e.take(e.len() - 2) =~= p);
        } else {
            assert(e.drop_last() =~= p);
        }
    }
}

/// The text with every doubled `'` collapsed to one, read from the front
/// (`str::replace("''", "'")`).
pub open spec fn collapse_quotes(s: Seq<char>) -> Seq<char>
    decreases s.len(),
{
    if s.len() == 0 {
        s
    } else if s.len() >= 2 && s[0] == '\'' && s[1] == '\'' {
        seq!['\''] + collapse_quotes(s.skip(2))
    } else {
        seq![s[0]] + collapse_quotes(s.drop_first())
    }
}

/// The escape of one character.
pub open spec fn escaped_char(c: char) -> Seq<char> {
    if c == '\'' {
        seq!['\'', '\'']
    } else {
        seq![c]
    }
}

proof fn lemma_escaped_front(s: Seq<char>)
    requires
        s.len() > 0,
    ensures
        single_quote_escaped(s) == escaped_char(s[0]) + single_quote_escaped(s.drop_first()),
    decreases s.len(),
{
    if s.len() == 1 {
        assert(s.drop_last() =~= Seq::<char>::empty());
        assert(s.drop_first() =~= Seq::<char>::empty());
        assert(single_quote_escaped(s) =~= escaped_char(s[0]) + single_quote_escaped(s.drop_first()));
    } else {
        let d = s.drop_last();
        lemma_escaped_front(d);
        assert(s.drop_first().drop_last() =~= d.drop_first());
        assert(s.drop_first().last() == s.last());
        assert(d[0] == s[0]);
        assert(single_quote_escaped(s) =~= escaped_char(s[0]) + single_quote_escaped(s.drop_first()));
    }
}

/// Undoing the escape gives the text back: collapsing each doubled `'` in
/// an escaped address yields the address.
pub proof fn lemma_escape_round_trip(s: Seq<char>)
    ensures
        collapse_quotes(single_quote_escaped(s)) == s,
    decreases s.len(),
{
    if s.len() > 0 {
        lemma_escaped_front(s);
        lemma_escape_round_trip(s.drop_first());
        let e = single_quote_escaped(s);
        let rest = single_quote_escaped(s.drop_first());
        if s[0] == '\'' {
            assert(e.skip(2) =~= rest);
            assert(e[0] == '\'' && e[1] == '\'');
        } else {
            assert(e.drop_first() =~= rest);
            assert(e[0] == s[0]);
        }
        assert(collapse_quotes(e) =~= s);
    } else {
        assert(single_quote_escaped(s) =~= Seq::<char>::empty());
    }
}

} // verus!
