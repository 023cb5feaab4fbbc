//! The local HTTP API: finding the end of a request head, reading the
//! request line and `Content-Length`, choosing the route, answering it from
//! the shared state, and the head of every response.
use vstd::prelude::*;
use crate::hardware::{MachineInfo, MachineInfoView};
use crate::json::{parse_usize, parse_usize_spec, JsonValue};
use crate::state::AppState;
use crate::text::{
    chars_of, copy_range, decimal, decimal_chars, eq_ignore_ascii_case,
    eq_ignore_ascii_case_chars, extend_chars, extend_str, from_utf8_lossy, lines, lines_of,
    string_of, trim, trim_chars, decode_lossy, words, words_of,
};

verus! {

// ------------------------------------------------------------------
// The request head
// ------------------------------------------------------------------

/// Whether `"\r\n\r\n"` starts at position `p`.
pub open spec fn blank_line_at(b: Seq<u8>, p: int) -> bool {
    0 <= p && p + 4 <= b.len() && b[p] == 13 && b[p + 1] == 10 && b[p + 2] == 13 && b[p + 3] == 10
}

/// The first position at or after `from` where `"\r\n\r\n"` starts.
pub open spec fn header_end_from(b: Seq<u8>, from: int) -> Option<int>
    decreases b.len() - from,
{
    if from < 0 || from + 4 > b.len() {
        None
    } else if blank_line_at(b, from) {
        Some(from)
    } else {
        header_end_from(b, from + 1)
    }
}

/// The position where the request head ends (the first `"\r\n\r\n"`).
pub fn find_header_end(buffer: &[u8]) -> (r: Option<usize>)
    ensures
        match r {
            Some(p) => header_end_from(buffer@, 0) == Some(p as int),
            None => header_end_from(buffer@, 0) is None,
        },
{
    let n = buffer.len();
    let mut p: usize = 0;
    while n >= 4 && p <= n - 4
        invariant
            n == buffer@.len(),
            header_end_from(buffer@, 0) == header_end_from(buffer@, p as int),
        decreases n - p,
    {
        if buffer[p] == 13 && buffer[p + 1] == 10 && buffer[p + 2] == 13 && buffer[p + 3] == 10 {
            return Some(p);
        }
        p = p + 1;
    }
    None
}

/// The head ends at the first blank line: `header_end_from(b, from)` is
/// the first position at or after `from` where `"\r\n\r\n"` starts, and
/// `None` only when it starts nowhere there.
pub proof fn lemma_header_end_first(b: Seq<u8>, from: int)
    requires
        0 <= from,
    ensures
        match header_end_from(b, from) {
            Some(p) => from <= p && blank_line_at(b, p) && forall|q: int|
                from <= q < p ==> !#[trigger] blank_line_at(b, q),
            None => forall|q: int| from <= q ==> !#[trigger] blank_line_at(b, q),
        },
    decreases b.len() - from,
{
    if from + 4 <= b.len() && !blank_line_at(b, from) {
        lemma_header_end_first(b, from + 1);
    }
}

/// The largest request head the server waits for, in bytes.
pub const MAX_HEADER_BYTES: usize = 65536;

/// Where reading a request head stands after the bytes read so far.
pub enum HeaderProgress {
    /// The head ends at this position.
    Complete(usize),
    /// More bytes are needed.
    NeedMore,
    /// The head is too large to wait for.
    TooLarge,
}

/// Where reading a request head stands after the bytes read so far: done
/// once `"\r\n\r\n"` is in, refused once more than 64 KiB are in without it.
pub fn header_progress(buffer: &[u8]) -> (r: HeaderProgress)
    ensures
        match r {
            HeaderProgress::Complete(p) => header_end_from(buffer@, 0) == Some(p as int),
            HeaderProgress::NeedMore => header_end_from(buffer@, 0) is None && buffer@.len()
                <= MAX_HEADER_BYTES,
            HeaderProgress::TooLarge => header_end_from(buffer@, 0) is None && buffer@.len()
                > MAX_HEADER_BYTES,
        },
{
    match find_header_end(buffer) {
        Some(p) => HeaderProgress::Complete(p),
        None => if buffer.len() > MAX_HEADER_BYTES {
            HeaderProgress::TooLarge
        } else {
            HeaderProgress::NeedMore
        },
    }
}

/// The position of the first `c` in `s`.
pub open spec fn index_of(s: Seq<char>, c: char) -> Option<int>
    decreases s.len(),
{
    if s.len() == 0 {
        None
    } else if s[0] == c {
        Some(0)
    } else {
        match index_of(s.drop_first(), c) {
            Some(i) => Some(i + 1),
            None => None,
        }
    }
}

proof fn lemma_index_of_at(s: Seq<char>, c: char, i: int)
    requires
        0 <= i < s.len(),
        forall|j: int| 0 <= j < i ==> #[trigger] s[j] != c,
        s[i] == c,
    ensures
        index_of(s, c) == Some(i),
    decreases i,
{
    if i > 0 {
        let t = s.drop_first();
        assert forall|j: int| 0 <= j < i - 1 implies #[trigger] t[j] != c by {
            assert(t[j] == s[j + 1]);
        }
        lemma_index_of_at(t, c, i - 1);
    }
}

proof fn lemma_index_of_none(s: Seq<char>, c: char)
    requires
        forall|j: int| 0 <= j < s.len() ==> #[trigger] s[j] != c,
    ensures
        index_of(s, c) is None,
    decreases s.len(),
{
    if s.len() > 0 {
        let t = s.drop_first();
        assert forall|j: int| 0 <= j < t.len() implies #[trigger] t[j] != c by {
            assert(t[j] == s[j + 1]);
        }
        lemma_index_of_none(t, c);
    }
}

/// What `index_of` finds: the position of a `c` with no `c` before it,
/// or `None` when `s` holds no `c`.
pub proof fn lemma_index_of_first(s: Seq<char>, c: char)
    ensures
        match index_of(s, c) {
            Some(i) => 0 <= i < s.len() && s[i] == c && forall|j: int|
                0 <= j < i ==> #[trigger] s[j] != c,
            None => forall|j: int| 0 <= j < s.len() ==> #[trigger] s[j] != c,
        },
    decreases s.len(),
{
    if s.len() > 0 && s[0] != c {
        let t = s.drop_first();
        lemma_index_of_first(t, c);
        match index_of(t, c) {
            Some(i) => {
                assert(t[i] == s[i + 1]);
                assert forall|j: int| 0 <= j < i + 1 implies #[trigger] s[j] != c by {
                    if j > 0 {
                        assert(s[j] == t[j - 1]);
                    }
                }
            },
            None => {
                assert forall|j: int| 0 <= j < s.len() implies #[trigger] s[j] != c by {
                    if j > 0 {
                        assert(s[j] == t[j - 1]);
                    }
                }
            },
        }
    }
}

/// Finds the first `c` in `s`.
pub fn find_char(s: &[char], c: char) -> (r: Option<usize>)
    ensures
        match r {
            Some(i) => index_of(s@, c) == Some(i as int) && i < s@.len(),
            None => index_of(s@, c) is None,
        },
{
    let n = s.len();
    for i in 0..n
        invariant
            n == s@.len(),
            forall|j: int| 0 <= j < i ==> #[trigger] s@[j] != c,
    {
        if s[i] == c {
            proof {
                lemma_index_of_at(s@, c, i as int);
            }
            return Some(i);
        }
    }
    proof {
        lemma_index_of_none(s@, c);
    }
    None
}

/// The part of `s` before the first `c` (all of `s` when there is none).
pub open spec fn before_char(s: Seq<char>, c: char) -> Seq<char> {
    match index_of(s, c) {
        Some(i) => s.take(i),
        None => s,
    }
}

/// The declared body length in the header lines: from the first line of
/// the form `name: value` whose trimmed name is `content-length` (in any
/// ASCII case), its trimmed value as a decimal number, or 0 when that is
/// not one; 0 when there is no such line.
pub open spec fn content_length_in(ls: Seq<Seq<char>>) -> usize
    decreases ls.len(),
{
    if ls.len() == 0 {
        0
    } else {
        match index_of(ls[0], ':') {
            Some(k) => if eq_ignore_ascii_case(trim(ls[0].take(k)), "content-length"@) {
                match parse_usize_spec(trim(ls[0].skip(k + 1))) {
                    Some(n) => n,
                    None => 0,
                }
            } else {
                content_length_in(ls.drop_first())
            },
            None => content_length_in(ls.drop_first()),
        }
    }
}

/// What the server reads from a request head.
pub struct RequestHead {
    pub method: String,
    pub path: String,
    pub content_length: usize,
}

/// The method, path (without the query) and declared body length of a
/// request head; an error when the head has no line at all. A missing
/// method is empty and a missing path is `/`.
pub open spec fn request_head(head: Seq<u8>) -> Result<(Seq<char>, Seq<char>, usize), Seq<char>> {
    let ls = lines(decode_lossy(head));
    if ls.len() == 0 {
        Err("缺少请求行"@)
    } else {
        let w = words(ls[0]);
        let method = if w.len() > 0 {
            w[0]
        } else {
            ""@
        };
        let raw_path = if w.len() > 1 {
            w[1]
        } else {
            "/"@
        };
        Ok((method, before_char(raw_path, '?'), content_length_in(ls.drop_first())))
    }
}

/// The path a request is routed by never holds a `?`: the query is cut
/// off at the first one.
pub proof fn lemma_path_without_query(head: Seq<u8>)
    ensures
        request_head(head) matches Ok(t) ==> forall|j: int| 0 <= j < t.1.len() ==> #[trigger] t.1[j] != '?',
{
    let ls = lines(decode_lossy(head));
    if ls.len() > 0 {
        let w = words(ls[0]);
        let raw_path = if w.len() > 1 {
            w[1]
        } else {
            "/"@
        };
        lemma_index_of_first(raw_path, '?');
        if index_of(raw_path, '?') is None {
            assert(before_char(raw_path, '?') == raw_path);
        }
    }
}

fn content_length_exec(ls: &Vec<Vec<char>>) -> (r: usize)
    requires
        ls@.len() >= 1,
    ensures
        r == content_length_in(crate::text::views(ls@).drop_first()),
{
    let ghost all = crate::text::views(ls@);
    let ghost rest = all.drop_first();
    let name_key = chars_of("content-length");
    let n = ls.len();
    let mut i: usize = 1;
    assert(rest.skip(0) =~= rest);
    while i < n
        invariant
            n == ls@.len() == all.len(),
            1 <= i <= n,
            all == crate::text::views(ls@),
            rest == all.drop_first(),
            name_key@ == "content-length"@,
            content_length_in(rest) == content_length_in(rest.skip(i - 1)),
        decreases n - i,
    {
        let line = &ls[i];
        assert(rest.skip(i - 1)[0] == line@);
        assert(rest.skip(i - 1).drop_first() =~= rest.skip(i as int));
        let line_len = line.len();
        if let Some(k) = find_char(line.as_slice(), ':') {
            assert(k < line_len);
            let name = copy_range(line.as_slice(), 0, k);
            let name_t = trim_chars(name.as_slice());
            assert(name@ =~= line@.take(k as int));
            if eq_ignore_ascii_case_chars(name_t.as_slice(), name_key.as_slice()) {
                let value = copy_range(line.as_slice(), k + 1, line_len);
                assert(value@ =~= line@.skip(k + 1));
                let value_t = trim_chars(value.as_slice());
                return match parse_usize(value_t.as_slice()) {
                    Some(v) => v,
                    None => 0,
                };
            }
        }
        i = i + 1;
    }
    assert(rest.skip(n - 1) =~= Seq::<Seq<char>>::empty());
    0
}

/// Reads the method, path and declared body length from a request head.
pub fn parse_request_head(head: &[u8]) -> (r: Result<RequestHead, String>)
    ensures
        match r {
            Ok(h) => request_head(head@) == Ok::<(Seq<char>, Seq<char>, usize), Seq<char>>(
                (h.method@, h.path@, h.content_length),
            ),
            Err(e) => request_head(head@) == Err::<(Seq<char>, Seq<char>, usize), Seq<char>>(e@),
        },
{
    let text = from_utf8_lossy(head);
    let tc = chars_of(text.as_str());
    let ls = lines_of(tc.as_slice());
    if ls.len() == 0 {
        return Err("缺少请求行".to_owned());
    }
    let w = words_of(ls[0].as_slice());
    assert(crate::text::views(ls@)[0] == ls@[0]@);
    let method = if w.len() > 0 {
        assert(crate::text::views(w@)[0] == w@[0]@);
        string_of(w[0].as_slice())
    } else {
        "".to_owned()
    };
    let raw_path = if w.len() > 1 {
        assert(crate::text::views(w@)[1] == w@[1]@);
        copy_range(w[1].as_slice(), 0, w[1].len())
    } else {
        chars_of("/")
    };
    let path = match find_char(raw_path.as_slice(), '?') {
        Some(q) => copy_range(raw_path.as_slice(), 0, q),
        None => raw_path,
    };
    let content_length = content_length_exec(&ls);
    proof {
        let lsv = crate::text::views(ls@);
        let wv = crate::text::views(w@);
        assert(lsv == lines(decode_lossy(head@)));
        assert(wv == words(lsv[0]));
        assert(method@ == (if wv.len() > 0 { wv[0] } else { ""@ }));
        assert(raw_path@ == (if wv.len() > 1 { wv[1] } else { "/"@ }));
        assert(path@ == before_char(raw_path@, '?'));
    }
    Ok(RequestHead { method, path: string_of(path.as_slice()), content_length })
}

/// The body of a request: what was received after the head, cut to the
/// declared `Content-Length` (a body that ended early is kept whole).
pub fn request_body(received: Vec<u8>, content_length: usize) -> (r: Vec<u8>)
    ensures
        r@ == if content_length <= received@.len() {
            received@.take(content_length as int)
        } else {
            received@
        },
{
    let mut body = received;
    body.truncate(content_length);
    body
}

// ------------------------------------------------------------------
// Routing
// ------------------------------------------------------------------

/// The endpoints of the API.
#[derive(Clone, Copy, PartialEq, Eq, Structural)]
pub enum Route {
    /// `GET /health`
    Health,
    /// `GET /api/auth-status`
    AuthStatus,
    /// `POST /api/set-auth`
    SetAuth,
    /// `GET /api/machine-code`
    MachineCode,
    /// Anything else.
    NotFound,
}

/// The endpoint a method and path name.
pub open spec fn route_spec(method: Seq<char>, path: Seq<char>) -> Route {
    if method == "GET"@ && path == "/health"@ {
        Route::Health
    } else if method == "GET"@ && path == "/api/auth-status"@ {
        Route::AuthStatus
    } else if method == "POST"@ && path == "/api/set-auth"@ {
        Route::SetAuth
    } else if method == "GET"@ && path == "/api/machine-code"@ {
        Route::MachineCode
    } else {
        Route::NotFound
    }
}

fn str_eq(a: &str, b: &str) -> (r: bool)
    ensures
        r == (a@ == b@),
{
    let av = chars_of(a);
    let bv = chars_of(b);
    crate::text::chars_eq(av.as_slice(), bv.as_slice())
}

/// The endpoint a method and path name.
pub fn route_of(method: &str, path: &str) -> (r: Route)
    ensures
        r == route_spec(method@, path@),
{
    if str_eq(method, "GET") && str_eq(path, "/health") {
        Route::Health
    } else if str_eq(method, "GET") && str_eq(path, "/api/auth-status") {
        Route::AuthStatus
    } else if str_eq(method, "POST") && str_eq(path, "/api/set-auth") {
        Route::SetAuth
    } else if str_eq(method, "GET") && str_eq(path, "/api/machine-code") {
        Route::MachineCode
    } else {
        Route::NotFound
    }
}

/// Whether a request is a CORS preflight, answered with no content.
pub fn is_preflight(method: &str) -> (r: bool)
    ensures
        r == (method@ == "OPTIONS"@),
{
    str_eq(method, "OPTIONS")
}

// ------------------------------------------------------------------
// Answers
// ------------------------------------------------------------------

/// The value of a member of a JSON answer.
pub enum FieldValue {
    Text(Seq<char>),
    Flag(bool),
}

/// Whether a JSON value is the given text or flag.
pub open spec fn json_is(v: JsonValue, f: FieldValue) -> bool {
    match f {
        FieldValue::Text(t) => v matches JsonValue::String(s) && s@ == t,
        FieldValue::Flag(b) => v == JsonValue::Bool(b),
    }
}

/// Whether the members of a JSON object are the given ones, in order.
pub open spec fn members_are(fields: Seq<(String, JsonValue)>, expected: Seq<(Seq<char>, FieldValue)>) -> bool {
    &&& fields.len() == expected.len()
    &&& forall|i: int|
        0 <= i < fields.len() ==> (#[trigger] fields[i]).0@ == expected[i].0 && json_is(
            fields[i].1,
            expected[i].1,
        )
}

/// An answer of the API: the status, its reason phrase, the members of
/// the JSON object; when `machine_info` is present, the object also holds
/// all of it, every reading in full, as its `details` member.
pub struct ApiResponse {
    pub status: u16,
    pub reason: String,
    pub fields: Vec<(String, JsonValue)>,
    pub machine_info: Option<MachineInfo>,
}

/// What the server does next for a request.
pub enum ApiAction {
    /// Send this answer.
    Reply(ApiResponse),
    /// Read the machine information, cache it, then route again.
    CollectMachineInfo,
}

/// Whether an action is the answer with this status, reason, members and
/// machine information.
pub open spec fn replies(
    a: ApiAction,
    status: u16,
    reason: Seq<char>,
    fields: Seq<(Seq<char>, FieldValue)>,
    info: Option<MachineInfoView>,
) -> bool {
    match a {
        ApiAction::Reply(r) => {
            &&& r.status == status
            &&& r.reason@ == reason
            &&& members_are(r.fields@, fields)
            &&& match (r.machine_info, info) {
                (Some(m), Some(v)) => m@ == v,
                (None, None) => true,
                _ => false,
            }
        },
        ApiAction::CollectMachineInfo => false,
    }
}

fn text_field(key: &str, value: String) -> (r: (String, JsonValue))
    ensures
        r.0@ == key@,
        json_is(r.1, FieldValue::Text(value@)),
{
    (key.to_owned(), JsonValue::String(value))
}

fn flag_field(key: &str, value: bool) -> (r: (String, JsonValue))
    ensures
        r.0@ == key@,
        json_is(r.1, FieldValue::Flag(value)),
{
    (key.to_owned(), JsonValue::Bool(value))
}

fn reply(status: u16, reason: &str, fields: Vec<(String, JsonValue)>, machine_info: Option<MachineInfo>) -> (r: ApiAction)
    ensures
        r matches ApiAction::Reply(resp) && resp.status == status && resp.reason@ == reason@
            && resp.fields == fields && resp.machine_info == machine_info,
{
    ApiAction::Reply(ApiResponse { status, reason: reason.to_owned(), fields, machine_info })
}

/// The members that sum up the machine information in an answer: the
/// value of each reading (the placeholder for a failed one), the machine
/// code, the confidence and the version.
pub open spec fn summary_members(m: MachineInfoView) -> Seq<(Seq<char>, FieldValue)> {
    seq![
        ("mac"@, FieldValue::Text(m.mac.value)),
        ("motherboard"@, FieldValue::Text(m.motherboard.value)),
        ("cpu"@, FieldValue::Text(m.cpu.value)),
        ("disk"@, FieldValue::Text(m.disk.value)),
        ("system_uuid"@, FieldValue::Text(m.system_uuid.value)),
        ("bios"@, FieldValue::Text(m.bios.value)),
        ("computer_name"@, FieldValue::Text(m.computer_name.value)),
        ("machine_id"@, FieldValue::Text(m.machine_id)),
        ("confidence"@, FieldValue::Text(m.confidence)),
        ("version"@, FieldValue::Text(m.version)),
    ]
}

fn machine_answer_fields(info: &MachineInfo) -> (r: Vec<(String, JsonValue)>)
    ensures
        members_are(
            r@,
            summary_members(info@) + seq![
                ("success"@, FieldValue::Flag(true)),
                ("authorized"@, FieldValue::Flag(true)),
            ],
        ),
{
    let r = vec![
        text_field("mac", info.mac.value.clone()),
        text_field("motherboard", info.motherboard.value.clone()),
        text_field("cpu", info.cpu.value.clone()),
        text_field("disk", info.disk.value.clone()),
        text_field("system_uuid", info.system_uuid.value.clone()),
        text_field("bios", info.bios.value.clone()),
        text_field("computer_name", info.computer_name.value.clone()),
        text_field("machine_id", info.machine_id.clone()),
        text_field("confidence", info.confidence.clone()),
        text_field("version", info.version.clone()),
        flag_field("success", true),
        flag_field("authorized", true),
    ];
    let ghost expected = summary_members(info@) + seq![
        ("success"@, FieldValue::Flag(true)),
        ("authorized"@, FieldValue::Flag(true)),
    ];
    assert forall|i: int| 0 <= i < r@.len() implies (#[trigger] r@[i]).0@ == expected[i].0
        && json_is(r@[i].1, expected[i].1) by {}
    r
}

/// Answers a request for `route` from the shared state. `set_auth` is the
/// body of a `set-auth` request, read as its `authorized` flag or the
/// reason it could not be read. `version` and `log_path` are reported by
/// the health check.
pub fn route_request(
    route: Route,
    set_auth: Option<Result<bool, String>>,
    state: &mut AppState,
    version: &str,
    log_path: &str,
) -> (r: ApiAction)
    requires
        route == Route::SetAuth ==> set_auth is Some,
    ensures
        route == Route::Health ==> *final(state) == *old(state) && replies(
            r,
            200,
            "OK"@,
            seq![
                ("status"@, FieldValue::Text("ok"@)),
                ("version"@, FieldValue::Text(version@)),
                ("log_path"@, FieldValue::Text(log_path@)),
            ],
            None,
        ),
        route == Route::AuthStatus ==> *final(state) == *old(state) && replies(
            r,
            200,
            "OK"@,
            seq![("authorized"@, FieldValue::Flag(old(state).authorized))],
            None,
        ),
        route == Route::SetAuth ==> match set_auth {
            Some(Ok(a)) => {
                &&& final(state).authorized == a
                &&& final(state).machine_info == (if a {
                    old(state).machine_info
                } else {
                    None
                })
                &&& replies(
                    r,
                    200,
                    "OK"@,
                    seq![("success"@, FieldValue::Flag(true)), ("authorized"@, FieldValue::Flag(a))],
                    None,
                )
            },
            Some(Err(e)) => *final(state) == *old(state) && replies(
                r,
                400,
                "Bad Request"@,
                seq![
                    ("success"@, FieldValue::Flag(false)),
                    ("message"@, FieldValue::Text("JSON 参数错误: "@ + e@)),
                ],
                None,
            ),
            None => false,
        },
        route == Route::MachineCode ==> *final(state) == *old(state) && if !old(state).authorized {
            replies(
                r,
                403,
                "Forbidden"@,
                seq![
                    ("success"@, FieldValue::Flag(false)),
                    ("authorized"@, FieldValue::Flag(false)),
                    ("message"@, FieldValue::Text("未开启授权，请先在机器码工具中开启授权"@)),
                ],
                None,
            )
        } else {
            match old(state).machine_info {
                Some(info) => replies(
                    r,
                    200,
                    "OK"@,
                    summary_members(info@) + seq![
                        ("success"@, FieldValue::Flag(true)),
                        ("authorized"@, FieldValue::Flag(true)),
                    ],
                    Some(info@),
                ),
                None => r is CollectMachineInfo,
            }
        },
        route == Route::NotFound ==> *final(state) == *old(state) && replies(
            r,
            404,
            "Not Found"@,
            seq![
                ("success"@, FieldValue::Flag(false)),
                ("message"@, FieldValue::Text("接口不存在"@)),
            ],
            None,
        ),
{
    match route {
        Route::Health => {
            let fields = vec![
                text_field("status", "ok".to_owned()),
                text_field("version", version.to_owned()),
                text_field("log_path", log_path.to_owned()),
            ];
            reply(200, "OK", fields, None)
        },
        Route::AuthStatus => {
            let fields = vec![flag_field("authorized", state.authorized)];
            reply(200, "OK", fields, None)
        },
        Route::SetAuth => {
            match set_auth {
                Some(Ok(authorized)) => {
                    state.set_authorized(authorized);
                    let fields = vec![
                        flag_field("success", true),
                        flag_field("authorized", state.authorized),
                    ];
                    reply(200, "OK", fields, None)
                },
                Some(Err(error)) => {
                    let mut message = chars_of("JSON 参数错误: ");
                    extend_str(&mut message, error.as_str());
                    let fields = vec![
                        flag_field("success", false),
                        text_field("message", string_of(message.as_slice())),
                    ];
                    reply(400, "Bad Request", fields, None)
                },
                None => ApiAction::CollectMachineInfo,
            }
        },
        Route::MachineCode => {
            if !state.authorized {
                let fields = vec![
                    flag_field("success", false),
                    flag_field("authorized", false),
                    text_field("message", "未开启授权，请先在机器码工具中开启授权".to_owned()),
                ];
                return reply(403, "Forbidden", fields, None);
            }
            match state.machine_info(false) {
                Some(info) => {
                    let fields = machine_answer_fields(&info);
                    reply(200, "OK", fields, Some(info))
                },
                None => ApiAction::CollectMachineInfo,
            }
        },
        Route::NotFound => {
            let fields = vec![
                flag_field("success", false),
                text_field("message", "接口不存在".to_owned()),
            ];
            reply(404, "Not Found", fields, None)
        },
    }
}

// ------------------------------------------------------------------
// The response head
// ------------------------------------------------------------------

/// The head of every response: status line, content type and length, the
/// CORS headers that let web pages call the API, and `Connection: close`.
pub open spec fn response_head_text(
    status: u16,
    reason: Seq<char>,
    content_type: Seq<char>,
    body_len: nat,
) -> Seq<char> {
    "HTTP/1.1 "@ + decimal(status as nat) + " "@ + reason + "\r\nContent-Type: "@ + content_type
        + "\r\nContent-Length: "@ + decimal(body_len)
        + "\r\nAccess-Control-Allow-Origin: *\r\nAccess-Control-Allow-Methods: GET, POST, OPTIONS\r\nAccess-Control-Allow-Headers: *\r\nAccess-Control-Allow-Private-Network: true\r\nConnection: close\r\n\r\n"@
}

/// Every response head lets web pages read the answer: right after the
/// `Content-Length` line comes the line `Access-Control-Allow-Origin: *`,
/// whatever the status, reason, content type and length.
pub proof fn lemma_head_allows_any_origin(status: u16, reason: Seq<char>, content_type: Seq<char>, body_len: nat)
    ensures
        ({
            let before = "HTTP/1.1 "@ + decimal(status as nat) + " "@ + reason + "\r\nContent-Type: "@
                + content_type + "\r\nContent-Length: "@ + decimal(body_len) + "\r\n"@;
            let line = "Access-Control-Allow-Origin: *\r\n"@;
            let head = response_head_text(status, reason, content_type, body_len);
            before.len() + line.len() <= head.len() && head.subrange(before.len() as int, (before.len() + line.len()) as int) == line
        }),
{
    reveal_strlit("HTTP/1.1 ");
    reveal_strlit(" ");
    reveal_strlit("\r\nContent-Type: ");
    reveal_strlit("\r\nContent-Length: ");
    reveal_strlit("\r\n");
    reveal_strlit("Access-Control-Allow-Origin: *\r\n");
    reveal_strlit("\r\nAccess-Control-Allow-Origin: *\r\nAccess-Control-Allow-Methods: GET, POST, OPTIONS\r\nAccess-Control-Allow-Headers: *\r\nAccess-Control-Allow-Private-Network: true\r\nConnection: close\r\n\r\n");
    let before = "HTTP/1.1 "@ + decimal(status as nat) + " "@ + reason + "\r\nContent-Type: "@
        + content_type + "\r\nContent-Length: "@ + decimal(body_len) + "\r\n"@;
    let line = "Access-Control-Allow-Origin: *\r\n"@;
    let head = response_head_text(status, reason, content_type, body_len);
    assert(head.subrange(before.len() as int, (before.len() + line.len()) as int) =~= line);
}

/// The status only decides the status line: two heads with the same
/// reason, content type and length agree on everything after it.
pub proof fn lemma_head_same_after_status_line(
    s1: u16,
    s2: u16,
    reason: Seq<char>,
    content_type: Seq<char>,
    body_len: nat,
)
    ensures
        ({
            let l1 = "HTTP/1.1 "@.len() + decimal(s1 as nat).len();
            let l2 = "HTTP/1.1 "@.len() + decimal(s2 as nat).len();
            response_head_text(s1, reason, content_type, body_len).skip(l1 as int)
                == response_head_text(s2, reason, content_type, body_len).skip(l2 as int)
        }),
{
    let l1 = "HTTP/1.1 "@.len() + decimal(s1 as nat).len();
    let l2 = "HTTP/1.1 "@.len() + decimal(s2 as nat).len();
    assert(response_head_text(s1, reason, content_type, body_len).skip(l1 as int)
        =~= response_head_text(s2, reason, content_type, body_len).skip(l2 as int));
}

/// The head of a response.
pub fn response_head(status: u16, reason: &str, content_type: &str, body_len: usize) -> (r: String)
    ensures
        r@ == response_head_text(status, reason@, content_type@, body_len as nat),
{
    let mut v = chars_of("HTTP/1.1 ");
    let s = decimal_chars(status as u64);
    extend_chars(&mut v, s.as_slice());
    extend_str(&mut v, " ");
    extend_str(&mut v, reason);
    extend_str(&mut v, "\r\nContent-Type: ");
    extend_str(&mut v, content_type);
    extend_str(&mut v, "\r\nContent-Length: ");
    let l = decimal_chars(body_len as u64);
    extend_chars(&mut v, l.as_slice());
    extend_str(
        &mut v,
        "\r\nAccess-Control-Allow-Origin: *\r\nAccess-Control-Allow-Methods: GET, POST, OPTIONS\r\nAccess-Control-Allow-Headers: *\r\nAccess-Control-Allow-Private-Network: true\r\nConnection: close\r\n\r\n",
    );
    string_of(v.as_slice())
}

} // verus!
