//! Hardware identifiers: the result of reading one identifier from one or
//! more sources, the rules that reject filler values, the machine code
//! derived from the identifiers, and the confidence in it.
use vstd::prelude::*;
use crate::crypto::{hex_encode, hex_lower, lemma_hex_lower_len, sha256, sha256_digest};
use crate::order::{lemma_lex_total_ordering, lex_order, sort_lex};
use crate::text::{
    ascii_lower, ascii_lower_chars, chars_eq, chars_of, copy_range, decimal, decimal_chars,
    extend_chars, extend_str, is_white_space, is_whitespace, join, join_chars, str_to_uppercase,
    string_of, to_uppercase, trim, trim_by, trim_chars, trim_chars_by, trim_str, views, TrimSet,
};
use crate::diagnostics::string_views;

verus! {

/// The outcome of reading one hardware identifier.
pub struct FieldResult {
    pub label: String,
    pub value: String,
    pub ok: bool,
    pub source: String,
    pub error: String,
}

/// The contents of a `FieldResult`.
pub struct FieldView {
    pub label: Seq<char>,
    pub value: Seq<char>,
    pub ok: bool,
    pub source: Seq<char>,
    pub error: Seq<char>,
}

impl View for FieldResult {
    type V = FieldView;

    open spec fn view(&self) -> FieldView {
        FieldView {
            label: self.label@,
            value: self.value@,
            ok: self.ok,
            source: self.source@,
            error: self.error@,
        }
    }
}

impl Clone for FieldResult {
    fn clone(&self) -> (r: Self)
        ensures
            r@ == self@,
    {
        FieldResult {
            label: self.label.clone(),
            value: self.value.clone(),
            ok: self.ok,
            source: self.source.clone(),
            error: self.error.clone(),
        }
    }
}

/// The value shown for an identifier that could not be read.
pub open spec fn placeholder() -> Seq<char> {
    "————"@
}

/// The placeholder, as a string.
pub fn placeholder_string() -> (r: String)
    ensures
        r@ == placeholder(),
{
    "————".to_owned()
}

/// A successful reading.
pub open spec fn ok_view(label: Seq<char>, value: Seq<char>, source: Seq<char>) -> FieldView {
    FieldView { label, value, ok: true, source, error: Seq::empty() }
}

/// A failed reading: the value is the placeholder.
pub open spec fn fail_view(label: Seq<char>, source: Seq<char>, error: Seq<char>) -> FieldView {
    FieldView { label, value: placeholder(), ok: false, source, error }
}

impl FieldResult {
    /// A successful reading of `value` from `source`.
    pub fn ok(label: &str, value: String, source: &str) -> (r: FieldResult)
        ensures
            r@ == ok_view(label@, value@, source@),
    {
        FieldResult {
            label: label.to_owned(),
            value,
            ok: true,
            source: source.to_owned(),
            error: String::new(),
        }
    }

    /// A failed reading, with the reason in `error`.
    pub fn fail(label: &str, source: &str, error: String) -> (r: FieldResult)
        ensures
            r@ == fail_view(label@, source@, error@),
    {
        FieldResult {
            label: label.to_owned(),
            value: placeholder_string(),
            ok: false,
            source: source.to_owned(),
            error,
        }
    }
}

// ------------------------------------------------------------------
// Filler values
// ------------------------------------------------------------------

/// A raw value with surrounding white space and NUL characters removed.
pub open spec fn clean_hardware_text(v: Seq<char>) -> Seq<char> {
    trim(trim_by(trim(v), TrimSet::Nul))
}

/// The filler texts that firmware and drivers report in place of a real
/// identifier (compared in ASCII lower case).
pub open spec fn is_filler_text(lower: Seq<char>) -> bool {
    ||| lower == "to be filled by o.e.m."@
    ||| lower == "to be filled by oem"@
    ||| lower == "default string"@
    ||| lower == "default"@
    ||| lower == "none"@
    ||| lower == "unknown"@
    ||| lower == "not specified"@
    ||| lower == "not available"@
    ||| lower == "system serial number"@
    ||| lower == "serial number"@
    ||| lower == "0"@
    ||| lower == "00000000"@
    ||| lower == "0000000000000000"@
    ||| lower == "ffffffff"@
    ||| lower == "ffffffffffffffff"@
}

/// Whether every character is `'0'`, `'f'` or `'-'`.
pub open spec fn only_zero_f_dash(lower: Seq<char>) -> bool {
    forall|i: int| 0 <= i < lower.len() ==> #[trigger] lower[i] == '0' || lower[i] == 'f' || lower[i]
        == '-'
}

/// The accepted identifier in a raw value, if any: the cleaned text,
/// unless it is empty, a filler text, or made only of `0`, `f` and `-`.
pub open spec fn valid_hardware(v: Seq<char>) -> Option<Seq<char>> {
    let t = clean_hardware_text(v);
    let lower = t.map_values(|c: char| ascii_lower(c));
    if t.len() == 0 || is_filler_text(lower) || only_zero_f_dash(lower) {
        None
    } else {
        Some(t)
    }
}

fn eq_str(a: &[char], b: &str) -> (r: bool)
    ensures
        r == (a@ == b@),
{
    let bv = chars_of(b);
    chars_eq(a, bv.as_slice())
}

fn filler_text(lower: &[char]) -> (r: bool)
    ensures
        r == is_filler_text(lower@),
{
    eq_str(lower, "to be filled by o.e.m.") || eq_str(lower, "to be filled by oem") || eq_str(
        lower,
        "default string",
    ) || eq_str(lower, "default") || eq_str(lower, "none") || eq_str(lower, "unknown") || eq_str(
        lower,
        "not specified",
    ) || eq_str(lower, "not available") || eq_str(lower, "system serial number") || eq_str(
        lower,
        "serial number",
    ) || eq_str(lower, "0") || eq_str(lower, "00000000") || eq_str(lower, "0000000000000000")
        || eq_str(lower, "ffffffff") || eq_str(lower, "ffffffffffffffff")
}

fn zero_f_dash_only(lower: &[char]) -> (r: bool)
    ensures
        r == only_zero_f_dash(lower@),
{
    let n = lower.len();
    for i in 0..n
        invariant
            n == lower@.len(),
            forall|j: int| 0 <= j < i ==> #[trigger] lower@[j] == '0' || lower@[j] == 'f'
                || lower@[j] == '-',
    {
        let c = lower[i];
        if !(c == '0' || c == 'f' || c == '-') {
            return false;
        }
    }
    true
}

/// The identifier in a raw value, or `None` for an empty or filler value.
pub fn valid_hardware_value(value: &str) -> (r: Option<String>)
    ensures
        match r {
            Some(s) => valid_hardware(value@) == Some(s@),
            None => valid_hardware(value@) is None,
        },
{
    let v = chars_of(value);
    let a = trim_chars(v.as_slice());
    let b = trim_chars_by(a.as_slice(), TrimSet::Nul);
    let t = trim_chars(b.as_slice());
    if t.len() == 0 {
        return None;
    }
    let lower = ascii_lower_chars(t.as_slice());
    if filler_text(lower.as_slice()) {
        return None;
    }
    if zero_f_dash_only(lower.as_slice()) {
        return None;
    }
    Some(string_of(t.as_slice()))
}

// ------------------------------------------------------------------
// Masking values for display in diagnostics
// ------------------------------------------------------------------

/// A value shortened for diagnostics: the trimmed value when it has at
/// most 8 characters, else its first and last 4 characters and its length.
pub open spec fn mask_hardware(v: Seq<char>) -> Seq<char> {
    let t = trim(v);
    if t.len() <= 8 {
        t
    } else {
        t.take(4) + "***"@ + t.skip(t.len() - 4) + "(len="@ + decimal(t.len()) + ")"@
    }
}

/// A value shortened for diagnostics, on characters.
pub fn mask_hardware_chars(value: &[char]) -> (r: Vec<char>)
    ensures
        r@ == mask_hardware(value@),
{
    let t = trim_chars(value);
    let n = t.len();
    if n <= 8 {
        return t;
    }
    let mut r = copy_range(t.as_slice(), 0, 4);
    extend_str(&mut r, "***");
    let tail = copy_range(t.as_slice(), n - 4, n);
    extend_chars(&mut r, tail.as_slice());
    extend_str(&mut r, "(len=");
    let digits = decimal_chars(n as u64);
    extend_chars(&mut r, digits.as_slice());
    extend_str(&mut r, ")");
    assert(t@.take(4) =~= t@.subrange(0, 4));
    assert(t@.skip(n - 4) =~= t@.subrange(n - 4, n as int));
    r
}

/// A value shortened for diagnostics.
pub fn mask_hardware_value(value: &str) -> (r: String)
    ensures
        r@ == mask_hardware(value@),
{
    let v = chars_of(value);
    let m = mask_hardware_chars(v.as_slice());
    string_of(m.as_slice())
}

// ------------------------------------------------------------------
// Normalising values for the machine code
// ------------------------------------------------------------------

/// Whether a character is kept when a value is normalised for hashing.
pub open spec fn kept_for_hash(c: char) -> bool {
    !is_white_space(c) && c != '-' && c != ':'
}

/// The characters of `s` that are kept for hashing, in order.
pub open spec fn hash_chars(s: Seq<char>) -> Seq<char>
    decreases s.len(),
{
    if s.len() == 0 {
        Seq::empty()
    } else if kept_for_hash(s.last()) {
        hash_chars(s.drop_last()).push(s.last())
    } else {
        hash_chars(s.drop_last())
    }
}

/// A value normalised for hashing: white space, `-` and `:` removed, then
/// upper-cased.
pub open spec fn normalize(v: Seq<char>) -> Seq<char> {
    to_uppercase(hash_chars(v))
}

/// Normalises a value for hashing.
pub fn normalize_for_hash(value: &str) -> (r: String)
    ensures
        r@ == normalize(value@),
{
    let v = chars_of(value);
    let n = v.len();
    let mut kept: Vec<char> = Vec::new();
    for i in 0..n
        invariant
            n == v@.len(),
            kept@ == hash_chars(v@.take(i as int)),
    {
        let c = v[i];
        assert(v@.take(i + 1).drop_last() =~= v@.take(i as int));
        if !is_whitespace(c) && c != '-' && c != ':' {
            kept.push(c);
        }
    }
    assert(v@.take(n as int) =~= v@);
    let s = string_of(kept.as_slice());
    str_to_uppercase(s.as_str())
}

// ------------------------------------------------------------------
// Confidence
// ------------------------------------------------------------------

/// The confidence in a machine code, from whether the MAC address was
/// read and how many of the four strong identifiers (motherboard, CPU,
/// disk, system UUID) were read.
pub open spec fn confidence_text(mac_ok: bool, strong: nat) -> Seq<char> {
    if mac_ok {
        if strong >= 3 {
            "high"@
        } else if strong >= 1 {
            "medium"@
        } else {
            "low"@
        }
    } else {
        if strong >= 2 {
            "medium"@
        } else if strong == 1 {
            "low"@
        } else {
            "invalid"@
        }
    }
}

/// The number of the four strong identifiers that were read.
pub open spec fn strong_count(
    motherboard: FieldView,
    cpu: FieldView,
    disk: FieldView,
    system_uuid: FieldView,
) -> nat {
    (if motherboard.ok { 1nat } else { 0nat }) + (if cpu.ok { 1nat } else { 0nat }) + (if disk.ok {
        1nat
    } else {
        0nat
    }) + (if system_uuid.ok { 1nat } else { 0nat })
}

/// The confidence in a machine code made from these readings.
pub fn confidence(
    mac: &FieldResult,
    motherboard: &FieldResult,
    cpu: &FieldResult,
    disk: &FieldResult,
    system_uuid: &FieldResult,
) -> (r: String)
    ensures
        r@ == confidence_text(mac.ok, strong_count(motherboard@, cpu@, disk@, system_uuid@)),
{
    let mut strong: u32 = 0;
    if motherboard.ok {
        strong = strong + 1;
    }
    if cpu.ok {
        strong = strong + 1;
    }
    if disk.ok {
        strong = strong + 1;
    }
    if system_uuid.ok {
        strong = strong + 1;
    }
    let text = if mac.ok {
        if strong >= 3 {
            "high"
        } else if strong >= 1 {
            "medium"
        } else {
            "low"
        }
    } else {
        if strong >= 2 {
            "medium"
        } else if strong == 1 {
            "low"
        } else {
            "invalid"
        }
    };
    text.to_owned()
}

// ------------------------------------------------------------------
// Reading an identifier from several sources
// ------------------------------------------------------------------

/// What one source gave for an identifier: a raw value, or the reason it
/// failed.
pub struct Attempt {
    pub source: String,
    pub result: Result<String, String>,
}

/// The contents of an `Attempt`: the source and the raw value or reason.
pub type AttemptView = (Seq<char>, Result<Seq<char>, Seq<char>>);

impl View for Attempt {
    type V = AttemptView;

    open spec fn view(&self) -> AttemptView {
        (
            self.source@,
            match self.result {
                Ok(v) => Ok(v@),
                Err(e) => Err(e@),
            },
        )
    }
}

/// The contents of a sequence of attempts.
pub open spec fn attempt_views(s: Seq<Attempt>) -> Seq<AttemptView> {
    s.map_values(|a: Attempt| a@)
}

/// The identifier an attempt yields, if its raw value is accepted.
pub open spec fn accepted(a: AttemptView) -> Option<Seq<char>> {
    match a.1 {
        Ok(v) => valid_hardware(v),
        Err(_) => None,
    }
}

/// Why an attempt yields no identifier: its raw value was rejected (shown
/// masked), or its source failed.
pub open spec fn attempt_error(a: AttemptView) -> Seq<char> {
    match a.1 {
        Ok(v) => a.0 + " 返回无效值: "@ + mask_hardware(trim(v)),
        Err(e) => a.0 + " 失败: "@ + e,
    }
}

/// The position and identifier of the first attempt that yields one.
pub open spec fn first_accepted(attempts: Seq<AttemptView>) -> Option<(int, Seq<char>)>
    decreases attempts.len(),
{
    if attempts.len() == 0 {
        None
    } else {
        match accepted(attempts[0]) {
            Some(v) => Some((0, v)),
            None => match first_accepted(attempts.drop_first()) {
                Some(p) => Some((p.0 + 1, p.1)),
                None => None,
            },
        }
    }
}

/// The reading of `label` from `attempts`, tried in order: the first
/// accepted identifier with its source; when none is accepted, a failure
/// from `"multi-source"` whose error lists the reason of every attempt,
/// separated by `"; "`.
pub open spec fn first_valid_view(label: Seq<char>, attempts: Seq<AttemptView>) -> FieldView {
    match first_accepted(attempts) {
        Some(p) => ok_view(label, p.1, attempts[p.0].0),
        None => fail_view(
            label,
            "multi-source"@,
            join(attempts.map_values(|a: AttemptView| attempt_error(a)), "; "@),
        ),
    }
}

proof fn lemma_first_accepted_at(attempts: Seq<AttemptView>, i: int)
    requires
        0 <= i < attempts.len(),
        forall|j: int| 0 <= j < i ==> accepted(#[trigger] attempts[j]) is None,
        accepted(attempts[i]) is Some,
    ensures
        first_accepted(attempts) == Some((i, accepted(attempts[i])->0)),
    decreases i,
{
    if i > 0 {
        let t = attempts.drop_first();
        assert forall|j: int| 0 <= j < i - 1 implies accepted(#[trigger] t[j]) is None by {
            assert(t[j] == attempts[j + 1]);
        }
        assert(accepted(attempts[0]) is None);
        lemma_first_accepted_at(t, i - 1);
    }
}

proof fn lemma_first_accepted_none(attempts: Seq<AttemptView>)
    requires
        forall|j: int| 0 <= j < attempts.len() ==> accepted(#[trigger] attempts[j]) is None,
    ensures
        first_accepted(attempts) is None,
    decreases attempts.len(),
{
    if attempts.len() > 0 {
        let t = attempts.drop_first();
        assert forall|j: int| 0 <= j < t.len() implies accepted(#[trigger] t[j]) is None by {
            assert(t[j] == attempts[j + 1]);
        }
        assert(accepted(attempts[0]) is None);
        lemma_first_accepted_none(t);
    }
}

fn attempt_error_chars(a: &Attempt) -> (r: Vec<char>)
    ensures
        r@ == attempt_error(a@),
{
    let mut r = chars_of(a.source.as_str());
    match &a.result {
        Ok(v) => {
            extend_str(&mut r, " 返回无效值: ");
            let vc = chars_of(v.as_str());
            let t = trim_chars(vc.as_slice());
            let m = mask_hardware_chars(t.as_slice());
            extend_chars(&mut r, m.as_slice());
        },
        Err(e) => {
            extend_str(&mut r, " 失败: ");
            extend_str(&mut r, e.as_str());
        },
    }
    r
}

/// Reads `label` from the attempts, in order: the first accepted raw value
/// wins; when none is accepted, the failure lists every reason.
pub fn first_valid(label: &str, attempts: &[Attempt]) -> (r: FieldResult)
    ensures
        r@ == first_valid_view(label@, attempt_views(attempts@)),
{
    let ghost av = attempt_views(attempts@);
    let mut errors: Vec<Vec<char>> = Vec::new();
    let n = attempts.len();
    for i in 0..n
        invariant
            n == attempts@.len() == av.len(),
            av == attempt_views(attempts@),
            forall|j: int| 0 <= j < i ==> accepted(#[trigger] av[j]) is None,
            views(errors@) == av.take(i as int).map_values(|a: AttemptView| attempt_error(a)),
    {
        let a = &attempts[i];
        assert(av[i as int] == a@);
        if let Ok(v) = &a.result {
            if let Some(valid) = valid_hardware_value(v.as_str()) {
                proof {
                    lemma_first_accepted_at(av, i as int);
                }
                return FieldResult::ok(label, valid, a.source.as_str());
            }
        }
        let e = attempt_error_chars(a);
        let ghost before = views(errors@);
        errors.push(e);
        assert(views(errors@) =~= before.push(e@));
        assert(av.take(i + 1).map_values(|a: AttemptView| attempt_error(a)) =~= av.take(
            i as int,
        ).map_values(|a: AttemptView| attempt_error(a)).push(attempt_error(av[i as int])));
    }
    proof {
        lemma_first_accepted_none(av);
        assert(av.take(n as int) =~= av);
    }
    let sep = chars_of("; ");
    let joined = join_chars(&errors, sep.as_slice());
    FieldResult::fail(label, "multi-source", string_of(joined.as_slice()))
}

/// The log line for one attempt: the accepted identifier, the rejected
/// raw value, or the reason the source failed (values shown masked).
pub open spec fn attempt_log(label: Seq<char>, a: AttemptView) -> Seq<char> {
    match a.1 {
        Ok(v) => match valid_hardware(v) {
            Some(t) => label + " 获取成功: source="@ + a.0 + ", value="@ + mask_hardware(t),
            None => label + " 来源返回无效值: source="@ + a.0 + ", value="@ + mask_hardware(trim(v)),
        },
        Err(e) => label + " 来源失败: source="@ + a.0 + ", error="@ + e,
    }
}

/// The log of reading `label` from `attempts`: a line for each attempt up
/// to the first accepted one; when none is accepted, a line for each and a
/// last line with the reading's error.
pub open spec fn first_valid_log_spec(label: Seq<char>, attempts: Seq<AttemptView>) -> Seq<Seq<char>> {
    match first_accepted(attempts) {
        Some(p) => attempts.take(p.0 + 1).map_values(|a: AttemptView| attempt_log(label, a)),
        None => attempts.map_values(|a: AttemptView| attempt_log(label, a)).push(
            label + " 获取失败: "@ + first_valid_view(label, attempts).error,
        ),
    }
}

fn attempt_log_line(label: &str, a: &Attempt) -> (r: String)
    ensures
        r@ == attempt_log(label@, a@),
{
    let mut v = chars_of(label);
    match &a.result {
        Ok(raw) => match valid_hardware_value(raw.as_str()) {
            Some(t) => {
                extend_str(&mut v, " 获取成功: source=");
                extend_str(&mut v, a.source.as_str());
                extend_str(&mut v, ", value=");
                let m = mask_hardware_value(t.as_str());
                extend_str(&mut v, m.as_str());
            },
            None => {
                extend_str(&mut v, " 来源返回无效值: source=");
                extend_str(&mut v, a.source.as_str());
                extend_str(&mut v, ", value=");
                let t = trim_str(raw.as_str());
                let m = mask_hardware_value(t.as_str());
                extend_str(&mut v, m.as_str());
            },
        },
        Err(e) => {
            extend_str(&mut v, " 来源失败: source=");
            extend_str(&mut v, a.source.as_str());
            extend_str(&mut v, ", error=");
            extend_str(&mut v, e.as_str());
        },
    }
    string_of(v.as_slice())
}

/// The log lines of reading `label` from the attempts, as `first_valid`
/// goes through them.
pub fn first_valid_log(label: &str, attempts: &[Attempt]) -> (r: Vec<String>)
    ensures
        string_views(r@) == first_valid_log_spec(label@, attempt_views(attempts@)),
{
    let ghost av = attempt_views(attempts@);
    let mut lines: Vec<String> = Vec::new();
    let n = attempts.len();
    for i in 0..n
        invariant
            n == attempts@.len() == av.len(),
            av == attempt_views(attempts@),
            forall|j: int| 0 <= j < i ==> accepted(#[trigger] av[j]) is None,
            string_views(lines@) == av.take(i as int).map_values(|a: AttemptView| attempt_log(label@, a)),
    {
        let a = &attempts[i];
        assert(av[i as int] == a@);
        let line = attempt_log_line(label, a);
        let ghost before = string_views(lines@);
        lines.push(line);
        assert(string_views(lines@) =~= before.push(line@));
        assert(av.take(i + 1).map_values(|x: AttemptView| attempt_log(label@, x)) =~= av.take(
            i as int,
        ).map_values(|x: AttemptView| attempt_log(label@, x)).push(attempt_log(label@, av[i as int])));
        if let Ok(v) = &a.result {
            if let Some(_) = valid_hardware_value(v.as_str()) {
                proof {
                    lemma_first_accepted_at(av, i as int);
                }
                return lines;
            }
        }
    }
    proof {
        lemma_first_accepted_none(av);
        assert(av.take(n as int) =~= av);
    }
    let failed = first_valid(label, attempts);
    let mut last = chars_of(label);
    extend_str(&mut last, " 获取失败: ");
    extend_str(&mut last, failed.error.as_str());
    let ghost before = string_views(lines@);
    let last = string_of(last.as_slice());
    lines.push(last);
    assert(string_views(lines@) =~= before.push(last@));
    lines
}

// ------------------------------------------------------------------
// The identifiers and their sources
// ------------------------------------------------------------------

/// The contents of a raw reading.
pub open spec fn result_view(r: Result<String, String>) -> Result<Seq<char>, Seq<char>> {
    match r {
        Ok(v) => Ok(v@),
        Err(e) => Err(e@),
    }
}

fn attempt(source: &str, result: Result<String, String>) -> (a: Attempt)
    ensures
        a@ == (source@, result_view(result)),
{
    Attempt { source: source.to_owned(), result }
}

/// The MAC address, from the IP helper API. Each collector gives the
/// reading and the log lines of how it was reached.
pub fn collect_mac(ip_helper: Result<String, String>) -> (r: (FieldResult, Vec<String>))
    ensures
        r.0@ == first_valid_view("mac"@, seq![("ip-helper"@, result_view(ip_helper))]),
        string_views(r.1@) == first_valid_log_spec("mac"@, seq![("ip-helper"@, result_view(ip_helper))]),
{
    let attempts = vec![attempt("ip-helper", ip_helper)];
    assert(attempt_views(attempts@) =~= seq![("ip-helper"@, result_view(ip_helper))]);
    (first_valid("mac", attempts.as_slice()), first_valid_log("mac", attempts.as_slice()))
}

/// The motherboard serial number, from WMI, then the SMBIOS table, then
/// the `wmic` command.
pub fn collect_baseboard_serial(
    wmi: Result<String, String>,
    smbios: Result<String, String>,
    wmic: Result<String, String>,
) -> (r: (FieldResult, Vec<String>))
    ensures
        r.0@ == first_valid_view(
            "motherboard"@,
            seq![
                ("wmi:Win32_BaseBoard.SerialNumber"@, result_view(wmi)),
                ("smbios:baseboard.serial"@, result_view(smbios)),
                ("wmic:baseboard"@, result_view(wmic)),
            ],
        ),
        string_views(r.1@) == first_valid_log_spec(
            "motherboard"@,
            seq![
                ("wmi:Win32_BaseBoard.SerialNumber"@, result_view(wmi)),
                ("smbios:baseboard.serial"@, result_view(smbios)),
                ("wmic:baseboard"@, result_view(wmic)),
            ],
        ),
{
    let attempts = vec![
        attempt("wmi:Win32_BaseBoard.SerialNumber", wmi),
        attempt("smbios:baseboard.serial", smbios),
        attempt("wmic:baseboard", wmic),
    ];
    assert(attempt_views(attempts@) =~= seq![
        ("wmi:Win32_BaseBoard.SerialNumber"@, result_view(wmi)),
        ("smbios:baseboard.serial"@, result_view(smbios)),
        ("wmic:baseboard"@, result_view(wmic)),
    ]);
    (first_valid("motherboard", attempts.as_slice()), first_valid_log("motherboard", attempts.as_slice()))
}

/// The processor id, from WMI, then the `wmic` command.
pub fn collect_cpu_id(wmi: Result<String, String>, wmic: Result<String, String>) -> (r: (FieldResult, Vec<String>))
    ensures
        r.0@ == first_valid_view(
            "cpu"@,
            seq![
                ("wmi:Win32_Processor.ProcessorId"@, result_view(wmi)),
                ("wmic:cpu"@, result_view(wmic)),
            ],
        ),
        string_views(r.1@) == first_valid_log_spec(
            "cpu"@,
            seq![
                ("wmi:Win32_Processor.ProcessorId"@, result_view(wmi)),
                ("wmic:cpu"@, result_view(wmic)),
            ],
        ),
{
    let attempts = vec![
        attempt("wmi:Win32_Processor.ProcessorId", wmi),
        attempt("wmic:cpu", wmic),
    ];
    assert(attempt_views(attempts@) =~= seq![
        ("wmi:Win32_Processor.ProcessorId"@, result_view(wmi)),
        ("wmic:cpu"@, result_view(wmic)),
    ]);
    (first_valid("cpu", attempts.as_slice()), first_valid_log("cpu", attempts.as_slice()))
}

/// The disk serial number, from WMI, then a storage property query on the
/// physical drives, then the `wmic` command.
pub fn collect_disk_serial(
    wmi: Result<String, String>,
    device_io: Result<String, String>,
    wmic: Result<String, String>,
) -> (r: (FieldResult, Vec<String>))
    ensures
        r.0@ == first_valid_view(
            "disk"@,
            seq![
                ("wmi:Win32_DiskDrive.SerialNumber"@, result_view(wmi)),
                ("device-io-control:PhysicalDrive"@, result_view(device_io)),
                ("wmic:diskdrive"@, result_view(wmic)),
            ],
        ),
        string_views(r.1@) == first_valid_log_spec(
            "disk"@,
            seq![
                ("wmi:Win32_DiskDrive.SerialNumber"@, result_view(wmi)),
                ("device-io-control:PhysicalDrive"@, result_view(device_io)),
                ("wmic:diskdrive"@, result_view(wmic)),
            ],
        ),
{
    let attempts = vec![
        attempt("wmi:Win32_DiskDrive.SerialNumber", wmi),
        attempt("device-io-control:PhysicalDrive", device_io),
        attempt("wmic:diskdrive", wmic),
    ];
    assert(attempt_views(attempts@) =~= seq![
        ("wmi:Win32_DiskDrive.SerialNumber"@, result_view(wmi)),
        ("device-io-control:PhysicalDrive"@, result_view(device_io)),
        ("wmic:diskdrive"@, result_view(wmic)),
    ]);
    (first_valid("disk", attempts.as_slice()), first_valid_log("disk", attempts.as_slice()))
}

/// The system UUID, from WMI, then the `wmic` command.
pub fn collect_system_uuid(wmi: Result<String, String>, wmic: Result<String, String>) -> (r: (FieldResult, Vec<String>))
    ensures
        r.0@ == first_valid_view(
            "system_uuid"@,
            seq![
                ("wmi:Win32_ComputerSystemProduct.UUID"@, result_view(wmi)),
                ("wmic:csproduct"@, result_view(wmic)),
            ],
        ),
        string_views(r.1@) == first_valid_log_spec(
            "system_uuid"@,
            seq![
                ("wmi:Win32_ComputerSystemProduct.UUID"@, result_view(wmi)),
                ("wmic:csproduct"@, result_view(wmic)),
            ],
        ),
{
    let attempts = vec![
        attempt("wmi:Win32_ComputerSystemProduct.UUID", wmi),
        attempt("wmic:csproduct", wmic),
    ];
    assert(attempt_views(attempts@) =~= seq![
        ("wmi:Win32_ComputerSystemProduct.UUID"@, result_view(wmi)),
        ("wmic:csproduct"@, result_view(wmic)),
    ]);
    (first_valid("system_uuid", attempts.as_slice()), first_valid_log("system_uuid", attempts.as_slice()))
}

/// The BIOS serial number, from WMI, then the SMBIOS table, then the
/// `wmic` command.
pub fn collect_bios_serial(
    wmi: Result<String, String>,
    smbios: Result<String, String>,
    wmic: Result<String, String>,
) -> (r: (FieldResult, Vec<String>))
    ensures
        r.0@ == first_valid_view(
            "bios"@,
            seq![
                ("wmi:Win32_BIOS.SerialNumber"@, result_view(wmi)),
                ("smbios:bios.serial"@, result_view(smbios)),
                ("wmic:bios"@, result_view(wmic)),
            ],
        ),
        string_views(r.1@) == first_valid_log_spec(
            "bios"@,
            seq![
                ("wmi:Win32_BIOS.SerialNumber"@, result_view(wmi)),
                ("smbios:bios.serial"@, result_view(smbios)),
                ("wmic:bios"@, result_view(wmic)),
            ],
        ),
{
    let attempts = vec![
        attempt("wmi:Win32_BIOS.SerialNumber", wmi),
        attempt("smbios:bios.serial", smbios),
        attempt("wmic:bios", wmic),
    ];
    assert(attempt_views(attempts@) =~= seq![
        ("wmi:Win32_BIOS.SerialNumber"@, result_view(wmi)),
        ("smbios:bios.serial"@, result_view(smbios)),
        ("wmic:bios"@, result_view(wmic)),
    ]);
    (first_valid("bios", attempts.as_slice()), first_valid_log("bios", attempts.as_slice()))
}

/// The computer name, from the environment.
pub fn collect_computer_name(env: Result<String, String>) -> (r: (FieldResult, Vec<String>))
    ensures
        r.0@ == first_valid_view("computer_name"@, seq![("env:COMPUTERNAME"@, result_view(env))]),
        string_views(r.1@) == first_valid_log_spec("computer_name"@, seq![("env:COMPUTERNAME"@, result_view(env))]),
{
    let attempts = vec![attempt("env:COMPUTERNAME", env)];
    assert(attempt_views(attempts@) =~= seq![("env:COMPUTERNAME"@, result_view(env))]);
    (first_valid("computer_name", attempts.as_slice()), first_valid_log("computer_name", attempts.as_slice()))
}

/// The reason reported when the computer name is not in the environment.
pub open spec fn env_error_text(error: Seq<char>) -> Seq<char> {
    "读取环境变量失败: "@ + error
}

/// The reason reported when the computer name is not in the environment,
/// given the environment's own error message.
pub fn env_error(error: &str) -> (r: String)
    ensures
        r@ == env_error_text(error@),
{
    let mut v = chars_of("读取环境变量失败: ");
    extend_str(&mut v, error);
    string_of(v.as_slice())
}

// ------------------------------------------------------------------
// The machine code
// ------------------------------------------------------------------

/// The contents of a sequence of readings.
pub open spec fn field_views(s: Seq<FieldResult>) -> Seq<FieldView> {
    s.map_values(|f: FieldResult| f@)
}

/// The hashed component of a reading: `label=normalised value`.
pub open spec fn component(f: FieldView) -> Seq<char> {
    f.label + "="@ + normalize(f.value)
}

/// The components of the successful readings, in order.
pub open spec fn components(fields: Seq<FieldView>) -> Seq<Seq<char>>
    decreases fields.len(),
{
    if fields.len() == 0 {
        Seq::empty()
    } else if fields.last().ok {
        components(fields.drop_last()).push(component(fields.last()))
    } else {
        components(fields.drop_last())
    }
}

/// The text hashed into the machine code: the components of the
/// successful readings, sorted, joined by `|`; `None` when no reading
/// succeeded.
pub open spec fn hash_input_text(fields: Seq<FieldView>) -> Option<Seq<char>> {
    let c = components(fields);
    if c.len() == 0 {
        None
    } else {
        Some(join(c.sort_by(lex_order()), "|"@))
    }
}

/// The machine code of a SHA-256 digest: `sha256:` and the digest in
/// lower-case hexadecimal.
pub open spec fn machine_id_of(digest: Seq<u8>) -> Seq<char> {
    "sha256:"@ + hex_lower(digest)
}

/// The machine code of a set of readings: the placeholder when no reading
/// succeeded; else the code of the SHA-256 digest of the UTF-8 bytes of
/// the hashed text.
pub open spec fn machine_id_text(fields: Seq<FieldView>) -> Seq<char> {
    match hash_input_text(fields) {
        None => placeholder(),
        Some(t) => machine_id_of(sha256(vstd::utf8::encode_utf8(t))),
    }
}

/// The text hashed into the machine code of a set of readings.
pub fn machine_id_input(fields: &[FieldResult]) -> (r: Option<String>)
    ensures
        match r {
            Some(s) => hash_input_text(field_views(fields@)) == Some(s@),
            None => hash_input_text(field_views(fields@)) is None,
        },
{
    let ghost fv = field_views(fields@);
    let mut comps: Vec<Vec<char>> = Vec::new();
    let n = fields.len();
    assert(fv.take(0) =~= Seq::<FieldView>::empty());
    for i in 0..n
        invariant
            n == fields@.len() == fv.len(),
            fv == field_views(fields@),
            views(comps@) == components(fv.take(i as int)),
    {
        let f = &fields[i];
        assert(fv.take(i + 1).drop_last() =~= fv.take(i as int));
        assert(fv[i as int] == f@);
        if f.ok {
            let mut c = chars_of(f.label.as_str());
            extend_str(&mut c, "=");
            let norm = normalize_for_hash(f.value.as_str());
            extend_str(&mut c, norm.as_str());
            let ghost before = views(comps@);
            comps.push(c);
            assert(views(comps@) =~= before.push(c@));
        }
    }
    assert(fv.take(n as int) =~= fv);
    if comps.len() == 0 {
        return None;
    }
    let sorted = sort_lex(&comps);
    let sep = vec!['|'];
    assert(sep@ =~= "|"@) by {
        reveal_strlit("|");
    }
    let joined = join_chars(&sorted, sep.as_slice());
    Some(string_of(joined.as_slice()))
}

/// The machine code of a SHA-256 digest.
pub fn machine_id_from_digest(digest: &[u8]) -> (r: String)
    ensures
        r@ == machine_id_of(digest@),
        r@.len() == 7 + 2 * digest@.len(),
{
    proof {
        lemma_hex_lower_len(digest@);
        reveal_strlit("sha256:");
    }
    let hex = hex_encode(digest);
    let mut out = chars_of("sha256:");
    extend_str(&mut out, hex.as_str());
    string_of(out.as_slice())
}

/// The machine code of a set of readings.
pub fn generate_machine_id(fields: &[FieldResult]) -> (r: String)
    ensures
        r@ == machine_id_text(field_views(fields@)),
        hash_input_text(field_views(fields@)) is Some ==> r@.len() == 71,
{
    match machine_id_input(fields) {
        None => placeholder_string(),
        Some(text) => {
            let digest = sha256_digest(text.as_str().as_bytes());
            machine_id_from_digest(digest.as_slice())
        },
    }
}

/// Everything read about the machine, with the machine code made from it.
pub struct MachineInfo {
    pub mac: FieldResult,
    pub motherboard: FieldResult,
    pub cpu: FieldResult,
    pub disk: FieldResult,
    pub system_uuid: FieldResult,
    pub bios: FieldResult,
    pub computer_name: FieldResult,
    pub machine_id: String,
    pub confidence: String,
    pub version: String,
}

/// The contents of a `MachineInfo`.
pub struct MachineInfoView {
    pub mac: FieldView,
    pub motherboard: FieldView,
    pub cpu: FieldView,
    pub disk: FieldView,
    pub system_uuid: FieldView,
    pub bios: FieldView,
    pub computer_name: FieldView,
    pub machine_id: Seq<char>,
    pub confidence: Seq<char>,
    pub version: Seq<char>,
}

impl View for MachineInfo {
    type V = MachineInfoView;

    open spec fn view(&self) -> MachineInfoView {
        MachineInfoView {
            mac: self.mac@,
            motherboard: self.motherboard@,
            cpu: self.cpu@,
            disk: self.disk@,
            system_uuid: self.system_uuid@,
            bios: self.bios@,
            computer_name: self.computer_name@,
            machine_id: self.machine_id@,
            confidence: self.confidence@,
            version: self.version@,
        }
    }
}

impl Clone for MachineInfo {
    fn clone(&self) -> (r: Self)
        ensures
            r@ == self@,
    {
        MachineInfo {
            mac: self.mac.clone(),
            motherboard: self.motherboard.clone(),
            cpu: self.cpu.clone(),
            disk: self.disk.clone(),
            system_uuid: self.system_uuid.clone(),
            bios: self.bios.clone(),
            computer_name: self.computer_name.clone(),
            machine_id: self.machine_id.clone(),
            confidence: self.confidence.clone(),
            version: self.version.clone(),
        }
    }
}

/// The machine information made of the seven readings: the machine code
/// of all seven, and the confidence from the MAC address and the four
/// strong identifiers.
pub open spec fn machine_info_view(
    mac: FieldView,
    motherboard: FieldView,
    cpu: FieldView,
    disk: FieldView,
    system_uuid: FieldView,
    bios: FieldView,
    computer_name: FieldView,
    version: Seq<char>,
) -> MachineInfoView {
    MachineInfoView {
        mac,
        motherboard,
        cpu,
        disk,
        system_uuid,
        bios,
        computer_name,
        machine_id: machine_id_text(
            seq![mac, motherboard, cpu, disk, system_uuid, bios, computer_name],
        ),
        confidence: confidence_text(mac.ok, strong_count(motherboard, cpu, disk, system_uuid)),
        version,
    }
}

/// Assembles the machine information from the seven readings.
pub fn collect_machine_info(
    mac: FieldResult,
    motherboard: FieldResult,
    cpu: FieldResult,
    disk: FieldResult,
    system_uuid: FieldResult,
    bios: FieldResult,
    computer_name: FieldResult,
    version: String,
) -> (r: MachineInfo)
    ensures
        r@ == machine_info_view(
            mac@,
            motherboard@,
            cpu@,
            disk@,
            system_uuid@,
            bios@,
            computer_name@,
            version@,
        ),
        r.machine_id@ == machine_id_text(
            seq![mac@, motherboard@, cpu@, disk@, system_uuid@, bios@, computer_name@],
        ),
{
    let fields = vec![
        mac.clone(),
        motherboard.clone(),
        cpu.clone(),
        disk.clone(),
        system_uuid.clone(),
        bios.clone(),
        computer_name.clone(),
    ];
    assert(field_views(fields@) =~= seq![
        mac@,
        motherboard@,
        cpu@,
        disk@,
        system_uuid@,
        bios@,
        computer_name@,
    ]);
    let machine_id = generate_machine_id(fields.as_slice());
    let confidence = confidence(&mac, &motherboard, &cpu, &disk, &system_uuid);
    MachineInfo {
        mac,
        motherboard,
        cpu,
        disk,
        system_uuid,
        bios,
        computer_name,
        machine_id,
        confidence,
        version,
    }
}

// ------------------------------------------------------------------
// Laws of the machine code
// ------------------------------------------------------------------

proof fn lemma_components_concat(a: Seq<FieldView>, b: Seq<FieldView>)
    ensures
        components(a + b) == components(a) + components(b),
    decreases b.len(),
{
    if b.len() == 0 {
        assert(a + b =~= a);
        assert(components(a) + components(b) =~= components(a));
    } else {
        assert((a + b).drop_last() =~= a + b.drop_last());
        assert((a + b).last() == b.last());
        lemma_components_concat(a, b.drop_last());
        if b.last().ok {
            assert(components(a) + components(b) =~= (components(a) + components(b.drop_last())).push(
                component(b.last()),
            ));
        }
    }
}

proof fn lemma_components_permutation(f1: Seq<FieldView>, f2: Seq<FieldView>)
    requires
        f1.to_multiset() == f2.to_multiset(),
    ensures
        components(f1).to_multiset() == components(f2).to_multiset(),
    decreases f1.len(),
{
    broadcast use vstd::seq_lib::group_to_multiset_ensures;
    broadcast use vstd::multiset::group_multiset_axioms;

    if f1.len() == 0 {
        vstd::seq_lib::to_multiset_len(f2);
        vstd::seq_lib::to_multiset_len(f1);
        assert(f2.len() == 0);
    } else {
        let x = f1.last();
        let rest1 = f1.drop_last();
        assert(f1 =~= rest1.push(x));
        vstd::seq_lib::to_multiset_build(rest1, x);
        assert(f2.to_multiset().count(x) >= 1);
        vstd::seq_lib::to_multiset_contains(f2, x);
        let j = choose|j: int| 0 <= j < f2.len() && f2[j] == x;
        let rest2 = f2.remove(j);
        vstd::seq_lib::to_multiset_remove(f2, j);
        assert(rest1.to_multiset() =~= rest2.to_multiset());
        lemma_components_permutation(rest1, rest2);
        let left = f2.take(j);
        let right = f2.skip(j + 1);
        assert(f2 =~= left + seq![x] + right);
        assert(rest2 =~= left + right);
        lemma_components_concat(left + seq![x], right);
        lemma_components_concat(left, seq![x]);
        lemma_components_concat(left, right);
        lemma_components_concat(rest1, seq![x]);
        assert(seq![x].drop_last() =~= Seq::<FieldView>::empty());
        let cx = components(seq![x]);
        vstd::seq_lib::lemma_multiset_commutative(components(left) + cx, components(right));
        vstd::seq_lib::lemma_multiset_commutative(components(left), cx);
        vstd::seq_lib::lemma_multiset_commutative(components(left), components(right));
        vstd::seq_lib::lemma_multiset_commutative(components(rest1), cx);
        assert(components(f2).to_multiset() =~= components(rest2).to_multiset().add(
            cx.to_multiset(),
        ));
        assert(f1 =~= rest1 + seq![x]);
        assert(components(f1) =~= components(rest1) + cx);
        assert(components(f1).to_multiset() =~= components(rest1).to_multiset().add(
            cx.to_multiset(),
        ));
    }
}

/// The machine information carries the code of all seven readings, in the
/// order mac, motherboard, CPU, disk, system UUID, BIOS, computer name.
pub proof fn lemma_machine_info_code(
    mac: FieldView,
    motherboard: FieldView,
    cpu: FieldView,
    disk: FieldView,
    system_uuid: FieldView,
    bios: FieldView,
    computer_name: FieldView,
    version: Seq<char>,
)
    ensures
        machine_info_view(mac, motherboard, cpu, disk, system_uuid, bios, computer_name, version).machine_id
            == machine_id_text(seq![mac, motherboard, cpu, disk, system_uuid, bios, computer_name]),
{
}

/// Every successful reading enters the hashed text: its `label=value`
/// component, with the value normalised, is among the components that are
/// sorted and joined, and so there is a hashed text at all.
pub proof fn lemma_successful_reading_hashed(fields: Seq<FieldView>, i: int)
    requires
        0 <= i < fields.len(),
        fields[i].ok,
    ensures
        components(fields).contains(fields[i].label + "="@ + normalize(fields[i].value)),
        components(fields).sort_by(lex_order()).contains(
            fields[i].label + "="@ + normalize(fields[i].value),
        ),
        hash_input_text(fields) is Some,
    decreases fields.len(),
{
    let c = fields[i].label + "="@ + normalize(fields[i].value);
    if i == fields.len() - 1 {
        assert(components(fields).last() == c);
        assert(components(fields)[components(fields).len() - 1] == c);
    } else {
        lemma_successful_reading_hashed(fields.drop_last(), i);
        let d = components(fields.drop_last());
        let k = choose|k: int| 0 <= k < d.len() && d[k] == c;
        if fields.last().ok {
            assert(components(fields)[k] == c);
        } else {
            assert(components(fields) == d);
        }
    }
    let cs = components(fields);
    lemma_lex_total_ordering();
    cs.lemma_sort_by_ensures(lex_order());
    vstd::seq_lib::to_multiset_contains(cs, c);
    vstd::seq_lib::to_multiset_contains(cs.sort_by(lex_order()), c);
}

/// The machine code does not depend on the order of the readings: any
/// rearrangement of the same readings gives the same code.
pub proof fn lemma_machine_id_order_independent(f1: Seq<FieldView>, f2: Seq<FieldView>)
    requires
        f1.to_multiset() == f2.to_multiset(),
    ensures
        machine_id_text(f1) == machine_id_text(f2),
{
    let c1 = components(f1);
    let c2 = components(f2);
    lemma_components_permutation(f1, f2);
    vstd::seq_lib::to_multiset_len(c1);
    vstd::seq_lib::to_multiset_len(c2);
    lemma_lex_total_ordering();
    c1.lemma_sort_by_ensures(lex_order());
    c2.lemma_sort_by_ensures(lex_order());
    vstd::seq_lib::lemma_sorted_unique(c1.sort_by(lex_order()), c2.sort_by(lex_order()), lex_order());
}

/// A failed reading does not count toward the machine code: replacing it
/// by any other failed reading leaves the code unchanged.
pub proof fn lemma_failed_reading_ignored(fields: Seq<FieldView>, i: int, other: FieldView)
    requires
        0 <= i < fields.len(),
        !fields[i].ok,
        !other.ok,
    ensures
        machine_id_text(fields.update(i, other)) == machine_id_text(fields),
{
    let left = fields.take(i);
    let right = fields.skip(i + 1);
    assert(fields =~= left + seq![fields[i]] + right);
    assert(fields.update(i, other) =~= left + seq![other] + right);
    lemma_components_concat(left + seq![fields[i]], right);
    lemma_components_concat(left, seq![fields[i]]);
    lemma_components_concat(left + seq![other], right);
    lemma_components_concat(left, seq![other]);
    assert(seq![other].drop_last() =~= Seq::<FieldView>::empty());
    assert(seq![fields[i]].drop_last() =~= Seq::<FieldView>::empty());
    assert(components(Seq::<FieldView>::empty()) =~= Seq::<Seq<char>>::empty());
    assert(seq![other].last() == other);
    assert(seq![fields[i]].last() == fields[i]);
    assert(components(seq![other]) =~= Seq::<Seq<char>>::empty());
    assert(components(seq![fields[i]]) =~= Seq::<Seq<char>>::empty());
    assert(components(fields.update(i, other)) =~= components(fields));
}

/// Two readings hash alike when they have the same label and outcome
/// and their values agree once white space, `-` and `:` are removed.
pub open spec fn same_hash_input(a: FieldView, b: FieldView) -> bool {
    a.label == b.label && a.ok == b.ok && hash_chars(a.value) == hash_chars(b.value)
}

proof fn lemma_components_same_hash(f1: Seq<FieldView>, f2: Seq<FieldView>)
    requires
        f1.len() == f2.len(),
        forall|i: int| 0 <= i < f1.len() ==> same_hash_input(#[trigger] f1[i], f2[i]),
    ensures
        components(f1) == components(f2),
    decreases f1.len(),
{
    if f1.len() > 0 {
        let d1 = f1.drop_last();
        let d2 = f2.drop_last();
        assert forall|i: int| 0 <= i < d1.len() implies same_hash_input(#[trigger] d1[i], d2[i]) by {
            assert(d1[i] == f1[i]);
            assert(d2[i] == f2[i]);
        }
        lemma_components_same_hash(d1, d2);
        assert(same_hash_input(f1[f1.len() - 1], f2[f2.len() - 1]));
        assert(component(f1.last()) == component(f2.last()));
        assert(components(f1) =~= components(f2));
    } else {
        assert(components(f1) =~= components(f2));
    }
}

/// The machine code ignores how a value is spaced or punctuated with `-`
/// and `:` (e.g. `AA:BB` and `AA-BB` and `AABB`).
pub proof fn lemma_separators_ignored(f1: Seq<FieldView>, f2: Seq<FieldView>)
    requires
        f1.len() == f2.len(),
        forall|i: int| 0 <= i < f1.len() ==> same_hash_input(#[trigger] f1[i], f2[i]),
    ensures
        machine_id_text(f1) == machine_id_text(f2),
{
    lemma_components_same_hash(f1, f2);
}

/// Removing white space, `-` and `:` twice is removing them once.
pub proof fn lemma_hash_chars_idempotent(s: Seq<char>)
    ensures
        hash_chars(hash_chars(s)) == hash_chars(s),
    decreases s.len(),
{
    if s.len() > 0 {
        lemma_hash_chars_idempotent(s.drop_last());
        let h = hash_chars(s.drop_last());
        if kept_for_hash(s.last()) {
            assert(h.push(s.last()).drop_last() =~= h);
        }
    }
}

/// The rank of a confidence: high 3, medium 2, low 1, invalid 0.
pub open spec fn confidence_rank(mac_ok: bool, strong: nat) -> int {
    if mac_ok {
        if strong >= 3 {
            3
        } else if strong >= 1 {
            2
        } else {
            1
        }
    } else {
        if strong >= 2 {
            2
        } else if strong == 1 {
            1
        } else {
            0
        }
    }
}

/// The confidence text is the name of its rank.
pub proof fn lemma_confidence_named_by_rank(mac_ok: bool, strong: nat)
    ensures
        confidence_text(mac_ok, strong) == (if confidence_rank(mac_ok, strong) == 3 {
            "high"@
        } else if confidence_rank(mac_ok, strong) == 2 {
            "medium"@
        } else if confidence_rank(mac_ok, strong) == 1 {
            "low"@
        } else {
            "invalid"@
        }),
{
}

/// Reading more never lowers the confidence: with the MAC address read
/// whenever it was before and at least as many strong identifiers, the
/// rank is at least as high.
pub proof fn lemma_confidence_monotone(mac1: bool, strong1: nat, mac2: bool, strong2: nat)
    requires
        mac1 ==> mac2,
        strong1 <= strong2,
    ensures
        confidence_rank(mac1, strong1) <= confidence_rank(mac2, strong2),
{
}

proof fn lemma_first_accepted_first(attempts: Seq<AttemptView>)
    ensures
        match first_accepted(attempts) {
            Some(p) => {
                &&& 0 <= p.0 < attempts.len()
                &&& accepted(attempts[p.0]) == Some(p.1)
                &&& forall|j: int| 0 <= j < p.0 ==> accepted(#[trigger] attempts[j]) is None
            },
            None => forall|j: int| 0 <= j < attempts.len() ==> accepted(#[trigger] attempts[j]) is None,
        },
    decreases attempts.len(),
{
    if attempts.len() > 0 && accepted(attempts[0]) is None {
        let t = attempts.drop_first();
        lemma_first_accepted_first(t);
        match first_accepted(t) {
            Some(p) => {
                assert(t[p.0] == attempts[p.0 + 1]);
                assert forall|j: int| 0 <= j < p.0 + 1 implies accepted(#[trigger] attempts[j]) is None by {
                    if j > 0 {
                        assert(attempts[j] == t[j - 1]);
                    }
                }
            },
            None => {
                assert forall|j: int| 0 <= j < attempts.len() implies accepted(#[trigger] attempts[j]) is None by {
                    if j > 0 {
                        assert(attempts[j] == t[j - 1]);
                    }
                }
            },
        }
    }
}

/// Filler texts are never accepted: a raw value whose text, trimmed of
/// white space and NUL characters and put in ASCII lower case, is one of
/// the texts firmware and drivers report in place of an identifier gives
/// no identifier.
pub proof fn lemma_filler_values_rejected(v: Seq<char>)
    ensures
        ({
            let lower = trim(trim_by(trim(v), TrimSet::Nul)).map_values(|c: char| ascii_lower(c));
            lower == "to be filled by o.e.m."@ || lower == "to be filled by oem"@ || lower
                == "default string"@ || lower == "default"@ || lower == "none"@ || lower
                == "unknown"@ || lower == "not specified"@ || lower == "not available"@ || lower
                == "system serial number"@ || lower == "serial number"@ || lower == "0"@ || lower
                == "00000000"@ || lower == "0000000000000000"@ || lower == "ffffffff"@ || lower
                == "ffffffffffffffff"@
        }) ==> valid_hardware(v) is None,
{
}

/// Sources are tried in order of preference: a successful reading holds
/// the accepted value of the first attempt that has one, with that
/// attempt's source, every earlier attempt having failed or returned a
/// rejected value; a failed reading means that no attempt had one.
pub proof fn lemma_sources_in_priority_order(label: Seq<char>, attempts: Seq<AttemptView>)
    ensures
        first_valid_view(label, attempts).ok ==> exists|i: int|
            {
                &&& 0 <= i < attempts.len()
                &&& first_valid_view(label, attempts).source == (#[trigger] attempts[i]).0
                &&& accepted(attempts[i]) == Some(first_valid_view(label, attempts).value)
                &&& forall|j: int| 0 <= j < i ==> accepted(#[trigger] attempts[j]) is None
            },
        !first_valid_view(label, attempts).ok ==> forall|j: int|
            0 <= j < attempts.len() ==> accepted(#[trigger] attempts[j]) is None,
{
    lemma_first_accepted_first(attempts);
    if let Some(p) = first_accepted(attempts) {
        assert(first_valid_view(label, attempts).source == attempts[p.0].0);
    }
}

/// A successful reading never reports an empty or filler value: its
/// value is non-empty, trimmed of white space at both ends, and neither a
/// filler text nor made only of `0`, `f` and `-`.
pub proof fn lemma_successful_reading_is_real(label: Seq<char>, attempts: Seq<AttemptView>)
    ensures
        first_valid_view(label, attempts).ok ==> {
            let v = first_valid_view(label, attempts).value;
            let lower = v.map_values(|c: char| ascii_lower(c));
            &&& v.len() > 0
            &&& !is_white_space(v[0])
            &&& !is_white_space(v.last())
            &&& !is_filler_text(lower)
            &&& !only_zero_f_dash(lower)
        },
{
    lemma_first_accepted_first(attempts);
    if let Some(p) = first_accepted(attempts) {
        let a = attempts[p.0];
        if let Ok(raw) = a.1 {
            let t = clean_hardware_text(raw);
            crate::text::lemma_trim_ends(trim_by(trim(raw), TrimSet::Nul));
        }
    }
}

} // verus!
