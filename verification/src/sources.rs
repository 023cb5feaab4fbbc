//! Turning what the system's identifier sources return into values: a
//! storage device descriptor, WMI query rows and `wmic` command output.
use vstd::prelude::*;
use crate::text::{
    chars_eq, chars_of, copy_range, decimal, decimal_chars, eq_ignore_ascii_case,
    eq_ignore_ascii_case_chars, extend_chars, extend_str, from_utf8_lossy, int_decimal,
    int_decimal_chars, join, join_chars, lines, lines_of, string_of, trim, trim_chars, decode_lossy,
    views,
};

verus! {

// ------------------------------------------------------------------
// Storage device descriptor
// ------------------------------------------------------------------

/// The position of the first NUL byte at or after `from`, or the length.
pub open spec fn nul_or_end(data: Seq<u8>, from: int) -> int
    decreases data.len() - from,
{
    if from < 0 || from >= data.len() {
        data.len() as int
    } else if data[from] == 0 {
        from
    } else {
        nul_or_end(data, from + 1)
    }
}

proof fn lemma_nul_or_end_bounds(data: Seq<u8>, from: int)
    requires
        0 <= from <= data.len(),
    ensures
        from <= nul_or_end(data, from) <= data.len(),
    decreases data.len() - from,
{
    if from < data.len() && data[from] != 0 {
        lemma_nul_or_end_bounds(data, from + 1);
    }
}

/// The little-endian 32-bit number at `at`.
pub open spec fn le_u32(data: Seq<u8>, at: int) -> int {
    data[at] as int + 256 * (data[at + 1] as int) + 65536 * (data[at + 2] as int) + 16777216 * (
    data[at + 3] as int)
}

/// Byte position of `SerialNumberOffset` in a `STORAGE_DEVICE_DESCRIPTOR`.
pub const SERIAL_NUMBER_OFFSET_FIELD: usize = 24;

/// The disk serial number in a storage device descriptor that the device
/// returned `returned` bytes of: the descriptor must be complete and its
/// serial number offset must point inside the buffer; the serial number
/// runs to the next NUL byte, decoded and trimmed.
pub open spec fn storage_serial(buffer: Seq<u8>, returned: u32, descriptor_size: u32) -> Result<
    Seq<char>,
    Seq<char>,
> {
    if returned < descriptor_size {
        Err("STORAGE_DEVICE_DESCRIPTOR 返回长度过短"@)
    } else {
        let offset = le_u32(buffer, SERIAL_NUMBER_OFFSET_FIELD as int);
        if offset == 0 || offset >= buffer.len() {
            Err("SerialNumberOffset 无效: "@ + decimal(offset as nat))
        } else {
            Ok(trim(decode_lossy(buffer.subrange(offset, nul_or_end(buffer, offset)))))
        }
    }
}

/// Reads the disk serial number out of a storage device descriptor.
pub fn storage_serial_from_descriptor(buffer: &[u8], returned: u32, descriptor_size: u32) -> (r:
    Result<String, String>)
    requires
        buffer@.len() >= SERIAL_NUMBER_OFFSET_FIELD + 4,
    ensures
        match r {
            Ok(s) => storage_serial(buffer@, returned, descriptor_size) == Ok::<
                Seq<char>,
                Seq<char>,
            >(s@),
            Err(e) => storage_serial(buffer@, returned, descriptor_size) == Err::<
                Seq<char>,
                Seq<char>,
            >(e@),
        },
{
    if returned < descriptor_size {
        return Err("STORAGE_DEVICE_DESCRIPTOR 返回长度过短".to_owned());
    }
    let at = SERIAL_NUMBER_OFFSET_FIELD;
    let offset: u64 = buffer[at] as u64 + 256 * (buffer[at + 1] as u64) + 65536 * (buffer[at
        + 2] as u64) + 16777216 * (buffer[at + 3] as u64);
    if offset == 0 || offset >= buffer.len() as u64 {
        let mut v = chars_of("SerialNumberOffset 无效: ");
        let d = decimal_chars(offset);
        extend_chars(&mut v, d.as_slice());
        return Err(string_of(v.as_slice()));
    }
    let start = offset as usize;
    let mut end = start;
    while end < buffer.len() && buffer[end] != 0
        invariant
            start <= end <= buffer@.len(),
            nul_or_end(buffer@, start as int) == nul_or_end(buffer@, end as int),
        decreases buffer@.len() - end,
    {
        end = end + 1;
    }
    let text = from_utf8_lossy(&buffer[start..end]);
    assert(buffer@.subrange(start as int, end as int) =~= buffer@.subrange(
        start as int,
        nul_or_end(buffer@, start as int),
    ));
    let tv = chars_of(text.as_str());
    let t = trim_chars(tv.as_slice());
    Ok(string_of(t.as_slice()))
}

/// How many physical drives are asked for a serial number, from drive 0.
pub const PHYSICAL_DRIVE_COUNT: u32 = 8;

/// The device path of physical drive `index`.
pub open spec fn drive_path_text(index: u32) -> Seq<char> {
    "\\\\.\\PhysicalDrive"@ + decimal(index as nat)
}

/// The device path of physical drive `index`.
pub fn physical_drive_path(index: u32) -> (r: String)
    ensures
        r@ == drive_path_text(index),
{
    let mut v = chars_of("\\\\.\\PhysicalDrive");
    let d = decimal_chars(index as u64);
    extend_chars(&mut v, d.as_slice());
    string_of(v.as_slice())
}

/// The error reported when no drive gave a serial number.
pub open spec fn no_drive_serial_text() -> Seq<char> {
    "DeviceIoControl 未读取到有效硬盘序列号"@
}

/// What to do after asking one drive.
pub enum DriveStep {
    /// Ask the drive with this index.
    Query(u32),
    /// Stop, with this outcome.
    Finished(Result<String, String>),
}

/// The next step after drive `index` answered `outcome` (its serial number,
/// or why it could not be opened or read): the first serial number wins;
/// after a failure the next drive is asked, and after the last drive the
/// search fails.
pub fn next_drive_step(index: u32, outcome: Result<String, String>) -> (r: DriveStep)
    ensures
        match outcome {
            Ok(s) => r matches DriveStep::Finished(Ok(t)) && t@ == s@,
            Err(_) => if index + 1 < PHYSICAL_DRIVE_COUNT {
                r == DriveStep::Query((index + 1) as u32)
            } else {
                r matches DriveStep::Finished(Err(e)) && e@ == no_drive_serial_text()
            },
        },
{
    match outcome {
        Ok(serial) => DriveStep::Finished(Ok(serial)),
        Err(_) => if index < PHYSICAL_DRIVE_COUNT - 1 {
            DriveStep::Query(index + 1)
        } else {
            DriveStep::Finished(Err("DeviceIoControl 未读取到有效硬盘序列号".to_owned()))
        },
    }
}

// ------------------------------------------------------------------
// WMI rows
// ------------------------------------------------------------------

/// A property value in a WMI row, as far as it can become text.
pub enum WmiValue {
    /// A string.
    Text(String),
    /// An unsigned integer of any width.
    Unsigned(u64),
    /// A signed integer of any width.
    Signed(i64),
    /// Any other kind of value.
    Other,
}

/// The text of a property value: strings as they are, integers in
/// decimal, nothing for other kinds.
pub open spec fn variant_text(v: WmiValue) -> Option<Seq<char>> {
    match v {
        WmiValue::Text(s) => Some(s@),
        WmiValue::Unsigned(n) => Some(decimal(n as nat)),
        WmiValue::Signed(i) => Some(int_decimal(i as int)),
        WmiValue::Other => None,
    }
}

/// The text of a property value.
pub fn variant_to_string(value: &WmiValue) -> (r: Option<String>)
    ensures
        match r {
            Some(s) => variant_text(*value) == Some(s@),
            None => variant_text(*value) is None,
        },
{
    match value {
        WmiValue::Text(s) => Some(s.clone()),
        WmiValue::Unsigned(n) => {
            let d = decimal_chars(*n);
            Some(string_of(d.as_slice()))
        },
        WmiValue::Signed(i) => {
            let d = int_decimal_chars(*i);
            Some(string_of(d.as_slice()))
        },
        WmiValue::Other => None,
    }
}

/// One row of a WMI query result: its properties by name. WMI gives each
/// name once; a lookup takes the first entry with the name.
pub struct WmiRow {
    pub values: Vec<(String, WmiValue)>,
}

/// The value of property `key` in a row (its first occurrence).
pub open spec fn row_get(values: Seq<(String, WmiValue)>, key: Seq<char>) -> Option<WmiValue>
    decreases values.len(),
{
    if values.len() == 0 {
        None
    } else if values[0].0@ == key {
        Some(values[0].1)
    } else {
        row_get(values.drop_first(), key)
    }
}

/// The text of property `key` in a row, if the row has it as text or an
/// integer.
pub open spec fn row_text(row: WmiRow, key: Seq<char>) -> Option<Seq<char>> {
    match row_get(row.values@, key) {
        Some(v) => variant_text(v),
        None => None,
    }
}

/// The query that reads `property` of every instance of `class`.
pub open spec fn wmi_query_text(class: Seq<char>, property: Seq<char>) -> Seq<char> {
    "SELECT "@ + property + " FROM "@ + class
}

/// The query that reads `property` of every instance of `class`.
pub fn wmi_query(class: &str, property: &str) -> (r: String)
    ensures
        r@ == wmi_query_text(class@, property@),
{
    let mut v = chars_of("SELECT ");
    extend_str(&mut v, property);
    extend_str(&mut v, " FROM ");
    extend_str(&mut v, class);
    string_of(v.as_slice())
}

/// The first text of `property` over the rows, in order, or the error
/// reported when no row has one.
pub open spec fn wmi_rows_text(rows: Seq<WmiRow>, class: Seq<char>, property: Seq<char>) -> Result<
    Seq<char>,
    Seq<char>,
>
    decreases rows.len(),
{
    if rows.len() == 0 {
        Err("WMI 查询无结果: "@ + wmi_query_text(class, property))
    } else {
        match row_text(rows[0], property) {
            Some(t) => Ok(t),
            None => wmi_rows_text(rows.drop_first(), class, property),
        }
    }
}

fn row_lookup(row: &WmiRow, key: &str) -> (r: Option<String>)
    ensures
        match r {
            Some(s) => row_text(*row, key@) == Some(s@),
            None => row_text(*row, key@) is None,
        },
{
    let k = chars_of(key);
    let n = row.values.len();
    let mut i: usize = 0;
    assert(row.values@.skip(0) =~= row.values@);
    while i < n
        invariant
            n == row.values@.len(),
            i <= n,
            k@ == key@,
            row_get(row.values@, key@) == row_get(row.values@.skip(i as int), key@),
        decreases n - i,
    {
        let name = chars_of(row.values[i].0.as_str());
        assert(row.values@.skip(i as int)[0] == row.values@[i as int]);
        if chars_eq(name.as_slice(), k.as_slice()) {
            return variant_to_string(&row.values[i].1);
        }
        assert(row.values@.skip(i as int).drop_first() =~= row.values@.skip(i + 1));
        i = i + 1;
    }
    None
}

/// The first text of `property` over the rows of a WMI query on `class`.
pub fn wmi_string_from_rows(rows: &[WmiRow], class: &str, property: &str) -> (r: Result<
    String,
    String,
>)
    ensures
        match r {
            Ok(s) => wmi_rows_text(rows@, class@, property@) == Ok::<Seq<char>, Seq<char>>(s@),
            Err(e) => wmi_rows_text(rows@, class@, property@) == Err::<Seq<char>, Seq<char>>(e@),
        },
{
    let n = rows.len();
    let mut i: usize = 0;
    assert(rows@.skip(0) =~= rows@);
    while i < n
        invariant
            n == rows@.len(),
            i <= n,
            wmi_rows_text(rows@, class@, property@) == wmi_rows_text(
                rows@.skip(i as int),
                class@,
                property@,
            ),
        decreases n - i,
    {
        assert(rows@.skip(i as int)[0] == rows@[i as int]);
        if let Some(text) = row_lookup(&rows[i], property) {
            return Ok(text);
        }
        assert(rows@.skip(i as int).drop_first() =~= rows@.skip(i + 1));
        i = i + 1;
    }
    let query = wmi_query(class, property);
    let mut v = chars_of("WMI 查询无结果: ");
    extend_str(&mut v, query.as_str());
    Err(string_of(v.as_slice()))
}

// ------------------------------------------------------------------
// wmic output
// ------------------------------------------------------------------

/// The lines of `s`, each trimmed.
pub open spec fn trimmed_lines(s: Seq<char>) -> Seq<Seq<char>> {
    lines(s).map_values(|l: Seq<char>| trim(l))
}

/// The value after `prefix` on the first line that starts with it.
pub open spec fn keyed_value(ls: Seq<Seq<char>>, prefix: Seq<char>) -> Option<Seq<char>>
    decreases ls.len(),
{
    if ls.len() == 0 {
        None
    } else if prefix.is_prefix_of(ls[0]) {
        Some(trim(ls[0].skip(prefix.len() as int)))
    } else {
        keyed_value(ls.drop_first(), prefix)
    }
}

/// The lines kept when no line holds `key=`: the non-empty ones that are
/// not the key itself (ignoring ASCII case).
pub open spec fn fallback_lines(ls: Seq<Seq<char>>, key: Seq<char>) -> Seq<Seq<char>>
    decreases ls.len(),
{
    if ls.len() == 0 {
        Seq::empty()
    } else if ls.last().len() > 0 && !eq_ignore_ascii_case(ls.last(), key) {
        fallback_lines(ls.drop_last(), key).push(ls.last())
    } else {
        fallback_lines(ls.drop_last(), key)
    }
}

/// The value of `key` in the output of `wmic ... get key /value`: the text
/// after `key=` on the first (trimmed) line that starts with it; failing
/// that, the other non-empty lines joined by spaces; failing that, an error.
pub open spec fn wmic_text(stdout: Seq<char>, key: Seq<char>) -> Result<Seq<char>, Seq<char>> {
    let ls = trimmed_lines(stdout);
    match keyed_value(ls, key + "="@) {
        Some(v) => Ok(v),
        None => {
            let kept = fallback_lines(ls, key);
            if kept.len() == 0 {
                Err("wmic 未返回 "@ + key)
            } else {
                Ok(join(kept, " "@))
            }
        },
    }
}

proof fn lemma_keyed_value_first(ls: Seq<Seq<char>>, prefix: Seq<char>)
    ensures
        match keyed_value(ls, prefix) {
            Some(v) => exists|i: int|
                {
                    &&& 0 <= i < ls.len()
                    &&& prefix.is_prefix_of(#[trigger] ls[i])
                    &&& forall|j: int| 0 <= j < i ==> !prefix.is_prefix_of(#[trigger] ls[j])
                    &&& v == trim(ls[i].skip(prefix.len() as int))
                },
            None => forall|j: int| 0 <= j < ls.len() ==> !prefix.is_prefix_of(#[trigger] ls[j]),
        },
    decreases ls.len(),
{
    if ls.len() > 0 && !prefix.is_prefix_of(ls[0]) {
        let t = ls.drop_first();
        lemma_keyed_value_first(t, prefix);
        match keyed_value(t, prefix) {
            Some(v) => {
                let i = choose|i: int|
                    {
                        &&& 0 <= i < t.len()
                        &&& prefix.is_prefix_of(#[trigger] t[i])
                        &&& forall|j: int| 0 <= j < i ==> !prefix.is_prefix_of(#[trigger] t[j])
                        &&& v == trim(t[i].skip(prefix.len() as int))
                    };
                assert(ls[i + 1] == t[i]);
                assert forall|j: int| 0 <= j < i + 1 implies !prefix.is_prefix_of(#[trigger] ls[j]) by {
                    if j > 0 {
                        assert(ls[j] == t[j - 1]);
                    }
                }
            },
            None => {
                assert forall|j: int| 0 <= j < ls.len() implies !prefix.is_prefix_of(#[trigger] ls[j]) by {
                    if j > 0 {
                        assert(ls[j] == t[j - 1]);
                    }
                }
            },
        }
    } else if ls.len() > 0 {
        assert(prefix.is_prefix_of(ls[0]));
    }
}

/// A value given on a `key=` line is read from the first such line: when
/// some trimmed line of the output starts with `key=`, the value is the
/// rest of the first one, trimmed, whatever later lines hold.
pub proof fn lemma_wmic_first_key_line(stdout: Seq<char>, key: Seq<char>, i: int)
    requires
        0 <= i < trimmed_lines(stdout).len(),
        (key + "="@).is_prefix_of(trimmed_lines(stdout)[i]),
        forall|j: int| 0 <= j < i ==> !(key + "="@).is_prefix_of(#[trigger] trimmed_lines(stdout)[j]),
    ensures
        wmic_text(stdout, key) == Ok::<Seq<char>, Seq<char>>(
            trim(trimmed_lines(stdout)[i].skip(key.len() + 1 as int)),
        ),
{
    let ls = trimmed_lines(stdout);
    let p = key + "="@;
    assert(p.len() == key.len() + 1) by {
        reveal_strlit("=");
    }
    lemma_keyed_value_first(ls, p);
    match keyed_value(ls, p) {
        Some(v) => {
            let k = choose|k: int|
                {
                    &&& 0 <= k < ls.len()
                    &&& p.is_prefix_of(#[trigger] ls[k])
                    &&& forall|j: int| 0 <= j < k ==> !p.is_prefix_of(#[trigger] ls[j])
                    &&& v == trim(ls[k].skip(p.len() as int))
                };
            if k < i {
                assert(!p.is_prefix_of(ls[k]));
            }
            if i < k {
                assert(!p.is_prefix_of(ls[i]));
            }
        },
        None => {
            assert(!p.is_prefix_of(ls[i]));
        },
    }
}

fn starts_with(s: &[char], prefix: &[char]) -> (r: bool)
    ensures
        r == prefix@.is_prefix_of(s@),
{
    if prefix.len() > s.len() {
        return false;
    }
    let head = copy_range(s, 0, prefix.len());
    chars_eq(head.as_slice(), prefix)
}

/// Finds the value of `key` in the output of a `wmic` query.
pub fn parse_wmic_output(stdout: &str, key: &str) -> (r: Result<String, String>)
    ensures
        match r {
            Ok(s) => wmic_text(stdout@, key@) == Ok::<Seq<char>, Seq<char>>(s@),
            Err(e) => wmic_text(stdout@, key@) == Err::<Seq<char>, Seq<char>>(e@),
        },
{
    let text = chars_of(stdout);
    let raw = lines_of(text.as_slice());
    let ghost ls = trimmed_lines(stdout@);
    let n = raw.len();
    let mut trimmed: Vec<Vec<char>> = Vec::new();
    for i in 0..n
        invariant
            n == raw@.len() == ls.len(),
            ls == trimmed_lines(stdout@),
            views(raw@) == lines(stdout@),
            views(trimmed@) == ls.take(i as int),
    {
        let t = trim_chars(raw[i].as_slice());
        let ghost before = views(trimmed@);
        trimmed.push(t);
        assert(views(trimmed@) =~= before.push(t@));
        assert(ls.take(i + 1) =~= ls.take(i as int).push(ls[i as int]));
    }
    assert(ls.take(n as int) =~= ls);
    let kc = chars_of(key);
    let mut prefix = chars_of(key);
    prefix.push('=');
    assert(prefix@ =~= key@ + "="@) by {
        reveal_strlit("=");
    }
    let mut i: usize = 0;
    assert(ls.skip(0) =~= ls);
    while i < n
        invariant
            n == ls.len(),
            i <= n,
            ls == trimmed_lines(stdout@),
            views(trimmed@) == ls,
            prefix@ == key@ + "="@,
            keyed_value(ls, key@ + "="@) == keyed_value(ls.skip(i as int), key@ + "="@),
        decreases n - i,
    {
        assert(ls.skip(i as int)[0] == ls[i as int]);
        assert(trimmed@[i as int]@ == ls[i as int]);
        if starts_with(trimmed[i].as_slice(), prefix.as_slice()) {
            let rest = copy_range(trimmed[i].as_slice(), prefix.len(), trimmed[i].len());
            let v = trim_chars(rest.as_slice());
            assert(rest@ =~= ls[i as int].skip(prefix@.len() as int));
            return Ok(string_of(v.as_slice()));
        }
        assert(ls.skip(i as int).drop_first() =~= ls.skip(i + 1));
        i = i + 1;
    }
    let mut kept: Vec<Vec<char>> = Vec::new();
    assert(ls.take(0) =~= Seq::<Seq<char>>::empty());
    for j in 0..n
        invariant
            n == ls.len(),
            views(trimmed@) == ls,
            kc@ == key@,
            views(kept@) == fallback_lines(ls.take(j as int), key@),
    {
        assert(ls.take(j + 1).drop_last() =~= ls.take(j as int));
        assert(ls.take(j + 1).last() == ls[j as int]);
        assert(trimmed@[j as int]@ == ls[j as int]);
        if trimmed[j].len() > 0 && !eq_ignore_ascii_case_chars(trimmed[j].as_slice(), kc.as_slice()) {
            let line = copy_range(trimmed[j].as_slice(), 0, trimmed[j].len());
            assert(line@ =~= ls[j as int]);
            let ghost before = views(kept@);
            kept.push(line);
            assert(views(kept@) =~= before.push(line@));
        }
    }
    assert(ls.take(n as int) =~= ls);
    if kept.len() == 0 {
        let mut v = chars_of("wmic 未返回 ");
        extend_str(&mut v, key);
        return Err(string_of(v.as_slice()));
    }
    let sep = chars_of(" ");
    let joined = join_chars(&kept, sep.as_slice());
    Ok(string_of(joined.as_slice()))
}

/// The outcome of a `wmic` run: on a failed exit, the exit status and the
/// trimmed error output; else the value of `key` in the output.
pub open spec fn wmic_outcome(
    success: bool,
    status: Seq<char>,
    stdout: Seq<u8>,
    stderr: Seq<u8>,
    key: Seq<char>,
) -> Result<Seq<char>, Seq<char>> {
    if !success {
        Err("wmic 退出码: "@ + status + ", stderr="@ + trim(decode_lossy(stderr)))
    } else {
        wmic_text(decode_lossy(stdout), key)
    }
}

/// The value of `key` from a finished `wmic` run, given whether it exited
/// successfully, its exit status as text, and its output streams.
pub fn wmic_output_value(success: bool, status: &str, stdout: &[u8], stderr: &[u8], key: &str) -> (r:
    Result<String, String>)
    ensures
        match r {
            Ok(s) => wmic_outcome(success, status@, stdout@, stderr@, key@) == Ok::<
                Seq<char>,
                Seq<char>,
            >(s@),
            Err(e) => wmic_outcome(success, status@, stdout@, stderr@, key@) == Err::<
                Seq<char>,
                Seq<char>,
            >(e@),
        },
{
    if !success {
        let err = from_utf8_lossy(stderr);
        let ev = chars_of(err.as_str());
        let et = trim_chars(ev.as_slice());
        let mut v = chars_of("wmic 退出码: ");
        extend_str(&mut v, status);
        extend_str(&mut v, ", stderr=");
        extend_chars(&mut v, et.as_slice());
        return Err(string_of(v.as_slice()));
    }
    let out = from_utf8_lossy(stdout);
    parse_wmic_output(out.as_str(), key)
}

} // verus!
