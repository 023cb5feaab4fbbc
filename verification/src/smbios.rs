//! Reading one string field of one structure type out of a raw SMBIOS
//! table, as `GetSystemFirmwareTable('RSMB')` returns it: an 8-byte header,
//! then structures, each a formatted area (type, length, ...) followed by
//! NUL-terminated strings and a final NUL.
use vstd::prelude::*;
use crate::text::{
    chars_of, decimal, decimal_chars, extend_chars, from_utf8_lossy, split_on,
    lemma_split_on_nonempty, lemma_split_on_step, string_of, trim, trim_chars, decode_lossy,
};

verus! {

// ------------------------------------------------------------------
// The string area of a structure
// ------------------------------------------------------------------

/// The position of the first double NUL at or after `from`, which ends
/// a structure's string area.
pub open spec fn strings_end(data: Seq<u8>, from: int) -> Option<int>
    decreases data.len() - from,
{
    if from < 0 || from + 1 >= data.len() {
        None
    } else if data[from] == 0 && data[from + 1] == 0 {
        Some(from)
    } else {
        strings_end(data, from + 1)
    }
}

/// The end of a string area lies inside the data, at or after its start.
pub proof fn lemma_strings_end_bounds(data: Seq<u8>, from: int)
    ensures
        strings_end(data, from) matches Some(e) ==> from <= e && e + 1 < data.len(),
    decreases data.len() - from,
{
    if !(from < 0 || from + 1 >= data.len()) && !(data[from] == 0 && data[from + 1] == 0) {
        lemma_strings_end_bounds(data, from + 1);
    }
}

/// Finds the end of the string area that starts at `offset`.
pub fn find_smbios_strings_end(data: &[u8], offset: usize) -> (r: Option<usize>)
    ensures
        match r {
            Some(e) => strings_end(data@, offset as int) == Some(e as int),
            None => strings_end(data@, offset as int) is None,
        },
{
    let mut o = offset;
    while data.len() > 0 && o < data.len() - 1
        invariant
            offset <= o,
            strings_end(data@, offset as int) == strings_end(data@, o as int),
        decreases data@.len() - o,
    {
        if data[o] == 0 && data[o + 1] == 0 {
            return Some(o);
        }
        o = o + 1;
    }
    None
}

/// The contents of a sequence of byte vectors.
pub open spec fn byte_views(v: Seq<Vec<u8>>) -> Seq<Seq<u8>> {
    v.map_values(|x: Vec<u8>| x@)
}

fn split_nul(s: &[u8]) -> (r: Vec<Vec<u8>>)
    ensures
        byte_views(r@) == split_on(s@, 0u8),
{
    let mut parts: Vec<Vec<u8>> = Vec::new();
    let mut cur: Vec<u8> = Vec::new();
    let n = s.len();
    assert(s@.take(0) =~= Seq::<u8>::empty());
    assert(byte_views(parts@).push(cur@) =~= split_on(s@.take(0), 0u8));
    for i in 0..n
        invariant
            n == s@.len(),
            byte_views(parts@).push(cur@) == split_on(s@.take(i as int), 0u8),
    {
        proof {
            lemma_split_on_step(s@, 0u8, i as int);
        }
        let b = s[i];
        if b == 0 {
            let ghost old_parts = byte_views(parts@);
            let done = cur;
            parts.push(done);
            cur = Vec::new();
            assert(byte_views(parts@) =~= old_parts.push(done@));
            assert(byte_views(parts@).push(cur@) =~= split_on(s@.take(i + 1), 0u8));
        } else {
            let ghost before = byte_views(parts@).push(cur@);
            cur.push(b);
            assert(byte_views(parts@).push(cur@) =~= before.update(
                before.len() - 1,
                before.last().push(b),
            ));
        }
    }
    let ghost old_parts = byte_views(parts@);
    let last = cur;
    parts.push(last);
    assert(byte_views(parts@) =~= old_parts.push(last@));
    assert(s@.take(n as int) =~= s@);
    parts
}

/// The string numbered `index` (from 1) in a string area, decoded and
/// trimmed, or the error reported when there is no such string.
pub open spec fn smbios_string_at(strings: Seq<u8>, index: u8) -> Result<Seq<char>, Seq<char>> {
    let pieces = split_on(strings, 0u8);
    if 1 <= index <= pieces.len() {
        Ok(trim(decode_lossy(pieces[index - 1])))
    } else {
        Err("SMBIOS 字符串索引 "@ + decimal(index as nat) + " 不存在"@)
    }
}

/// Reads string number `index` (from 1) of a string area.
pub fn smbios_get_string(strings: &[u8], index: u8) -> (r: Result<String, String>)
    ensures
        match r {
            Ok(s) => smbios_string_at(strings@, index) == Ok::<Seq<char>, Seq<char>>(s@),
            Err(e) => smbios_string_at(strings@, index) == Err::<Seq<char>, Seq<char>>(e@),
        },
{
    let pieces = split_nul(strings);
    proof {
        lemma_split_on_nonempty(strings@, 0u8);
    }
    if 1 <= index && (index as usize) <= pieces.len() {
        let k = (index - 1) as usize;
        assert(byte_views(pieces@)[k as int] == pieces@[k as int]@);
        let text = from_utf8_lossy(pieces[k].as_slice());
        let tv = chars_of(text.as_str());
        let t = trim_chars(tv.as_slice());
        Ok(string_of(t.as_slice()))
    } else {
        let mut v = chars_of("SMBIOS 字符串索引 ");
        let d = decimal_chars(index as u64);
        extend_chars(&mut v, d.as_slice());
        let tail = chars_of(" 不存在");
        extend_chars(&mut v, tail.as_slice());
        Err(string_of(v.as_slice()))
    }
}

// ------------------------------------------------------------------
// Walking the structures
// ------------------------------------------------------------------

/// The error reported when no structure of type `ty` is found.
pub open spec fn type_not_found(ty: u8) -> Seq<char> {
    "未找到 SMBIOS type "@ + decimal(ty as nat)
}

/// The string field at byte `field` of the first structure of type `ty`,
/// looking from the structure at `offset` on. The walk stops, not finding
/// the type, at a header that does not fit, a length under 4 or a
/// formatted area past the end; a string area without its double NUL is
/// an error.
pub open spec fn smbios_walk(data: Seq<u8>, ty: u8, field: int, offset: int) -> Result<
    Seq<char>,
    Seq<char>,
>
    decreases data.len() - offset,
{
    if offset < 0 || offset + 4 > data.len() {
        Err(type_not_found(ty))
    } else {
        let len = data[offset + 1] as int;
        if len < 4 || offset + len > data.len() {
            Err(type_not_found(ty))
        } else {
            let start = offset + len;
            proof {
                lemma_strings_end_bounds(data, start);
            }
            match strings_end(data, start) {
                None => Err("SMBIOS 字符串区域未结束"@),
                Some(end) => if data[offset] == ty {
                    if field >= len {
                        Err("SMBIOS 字段偏移超出结构长度"@)
                    } else if data[offset + field] == 0 {
                        Err("SMBIOS 字符串索引为 0"@)
                    } else {
                        smbios_string_at(data.subrange(start, end), data[offset + field])
                    }
                } else {
                    smbios_walk(data, ty, field, end + 2)
                },
            }
        }
    }
}

/// The string field at byte `field` of the first structure of type `ty`
/// in a raw SMBIOS table (structures start after the 8-byte header).
pub open spec fn smbios_field(data: Seq<u8>, ty: u8, field: int) -> Result<Seq<char>, Seq<char>> {
    if data.len() < 8 {
        Err("SMBIOS 数据过短"@)
    } else {
        smbios_walk(data, ty, field, 8)
    }
}

/// Whether a result is the one `smbios_field` describes.
pub open spec fn is_field_result(r: Result<String, String>, expected: Result<Seq<char>, Seq<char>>) -> bool {
    match r {
        Ok(s) => expected == Ok::<Seq<char>, Seq<char>>(s@),
        Err(e) => expected == Err::<Seq<char>, Seq<char>>(e@),
    }
}

/// Reads the string field at byte `string_index_offset` of the first
/// structure of type `struct_type` in a raw SMBIOS table.
pub fn parse_smbios_string(data: &[u8], struct_type: u8, string_index_offset: usize) -> (r: Result<
    String,
    String,
>)
    ensures
        is_field_result(r, smbios_field(data@, struct_type, string_index_offset as int)),
{
    let ghost field = string_index_offset as int;
    if data.len() < 8 {
        return Err("SMBIOS 数据过短".to_owned());
    }
    let n = data.len();
    let mut offset: usize = 8;
    let mut found: Option<Result<String, String>> = None;
    while offset <= n && n - offset >= 4
        invariant_except_break
            found is None,
        invariant
            n == data@.len() >= 8,
            8 <= offset,
            field == string_index_offset as int,
            smbios_walk(data@, struct_type, field, offset as int) == smbios_walk(
                data@,
                struct_type,
                field,
                8,
            ),
        ensures
            match found {
                Some(res) => is_field_result(res, smbios_walk(data@, struct_type, field, 8)),
                None => smbios_walk(data@, struct_type, field, 8) == Err::<Seq<char>, Seq<char>>(
                    type_not_found(struct_type),
                ),
            },
        decreases n - offset,
    {
        let ty = data[offset];
        let len = data[offset + 1] as usize;
        if len < 4 || len > n - offset {
            break;
        }
        let strings_start = offset + len;
        proof {
            lemma_strings_end_bounds(data@, strings_start as int);
        }
        let end_opt = find_smbios_strings_end(data, strings_start);
        if end_opt.is_none() {
            found = Some(Err("SMBIOS 字符串区域未结束".to_owned()));
            break;
        }
        let end = end_opt.unwrap();
        if ty == struct_type {
            if string_index_offset >= len {
                found = Some(Err("SMBIOS 字段偏移超出结构长度".to_owned()));
                break;
            }
            let index = data[offset + string_index_offset];
            if index == 0 {
                found = Some(Err("SMBIOS 字符串索引为 0".to_owned()));
                break;
            }
            let strings = &data[strings_start..end];
            assert(strings@ =~= data@.subrange(strings_start as int, end as int));
            found = Some(smbios_get_string(strings, index));
            break;
        }
        offset = end + 2;
    }
    match found {
        Some(res) => res,
        None => {
            let mut v = chars_of("未找到 SMBIOS type ");
            let d = decimal_chars(struct_type as u64);
            extend_chars(&mut v, d.as_slice());
            Err(string_of(v.as_slice()))
        },
    }
}

} // verus!
