//! The startup log: where it lives, how a session starts, and how each
//! message becomes timestamped lines.
use vstd::prelude::*;
use crate::text::{chars_of, decimal, decimal_chars, extend_chars, extend_str, lines, lines_of, string_of, views};

verus! {

/// The directory of the application's data, under the data root.
pub const APP_DIR_NAME: &'static str = "machine-code-native";

/// The log file, in the application's data directory.
pub const LOG_FILE_NAME: &'static str = "startup.log";

/// The contents of a sequence of strings.
pub open spec fn string_views(v: Seq<String>) -> Seq<Seq<char>> {
    v.map_values(|s: String| s@)
}

/// The data root: the `APPDATA` directory when it is set, else the
/// current directory when it can be read, else `.`.
pub open spec fn data_root(appdata: Option<String>, current_dir: Option<String>) -> Seq<char> {
    match appdata {
        Some(a) => a@,
        None => match current_dir {
            Some(c) => c@,
            None => "."@,
        },
    }
}

/// The application's data directory, as the path components to join:
/// the data root, then `machine-code-native`.
pub fn app_data_dir(appdata: Option<String>, current_dir: Option<String>) -> (r: Vec<String>)
    ensures
        string_views(r@) == seq![data_root(appdata, current_dir), APP_DIR_NAME@],
{
    let root = match appdata {
        Some(a) => a,
        None => match current_dir {
            Some(c) => c,
            None => ".".to_owned(),
        },
    };
    let r = vec![root, APP_DIR_NAME.to_owned()];
    assert(string_views(r@) =~= seq![data_root(appdata, current_dir), APP_DIR_NAME@]);
    r
}

/// The log file's path, as the path components to join: the data root,
/// `machine-code-native`, then `startup.log`.
pub fn log_path(appdata: Option<String>, current_dir: Option<String>) -> (r: Vec<String>)
    ensures
        string_views(r@) == seq![data_root(appdata, current_dir), APP_DIR_NAME@, LOG_FILE_NAME@],
{
    let mut r = app_data_dir(appdata, current_dir);
    let ghost before = r@;
    r.push(LOG_FILE_NAME.to_owned());
    assert(string_views(r@) =~= string_views(before).push(LOG_FILE_NAME@));
    r
}

/// The messages that open a session in the log: a rule, then a heading.
pub fn begin_session() -> (r: Vec<String>)
    ensures
        string_views(r@) == seq![
            "============================================================"@,
            "新的程序启动会话"@,
        ],
{
    let r = vec![
        "============================================================".to_owned(),
        "新的程序启动会话".to_owned(),
    ];
    assert(string_views(r@) =~= seq![
        "============================================================"@,
        "新的程序启动会话"@,
    ]);
    r
}

/// The lines a message is written as, one log line each.
pub fn message_lines(message: &str) -> (r: Vec<String>)
    ensures
        string_views(r@) == lines(message@),
{
    let mc = chars_of(message);
    let ls = lines_of(mc.as_slice());
    let n = ls.len();
    let mut r: Vec<String> = Vec::new();
    for i in 0..n
        invariant
            n == ls@.len(),
            views(ls@) == lines(message@),
            string_views(r@) == views(ls@).take(i as int),
    {
        let s = string_of(ls[i].as_slice());
        let ghost before = r@;
        r.push(s);
        assert(string_views(r@) =~= string_views(before).push(s@));
        assert(views(ls@).take(i + 1) =~= views(ls@).take(i as int).push(ls@[i as int]@));
    }
    assert(views(ls@).take(n as int) =~= views(ls@));
    r
}

/// A line of the log: `[timestamp] [pid:P] [tid:T] text`.
pub open spec fn log_line_text(timestamp: Seq<char>, pid: u32, thread_id: Seq<char>, line: Seq<char>) -> Seq<
    char,
> {
    "["@ + timestamp + "] [pid:"@ + decimal(pid as nat) + "] [tid:"@ + thread_id + "] "@ + line
}

/// A line of the log.
pub fn log_line(timestamp: &str, pid: u32, thread_id: &str, line: &str) -> (r: String)
    ensures
        r@ == log_line_text(timestamp@, pid, thread_id@, line@),
{
    let mut v = chars_of("[");
    extend_str(&mut v, timestamp);
    extend_str(&mut v, "] [pid:");
    let d = decimal_chars(pid as u64);
    extend_chars(&mut v, d.as_slice());
    extend_str(&mut v, "] [tid:");
    extend_str(&mut v, thread_id);
    extend_str(&mut v, "] ");
    extend_str(&mut v, line);
    string_of(v.as_slice())
}

/// The log's text as shown: its contents, or a note when it cannot be
/// read.
pub fn log_text(content: Option<String>) -> (r: String)
    ensures
        r@ == match content {
            Some(c) => c@,
            None => "暂无日志"@,
        },
{
    match content {
        Some(c) => c,
        None => "暂无日志".to_owned(),
    }
}

} // verus!
