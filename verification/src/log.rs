//! The launcher's log: how a line is written, which lines are read back, which
//! are kept, and how a file that grew too large is cut.
use vstd::prelude::*;
use vstd::slice::slice_subrange;
use vstd::utf8::decode_utf8;

use crate::bytes::{
    are_closed, are_lines, extend, feed_at, find_feed, joined, law_lines_of_joined,
    lemma_feed_at_bounds, lemma_joined_push, lemma_lines_list, lines, lossy_text, slices,
    split_lines, text_of, valid_up_to,
};
use crate::calendar::{
    civil_day, civil_fits, civil_of, day_ints, day_of, days_from_civil, lemma_near_day_fits,
    log_day_number, log_day_of, near_day, same_day, LocalTime, LogDay,
};
use crate::text::{
    after_prefix, all_digits, before_suffix, digits_value, ends_with, from_chars, is_digit,
    law_trim, lemma_padded_value, lemma_padded_width, lemma_parse_unsigned_range, lemma_split_cons,
    lemma_split_single, opt_str, opt_string, padded, parse_unsigned, pieces, push_all, push_padded,
    read_unsigned, split, split_at_char, starts_with, to_chars, trim, trimmed, unsigned_body,
    white, white_back, white_end,
};
use crate::version::version_char;

verus! {

// ---- Names ----

/// The user's home directory: the first of the two settings that is there, or
/// the working directory.
pub fn home_dir(userprofile: Option<&str>, home: Option<&str>) -> (r: String)
    ensures
        r@ == home_of(opt_str(userprofile), opt_str(home)),
{
    match userprofile {
        Some(dir) => dir.to_string(),
        None => match home {
            Some(dir) => dir.to_string(),
            None => ".".to_string(),
        },
    }
}

pub open spec fn home_of(userprofile: Option<Seq<char>>, home: Option<Seq<char>>) -> Seq<char> {
    match userprofile {
        Some(dir) => dir,
        None => match home {
            Some(dir) => dir,
            None => "."@,
        },
    }
}

/// Where the log is kept.
#[derive(Debug)]
pub enum LogDir {
    /// In this directory.
    Given(String),
    /// In the directory `.dsh` of this home directory.
    UnderHome(String),
}

/// The directory of the log: the one that is set, unless it is blank; else one
/// under the home directory.
pub fn log_base_dir(
    log_dir: Option<&str>,
    userprofile: Option<&str>,
    home: Option<&str>,
) -> (r: LogDir)
    ensures
        match r {
            LogDir::Given(dir) => opt_str(log_dir) == Some(dir@) && trim(dir@).len() > 0,
            LogDir::UnderHome(dir) => (log_dir is None || trim(log_dir->0@).len() == 0) && dir@
                == home_of(opt_str(userprofile), opt_str(home)),
        },
{
    match log_dir {
        Some(dir) => {
            let chars = to_chars(dir);
            if trimmed(chars.as_slice()).len() > 0 {
                return LogDir::Given(dir.to_string());
            }
        },
        None => {},
    }
    LogDir::UnderHome(home_dir(userprofile, home))
}

/// Characters that an instance name keeps.
pub open spec fn instance_char(c: char) -> bool {
    'a' <= c <= 'z' || 'A' <= c <= 'Z' || is_digit(c) || c == '-' || c == '_'
}

/// The instance name that a setting gives: its letters, digits, hyphens and
/// underscores, in order.
pub open spec fn sanitized(s: Seq<char>) -> Seq<char> {
    trim(s).filter(|c: char| instance_char(c))
}

/// Cleans an instance name so that it can stand in a file name.
pub fn sanitize_instance_id(s: &str) -> (r: String)
    ensures
        r@ == sanitized(s@),
{
    let chars = to_chars(s);
    let t = trimmed(chars.as_slice());
    let mut out = String::new();
    let mut i: usize = 0;
    let ghost keep = |c: char| instance_char(c);
    proof {
        assert(t@.take(0).filter(keep) =~= Seq::<char>::empty()) by {
            reveal(Seq::filter);
        }
    }
    while i < t.len()
        invariant
            i <= t@.len(),
            keep == (|c: char| instance_char(c)),
            out@ == t@.take(i as int).filter(keep),
        decreases t@.len() - i,
    {
        let c: char = t[i];
        proof {
            assert(t@.take(i + 1).drop_last() =~= t@.take(i as int));
            assert(t@.take(i + 1).last() == c);
            reveal(Seq::filter);
        }
        if ('a' <= c && c <= 'z') || ('A' <= c && c <= 'Z') || ('0' <= c && c <= '9') || c == '-'
            || c == '_' {
            out.push(c);
        }
        i += 1;
    }
    proof {
        assert(t@.take(t@.len() as int) =~= t@);
    }
    out
}

/// A cleaned name holds nothing but letters, digits, hyphens and underscores, and
/// cleaning it again changes nothing.
pub proof fn law_clean_name_is_plain(s: Seq<char>)
    ensures
        forall|k: int| 0 <= k < sanitized(s).len() ==> instance_char(#[trigger] sanitized(s)[k]),
        sanitized(sanitized(s)) == sanitized(s),
{
    let keep = |c: char| instance_char(c);
    let r = sanitized(s);
    assert forall|k: int| 0 <= k < r.len() implies instance_char(#[trigger] r[k]) by {
        trim(s).lemma_filter_pred(keep, k);
    }
    assert(trim(r) =~= r);
    lemma_filter_all(r);
}

proof fn lemma_filter_all(s: Seq<char>)
    requires
        forall|k: int| 0 <= k < s.len() ==> instance_char(#[trigger] s[k]),
    ensures
        s.filter(|c: char| instance_char(c)) == s,
    decreases s.len(),
{
    reveal(Seq::filter);
    if s.len() > 0 {
        assert forall|k: int| 0 <= k < s.drop_last().len() implies instance_char(
            #[trigger] s.drop_last()[k],
        ) by {
            assert(s.drop_last()[k] == s[k]);
        }
        lemma_filter_all(s.drop_last());
        assert(instance_char(s[s.len() - 1]));
        assert(s.drop_last().push(s.last()) =~= s);
    }
}

/// The instance name: the cleaned setting, or nothing.
pub fn instance_id(value: Option<&str>) -> (r: String)
    ensures
        r@ == (match value {
            Some(v) => sanitized(v@),
            None => Seq::empty(),
        }),
{
    match value {
        Some(v) => sanitize_instance_id(v),
        None => String::new(),
    }
}

/// What follows `launcher-` in the names of an instance's dated log files.
pub open spec fn suffix_of(id: Seq<char>) -> Seq<char> {
    if id.len() == 0 {
        Seq::empty()
    } else {
        id + "-"@
    }
}

/// The instance name with a hyphen, or nothing for the unnamed instance.
pub fn instance_suffix(id: &str) -> (r: String)
    ensures
        r@ == suffix_of(id@),
{
    let mut out = String::new();
    if !id.is_empty() {
        push_all(&mut out, id);
        push_all(&mut out, "-");
        proof {
            assert(Seq::<char>::empty() + id@ =~= id@);
        }
    }
    out
}

/// The name of an instance's log file.
pub open spec fn file_name_of(id: Seq<char>) -> Seq<char> {
    if id.len() == 0 {
        "launcher.log"@
    } else {
        "launcher-"@ + id + ".log"@
    }
}

/// The name of the log file.
pub fn log_file_name(id: &str) -> (r: String)
    ensures
        r@ == file_name_of(id@),
{
    if id.is_empty() {
        "launcher.log".to_string()
    } else {
        let mut out = "launcher-".to_string();
        push_all(&mut out, id);
        push_all(&mut out, ".log");
        out
    }
}

/// Instances of different names have different log files.
pub proof fn law_log_file_per_instance(a: Seq<char>, b: Seq<char>)
    requires
        file_name_of(a) == file_name_of(b),
    ensures
        a == b,
{
    reveal_strlit("launcher.log");
    reveal_strlit("launcher-");
    reveal_strlit(".log");
    let (x, y) = (file_name_of(a), file_name_of(b));
    assert(x.len() == y.len());
    if a.len() > 0 && b.len() > 0 {
        assert(a =~= x.subrange(9, 9 + a.len() as int));
        assert(b =~= y.subrange(9, 9 + b.len() as int));
    } else if a.len() > 0 || b.len() > 0 {
        assert(x.len() != y.len());
    } else {
        assert(a =~= b);
    }
}

// ---- Lines ----

/// What a line is about.
#[derive(Clone, Copy, Debug, PartialEq, Eq, Structural)]
pub enum Level {
    Info,
    Warn,
    Fail,
    /// Output of the service.
    Dsh,
}

impl Level {
    /// The tag that stands in the line.
    pub open spec fn tag_text(self) -> Seq<char> {
        match self {
            Level::Info => "INFO"@,
            Level::Warn => "WARN"@,
            Level::Fail => "FAIL"@,
            Level::Dsh => "DSH"@,
        }
    }

    /// The tag that stands in the line.
    pub fn tag(&self) -> (r: &'static str)
        ensures
            r@ == self.tag_text(),
    {
        match self {
            Level::Info => "INFO",
            Level::Warn => "WARN",
            Level::Fail => "FAIL",
            Level::Dsh => "DSH",
        }
    }
}

/// What the log's own thread is asked to do.
#[derive(Debug)]
pub enum LogCommand {
    /// Append a line.
    Write { level: Level, msg: String },
    /// Report the version of the last update notice.
    ReadLastNotifiedVersion,
    /// Answer once everything before has been done.
    Flush,
}

/// Whether the command appends this message under this level.
pub open spec fn writes(cmd: LogCommand, level: Level, msg: Seq<char>) -> bool {
    cmd matches LogCommand::Write { level: l, msg: m } && l == level && m@ == msg
}

/// A line under the given level.
pub fn write(level: Level, msg: &str) -> (r: LogCommand)
    ensures
        writes(r, level, msg@),
{
    LogCommand::Write { level, msg: msg.to_string() }
}

/// A line that informs.
pub fn info(msg: &str) -> (r: LogCommand)
    ensures
        writes(r, Level::Info, msg@),
{
    write(Level::Info, msg)
}

/// A line of the service's output.
pub fn dsh_output(line: &str) -> (r: LogCommand)
    ensures
        writes(r, Level::Dsh, line@),
{
    write(Level::Dsh, line)
}

/// A line that warns.
pub fn warn(msg: &str) -> (r: LogCommand)
    ensures
        writes(r, Level::Warn, msg@),
{
    write(Level::Warn, msg)
}

/// A line about a failure.
pub fn error(msg: &str) -> (r: LogCommand)
    ensures
        writes(r, Level::Fail, msg@),
{
    write(Level::Fail, msg)
}

/// Asks for an answer once every line before it is on disk.
pub fn flush() -> (r: LogCommand)
    ensures
        r is Flush,
{
    LogCommand::Flush
}

/// A line that is meant: its level and its message.
pub type Line = (Level, Seq<char>);

/// Whether a log command is the line that is meant, or none is.
pub open spec fn logs(cmd: Option<LogCommand>, want: Option<Line>) -> bool {
    match (cmd, want) {
        (Some(c), Some((level, msg))) => writes(c, level, msg),
        (None, None) => true,
        _ => false,
    }
}

/// Whether the commands append these lines, in order, and do nothing else.
pub open spec fn said(cmds: Seq<LogCommand>, want: Seq<Line>) -> bool {
    &&& cmds.len() == want.len()
    &&& forall|i: int| 0 <= i < cmds.len() ==> writes(#[trigger] cmds[i], want[i].0, want[i].1)
}

/// Adds a line to those that are to be written.
pub fn say(out: &mut Vec<LogCommand>, level: Level, msg: &str)
    ensures
        forall|want: Seq<Line>| #[trigger]
            said(old(out)@, want) ==> said(final(out)@, want.push((level, msg@))),
{
    let ghost before = out@;
    out.push(write(level, msg));
    proof {
        assert forall|want: Seq<Line>| #[trigger] said(before, want) implies said(
            out@,
            want.push((level, msg@)),
        ) by {
            assert forall|i: int| 0 <= i < out@.len() implies writes(
                #[trigger] out@[i],
                want.push((level, msg@))[i].0,
                want.push((level, msg@))[i].1,
            ) by {
                if i < before.len() {
                    assert(writes(before[i], want[i].0, want[i].1));
                }
            }
        }
    }
}

/// A time as `YYYY-MM-DD HH:MM:SS`.
pub open spec fn stamp(t: LocalTime) -> Seq<char> {
    padded(t.year as int, 4) + "-"@ + padded(t.month as int, 2) + "-"@ + padded(t.day as int, 2)
        + " "@ + padded(t.hour as int, 2) + ":"@ + padded(t.minute as int, 2) + ":"@ + padded(
        t.second as int,
        2,
    )
}

/// Writes a time as `YYYY-MM-DD HH:MM:SS`.
pub fn timestamp(t: &LocalTime) -> (r: String)
    ensures
        r@ == stamp(*t),
{
    let mut out = String::new();
    push_padded(&mut out, t.year as u64, 4);
    push_all(&mut out, "-");
    push_padded(&mut out, t.month as u64, 2);
    push_all(&mut out, "-");
    push_padded(&mut out, t.day as u64, 2);
    push_all(&mut out, " ");
    push_padded(&mut out, t.hour as u64, 2);
    push_all(&mut out, ":");
    push_padded(&mut out, t.minute as u64, 2);
    push_all(&mut out, ":");
    push_padded(&mut out, t.second as u64, 2);
    proof {
        assert(Seq::<char>::empty() + padded(t.year as int, 4) =~= padded(t.year as int, 4));
    }
    out
}

/// A line of the log file: the time, the level in brackets, the message, a
/// line feed.
pub open spec fn line_text(t: LocalTime, level: Level, msg: Seq<char>) -> Seq<char> {
    stamp(t) + " ["@ + level.tag_text() + "] "@ + msg + "\n"@
}

/// Writes a line of the log file.
pub fn log_line(t: &LocalTime, level: Level, msg: &str) -> (r: String)
    ensures
        r@ == line_text(*t, level, msg@),
{
    let mut out = timestamp(t);
    push_all(&mut out, " [");
    push_all(&mut out, level.tag());
    push_all(&mut out, "] ");
    push_all(&mut out, msg);
    push_all(&mut out, "\n");
    out
}

/// A field of a time: an unsigned number of 16 bits.
pub open spec fn stamp_field(line: Seq<char>, i: int, j: int) -> Option<int> {
    parse_unsigned(line.subrange(i, j), 65535)
}

/// Whether the separators of a time stand in their places.
pub open spec fn stamp_shape(line: Seq<char>) -> bool {
    &&& line.len() >= 19
    &&& line[4] == '-'
    &&& line[7] == '-'
    &&& line[10] == ' '
    &&& line[13] == ':'
    &&& line[16] == ':'
}

/// The time that a line begins with.
pub open spec fn parse_stamp(line: Seq<char>) -> Option<LocalTime> {
    if !stamp_shape(line) {
        None
    } else {
        match (
            stamp_field(line, 0, 4),
            stamp_field(line, 5, 7),
            stamp_field(line, 8, 10),
            stamp_field(line, 11, 13),
            stamp_field(line, 14, 16),
            stamp_field(line, 17, 19),
        ) {
            (Some(y), Some(mo), Some(d), Some(h), Some(mi), Some(s)) => Some(
                LocalTime {
                    year: y as u16,
                    month: mo as u16,
                    day: d as u16,
                    hour: h as u16,
                    minute: mi as u16,
                    second: s as u16,
                },
            ),
            _ => None,
        }
    }
}

fn read_field(line: &[char], i: usize, j: usize) -> (r: Option<u16>)
    requires
        i <= j <= line@.len(),
    ensures
        r is Some <==> stamp_field(line@, i as int, j as int) is Some,
        r matches Some(v) ==> stamp_field(line@, i as int, j as int) == Some(v as int),
{
    match read_unsigned(slice_subrange(line, i, j), 65535) {
        Some(v) => Some(v as u16),
        None => None,
    }
}

fn read_stamp(line: &[char]) -> (r: Option<LocalTime>)
    ensures
        r == parse_stamp(line@),
{
    if line.len() < 19 || line[4] != '-' || line[7] != '-' || line[10] != ' ' || line[13] != ':'
        || line[16] != ':' {
        return None;
    }
    let year = read_field(line, 0, 4);
    let month = read_field(line, 5, 7);
    let day = read_field(line, 8, 10);
    let hour = read_field(line, 11, 13);
    let minute = read_field(line, 14, 16);
    let second = read_field(line, 17, 19);
    match (year, month, day, hour, minute, second) {
        (Some(y), Some(mo), Some(d), Some(h), Some(mi), Some(s)) => Some(
            LocalTime { year: y, month: mo, day: d, hour: h, minute: mi, second: s },
        ),
        _ => None,
    }
}

/// Reads the time that a line begins with.
pub fn parse_timestamp(line: &str) -> (r: Option<LocalTime>)
    ensures
        r == parse_stamp(line@),
{
    let chars = to_chars(line);
    read_stamp(chars.as_slice())
}

/// A time whose fields fit in their columns is read back from any line that
/// begins with it.
pub proof fn law_stamp_round_trip(t: LocalTime, rest: Seq<char>)
    requires
        t.year <= 9999,
        t.month <= 99,
        t.day <= 99,
        t.hour <= 99,
        t.minute <= 99,
        t.second <= 99,
    ensures
        parse_stamp(stamp(t) + rest) == Some(t),
        stamp(t).len() == 19,
{
    reveal_strlit("-");
    reveal_strlit(" ");
    reveal_strlit(":");
    let line = stamp(t) + rest;
    lemma_field(t.year as int, 4);
    lemma_field(t.month as int, 2);
    lemma_field(t.day as int, 2);
    lemma_field(t.hour as int, 2);
    lemma_field(t.minute as int, 2);
    lemma_field(t.second as int, 2);
    assert(line.subrange(0, 4) =~= padded(t.year as int, 4));
    assert(line.subrange(5, 7) =~= padded(t.month as int, 2));
    assert(line.subrange(8, 10) =~= padded(t.day as int, 2));
    assert(line.subrange(11, 13) =~= padded(t.hour as int, 2));
    assert(line.subrange(14, 16) =~= padded(t.minute as int, 2));
    assert(line.subrange(17, 19) =~= padded(t.second as int, 2));
}

proof fn lemma_field(n: int, width: int)
    requires
        0 <= n,
        (width == 2 && n < 100) || (width == 4 && n < 10000),
    ensures
        padded(n, width).len() == width,
        parse_unsigned(padded(n, width), 65535) == Some(n),
{
    lemma_padded_value(n, width);
    lemma_padded_width(n, width);
    assert(is_digit(padded(n, width)[0]));
}


// ---- Update notices ----

/// The message of an update notice that was shown.
pub open spec fn notice_text(version: Seq<char>) -> Seq<char> {
    "更新通知成功：远端 v"@ + version
}

/// The message that records an update notice.
pub fn notice_message(version: &str) -> (r: String)
    ensures
        r@ == notice_text(version@),
{
    let mut out = "更新通知成功：远端 v".to_string();
    push_all(&mut out, version);
    out
}

/// The first index at or after `i` that does not hold a digit or a dot.
pub open spec fn version_end(s: Seq<char>, i: int) -> int
    decreases s.len() - i,
{
    if 0 <= i < s.len() && version_char(s[i]) {
        version_end(s, i + 1)
    } else {
        i
    }
}

/// What follows the prefix, if the text begins with it.
pub open spec fn stripped(s: Option<Seq<char>>, p: Seq<char>) -> Option<Seq<char>> {
    match s {
        Some(t) => if starts_with(t, p) {
            Some(t.skip(p.len() as int))
        } else {
            None
        },
        None => None,
    }
}

/// The version in the message of a line, if the line records an update notice.
pub open spec fn notice_version(line: Seq<char>) -> Option<Seq<char>> {
    match stripped(stripped(Some(line.skip(19)), " [INFO] "@), "更新通知成功：远端 v"@) {
        Some(rest) => if version_end(rest, 0) > 0 {
            Some(rest.take(version_end(rest, 0)))
        } else {
            None
        },
        None => None,
    }
}

/// The time and the version of a line that records an update notice.
pub open spec fn parse_notice(line: Seq<char>) -> Option<(Seq<char>, LocalTime)> {
    match (parse_stamp(line), notice_version(line)) {
        (Some(t), Some(v)) => Some((v, t)),
        _ => None,
    }
}

/// Reads the version, and the log day, from a line that records an update notice.
pub fn parse_update_notify_line(line: &str) -> (r: Option<(String, LogDay)>)
    ensures
        match r {
            Some((version, day)) => parse_notice(line@) matches Some((v, t)) && version@ == v
                && day_ints(day) == civil_of(log_day_number(t)) && day_of(day) == log_day_number(t)
                && near_day(day),
            None => parse_notice(line@) is None,
        },
{
    let chars = to_chars(line);
    let t = match read_stamp(chars.as_slice()) {
        Some(t) => t,
        None => {
            return None;
        },
    };
    proof {
        assert(chars@.subrange(19, chars@.len() as int) =~= chars@.skip(19));
    }
    let message = slice_subrange(chars.as_slice(), 19, chars.len());
    let tag = to_chars(" [INFO] ");
    let message = match after_prefix(message, tag.as_slice()) {
        Some(m) => m,
        None => {
            return None;
        },
    };
    let words = to_chars("更新通知成功：远端 v");
    let message = match after_prefix(message, words.as_slice()) {
        Some(m) => m,
        None => {
            return None;
        },
    };
    let mut i: usize = 0;
    while i < message.len() && (('0' <= message[i] && message[i] <= '9') || message[i] == '.')
        invariant
            i <= message@.len(),
            version_end(message@, 0) == version_end(message@, i as int),
        decreases message@.len() - i,
    {
        i += 1;
    }
    if i == 0 {
        return None;
    }
    proof {
        assert(message@.subrange(0, i as int) =~= message@.take(i as int));
    }
    let version = from_chars(slice_subrange(message, 0, i));
    Some((version, log_day_of(&t)))
}

proof fn lemma_version_end(v: Seq<char>, rest: Seq<char>, i: int)
    requires
        0 <= i <= v.len(),
        forall|k: int| 0 <= k < v.len() ==> version_char(#[trigger] v[k]),
        rest.len() > 0 ==> !version_char(rest[0]),
    ensures
        version_end(v + rest, i) == v.len(),
    decreases v.len() - i,
{
    if i < v.len() {
        assert((v + rest)[i] == v[i]);
        lemma_version_end(v, rest, i + 1);
    } else if rest.len() > 0 {
        assert((v + rest)[i] == rest[0]);
    }
}

/// A notice that is written is read back: the version, and the time it was written.
pub proof fn law_notice_round_trip(t: LocalTime, version: Seq<char>)
    requires
        t.year <= 9999,
        t.month <= 99,
        t.day <= 99,
        t.hour <= 99,
        t.minute <= 99,
        t.second <= 99,
        version.len() > 0,
        forall|k: int| 0 <= k < version.len() ==> version_char(#[trigger] version[k]),
    ensures
        parse_notice(line_text(t, Level::Info, notice_text(version))) == Some((version, t)),
{
    let line = line_text(t, Level::Info, notice_text(version));
    let words = "更新通知成功：远端 v"@;
    let tag = " [INFO] "@;
    let feed = "\n"@;
    lemma_info_tag();
    lemma_line_parts(stamp(t), " ["@, "INFO"@, "] "@, words, version, feed);
    law_stamp_round_trip(t, tag + (words + (version + feed)));
    assert(line.skip(19) =~= tag + (words + (version + feed)));
    lemma_stripped(tag, words + (version + feed));
    lemma_stripped(words, version + feed);
    lemma_version_end(version, feed, 0);
    assert((version + feed).take(version.len() as int) =~= version);
}

proof fn lemma_info_tag()
    ensures
        " [INFO] "@ == " ["@ + "INFO"@ + "] "@,
        "\n"@.len() == 1,
        !version_char("\n"@[0]),
{
    reveal_strlit(" [");
    reveal_strlit("INFO");
    reveal_strlit("] ");
    reveal_strlit(" [INFO] ");
    reveal_strlit("\n");
    assert(" [INFO] "@ =~= " ["@ + "INFO"@ + "] "@);
}

proof fn lemma_line_parts(
    a: Seq<char>,
    b: Seq<char>,
    c: Seq<char>,
    d: Seq<char>,
    e: Seq<char>,
    f: Seq<char>,
    g: Seq<char>,
)
    ensures
        a + b + c + d + (e + f) + g == a + ((b + c + d) + (e + (f + g))),
{
    assert(a + b + c + d + (e + f) + g =~= a + ((b + c + d) + (e + (f + g))));
}

proof fn lemma_stripped(p: Seq<char>, rest: Seq<char>)
    ensures
        stripped(Some(p + rest), p) == Some(rest),
{
    assert((p + rest).take(p.len() as int) =~= p);
    assert((p + rest).skip(p.len() as int) =~= rest);
}

/// The version of a line that records an update notice on the cutoff day or after.
pub open spec fn recent_notice(line: Seq<u8>, cutoff: int) -> Option<Seq<char>> {
    match parse_notice(text_of(line)) {
        Some((v, t)) => if log_day_number(t) >= cutoff {
            Some(v)
        } else {
            None
        },
        None => None,
    }
}

/// The version of the last line that records an update notice on the cutoff day
/// or after.
pub open spec fn last_notice(ls: Seq<Seq<u8>>, cutoff: int) -> Option<Seq<char>>
    decreases ls.len(),
{
    if ls.len() == 0 {
        None
    } else {
        match recent_notice(ls.last(), cutoff) {
            Some(v) => Some(v),
            None => last_notice(ls.drop_last(), cutoff),
        }
    }
}

/// Takes one more line into account: its notice, if it has a recent one,
/// replaces the notice found so far.
pub fn scan_line(last: Option<String>, line: &[u8], cutoff: i64) -> (r: Option<String>)
    ensures
        opt_string(r) == (match recent_notice(line@, cutoff as int) {
            Some(v) => Some(v),
            None => opt_string(last),
        }),
{
    let text = lossy_text(line);
    match parse_update_notify_line(text.as_str()) {
        Some((version, day)) => {
            proof {
                lemma_near_day_fits(day);
            }
            if days_from_civil(day.0, day.1, day.2) >= cutoff {
                Some(version)
            } else {
                last
            }
        },
        None => last,
    }
}

/// The version of the last update notice in the log, among those of the cutoff
/// day and after.
pub fn scan_last_logged_notify_version(content: &[u8], cutoff: i64) -> (r: Option<String>)
    ensures
        opt_string(r) == last_notice(lines(content@), cutoff as int),
{
    let ls = split_lines(content);
    let mut last: Option<String> = None;
    let mut i: usize = 0;
    while i < ls.len()
        invariant
            i <= ls@.len(),
            slices(ls@) == lines(content@),
            opt_string(last) == last_notice(lines(content@).take(i as int), cutoff as int),
        decreases ls@.len() - i,
    {
        proof {
            assert(lines(content@).take(i + 1).drop_last() =~= lines(content@).take(i as int));
            assert(slices(ls@)[i as int] == ls@[i as int]@);
        }
        last = scan_line(last, ls[i], cutoff);
        i += 1;
    }
    proof {
        assert(lines(content@).take(i as int) =~= lines(content@));
    }
    last
}

// ---- Retention ----

/// Days that are kept, today included.
pub const KEEP_DAYS: i64 = 3;

/// Whether the number of a day, and that of the first day that is kept on it, fit in
/// 64 bits.
pub open spec fn cutoff_fits(today: LogDay) -> bool {
    civil_fits(today.0 as int, today.1 as int, today.2 as int) && i64::MIN <= day_of(today) - 2
}

/// The first day that is kept.
pub fn retention_cutoff(today: LogDay) -> (r: i64)
    requires
        cutoff_fits(today),
    ensures
        r == day_of(today) - 2,
{
    days_from_civil(today.0, today.1, today.2) - (KEEP_DAYS - 1)
}

/// Whether a line is kept: one without a time is, one with a time is from the
/// cutoff day on.
pub open spec fn keeps(line: Seq<char>, cutoff: int) -> bool {
    match parse_stamp(line) {
        Some(t) => log_day_number(t) >= cutoff,
        None => true,
    }
}

/// Whether a line of the log is kept.
pub fn should_keep_log_line(line: &str, cutoff: i64) -> (r: bool)
    ensures
        r == keeps(line@, cutoff as int),
{
    match parse_timestamp(line) {
        Some(t) => {
            let day = log_day_of(&t);
            proof {
                lemma_near_day_fits(day);
            }
            days_from_civil(day.0, day.1, day.2) >= cutoff
        },
        None => true,
    }
}

/// Whether the line that these bytes hold is kept.
pub open spec fn keeps_bytes(line: Seq<u8>, cutoff: int) -> bool {
    keeps(text_of(line), cutoff)
}

/// The lines that are kept, in order.
pub open spec fn kept_lines(ls: Seq<Seq<u8>>, cutoff: int) -> Seq<Seq<u8>>
    decreases ls.len(),
{
    if ls.len() == 0 {
        Seq::empty()
    } else if keeps_bytes(ls.last(), cutoff) {
        kept_lines(ls.drop_last(), cutoff).push(ls.last())
    } else {
        kept_lines(ls.drop_last(), cutoff)
    }
}

proof fn lemma_stamp_prefix(start: Seq<char>, line: Seq<char>)
    requires
        start.is_prefix_of(line),
        parse_stamp(start) is Some,
    ensures
        parse_stamp(line) == parse_stamp(start),
{
    assert forall|k: int| 0 <= k < start.len() implies #[trigger] line[k] == start[k] by {
        assert(line.subrange(0, start.len() as int)[k] == line[k]);
    }
    assert(line.subrange(0, 4) =~= start.subrange(0, 4));
    assert(line.subrange(5, 7) =~= start.subrange(5, 7));
    assert(line.subrange(8, 10) =~= start.subrange(8, 10));
    assert(line.subrange(11, 13) =~= start.subrange(11, 13));
    assert(line.subrange(14, 16) =~= start.subrange(14, 16));
    assert(line.subrange(17, 19) =~= start.subrange(17, 19));
}

/// Drops the lines before a cutoff day, one line at a time.
#[derive(Debug)]
pub struct Pruner {
    pub cutoff: i64,
    /// Whether a line has been dropped.
    pub dropped: bool,
}

/// How pruning a file ends.
#[derive(Clone, Copy, Debug, PartialEq, Eq, Structural)]
pub enum PruneEnd {
    /// A step failed: the copy goes, the file stays, and the failure is logged.
    Abandon,
    /// Nothing was dropped: the copy goes, the file stays.
    Discard,
    /// The copy takes the file's place.
    Replace,
}

impl Pruner {
    pub fn new(cutoff: i64) -> (r: Pruner)
        ensures
            r.cutoff == cutoff,
            !r.dropped,
    {
        Pruner { cutoff, dropped: false }
    }

    /// Whether the line goes into the copy. A time at its start counts, whatever
    /// broken bytes follow it.
    pub fn line(&mut self, line: &[u8]) -> (r: bool)
        ensures
            r == keeps_bytes(line@, old(self).cutoff as int),
            parse_stamp(decode_utf8(line@.take(valid_up_to(line@)))) matches Some(t) ==> r == (
            log_day_number(t) >= old(self).cutoff),
            final(self).cutoff == old(self).cutoff,
            final(self).dropped == (old(self).dropped || !r),
    {
        let text = lossy_text(line);
        proof {
            let start = decode_utf8(line@.take(valid_up_to(line@)));
            if parse_stamp(start) is Some {
                lemma_stamp_prefix(start, text@);
            }
        }
        let keep = should_keep_log_line(text.as_str(), self.cutoff);
        if !keep {
            self.dropped = true;
        }
        keep
    }

    /// What becomes of the copy, given whether a read or a write failed and
    /// whether the last of it reached the disk.
    pub fn finish(&self, failed: bool, flushed: bool) -> (r: PruneEnd)
        ensures
            r is Abandon <==> failed || !flushed,
            r is Replace <==> !failed && flushed && self.dropped,
    {
        if failed || !flushed {
            PruneEnd::Abandon
        } else if self.dropped {
            PruneEnd::Replace
        } else {
            PruneEnd::Discard
        }
    }
}

proof fn lemma_kept_all(ls: Seq<Seq<u8>>, cutoff: int)
    ensures
        kept_lines(ls, cutoff).len() <= ls.len(),
        (forall|k: int| 0 <= k < ls.len() ==> keeps_bytes(#[trigger] ls[k], cutoff)) ==> kept_lines(
            ls,
            cutoff,
        ) == ls,
    decreases ls.len(),
{
    if ls.len() > 0 {
        lemma_kept_all(ls.drop_last(), cutoff);
        if forall|k: int| 0 <= k < ls.len() ==> keeps_bytes(#[trigger] ls[k], cutoff) {
            assert forall|k: int| 0 <= k < ls.drop_last().len() implies keeps_bytes(
                #[trigger] ls.drop_last()[k],
                cutoff,
            ) by {
                assert(ls.drop_last()[k] == ls[k]);
            }
            assert(keeps_bytes(ls[ls.len() - 1], cutoff));
            assert(kept_lines(ls, cutoff) =~= ls);
        }
    }
}

/// The content of the log without the lines before the cutoff day; nothing if
/// every line is kept.
pub fn prune_log_file(content: &[u8], cutoff: i64) -> (r: Option<Vec<u8>>)
    ensures
        r is None <==> forall|k: int|
            0 <= k < lines(content@).len() ==> keeps_bytes(
                #[trigger] lines(content@)[k],
                cutoff as int,
            ),
        r matches Some(v) ==> v@ == joined(kept_lines(lines(content@), cutoff as int)),
{
    let ls = split_lines(content);
    let mut pruner = Pruner::new(cutoff);
    let mut out: Vec<u8> = Vec::new();
    let mut i: usize = 0;
    while i < ls.len()
        invariant
            i <= ls@.len(),
            slices(ls@) == lines(content@),
            pruner.cutoff == cutoff,
            pruner.dropped <==> exists|k: int|
                0 <= k < i && !keeps_bytes(#[trigger] lines(content@)[k], cutoff as int),
            out@ == joined(kept_lines(lines(content@).take(i as int), cutoff as int)),
        decreases ls@.len() - i,
    {
        proof {
            assert(lines(content@).take(i + 1).drop_last() =~= lines(content@).take(i as int));
            assert(slices(ls@)[i as int] == ls@[i as int]@);
            lemma_joined_push(
                kept_lines(lines(content@).take(i as int), cutoff as int),
                lines(content@)[i as int],
            );
        }
        if pruner.line(ls[i]) {
            extend(&mut out, ls[i]);
        }
        i += 1;
    }
    proof {
        assert(lines(content@).take(i as int) =~= lines(content@));
    }
    match pruner.finish(false, true) {
        PruneEnd::Replace => Some(out),
        _ => None,
    }
}

proof fn lemma_kept_lines(ls: Seq<Seq<u8>>, cutoff: int)
    requires
        are_lines(ls),
    ensures
        are_lines(kept_lines(ls, cutoff)),
        are_closed(ls) ==> are_closed(kept_lines(ls, cutoff)),
        forall|k: int|
            0 <= k < kept_lines(ls, cutoff).len() ==> keeps_bytes(
                #[trigger] kept_lines(ls, cutoff)[k],
                cutoff,
            ),
    decreases ls.len(),
{
    if ls.len() > 0 {
        let init = ls.drop_last();
        assert forall|k: int, j: int|
            #![trigger init[k][j]]
            0 <= k < init.len() && 0 <= j < init[k].len() - 1 implies init[k][j] != 10 by {
            assert(init[k][j] == ls[k][j]);
        }
        lemma_kept_lines(init, cutoff);
        let all = kept_lines(ls, cutoff);
        let some = kept_lines(init, cutoff);
        assert forall|k: int, j: int|
            #![trigger all[k][j]]
            0 <= k < all.len() && 0 <= j < all[k].len() - 1 implies all[k][j] != 10 by {
            if k < some.len() {
                assert(all[k][j] == some[k][j]);
            } else {
                assert(all[k][j] == ls[ls.len() - 1][j]);
            }
        }
        assert(are_closed(ls) ==> are_closed(init)) by {
            if are_closed(ls) {
                assert forall|k: int| 0 <= k < init.len() implies (#[trigger] init[k]).len() > 0
                    && init[k].last() == 10 by {
                    assert(init[k] == ls[k]);
                }
            }
        }
        if are_closed(ls) {
            assert(ls[ls.len() - 1].last() == 10);
        }
    }
}

/// What pruning leaves holds no line that pruning would drop, and is cut into
/// exactly the lines that were kept.
pub proof fn law_pruned_stays(content: Seq<u8>, cutoff: int)
    ensures
        ({
            let kept = kept_lines(lines(content), cutoff);
            &&& lines(joined(kept)) == kept
            &&& kept_lines(lines(joined(kept)), cutoff) == kept
        }),
{
    let ls = lines(content);
    let kept = kept_lines(ls, cutoff);
    lemma_lines_list(content);
    lemma_kept_lines(ls, cutoff);
    if ls.len() > 0 {
        let init = ls.drop_last();
        assert forall|k: int, j: int|
            #![trigger init[k][j]]
            0 <= k < init.len() && 0 <= j < init[k].len() - 1 implies init[k][j] != 10 by {
            assert(init[k][j] == ls[k][j]);
        }
        lemma_kept_lines(init, cutoff);
        let some = kept_lines(init, cutoff);
        if keeps_bytes(ls.last(), cutoff) {
            assert(kept.drop_last() =~= some);
        } else {
            assert(kept == some);
            if kept.len() > 0 {
                assert forall|k: int| 0 <= k < kept.drop_last().len() implies (
                #[trigger] kept.drop_last()[k]).len() > 0 && kept.drop_last()[k].last() == 10 by {
                    assert(kept.drop_last()[k] == some[k]);
                }
                assert(some[some.len() - 1].len() > 0);
            }
        }
    }
    law_lines_of_joined(kept);
    lemma_kept_all(kept, cutoff);
}

// ---- Size ----

/// The largest size of the log file that is left alone.
pub const MAX_LOG_BYTES: u64 = 10_485_760;

/// The largest size that cutting leaves.
pub const MAX_KEEP_BYTES: u64 = 8_388_608;

/// How many bytes to cut from the head of a log file of this size.
pub fn enforce_log_size_limit(len: u64) -> (r: Option<u64>)
    ensures
        r is Some <==> len > MAX_LOG_BYTES,
        r matches Some(skip) ==> skip == len - MAX_KEEP_BYTES,
{
    if len <= MAX_LOG_BYTES {
        None
    } else {
        Some(len - MAX_KEEP_BYTES)
    }
}

/// Where the rest of a file begins when `skip` bytes are cut from its head: at
/// the line after the one that `skip` falls in, or at `skip` itself where no
/// line feed follows.
pub open spec fn cut_at(content: Seq<u8>, skip: int) -> int {
    if 0 < skip < content.len() && feed_at(content, skip) < content.len() {
        feed_at(content, skip) + 1
    } else {
        skip
    }
}

/// The content of a file after its head is cut.
pub open spec fn cut_head(content: Seq<u8>, skip: int) -> Seq<u8> {
    if cut_at(content, skip) <= content.len() {
        content.skip(cut_at(content, skip))
    } else {
        Seq::empty()
    }
}

/// Where to copy from, given what was read from `skip` up to and with the next
/// line feed.
pub fn truncate_start(skip: u64, first: &[u8]) -> (r: u64)
    requires
        skip + first@.len() <= u64::MAX,
    ensures
        r == (if skip > 0 && first@.len() > 0 && first@.last() == 10 {
            skip + first@.len()
        } else {
            skip as int
        }),
{
    if skip > 0 && first.len() > 0 && first[first.len() - 1] == 10 {
        skip + first.len() as u64
    } else {
        skip
    }
}

/// Cuts `skip` bytes from the head of the log, and the rest of the line that
/// they end in.
pub fn truncate_log_from_head(content: &[u8], skip: usize) -> (r: Vec<u8>)
    ensures
        r@ == cut_head(content@, skip as int),
        skip <= content@.len() ==> r@.len() <= content@.len() - skip,
{
    let n: usize = content.len();
    let mut out: Vec<u8> = Vec::new();
    if skip >= n {
        proof {
            assert(out@ =~= cut_head(content@, skip as int));
        }
        return out;
    }
    let j: usize = find_feed(content, skip);
    let end: usize = if j < n {
        j + 1
    } else {
        n
    };
    let start: u64 = truncate_start(skip as u64, slice_subrange(content, skip, end));
    proof {
        assert(content@.subrange(start as int, n as int) =~= content@.skip(start as int));
    }
    extend(&mut out, slice_subrange(content, start as usize, n));
    proof {
        assert(out@ =~= content@.skip(start as int));
    }
    out
}

/// A log file that is cut because it is too large ends up within the limit, is
/// the tail of what it was, and begins with a whole line where it has a line
/// feed after the cut.
pub proof fn law_cut_within_limit(content: Seq<u8>)
    requires
        content.len() > MAX_LOG_BYTES,
    ensures
        ({
            let skip = content.len() - MAX_KEEP_BYTES;
            let at = cut_at(content, skip);
            &&& cut_head(content, skip).len() <= MAX_KEEP_BYTES
            &&& 0 < at <= content.len()
            &&& cut_head(content, skip) == content.skip(at)
            &&& (exists|k: int| skip <= k < content.len() && #[trigger] content[k] == 10)
                ==> content[at - 1] == 10
        }),
{
    let skip = content.len() - MAX_KEEP_BYTES;
    lemma_feed_at_bounds(content, skip);
}

// ---- Dated log files ----

/// The date in the name of a dated log file of an instance.
pub open spec fn dated_name(name: Seq<char>, id: Seq<char>) -> Option<(int, int, int)> {
    let prefix = "launcher-"@ + suffix_of(id);
    if !starts_with(name, prefix) {
        None
    } else {
        let rest = name.skip(prefix.len() as int);
        if !ends_with(rest, ".log"@) {
            None
        } else {
            let parts = split(rest.take(rest.len() - ".log"@.len()), '-');
            if parts.len() != 3 {
                None
            } else {
                match (
                    parse_unsigned(parts[0], i64::MAX as int),
                    parse_unsigned(parts[1], u32::MAX as int),
                    parse_unsigned(parts[2], u32::MAX as int),
                ) {
                    (Some(y), Some(m), Some(d)) => Some((y, m, d)),
                    _ => None,
                }
            }
        }
    }
}

/// Reads the date from the name of a dated log file.
pub fn legacy_log_date(name: &str, id: &str) -> (r: Option<(i64, u32, u32)>)
    ensures
        match r {
            Some(date) => dated_name(name@, id@) == Some(day_ints(date)),
            None => dated_name(name@, id@) is None,
        },
{
    let mut prefix = "launcher-".to_string();
    let suffix = instance_suffix(id);
    push_all(&mut prefix, suffix.as_str());
    let prefix = to_chars(prefix.as_str());
    let name = to_chars(name);
    let rest = match after_prefix(name.as_slice(), prefix.as_slice()) {
        Some(rest) => rest,
        None => {
            return None;
        },
    };
    let ending = to_chars(".log");
    let date = match before_suffix(rest, ending.as_slice()) {
        Some(date) => date,
        None => {
            return None;
        },
    };
    let parts = split_at_char(date, '-');
    proof {
        assert(pieces(parts@).len() == parts@.len());
    }
    if parts.len() != 3 {
        return None;
    }
    proof {
        assert(pieces(parts@)[0] == parts@[0]@);
        assert(pieces(parts@)[1] == parts@[1]@);
        assert(pieces(parts@)[2] == parts@[2]@);
    }
    let y = read_unsigned(parts[0], 0x7fff_ffff_ffff_ffff);
    let m = read_unsigned(parts[1], 0xffff_ffff);
    let d = read_unsigned(parts[2], 0xffff_ffff);
    match (y, m, d) {
        (Some(y), Some(m), Some(d)) => Some((y as i64, m as u32, d as u32)),
        _ => None,
    }
}

/// Whether a file in the log directory is a dated log file from before the
/// cutoff day.
pub fn legacy_log_expired(name: &str, id: &str, cutoff: i64) -> (r: bool)
    requires
        dated_name(name@, id@) matches Some((y, m, d)) ==> civil_fits(y, m, d),
    ensures
        r == (dated_name(name@, id@) matches Some((y, m, d)) && civil_day(y, m, d) < cutoff),
{
    match legacy_log_date(name, id) {
        Some((y, m, d)) => days_from_civil(y, m, d) < cutoff,
        None => false,
    }
}

// ---- Cleaning up ----

/// Decides whether to clean up before a line is written: once per log day. Gives
/// the first day that is kept.
pub fn cleanup_if_day_changed(last: &mut Option<LogDay>, today: LogDay) -> (r: Option<i64>)
    requires
        *old(last) != Some(today) ==> cutoff_fits(today),
    ensures
        *final(last) == Some(today),
        r is None <==> *old(last) == Some(today),
        r matches Some(cutoff) ==> cutoff == day_of(today) - 2,
{
    match *last {
        Some(day) => {
            if same_day(day, today) {
                return None;
            }
        },
        None => {},
    }
    *last = Some(today);
    Some(retention_cutoff(today))
}

/// A line stays for three log days, the day it was written included: on the
/// third it is still kept, on the fourth it is not.
pub proof fn law_kept_three_days(line: Seq<char>, t: LocalTime, today: LogDay)
    requires
        parse_stamp(line) == Some(t),
    ensures
        keeps(line, day_of(today) - 2) <==> day_of(today) - log_day_number(t) < 3,
{
}

/// The notice that is found is at most two log days old.
pub proof fn law_notice_forgotten(ls: Seq<Seq<u8>>, today: LogDay)
    requires
        forall|k: int|
            0 <= k < ls.len() ==> (parse_notice(#[trigger] text_of(ls[k])) matches Some((v, t))
                ==> log_day_number(t) < day_of(today) - 2),
    ensures
        last_notice(ls, day_of(today) - 2) is None,
    decreases ls.len(),
{
    if ls.len() > 0 {
        let n = ls.len() - 1;
        assert(ls[n] == ls.last());
        assert forall|k: int| 0 <= k < ls.drop_last().len() implies (parse_notice(
            #[trigger] text_of(ls.drop_last()[k]),
        ) matches Some((v, t)) ==> log_day_number(t) < day_of(today) - 2) by {
            assert(ls.drop_last()[k] == ls[k]);
        }
        law_notice_forgotten(ls.drop_last(), today);
        let _ = text_of(ls[n]);
    }
}

// ---- What the log promises ----

/// The home directory is the one that Windows names, else the one that is set
/// otherwise, else the working directory.
pub proof fn law_home_directory(a: Seq<char>, b: Seq<char>, other: Option<Seq<char>>)
    ensures
        home_of(Some(a), other) == a,
        home_of(None, Some(b)) == b,
        home_of(None, None) == "."@,
{
}

/// Cleaning a name goes character by character: an ASCII letter or digit, a hyphen
/// or an underscore stays, and everything else goes.
pub proof fn law_cleaning_keeps_the_rest(a: Seq<char>, b: Seq<char>, c: char)
    ensures
        sanitized(a + b) == sanitized(a) + sanitized(b),
        sanitized(seq![c]) == (if 48 <= c as u32 <= 57 || 65 <= c as u32 <= 90 || 97 <= c as u32
            <= 122 || c == '-' || c == '_' {
            seq![c]
        } else {
            seq![]
        }),
{
    let keep = |c: char| instance_char(c);
    lemma_sanitized_filters(a + b);
    lemma_sanitized_filters(a);
    lemma_sanitized_filters(b);
    Seq::filter_distributes_over_add(a, b, keep);
    lemma_sanitized_filters(seq![c]);
    reveal(Seq::filter);
    assert(seq![c].drop_last() =~= Seq::<char>::empty());
    assert(Seq::<char>::empty().filter(keep) =~= Seq::<char>::empty());
    assert(keep(seq![c].last()) == instance_char(c));
    assert(Seq::<char>::empty().push(c) =~= seq![c]);
}

proof fn lemma_sanitized_filters(s: Seq<char>)
    ensures
        sanitized(s) == s.filter(|c: char| instance_char(c)),
{
    let keep = |c: char| instance_char(c);
    let i = white_end(s, 0);
    let j = white_back(s, i, s.len() as int);
    law_trim(s, i, j);
    let (x, y, z) = (s.take(i), s.subrange(i, j), s.skip(j));
    assert(x + y + z =~= s);
    Seq::filter_distributes_over_add(x + y, z, keep);
    Seq::filter_distributes_over_add(x, y, keep);
    assert forall|k: int| 0 <= k < x.len() implies !instance_char(#[trigger] x[k]) by {
        assert(white(s[k]));
    }
    assert forall|k: int| 0 <= k < z.len() implies !instance_char(#[trigger] z[k]) by {
        assert(white(s[k + j]));
    }
    lemma_filter_none(x);
    lemma_filter_none(z);
    assert(s.filter(keep) =~= y.filter(keep));
}

proof fn lemma_filter_none(s: Seq<char>)
    requires
        forall|k: int| 0 <= k < s.len() ==> !instance_char(#[trigger] s[k]),
    ensures
        s.filter(|c: char| instance_char(c)) == Seq::<char>::empty(),
    decreases s.len(),
{
    reveal(Seq::filter);
    if s.len() > 0 {
        assert forall|k: int| 0 <= k < s.drop_last().len() implies !instance_char(
            #[trigger] s.drop_last()[k],
        ) by {
            assert(s.drop_last()[k] == s[k]);
        }
        lemma_filter_none(s.drop_last());
        assert(!instance_char(s[s.len() - 1]));
    }
}

/// A log file is named after the launcher, and after the instance if it has a name.
pub proof fn law_log_file_name(id: Seq<char>)
    ensures
        file_name_of(Seq::empty()) == "launcher.log"@,
        id.len() > 0 ==> file_name_of(id) == "launcher"@ + seq!['-'] + id + ".log"@,
        suffix_of(Seq::empty()) == Seq::<char>::empty(),
        id.len() > 0 ==> suffix_of(id) == id + seq!['-'],
{
    reveal_strlit("launcher");
    reveal_strlit("launcher-");
    reveal_strlit("-");
    if id.len() > 0 {
        assert(file_name_of(id) =~= "launcher"@ + seq!['-'] + id + ".log"@);
        assert(suffix_of(id) =~= id + seq!['-']);
    }
}

/// Each level has a tag of its own.
pub proof fn law_tags(a: Level, b: Level)
    ensures
        a.tag_text() == b.tag_text() ==> a == b,
        Level::Info.tag_text() == "INFO"@,
        Level::Warn.tag_text() == "WARN"@,
        Level::Fail.tag_text() == "FAIL"@,
        Level::Dsh.tag_text() == "DSH"@,
{
    reveal_strlit("INFO");
    reveal_strlit("WARN");
    reveal_strlit("FAIL");
    reveal_strlit("DSH");
    if a != b {
        assert(a.tag_text()[0] != b.tag_text()[0]);
    }
}

/// A time stands in fixed columns: four digits for the year, two for every other
/// field, and the separators between them.
pub proof fn law_stamp_columns(t: LocalTime)
    requires
        t.year <= 9999,
        t.month <= 99,
        t.day <= 99,
        t.hour <= 99,
        t.minute <= 99,
        t.second <= 99,
    ensures
        ({
            let s = stamp(t);
            &&& s.len() == 19
            &&& s[4] == '-' && s[7] == '-' && s[10] == ' ' && s[13] == ':' && s[16] == ':'
            &&& parse_unsigned(s.subrange(0, 4), 9999) == Some(t.year as int)
            &&& parse_unsigned(s.subrange(5, 7), 99) == Some(t.month as int)
            &&& parse_unsigned(s.subrange(8, 10), 99) == Some(t.day as int)
            &&& parse_unsigned(s.subrange(11, 13), 99) == Some(t.hour as int)
            &&& parse_unsigned(s.subrange(14, 16), 99) == Some(t.minute as int)
            &&& parse_unsigned(s.subrange(17, 19), 99) == Some(t.second as int)
        }),
{
    reveal_strlit("-");
    reveal_strlit(" ");
    reveal_strlit(":");
    let s = stamp(t);
    lemma_field(t.year as int, 4);
    lemma_field(t.month as int, 2);
    lemma_field(t.day as int, 2);
    lemma_field(t.hour as int, 2);
    lemma_field(t.minute as int, 2);
    lemma_field(t.second as int, 2);
    assert(s.subrange(0, 4) =~= padded(t.year as int, 4));
    assert(s.subrange(5, 7) =~= padded(t.month as int, 2));
    assert(s.subrange(8, 10) =~= padded(t.day as int, 2));
    assert(s.subrange(11, 13) =~= padded(t.hour as int, 2));
    assert(s.subrange(14, 16) =~= padded(t.minute as int, 2));
    assert(s.subrange(17, 19) =~= padded(t.second as int, 2));
}

/// A line begins with a time exactly if the separators stand in their columns and a
/// number stands in every field; the time is then made of those numbers.
pub proof fn law_stamp_is_read(line: Seq<char>)
    ensures
        parse_stamp(line) is Some <==> {
            &&& line.len() >= 19
            &&& line[4] == '-' && line[7] == '-' && line[10] == ' ' && line[13] == ':' && line[16]
                == ':'
            &&& parse_unsigned(line.subrange(0, 4), 9999) is Some
            &&& parse_unsigned(line.subrange(5, 7), 99) is Some
            &&& parse_unsigned(line.subrange(8, 10), 99) is Some
            &&& parse_unsigned(line.subrange(11, 13), 99) is Some
            &&& parse_unsigned(line.subrange(14, 16), 99) is Some
            &&& parse_unsigned(line.subrange(17, 19), 99) is Some
        },
        parse_stamp(line) matches Some(t) ==> {
            &&& parse_unsigned(line.subrange(0, 4), 9999) == Some(t.year as int)
            &&& parse_unsigned(line.subrange(5, 7), 99) == Some(t.month as int)
            &&& parse_unsigned(line.subrange(8, 10), 99) == Some(t.day as int)
            &&& parse_unsigned(line.subrange(11, 13), 99) == Some(t.hour as int)
            &&& parse_unsigned(line.subrange(14, 16), 99) == Some(t.minute as int)
            &&& parse_unsigned(line.subrange(17, 19), 99) == Some(t.second as int)
        },
{
    if line.len() >= 19 {
        lemma_short_number(line.subrange(0, 4));
        lemma_short_number(line.subrange(5, 7));
        lemma_short_number(line.subrange(8, 10));
        lemma_short_number(line.subrange(11, 13));
        lemma_short_number(line.subrange(14, 16));
        lemma_short_number(line.subrange(17, 19));
    }
}

proof fn lemma_short_number(s: Seq<char>)
    requires
        s.len() == 2 || s.len() == 4,
    ensures
        parse_unsigned(s, 65535) == parse_unsigned(
            s,
            if s.len() == 2 {
                99
            } else {
                9999
            },
        ),
        parse_unsigned(s, 65535) matches Some(n) ==> 0 <= n <= 65535,
{
    let t = unsigned_body(s);
    if all_digits(t) {
        lemma_value_bound(t);
    }
    if parse_unsigned(s, 65535) is Some {
        lemma_parse_unsigned_range(s, 65535);
    }
}

proof fn lemma_value_bound(t: Seq<char>)
    requires
        all_digits(t),
    ensures
        t.len() <= 1 ==> digits_value(t) <= 9,
        t.len() <= 2 ==> digits_value(t) <= 99,
        t.len() <= 3 ==> digits_value(t) <= 999,
        t.len() <= 4 ==> digits_value(t) <= 9999,
    decreases t.len(),
{
    if t.len() > 0 {
        assert(all_digits(t.drop_last()));
        lemma_value_bound(t.drop_last());
        assert(is_digit(t[t.len() - 1]));
    }
}

/// A line is the time, the tag in brackets and the message, and ends with a line
/// feed.
pub proof fn law_line_columns(t: LocalTime, level: Level, msg: Seq<char>)
    ensures
        ({
            let line = line_text(t, level, msg);
            let n = stamp(t).len() as int;
            let m = n + 2 + level.tag_text().len();
            &&& line.len() == m + 2 + msg.len() + 1
            &&& line.take(n) == stamp(t)
            &&& line[n] == ' ' && line[n + 1] == '['
            &&& line.subrange(n + 2, m) == level.tag_text()
            &&& line[m] == ']' && line[m + 1] == ' '
            &&& line.subrange(m + 2, line.len() - 1) == msg
            &&& line.last() == '\n'
        }),
{
    reveal_strlit(" [");
    reveal_strlit("] ");
    reveal_strlit("\n");
    let line = line_text(t, level, msg);
    let n = stamp(t).len() as int;
    let m = n + 2 + level.tag_text().len();
    assert(line.take(n) =~= stamp(t));
    assert(line.subrange(n + 2, m) =~= level.tag_text());
    assert(line.subrange(m + 2, line.len() - 1) =~= msg);
}

/// A line that records a notice is a line of information whose message begins with
/// the words of a notice; its version is all that follows them up to the first
/// character that is neither a digit nor a dot, and is not empty.
pub proof fn law_notice_is_a_notice(line: Seq<char>, v: Seq<char>, t: LocalTime)
    requires
        parse_notice(line) == Some((v, t)),
    ensures
        parse_stamp(line) == Some(t),
        v.len() > 0,
        forall|k: int|
            0 <= k < v.len() ==> 48 <= #[trigger] v[k] as u32 <= 57 || v[k] == '.',
        ({
            let head = line.take(19) + " [INFO] "@ + "更新通知成功：远端 v"@ + v;
            &&& head.is_prefix_of(line)
            &&& line.len() > head.len() ==> {
                let next = line[head.len() as int];
                !('0' <= next <= '9') && next != '.'
            }
        }),
{
    let (tag, words) = (" [INFO] "@, "更新通知成功：远端 v"@);
    let one = line.skip(19);
    let two = one.skip(tag.len() as int);
    let rest = two.skip(words.len() as int);
    let n = version_end(rest, 0);
    lemma_version_end_bounds(rest, 0);
    assert(v == rest.take(n));
    lemma_head_and_rest(line, tag, words, n);
    let head = line.take(19) + tag + words + v;
    if line.len() > head.len() {
        assert(head.len() == 19 + tag.len() + words.len() + n);
        assert(n < rest.len());
        assert(!version_char(line[head.len() as int]));
    }
    assert forall|k: int| 0 <= k < v.len() implies 48 <= #[trigger] v[k] as u32 <= 57 || v[k]
        == '.' by {
        assert(version_char(rest[k]));
    }
}

proof fn lemma_head_and_rest(line: Seq<char>, tag: Seq<char>, words: Seq<char>, n: int)
    requires
        line.len() >= 19,
        starts_with(line.skip(19), tag),
        starts_with(line.skip(19).skip(tag.len() as int), words),
        0 <= n <= line.skip(19).skip(tag.len() as int).skip(words.len() as int).len(),
    ensures
        ({
            let rest = line.skip(19).skip(tag.len() as int).skip(words.len() as int);
            let head = line.take(19) + tag + words + rest.take(n);
            &&& head.is_prefix_of(line)
            &&& line.len() > head.len() ==> line[head.len() as int] == rest[n]
        }),
{
    let one = line.skip(19);
    let two = one.skip(tag.len() as int);
    let rest = two.skip(words.len() as int);
    let head = line.take(19) + tag + words + rest.take(n);
    assert forall|k: int| 0 <= k < tag.len() implies #[trigger] tag[k] == line[19 + k] by {
        assert(one.take(tag.len() as int)[k] == one[k]);
    }
    assert forall|k: int| 0 <= k < words.len() implies #[trigger] words[k] == line[19 + tag.len()
        + k] by {
        assert(two.take(words.len() as int)[k] == two[k]);
    }
    assert forall|k: int| 0 <= k < head.len() implies #[trigger] head[k] == line[k] by {
        let m = 19 + tag.len();
        if k >= 19 && k < m {
            assert(head[k] == tag[k - 19]);
        } else if k >= m && k < m + words.len() {
            assert(head[k] == words[k - m]);
        } else if k >= m + words.len() {
            assert(head[k] == rest[k - m - words.len()]);
        }
    }
    assert(line.subrange(0, head.len() as int) =~= head);
}

proof fn lemma_version_end_bounds(s: Seq<char>, i: int)
    requires
        0 <= i <= s.len(),
    ensures
        i <= version_end(s, i) <= s.len(),
        forall|k: int| i <= k < version_end(s, i) ==> version_char(#[trigger] s[k]),
        version_end(s, i) < s.len() ==> !version_char(s[version_end(s, i)]),
    decreases s.len() - i,
{
    if i < s.len() && version_char(s[i]) {
        lemma_version_end_bounds(s, i + 1);
    }
}

/// The last recent notice counts: what comes later replaces what came before.
pub proof fn law_last_notice_counts(
    a: Seq<Seq<u8>>,
    b: Seq<Seq<u8>>,
    line: Seq<u8>,
    cutoff: int,
)
    ensures
        last_notice(a + b, cutoff) == (if last_notice(b, cutoff) is Some {
            last_notice(b, cutoff)
        } else {
            last_notice(a, cutoff)
        }),
        last_notice(seq![line], cutoff) == (match parse_notice(text_of(line)) {
            Some((v, t)) => if log_day_number(t) >= cutoff {
                Some(v)
            } else {
                None
            },
            None => None,
        }),
        last_notice(Seq::empty(), cutoff) is None,
    decreases b.len(),
{
    assert(seq![line].drop_last() =~= Seq::<Seq<u8>>::empty());
    assert(last_notice(Seq::empty(), cutoff) is None);
    if b.len() > 0 {
        assert((a + b).drop_last() =~= a + b.drop_last());
        law_last_notice_counts(a, b.drop_last(), line, cutoff);
    } else {
        assert(a + b =~= a);
    }
}

/// Pruning goes line by line, in order: a line goes exactly if it begins with a time
/// on a day before the cutoff day.
pub proof fn law_pruning_line_by_line(a: Seq<Seq<u8>>, b: Seq<Seq<u8>>, line: Seq<u8>, cutoff: int)
    ensures
        kept_lines(a + b, cutoff) == kept_lines(a, cutoff) + kept_lines(b, cutoff),
        kept_lines(seq![line], cutoff) == (match parse_stamp(text_of(line)) {
            Some(t) => if log_day_number(t) < cutoff {
                seq![]
            } else {
                seq![line]
            },
            None => seq![line],
        }),
        kept_lines(Seq::empty(), cutoff) == Seq::<Seq<u8>>::empty(),
    decreases b.len(),
{
    assert(seq![line].drop_last() =~= Seq::<Seq<u8>>::empty());
    assert(kept_lines(Seq::empty(), cutoff) =~= Seq::<Seq<u8>>::empty());
    assert(Seq::<Seq<u8>>::empty().push(line) =~= seq![line]);
    if b.len() > 0 {
        assert((a + b).drop_last() =~= a + b.drop_last());
        law_pruning_line_by_line(a, b.drop_last(), line, cutoff);
        assert(kept_lines(a + b, cutoff) =~= kept_lines(a, cutoff) + kept_lines(b, cutoff));
    } else {
        assert(a + b =~= a);
        assert(kept_lines(a + b, cutoff) =~= kept_lines(a, cutoff) + kept_lines(b, cutoff));
    }
}

/// Cutting the head of a file drops what was asked for and the rest of the line it
/// ends in, and no more: what is left begins right after the first line feed from
/// there on, or right there if there is none; cutting nothing changes nothing.
pub proof fn law_cut_at_the_next_line(content: Seq<u8>, skip: int)
    requires
        0 <= skip <= content.len(),
    ensures
        cut_head(content, 0) == content,
        skip > 0 ==> ({
            let at = content.len() - cut_head(content, skip).len();
            &&& cut_head(content, skip) == content.skip(at)
            &&& skip <= at
            &&& at == skip ==> forall|k: int| skip <= k < content.len() ==> content[k] != 10
            &&& at > skip ==> content[at - 1] == 10 && forall|k: int|
                skip <= k < at - 1 ==> content[k] != 10
        }),
{
    assert(content.skip(0) =~= content);
    lemma_feed_at_bounds(content, skip);
}

/// The name of a dated log file is read back: the date that stands between the
/// instance's name and the ending.
pub proof fn law_dated_name_is_read(id: Seq<char>, y: int, m: int, d: int)
    requires
        0 <= y <= i64::MAX,
        0 <= m <= u32::MAX,
        0 <= d <= u32::MAX,
    ensures
        dated_name(
            "launcher-"@ + suffix_of(id) + (padded(y, 4) + seq!['-'] + (padded(m, 2) + seq!['-']
                + padded(d, 2))) + ".log"@,
            id,
        ) == Some((y, m, d)),
{
    let date = padded(y, 4) + seq!['-'] + (padded(m, 2) + seq!['-'] + padded(d, 2));
    let prefix = "launcher-"@ + suffix_of(id);
    let ending = ".log"@;
    let name = prefix + date + ending;
    lemma_padded_value(y, 4);
    lemma_padded_value(m, 2);
    lemma_padded_value(d, 2);
    assert(name.take(prefix.len() as int) =~= prefix);
    let rest = name.skip(prefix.len() as int);
    assert(rest =~= date + ending);
    assert(rest.skip(rest.len() - ending.len()) =~= ending);
    assert(rest.take(rest.len() - ending.len()) =~= date);
    assert forall|k: int| 0 <= k < padded(y, 4).len() implies padded(y, 4)[k] != '-' by {
        assert(is_digit(padded(y, 4)[k]));
    }
    assert forall|k: int| 0 <= k < padded(m, 2).len() implies padded(m, 2)[k] != '-' by {
        assert(is_digit(padded(m, 2)[k]));
    }
    assert forall|k: int| 0 <= k < padded(d, 2).len() implies padded(d, 2)[k] != '-' by {
        assert(is_digit(padded(d, 2)[k]));
    }
    lemma_split_cons(padded(y, 4), '-', padded(m, 2) + seq!['-'] + padded(d, 2));
    lemma_split_cons(padded(m, 2), '-', padded(d, 2));
    lemma_split_single(padded(d, 2), '-');
    let parts = split(date, '-');
    assert(parts =~= seq![padded(y, 4), padded(m, 2), padded(d, 2)]);
    assert(is_digit(padded(y, 4)[0]) && is_digit(padded(m, 2)[0]) && is_digit(padded(d, 2)[0]));
}

/// Only a name of the instance's own gives a date.
pub proof fn law_dated_name_is_own(name: Seq<char>, id: Seq<char>)
    requires
        dated_name(name, id) is Some,
    ensures
        ("launcher-"@ + suffix_of(id)).is_prefix_of(name),
        ".log"@.is_suffix_of(name),
{
    let prefix = "launcher-"@ + suffix_of(id);
    let rest = name.skip(prefix.len() as int);
    let n = ".log"@.len() as int;
    assert(name.subrange(0, prefix.len() as int) =~= prefix);
    assert(rest.skip(rest.len() - n) =~= ".log"@);
    assert(name.subrange(name.len() - n, name.len() as int) =~= rest.skip(rest.len() - n));
}

/// What is said is the lines that are meant, as many, in order, each with its level
/// and its message.
pub proof fn law_what_is_said(cmds: Seq<LogCommand>, want: Seq<Line>, i: int)
    ensures
        said(cmds, want) ==> cmds.len() == want.len() && (0 <= i < want.len() ==> (
        cmds[i] matches LogCommand::Write { level, msg } && level == want[i].0 && msg@
            == want[i].1)),
{
    if said(cmds, want) && 0 <= i < want.len() {
        assert(writes(cmds[i], want[i].0, want[i].1));
    }
}

/// A line is logged exactly if one is meant, and is then the one that is meant.
pub proof fn law_what_is_logged(cmd: Option<LogCommand>, want: Option<Line>)
    requires
        logs(cmd, want),
    ensures
        cmd is Some <==> want is Some,
        cmd is Some ==> (cmd->0 matches LogCommand::Write { level, msg } && level == (want->0).0
            && msg@ == (want->0).1),
{
}

} // verus!
