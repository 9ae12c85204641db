//! What was written into the log is found in it again.
use vstd::prelude::*;
use vstd::utf8::{encode_scalar, encode_utf8, encode_utf8_decode_utf8, encode_utf8_valid_utf8};

use crate::bytes::{
    are_closed, joined, law_lines_join, law_lines_of_joined, lemma_joined_push, lemma_lines_list,
    line_list, lines, text_of,
};
use crate::calendar::{day_of, log_day_number, LocalTime, LogDay};
use crate::log::{
    keeps_bytes, kept_lines, last_notice, law_kept_three_days, law_notice_round_trip,
    law_pruned_stays, law_stamp_round_trip, line_text, notice_text, recent_notice, stamp, Level,
};
use crate::release::{law_release_version_is_plain, release_version};
use crate::text::{is_digit, lemma_padded_value, padded};
use crate::update::{checked, law_notice_once_across_restarts, no_checks, CheckState};
use crate::version::version_char;

verus! {

/// Whether every field of a time fits in its column.
pub open spec fn fits_stamp(t: LocalTime) -> bool {
    t.year <= 9999 && t.month <= 99 && t.day <= 99 && t.hour <= 99 && t.minute <= 99 && t.second
        <= 99
}

/// Whether a text holds no line feed.
pub open spec fn is_one_line(s: Seq<char>) -> bool {
    forall|k: int| 0 <= k < s.len() ==> #[trigger] s[k] != '\n'
}

proof fn lemma_one_line_join(a: Seq<char>, b: Seq<char>)
    requires
        is_one_line(a),
        is_one_line(b),
    ensures
        is_one_line(a + b),
{
    assert forall|k: int| 0 <= k < (a + b).len() implies #[trigger] (a + b)[k] != '\n' by {
        if k < a.len() {
            assert((a + b)[k] == a[k]);
        } else {
            assert((a + b)[k] == b[k - a.len()]);
        }
    }
}

proof fn lemma_padded_one_line(n: int, width: int)
    requires
        0 <= n,
    ensures
        is_one_line(padded(n, width)),
{
    lemma_padded_value(n, width);
    assert forall|k: int| 0 <= k < padded(n, width).len() implies #[trigger] padded(n, width)[k]
        != '\n' by {
        assert(is_digit(padded(n, width)[k]));
    }
}

proof fn lemma_stamp_one_line(t: LocalTime)
    ensures
        is_one_line(stamp(t)),
{
    reveal_strlit("-");
    reveal_strlit(" ");
    reveal_strlit(":");
    let (y, mo, d) = (padded(t.year as int, 4), padded(t.month as int, 2), padded(t.day as int, 2));
    let (h, mi, s) = (
        padded(t.hour as int, 2),
        padded(t.minute as int, 2),
        padded(t.second as int, 2),
    );
    lemma_padded_one_line(t.year as int, 4);
    lemma_padded_one_line(t.month as int, 2);
    lemma_padded_one_line(t.day as int, 2);
    lemma_padded_one_line(t.hour as int, 2);
    lemma_padded_one_line(t.minute as int, 2);
    lemma_padded_one_line(t.second as int, 2);
    lemma_one_line_join(y, "-"@);
    lemma_one_line_join(y + "-"@, mo);
    lemma_one_line_join(y + "-"@ + mo, "-"@);
    lemma_one_line_join(y + "-"@ + mo + "-"@, d);
    lemma_one_line_join(y + "-"@ + mo + "-"@ + d, " "@);
    lemma_one_line_join(y + "-"@ + mo + "-"@ + d + " "@, h);
    lemma_one_line_join(y + "-"@ + mo + "-"@ + d + " "@ + h, ":"@);
    lemma_one_line_join(y + "-"@ + mo + "-"@ + d + " "@ + h + ":"@, mi);
    lemma_one_line_join(y + "-"@ + mo + "-"@ + d + " "@ + h + ":"@ + mi, ":"@);
    lemma_one_line_join(y + "-"@ + mo + "-"@ + d + " "@ + h + ":"@ + mi + ":"@, s);
}

/// What a line of the log holds before its line feed.
spec fn line_body(t: LocalTime, level: Level, msg: Seq<char>) -> Seq<char> {
    stamp(t) + " ["@ + level.tag_text() + "] "@ + msg
}

proof fn lemma_line_body(t: LocalTime, level: Level, msg: Seq<char>)
    requires
        is_one_line(msg),
    ensures
        is_one_line(line_body(t, level, msg)),
{
    reveal_strlit(" [");
    reveal_strlit("] ");
    reveal_strlit("INFO");
    reveal_strlit("WARN");
    reveal_strlit("FAIL");
    reveal_strlit("DSH");
    lemma_stamp_one_line(t);
    lemma_one_line_join(stamp(t), " ["@);
    lemma_one_line_join(stamp(t) + " ["@, level.tag_text());
    lemma_one_line_join(stamp(t) + " ["@ + level.tag_text(), "] "@);
    lemma_one_line_join(stamp(t) + " ["@ + level.tag_text() + "] "@, msg);
}

proof fn lemma_bytes_of_scalar(v: u32)
    by (bit_vector)
    ensures
        v <= 0x7f ==> (v & 0x7f) as u8 == v,
        0xc0 | ((v >> 6) & 0x1f) as u8 != 10u8,
        0xe0 | ((v >> 12) & 0x0f) as u8 != 10u8,
        0xf0 | ((v >> 18) & 0x07) as u8 != 10u8,
        0x80 | (v & 0x3f) as u8 != 10u8,
        0x80 | ((v >> 6) & 0x3f) as u8 != 10u8,
        0x80 | ((v >> 12) & 0x3f) as u8 != 10u8,
{
}

proof fn lemma_scalar_no_feed(c: char)
    requires
        c != '\n',
    ensures
        forall|k: int|
            0 <= k < encode_scalar(c as u32).len() ==> #[trigger] encode_scalar(c as u32)[k] != 10,
{
    lemma_bytes_of_scalar(c as u32);
}

proof fn lemma_encoded_no_feed(s: Seq<char>)
    requires
        is_one_line(s),
    ensures
        forall|k: int| 0 <= k < encode_utf8(s).len() ==> #[trigger] encode_utf8(s)[k] != 10,
    decreases s.len(),
{
    if s.len() > 0 {
        let head = encode_scalar(s[0] as u32);
        let rest = s.drop_first();
        assert(is_one_line(rest)) by {
            assert forall|k: int| 0 <= k < rest.len() implies #[trigger] rest[k] != '\n' by {
                assert(rest[k] == s[k + 1]);
            }
        }
        lemma_encoded_no_feed(rest);
        lemma_scalar_no_feed(s[0]);
        let tail = encode_utf8(rest);
        let all = encode_utf8(s);
        assert forall|k: int| 0 <= k < all.len() implies #[trigger] all[k] != 10 by {
            if k < head.len() {
                assert(all[k] == head[k]);
            } else {
                assert(all[k] == tail[k - head.len()]);
            }
        }
    }
}

proof fn lemma_encode_push_feed(s: Seq<char>)
    ensures
        encode_utf8(s + "\n"@) == encode_utf8(s) + seq![10u8],
    decreases s.len(),
{
    reveal_strlit("\n");
    let feed = "\n"@;
    if s.len() == 0 {
        lemma_bytes_of_scalar('\n' as u32);
        assert(s + feed =~= feed);
        assert(feed.drop_first() =~= Seq::<char>::empty());
        assert(encode_scalar('\n' as u32) =~= seq![10u8]);
        reveal_with_fuel(encode_utf8, 2);
        assert(encode_utf8(feed) =~= seq![10u8]);
        assert(encode_utf8(s) + seq![10u8] =~= seq![10u8]);
    } else {
        lemma_encode_push_feed(s.drop_first());
        assert((s + feed).drop_first() =~= s.drop_first() + feed);
        assert((s + feed)[0] == s[0]);
        assert(encode_utf8(s + feed) =~= encode_utf8(s) + seq![10u8]);
    }
}

/// The bytes of a line of the log.
pub open spec fn line_bytes(t: LocalTime, level: Level, msg: Seq<char>) -> Seq<u8> {
    encode_utf8(line_text(t, level, msg))
}

/// A message without a line feed becomes one line of the log, and leaves the lines
/// before it as they are.
pub proof fn law_message_is_one_line(
    content: Seq<u8>,
    t: LocalTime,
    level: Level,
    msg: Seq<char>,
)
    requires
        content.len() == 0 || content.last() == 10,
        is_one_line(msg),
    ensures
        lines(content + line_bytes(t, level, msg)) == lines(content).push(
            line_bytes(t, level, msg),
        ),
{
    let body = line_body(t, level, msg);
    let line = line_bytes(t, level, msg);
    lemma_line_body(t, level, msg);
    lemma_encoded_no_feed(body);
    lemma_encode_push_feed(body);
    assert(line == encode_utf8(body) + seq![10u8]);
    let ls = lines(content);
    lemma_lines_list(content);
    law_lines_join(content);
    assert(are_closed(ls)) by {
        if ls.len() > 0 {
            let last = ls.last();
            assert(joined(ls) == joined(ls.drop_last()) + last);
            assert(content.last() == last.last());
            assert forall|k: int| 0 <= k < ls.len() implies (#[trigger] ls[k]).len() > 0
                && ls[k].last() == 10 by {
                if k < ls.len() - 1 {
                    assert(ls.drop_last()[k] == ls[k]);
                }
            }
        }
    }
    let more = ls.push(line);
    assert(more.drop_last() =~= ls);
    assert(line_list(more)) by {
        assert forall|k: int, j: int|
            #![trigger more[k][j]]
            0 <= k < more.len() && 0 <= j < more[k].len() - 1 implies more[k][j] != 10 by {
            if k < ls.len() {
                assert(more[k] == ls[k]);
                assert(ls[k][j] != 10);
            } else {
                assert(more[k][j] == encode_utf8(body)[j]);
            }
        }
    }
    lemma_joined_push(ls, line);
    law_lines_of_joined(more);
}

/// The bytes of a line that was written read as that line.
pub proof fn law_line_reads_back(t: LocalTime, level: Level, msg: Seq<char>)
    ensures
        text_of(line_bytes(t, level, msg)) == line_text(t, level, msg),
{
    encode_utf8_valid_utf8(line_text(t, level, msg));
    encode_utf8_decode_utf8(line_text(t, level, msg));
}

/// A notice that was written into the log is found by the next reading, as the last
/// one, as long as its day is kept: that is how a version is not shown twice, also
/// by another run of the launcher.
pub proof fn law_written_notice_is_found(
    content: Seq<u8>,
    t: LocalTime,
    version: Seq<char>,
    cutoff: int,
)
    requires
        content.len() == 0 || content.last() == 10,
        fits_stamp(t),
        version.len() > 0,
        forall|k: int| 0 <= k < version.len() ==> version_char(#[trigger] version[k]),
        log_day_number(t) >= cutoff,
    ensures
        last_notice(
            lines(content + line_bytes(t, Level::Info, notice_text(version))),
            cutoff,
        ) == Some(version),
{
    reveal_strlit("更新通知成功：远端 v");
    let words = "更新通知成功：远端 v"@;
    assert(is_one_line(words));
    assert(is_one_line(version)) by {
        assert forall|k: int| 0 <= k < version.len() implies #[trigger] version[k] != '\n' by {
            assert(version_char(version[k]));
        }
    }
    lemma_one_line_join(words, version);
    law_message_is_one_line(content, t, Level::Info, notice_text(version));
    law_line_reads_back(t, Level::Info, notice_text(version));
    law_notice_round_trip(t, version);
    let line = line_bytes(t, Level::Info, notice_text(version));
    assert(lines(content).push(line).last() == line);
}

/// A line that was written stays in the log for three log days, the day it was
/// written included, whatever it says.
pub proof fn law_written_line_is_kept(
    t: LocalTime,
    level: Level,
    msg: Seq<char>,
    today: LogDay,
)
    requires
        fits_stamp(t),
    ensures
        keeps_bytes(line_bytes(t, level, msg), day_of(today) - 2) <==> day_of(today)
            - log_day_number(t) < 3,
{
    let rest = " ["@ + level.tag_text() + "] "@ + msg + "\n"@;
    law_line_reads_back(t, level, msg);
    assert(line_text(t, level, msg) =~= stamp(t) + rest);
    law_stamp_round_trip(t, rest);
    law_kept_three_days(line_text(t, level, msg), t, today);
}

/// Dropping the lines before a day drops no notice that a reading from that day on
/// would find.
pub proof fn law_pruning_keeps_notices(ls: Seq<Seq<u8>>, cutoff: int)
    ensures
        last_notice(kept_lines(ls, cutoff), cutoff) == last_notice(ls, cutoff),
    decreases ls.len(),
{
    if ls.len() > 0 {
        law_pruning_keeps_notices(ls.drop_last(), cutoff);
        let some = kept_lines(ls.drop_last(), cutoff);
        if keeps_bytes(ls.last(), cutoff) {
            assert(some.push(ls.last()).drop_last() =~= some);
        }
    }
}

/// A line that is no notice leaves the last notice as it was.
pub proof fn law_other_lines_change_no_notice(
    content: Seq<u8>,
    t: LocalTime,
    level: Level,
    msg: Seq<char>,
    cutoff: int,
)
    requires
        content.len() == 0 || content.last() == 10,
        is_one_line(msg),
        recent_notice(line_bytes(t, level, msg), cutoff) is None,
    ensures
        last_notice(lines(content + line_bytes(t, level, msg)), cutoff) == last_notice(
            lines(content),
            cutoff,
        ),
{
    law_message_is_one_line(content, t, level, msg);
    let line = line_bytes(t, level, msg);
    assert(lines(content).push(line).drop_last() =~= lines(content));
    assert(lines(content).push(line).last() == line);
}

/// A line of the log: when it was written, its level and its message.
pub type Written = (LocalTime, Level, Seq<char>);

/// The log after some more lines.
pub open spec fn appended(content: Seq<u8>, more: Seq<Written>) -> Seq<u8>
    decreases more.len(),
{
    if more.len() == 0 {
        content
    } else {
        let (t, level, msg) = more.last();
        appended(content, more.drop_last()) + line_bytes(t, level, msg)
    }
}

/// Whether a line is one line, and records no notice of the cutoff day or after.
pub open spec fn no_notice(line: Written, cutoff: int) -> bool {
    is_one_line(line.2) && recent_notice(line_bytes(line.0, line.1, line.2), cutoff) is None
}

proof fn lemma_line_closed(content: Seq<u8>, t: LocalTime, level: Level, msg: Seq<char>)
    ensures
        (content + line_bytes(t, level, msg)).len() > 0,
        (content + line_bytes(t, level, msg)).last() == 10,
{
    lemma_encode_push_feed(line_body(t, level, msg));
    let line = line_bytes(t, level, msg);
    assert(line == encode_utf8(line_body(t, level, msg)) + seq![10u8]);
    assert((content + line).last() == line.last());
}

proof fn lemma_appended(content: Seq<u8>, more: Seq<Written>, cutoff: int)
    requires
        content.len() == 0 || content.last() == 10,
        forall|k: int| 0 <= k < more.len() ==> no_notice(#[trigger] more[k], cutoff),
    ensures
        appended(content, more).len() == 0 || appended(content, more).last() == 10,
        last_notice(lines(appended(content, more)), cutoff) == last_notice(lines(content), cutoff),
    decreases more.len(),
{
    if more.len() > 0 {
        let n = more.len() - 1;
        let before = more.drop_last();
        assert forall|k: int| 0 <= k < before.len() implies no_notice(
            #[trigger] before[k],
            cutoff,
        ) by {
            assert(before[k] == more[k]);
        }
        lemma_appended(content, before, cutoff);
        let (t, level, msg) = more[n];
        assert(no_notice(more[n], cutoff));
        law_other_lines_change_no_notice(appended(content, before), t, level, msg, cutoff);
        lemma_line_closed(appended(content, before), t, level, msg);
    }
}

/// A version that was read from an answer, shown and logged is not shown again by
/// another run of the launcher, as long as the day of the line is kept: neither
/// with the log as it was left, whatever other lines came after the notice, nor
/// after the lines before the kept days were dropped from it.
pub proof fn law_shown_version_is_not_shown_again(
    body: Seq<char>,
    st: CheckState,
    local: Seq<char>,
    last: Option<Seq<char>>,
    day: LogDay,
    content: Seq<u8>,
    t: LocalTime,
    more: Seq<Written>,
    cutoff: int,
    later_local: Seq<char>,
    later_error: Option<Seq<char>>,
    later_day: LogDay,
)
    requires
        release_version(body) is Some,
        checked(st, release_version(body), local, last, None, day).notice,
        content.len() == 0 || content.last() == 10,
        fits_stamp(t),
        log_day_number(t) >= cutoff,
        forall|k: int| 0 <= k < more.len() ==> no_notice(#[trigger] more[k], cutoff),
    ensures
        ({
            let (level, msg) = checked(st, release_version(body), local, last, None, day).lines[0];
            let log = appended(content + line_bytes(t, level, msg), more);
            let pruned = joined(kept_lines(lines(log), cutoff));
            let again = |found: Option<Seq<char>>|
                checked(
                    no_checks(),
                    release_version(body),
                    later_local,
                    found,
                    later_error,
                    later_day,
                ).notice;
            &&& last_notice(lines(log), cutoff) == release_version(body)
            &&& last_notice(lines(pruned), cutoff) == release_version(body)
            &&& !again(last_notice(lines(log), cutoff))
            &&& !again(last_notice(lines(pruned), cutoff))
        }),
{
    let remote = release_version(body)->0;
    law_release_version_is_plain(body);
    let out = checked(st, Some(remote), local, last, None, day);
    assert(out.lines[0] == (Level::Info, notice_text(remote)));
    let with = content + line_bytes(t, Level::Info, notice_text(remote));
    law_written_notice_is_found(content, t, remote, cutoff);
    lemma_line_closed(content, t, Level::Info, notice_text(remote));
    lemma_appended(with, more, cutoff);
    let log = appended(with, more);
    law_pruned_stays(log, cutoff);
    law_pruning_keeps_notices(lines(log), cutoff);
    law_notice_once_across_restarts(remote, later_local, later_error, later_day);
}

} // verus!
