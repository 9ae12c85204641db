//! Looking for a newer release: when to look, and when to tell the user.
use vstd::prelude::*;

use crate::calendar::{same_day, LogDay};
use crate::log::{error, info, logs, notice_message, notice_text, writes, Level, LogCommand};
use crate::release::UpdateInfo;
use crate::text::{
    ascii_lower, ascii_lower_all, from_chars, law_trim_around, lowered, opt_str, opt_string,
    push_all, same_text, to_chars, trim, trimmed, white,
};
use crate::version::{is_newer, law_newer_is_an_order, newer};

verus! {

/// Whether looking for updates is switched off by a setting.
pub open spec fn switched_off(value: Option<Seq<char>>) -> bool {
    match value {
        Some(v) => {
            let w = ascii_lower_all(trim(v));
            w == "1"@ || w == "true"@ || w == "yes"@ || w == "on"@
        },
        None => false,
    }
}

/// Whether looking for updates is switched off.
pub fn update_check_disabled(value: Option<&str>) -> (r: bool)
    ensures
        r == switched_off(opt_str(value)),
{
    match value {
        Some(v) => {
            let chars = to_chars(v);
            let low = lowered(trimmed(chars.as_slice()));
            let word = from_chars(low.as_slice());
            same_text(word.as_str(), "1") || same_text(word.as_str(), "true") || same_text(
                word.as_str(),
                "yes",
            ) || same_text(word.as_str(), "on")
        },
        None => false,
    }
}

// ---- When to look, when to tell ----

/// Milliseconds between two checks.
pub const CHECK_INTERVAL_MS: u64 = 3_600_000;

/// When the next check is due.
#[derive(Clone, Copy, Debug, PartialEq, Eq, Structural)]
pub struct CheckTimer {
    /// The moment from which the next check is due, in milliseconds.
    pub next: u64,
}

impl CheckTimer {
    /// The first check is due at once.
    pub fn new(now: u64) -> (r: CheckTimer)
        ensures
            r.next == now,
    {
        CheckTimer { next: now }
    }

    /// Looks at the clock: whether to stop, to check now, or to rest. After a
    /// check the next one is due an hour later.
    pub fn poll(&mut self, quitting: bool, now: u64) -> (r: CheckPoll)
        requires
            now + CHECK_INTERVAL_MS <= u64::MAX,
        ensures
            r == poll_of(*old(self), quitting, now),
            final(self).next == (if r == CheckPoll::Check {
                (now + CHECK_INTERVAL_MS) as u64
            } else {
                old(self).next
            }),
    {
        if quitting {
            CheckPoll::Stop
        } else if now >= self.next {
            self.next = now + CHECK_INTERVAL_MS;
            CheckPoll::Check
        } else {
            CheckPoll::Rest
        }
    }
}

/// What the thread that checks does next.
#[derive(Clone, Copy, Debug, PartialEq, Eq, Structural)]
pub enum CheckPoll {
    /// End.
    Stop,
    /// Check now, then rest.
    Check,
    /// Rest.
    Rest,
}

/// Milliseconds to rest before the clock is looked at again.
pub const CHECK_REST_MS: u64 = 1000;

/// What a look at the clock gives.
pub open spec fn poll_of(timer: CheckTimer, quitting: bool, now: u64) -> CheckPoll {
    if quitting {
        CheckPoll::Stop
    } else if now >= timer.next {
        CheckPoll::Check
    } else {
        CheckPoll::Rest
    }
}

/// The first look at the clock checks at once; after a check, a later look checks
/// if and only if an hour has passed; and nothing checks once the launcher quits.
pub proof fn law_checked_hourly(start: u64, checked_at: u64, now: u64)
    requires
        checked_at + CHECK_INTERVAL_MS <= u64::MAX,
    ensures
        poll_of(CheckTimer { next: start }, false, start) == CheckPoll::Check,
        poll_of(CheckTimer { next: (checked_at + CHECK_INTERVAL_MS) as u64 }, false, now)
            == CheckPoll::Check <==> now >= checked_at + 60 * 60 * 1000,
        poll_of(CheckTimer { next: start }, true, now) == CheckPoll::Stop,
{
}

/// Starts the checks, unless they are switched off; the line says that they are.
pub fn spawn_checker(disable: Option<&str>, now: u64) -> (r: Result<CheckTimer, LogCommand>)
    ensures
        match r {
            Ok(timer) => !switched_off(opt_str(disable)) && timer.next == now,
            Err(line) => switched_off(opt_str(disable)) && writes(
                line,
                Level::Info,
                "更新检测已禁用 (DSHLAUNCHER_UPDATE_DISABLE)"@,
            ),
        },
{
    if update_check_disabled(disable) {
        Err(info("更新检测已禁用 (DSHLAUNCHER_UPDATE_DISABLE)"))
    } else {
        Ok(CheckTimer::new(now))
    }
}

/// Whether a version is worth a notice: none is known, or it is newer than the
/// known one.
pub open spec fn notifies(remote: Seq<char>, known: Option<Seq<char>>) -> bool {
    match known {
        Some(last) => newer(last, remote),
        None => true,
    }
}

/// Whether a version is worth a notice.
pub fn should_notify_version(remote: &str, last_logged: Option<&str>) -> (r: bool)
    ensures
        r == notifies(remote@, opt_str(last_logged)),
{
    match last_logged {
        Some(last) => is_newer(last, remote),
        None => true,
    }
}

/// The newer of two versions; the first, unless the second is newer.
pub open spec fn newest(a: Option<Seq<char>>, b: Option<Seq<char>>) -> Option<Seq<char>> {
    match (a, b) {
        (Some(x), Some(y)) => if newer(x, y) {
            Some(y)
        } else {
            Some(x)
        },
        (Some(x), None) => Some(x),
        (None, y) => y,
    }
}

/// The newer of two versions.
pub fn newest_version<'a>(a: Option<&'a str>, b: Option<&'a str>) -> (r: Option<&'a str>)
    ensures
        opt_str(r) == newest(opt_str(a), opt_str(b)),
{
    match (a, b) {
        (Some(x), Some(y)) => if is_newer(x, y) {
            Some(y)
        } else {
            Some(x)
        },
        (Some(x), None) => Some(x),
        (None, y) => y,
    }
}

/// Whether a check is recorded: the first one, the first of a log day, and one
/// that found a newer version than the last record.
pub open spec fn records(
    remote: Seq<char>,
    written: Option<Seq<char>>,
    day: Option<LogDay>,
    today: LogDay,
) -> bool {
    day != Some(today) || notifies(remote, written)
}

/// Whether a check is recorded.
pub fn should_log_update_check(
    remote: &str,
    last_written_remote: Option<&str>,
    last_written_day: Option<LogDay>,
    today: LogDay,
) -> (r: bool)
    ensures
        r == records(remote@, opt_str(last_written_remote), last_written_day, today),
{
    let same = match last_written_day {
        Some(day) => same_day(day, today),
        None => false,
    };
    !same || should_notify_version(remote, last_written_remote)
}

/// Where a check stands.
#[derive(Clone, Copy, Debug, PartialEq, Eq, Structural)]
pub enum CheckPhase {
    /// No check is going on, or the latest release is being asked for.
    Fetching,
    /// The log is being asked for the last notice.
    AskingLog,
    /// A notice is being shown.
    Showing,
    /// The log day is being asked for.
    Recording,
}

/// What a check waits for, as it arrives.
#[derive(Debug)]
pub enum CheckEvent {
    /// The latest release, if one was found.
    Fetched(Option<UpdateInfo>),
    /// The version of the last notice in the log.
    LastNotice(Option<String>),
    /// The notice was shown.
    Shown,
    /// The notice could not be shown.
    NotShown(String),
    /// The log day.
    Today(LogDay),
}

/// What is to be done next in a check.
#[derive(Clone, Copy, Debug, PartialEq, Eq, Structural)]
pub enum CheckAction {
    /// Ask the log for the version of its last notice.
    ReadLastNotice,
    /// Show a notice about the version at hand.
    ShowNotice,
    /// Find out the log day.
    AskDay,
    /// The check is over.
    Done,
}

/// What the checks remember.
pub struct CheckState {
    pub phase: CheckPhase,
    /// The version that the check at hand found.
    pub remote: Seq<char>,
    /// The version in the last record of a check.
    pub written: Option<Seq<char>>,
    /// The log day of the last record of a check.
    pub day: Option<LogDay>,
    /// The version of the last notice that was shown.
    pub notified: Option<Seq<char>>,
    /// The version whose notice could not be shown.
    pub failed: Option<Seq<char>>,
}

/// What a step of a check gives: what is remembered, what is logged, what is to
/// be done.
pub struct CheckStepSpec {
    pub state: CheckState,
    pub log: Option<(Level, Seq<char>)>,
    pub next: CheckAction,
}

/// The record of a check.
pub open spec fn record_text(remote: Seq<char>, local: Seq<char>) -> Seq<char> {
    "更新检测成功：远端 v"@ + remote + " (本地 v"@ + local + ")"@
}

/// The line about a notice that could not be shown.
pub open spec fn not_shown_text(remote: Seq<char>, error: Seq<char>) -> Seq<char> {
    "发送更新通知失败 (v"@ + remote + ")："@ + error + "，下一轮检查将重试"@
}

/// The line about a check that no address answered.
pub open spec fn unreachable_text() -> Seq<char> {
    "更新检测失败 (网络不可达)，静默忽略"@
}

/// The latest release is known, or no address answered.
pub open spec fn on_fetched(
    st: CheckState,
    found: Option<Seq<char>>,
    local: Seq<char>,
) -> CheckStepSpec {
    match found {
        None => CheckStepSpec {
            state: st,
            log: Some((Level::Info, unreachable_text())),
            next: CheckAction::Done,
        },
        Some(remote) => if newer(local, remote) {
            CheckStepSpec {
                state: CheckState { phase: CheckPhase::AskingLog, remote, ..st },
                log: None,
                next: CheckAction::ReadLastNotice,
            }
        } else {
            CheckStepSpec {
                state: CheckState {
                    phase: CheckPhase::Recording,
                    remote,
                    failed: if st.failed == Some(remote) {
                        None
                    } else {
                        st.failed
                    },
                    ..st
                },
                log: None,
                next: CheckAction::AskDay,
            }
        },
    }
}

/// Whether a notice about the version at hand is due: its last notice failed, or
/// it is newer than every notice that is known.
pub open spec fn notice_due(st: CheckState, last: Option<Seq<char>>) -> bool {
    st.failed == Some(st.remote) || notifies(st.remote, newest(last, st.notified))
}

/// The last notice in the log is known.
pub open spec fn on_last_notice(st: CheckState, last: Option<Seq<char>>) -> CheckStepSpec {
    if notice_due(st, last) {
        CheckStepSpec {
            state: CheckState { phase: CheckPhase::Showing, ..st },
            log: None,
            next: CheckAction::ShowNotice,
        }
    } else {
        CheckStepSpec {
            state: CheckState { phase: CheckPhase::Recording, ..st },
            log: None,
            next: CheckAction::AskDay,
        }
    }
}

/// The notice was shown, or failed with an error.
pub open spec fn on_shown(st: CheckState, error: Option<Seq<char>>) -> CheckStepSpec {
    match error {
        None => CheckStepSpec {
            state: CheckState {
                phase: CheckPhase::Recording,
                notified: Some(st.remote),
                failed: None,
                ..st
            },
            log: Some((Level::Info, notice_text(st.remote))),
            next: CheckAction::AskDay,
        },
        Some(e) => CheckStepSpec {
            state: CheckState { phase: CheckPhase::Recording, failed: Some(st.remote), ..st },
            log: Some((Level::Fail, not_shown_text(st.remote, e))),
            next: CheckAction::AskDay,
        },
    }
}

/// The log day is known.
pub open spec fn on_today(st: CheckState, today: LogDay, local: Seq<char>) -> CheckStepSpec {
    if records(st.remote, st.written, st.day, today) {
        CheckStepSpec {
            state: CheckState {
                phase: CheckPhase::Fetching,
                written: Some(st.remote),
                day: Some(today),
                ..st
            },
            log: Some((Level::Info, record_text(st.remote, local))),
            next: CheckAction::Done,
        }
    } else {
        CheckStepSpec {
            state: CheckState { phase: CheckPhase::Fetching, ..st },
            log: None,
            next: CheckAction::Done,
        }
    }
}

/// One step of a check. An event that the check does not wait for ends it.
pub open spec fn check_step(st: CheckState, event: CheckEvent, local: Seq<char>) -> CheckStepSpec {
    match (st.phase, event) {
        (CheckPhase::Fetching, CheckEvent::Fetched(found)) => on_fetched(
            st,
            match found {
                Some(info) => Some(info.version@),
                None => None,
            },
            local,
        ),
        (CheckPhase::AskingLog, CheckEvent::LastNotice(last)) => on_last_notice(
            st,
            opt_string(last),
        ),
        (CheckPhase::Showing, CheckEvent::Shown) => on_shown(st, None),
        (CheckPhase::Showing, CheckEvent::NotShown(e)) => on_shown(st, Some(e@)),
        (CheckPhase::Recording, CheckEvent::Today(today)) => on_today(st, today, local),
        _ => CheckStepSpec {
            state: CheckState { phase: CheckPhase::Fetching, ..st },
            log: None,
            next: CheckAction::Done,
        },
    }
}

/// What the checks remember, from one to the next.
#[derive(Debug)]
pub struct Checker {
    phase: CheckPhase,
    remote: String,
    last_written_remote: Option<String>,
    last_written_day: Option<LogDay>,
    last_notified_remote: Option<String>,
    notify_failed_version: Option<String>,
}

impl View for Checker {
    type V = CheckState;

    closed spec fn view(&self) -> CheckState {
        CheckState {
            phase: self.phase,
            remote: self.remote@,
            written: opt_string(self.last_written_remote),
            day: self.last_written_day,
            notified: opt_string(self.last_notified_remote),
            failed: opt_string(self.notify_failed_version),
        }
    }
}

/// What is remembered before the first check.
pub open spec fn no_checks() -> CheckState {
    CheckState {
        phase: CheckPhase::Fetching,
        remote: Seq::empty(),
        written: None,
        day: None,
        notified: None,
        failed: None,
    }
}

fn as_text(s: &Option<String>) -> (r: Option<&str>)
    ensures
        opt_str(r) == opt_string(*s),
{
    match s {
        Some(t) => Some(t.as_str()),
        None => None,
    }
}

impl Checker {
    /// Nothing has been checked.
    pub fn new() -> (r: Checker)
        ensures
            r@ == no_checks(),
    {
        Checker {
            phase: CheckPhase::Fetching,
            remote: String::new(),
            last_written_remote: None,
            last_written_day: None,
            last_notified_remote: None,
            notify_failed_version: None,
        }
    }

    /// The version that the check at hand found.
    pub fn remote(&self) -> (r: &str)
        ensures
            r@ == self@.remote,
    {
        self.remote.as_str()
    }

    fn fetched(&mut self, found: Option<UpdateInfo>, local: &str) -> (r: (
        Option<LogCommand>,
        CheckAction,
    ))
        ensures
            ({
                let out = on_fetched(
                    old(self)@,
                    match found {
                        Some(info) => Some(info.version@),
                        None => None,
                    },
                    local@,
                );
                final(self)@ == out.state && logs(r.0, out.log) && r.1 == out.next
            }),
    {
        match found {
            None => (Some(info("更新检测失败 (网络不可达)，静默忽略")), CheckAction::Done),
            Some(found) => {
                let newer = is_newer(local, found.version.as_str());
                if newer {
                    self.phase = CheckPhase::AskingLog;
                    self.remote = found.version;
                    (None, CheckAction::ReadLastNotice)
                } else {
                    let stale = match &self.notify_failed_version {
                        Some(v) => same_text(v.as_str(), found.version.as_str()),
                        None => false,
                    };
                    if stale {
                        self.notify_failed_version = None;
                    }
                    self.phase = CheckPhase::Recording;
                    self.remote = found.version;
                    (None, CheckAction::AskDay)
                }
            },
        }
    }

    fn last_notice(&mut self, last: Option<String>) -> (r: (Option<LogCommand>, CheckAction))
        ensures
            ({
                let out = on_last_notice(old(self)@, opt_string(last));
                final(self)@ == out.state && logs(r.0, out.log) && r.1 == out.next
            }),
    {
        let retry = match &self.notify_failed_version {
            Some(v) => same_text(v.as_str(), self.remote.as_str()),
            None => false,
        };
        let known = newest_version(as_text(&last), as_text(&self.last_notified_remote));
        if retry || should_notify_version(self.remote.as_str(), known) {
            self.phase = CheckPhase::Showing;
            (None, CheckAction::ShowNotice)
        } else {
            self.phase = CheckPhase::Recording;
            (None, CheckAction::AskDay)
        }
    }

    fn shown(&mut self) -> (r: (Option<LogCommand>, CheckAction))
        ensures
            ({
                let out = on_shown(old(self)@, None);
                final(self)@ == out.state && logs(r.0, out.log) && r.1 == out.next
            }),
    {
        self.phase = CheckPhase::Recording;
        self.notify_failed_version = None;
        self.last_notified_remote = Some(self.remote.clone());
        let line = notice_message(self.remote.as_str());
        (Some(info(line.as_str())), CheckAction::AskDay)
    }

    fn not_shown(&mut self, e: &str) -> (r: (Option<LogCommand>, CheckAction))
        ensures
            ({
                let out = on_shown(old(self)@, Some(e@));
                final(self)@ == out.state && logs(r.0, out.log) && r.1 == out.next
            }),
    {
        self.phase = CheckPhase::Recording;
        self.notify_failed_version = Some(self.remote.clone());
        let mut line = "发送更新通知失败 (v".to_string();
        push_all(&mut line, self.remote.as_str());
        push_all(&mut line, ")：");
        push_all(&mut line, e);
        push_all(&mut line, "，下一轮检查将重试");
        (Some(error(line.as_str())), CheckAction::AskDay)
    }

    fn today(&mut self, today: LogDay, local: &str) -> (r: (Option<LogCommand>, CheckAction))
        ensures
            ({
                let out = on_today(old(self)@, today, local@);
                final(self)@ == out.state && logs(r.0, out.log) && r.1 == out.next
            }),
    {
        self.phase = CheckPhase::Fetching;
        let due = should_log_update_check(
            self.remote.as_str(),
            as_text(&self.last_written_remote),
            self.last_written_day,
            today,
        );
        if due {
            let mut line = "更新检测成功：远端 v".to_string();
            push_all(&mut line, self.remote.as_str());
            push_all(&mut line, " (本地 v");
            push_all(&mut line, local);
            push_all(&mut line, ")");
            self.last_written_remote = Some(self.remote.clone());
            self.last_written_day = Some(today);
            (Some(info(line.as_str())), CheckAction::Done)
        } else {
            (None, CheckAction::Done)
        }
    }

    /// Takes the next event of a check, and gives the line to log, if any, and
    /// what is to be done next.
    pub fn run_check(&mut self, event: CheckEvent, local: &str) -> (r: (
        Option<LogCommand>,
        CheckAction,
    ))
        ensures
            ({
                let out = check_step(old(self)@, event, local@);
                final(self)@ == out.state && logs(r.0, out.log) && r.1 == out.next
            }),
    {
        match (self.phase, event) {
            (CheckPhase::Fetching, CheckEvent::Fetched(found)) => self.fetched(found, local),
            (CheckPhase::AskingLog, CheckEvent::LastNotice(last)) => self.last_notice(last),
            (CheckPhase::Showing, CheckEvent::Shown) => self.shown(),
            (CheckPhase::Showing, CheckEvent::NotShown(e)) => self.not_shown(e.as_str()),
            (CheckPhase::Recording, CheckEvent::Today(today)) => self.today(today, local),
            _ => {
                self.phase = CheckPhase::Fetching;
                (None, CheckAction::Done)
            },
        }
    }
}

// ---- What the checks promise ----

/// What a whole check comes to.
pub struct CheckResult {
    pub state: CheckState,
    /// Whether a notice was to be shown.
    pub notice: bool,
    /// The lines that were logged.
    pub lines: Seq<(Level, Seq<char>)>,
}

/// The line of a step, as a list.
pub open spec fn line_of(step: CheckStepSpec) -> Seq<(Level, Seq<char>)> {
    match step.log {
        Some(l) => seq![l],
        None => Seq::empty(),
    }
}

/// A whole check: the steps one after another, with what the outside answers to
/// each action.
pub open spec fn checked(
    st: CheckState,
    found: Option<Seq<char>>,
    local: Seq<char>,
    last: Option<Seq<char>>,
    error: Option<Seq<char>>,
    today: LogDay,
) -> CheckResult {
    let a = on_fetched(st, found, local);
    let (b, notice) = match a.next {
        CheckAction::ReadLastNotice => {
            let asked = on_last_notice(a.state, last);
            if asked.next == CheckAction::ShowNotice {
                (on_shown(asked.state, error), true)
            } else {
                (asked, false)
            }
        },
        _ => (a, false),
    };
    if b.next == CheckAction::AskDay {
        let c = on_today(b.state, today, local);
        CheckResult { state: c.state, notice, lines: line_of(b) + line_of(c) }
    } else {
        CheckResult { state: b.state, notice, lines: line_of(b) }
    }
}

/// A notice is shown only about a version that is newer than the local one.
pub proof fn law_notice_only_if_newer(
    st: CheckState,
    found: Option<Seq<char>>,
    local: Seq<char>,
    last: Option<Seq<char>>,
    error: Option<Seq<char>>,
    today: LogDay,
)
    ensures
        checked(st, found, local, last, error, today).notice ==> found is Some && newer(
            local,
            found->0,
        ),
{
}

/// The first notice: nothing is remembered, the log holds no notice, and the
/// version is newer than the local one.
pub proof fn law_first_notice(
    remote: Seq<char>,
    local: Seq<char>,
    error: Option<Seq<char>>,
    today: LogDay,
)
    requires
        newer(local, remote),
    ensures
        checked(no_checks(), Some(remote), local, None, error, today).notice,
{
}

/// Once a notice was shown, no later check shows one about the same version,
/// whatever the log says.
pub proof fn law_notice_once(
    st: CheckState,
    remote: Seq<char>,
    local: Seq<char>,
    last: Option<Seq<char>>,
    today: LogDay,
    later_last: Option<Seq<char>>,
    later_error: Option<Seq<char>>,
    later_today: LogDay,
)
    requires
        checked(st, Some(remote), local, last, None, today).notice,
    ensures
        !checked(
            checked(st, Some(remote), local, last, None, today).state,
            Some(remote),
            local,
            later_last,
            later_error,
            later_today,
        ).notice,
{
}

/// A version that the log's last notice names is not shown again after a restart.
pub proof fn law_notice_once_across_restarts(
    remote: Seq<char>,
    local: Seq<char>,
    error: Option<Seq<char>>,
    today: LogDay,
)
    ensures
        !checked(no_checks(), Some(remote), local, Some(remote), error, today).notice,
{
}

/// A version that is newer than every notice that is known is shown.
pub proof fn law_newer_version_is_shown(
    st: CheckState,
    remote: Seq<char>,
    local: Seq<char>,
    last: Option<Seq<char>>,
    error: Option<Seq<char>>,
    today: LogDay,
)
    requires
        newer(local, remote),
        last is Some ==> newer(last->0, remote),
        st.notified is Some ==> newer(st.notified->0, remote),
    ensures
        checked(st, Some(remote), local, last, error, today).notice,
{
}

/// A notice that failed is tried again by the next check that finds the same
/// version, whatever the log says; and no line claims that it was shown.
pub proof fn law_failed_notice_is_retried(
    st: CheckState,
    remote: Seq<char>,
    local: Seq<char>,
    last: Option<Seq<char>>,
    e: Seq<char>,
    today: LogDay,
    later_last: Option<Seq<char>>,
    later_error: Option<Seq<char>>,
    later_today: LogDay,
)
    requires
        checked(st, Some(remote), local, last, Some(e), today).notice,
    ensures
        checked(
            checked(st, Some(remote), local, last, Some(e), today).state,
            Some(remote),
            local,
            later_last,
            later_error,
            later_today,
        ).notice,
        checked(st, Some(remote), local, last, Some(e), today).state.notified == st.notified,
        checked(st, Some(remote), local, last, Some(e), today).lines[0] == (
            Level::Fail,
            not_shown_text(remote, e),
        ),
{
}

/// A check is recorded when it is the first, when it is the first of its log
/// day, and when it found a newer version than the last record; otherwise not.
pub proof fn law_check_recorded(
    st: CheckState,
    remote: Seq<char>,
    local: Seq<char>,
    last: Option<Seq<char>>,
    error: Option<Seq<char>>,
    today: LogDay,
)
    ensures
        ({
            let out = checked(st, Some(remote), local, last, error, today);
            let due = st.day != Some(today) || st.written is None || newer(st.written->0, remote);
            &&& due ==> out.lines.len() > 0 && out.lines.last() == (
                Level::Info,
                record_text(remote, local),
            )
            &&& due ==> out.state.written == Some(remote) && out.state.day == Some(today)
            &&& !due ==> out.state.written == st.written && out.state.day == st.day
            &&& !due ==> out.lines.len() == (if out.notice {
                1int
            } else {
                0
            })
        }),
{
}

/// Two checks of one log day that find the same version are recorded once.
pub proof fn law_recorded_once_a_day(
    st: CheckState,
    remote: Seq<char>,
    local: Seq<char>,
    last: Option<Seq<char>>,
    error: Option<Seq<char>>,
    today: LogDay,
)
    ensures
        ({
            let once = checked(st, Some(remote), local, last, error, today).state;
            once.day == Some(today) && !records(remote, once.written, once.day, today)
        }),
{
}

/// A check that no address answered changes nothing that is remembered.
pub proof fn law_unreachable_changes_nothing(
    st: CheckState,
    local: Seq<char>,
    last: Option<Seq<char>>,
    error: Option<Seq<char>>,
    today: LogDay,
)
    ensures
        checked(st, None, local, last, error, today).state == st,
        !checked(st, None, local, last, error, today).notice,
        checked(st, None, local, last, error, today).lines == seq![
            (Level::Info, unreachable_text()),
        ],
{
}

/// Looking for updates is switched off by `1`, `true`, `yes` and `on`, in capitals or
/// not, with white space around them or not, and by nothing else.
pub proof fn law_what_switches_off(before: Seq<char>, word: Seq<char>, after: Seq<char>)
    requires
        forall|k: int| 0 <= k < before.len() ==> white(#[trigger] before[k]),
        forall|k: int| 0 <= k < after.len() ==> white(#[trigger] after[k]),
        word.len() > 0,
        !white(word[0]),
        !white(word.last()),
    ensures
        switched_off(Some(before + word + after)) <==> {
            let low = word.map_values(|c: char| ascii_lower(c));
            low == "1"@ || low == "true"@ || low == "yes"@ || low == "on"@
        },
        !switched_off(None),
{
    law_trim_around(before, word, after);
}

/// A blank setting switches nothing off.
pub proof fn law_blank_switches_nothing_off(value: Seq<char>)
    requires
        trim(value).len() == 0,
    ensures
        !switched_off(Some(value)),
{
    reveal_strlit("1");
    reveal_strlit("true");
    reveal_strlit("yes");
    reveal_strlit("on");
    assert(ascii_lower_all(trim(value)).len() == 0);
}

/// The newest of two versions is one of them, no older than the other; if one is not
/// known it is the other.
pub proof fn law_newest(a: Option<Seq<char>>, b: Option<Seq<char>>)
    ensures
        newest(a, b) == a || newest(a, b) == b,
        newest(a, b) is None <==> a is None && b is None,
        a is Some ==> !newer(newest(a, b)->0, a->0),
        b is Some ==> !newer(newest(a, b)->0, b->0),
        a is Some && b is Some && !newer(a->0, b->0) ==> newest(a, b) == a,
{
    if a is Some && b is Some {
        law_newer_is_an_order(a->0, b->0, a->0);
    }
}

/// A notice that is shown is remembered and logged as shown; one that is not shown is
/// not, and its version is remembered as failed.
pub proof fn law_notice_is_remembered(
    st: CheckState,
    remote: Seq<char>,
    local: Seq<char>,
    last: Option<Seq<char>>,
    error: Option<Seq<char>>,
    today: LogDay,
)
    ensures
        ({
            let out = checked(st, Some(remote), local, last, error, today);
            &&& out.notice && error is None ==> out.state.notified == Some(remote)
                && out.state.failed is None && out.lines[0] == (
                Level::Info,
                "更新通知成功：远端 v"@ + remote,
            )
            &&& out.notice && error is Some ==> out.state.notified == st.notified
                && out.state.failed == Some(remote)
            &&& !out.notice ==> out.state.notified == st.notified && (out.state.failed == st.failed
                || (out.state.failed is None && st.failed == Some(remote)))
        }),
{
}

/// A notice is due only about a version whose notice failed, or that no known notice
/// is as new as.
pub proof fn law_notice_needs_a_reason(
    st: CheckState,
    remote: Seq<char>,
    local: Seq<char>,
    last: Option<Seq<char>>,
    error: Option<Seq<char>>,
    today: LogDay,
)
    requires
        checked(st, Some(remote), local, last, error, today).notice,
        st.failed != Some(remote),
    ensures
        last is Some && st.notified is None ==> newer(last->0, remote),
        st.notified is Some && last is None ==> newer(st.notified->0, remote),
        st.notified is Some && last is Some ==> newer(last->0, remote) || newer(
            st.notified->0,
            remote,
        ),
{
}

/// A failed notice is forgotten once its version is no longer newer than the local
/// one.
pub proof fn law_failure_is_forgotten(
    st: CheckState,
    remote: Seq<char>,
    local: Seq<char>,
    last: Option<Seq<char>>,
    error: Option<Seq<char>>,
    today: LogDay,
)
    requires
        !newer(local, remote),
    ensures
        ({
            let out = checked(st, Some(remote), local, last, error, today);
            &&& !out.notice
            &&& st.failed == Some(remote) ==> out.state.failed is None
            &&& st.failed != Some(remote) ==> out.state.failed == st.failed
        }),
{
}

/// The record of a check names both versions, the remote one first; the line about a
/// failed notice names the version and the error.
pub proof fn law_lines_name_the_versions(remote: Seq<char>, local: Seq<char>, e: Seq<char>)
    ensures
        record_text(remote, local) == "更新检测成功：远端 v"@ + remote + " (本地 v"@ + local
            + ")"@,
        not_shown_text(remote, e) == "发送更新通知失败 (v"@ + remote + ")："@ + e
            + "，下一轮检查将重试"@,
{
}

/// The steps of a check ask for the last notice only if the version is newer than the
/// local one, show a notice only after that, and ask for the day at the end.
pub proof fn law_steps_of_a_check(
    st: CheckState,
    info: UpdateInfo,
    local: Seq<char>,
    last: Option<String>,
    e: String,
    today: LogDay,
)
    requires
        st.phase == CheckPhase::Fetching,
    ensures
        ({
            let a = check_step(st, CheckEvent::Fetched(Some(info)), local);
            let b = check_step(a.state, CheckEvent::LastNotice(last), local);
            let shown = check_step(b.state, CheckEvent::Shown, local);
            let failed = check_step(b.state, CheckEvent::NotShown(e), local);
            let end = check_step(shown.state, CheckEvent::Today(today), local);
            &&& a.next == CheckAction::ReadLastNotice <==> newer(local, info.version@)
            &&& a.next == CheckAction::AskDay <==> !newer(local, info.version@)
            &&& a.log is None
            &&& newer(local, info.version@) ==> {
                &&& b.next == CheckAction::ShowNotice || b.next == CheckAction::AskDay
                &&& b.log is None
                &&& b.next == CheckAction::ShowNotice ==> {
                    &&& shown.next == CheckAction::AskDay && failed.next == CheckAction::AskDay
                    &&& shown.log == Some((Level::Info, notice_text(info.version@)))
                    &&& failed.log == Some((Level::Fail, not_shown_text(info.version@, e@)))
                    &&& end.next == CheckAction::Done
                    &&& end.state.phase == CheckPhase::Fetching
                }
            }
            &&& check_step(st, CheckEvent::Fetched(None), local).next == CheckAction::Done
            &&& check_step(st, CheckEvent::Fetched(None), local).log == Some(
                (Level::Info, "更新检测失败 (网络不可达)，静默忽略"@),
            )
        }),
{
}

/// The steps of the machine are the whole check: fetching, asking the log, showing
/// and recording, in that order, come to what a whole check comes to.
pub proof fn law_steps_make_a_check(
    st: CheckState,
    info: UpdateInfo,
    local: Seq<char>,
    last: Option<String>,
    e: String,
    today: LogDay,
)
    requires
        st.phase == CheckPhase::Fetching,
        newer(local, info.version@),
    ensures
        ({
            let a = check_step(st, CheckEvent::Fetched(Some(info)), local);
            let b = check_step(a.state, CheckEvent::LastNotice(last), local);
            let shown = check_step(b.state, CheckEvent::Shown, local);
            let failed = check_step(b.state, CheckEvent::NotShown(e), local);
            let day = CheckEvent::Today(today);
            let good = checked(st, Some(info.version@), local, opt_string(last), None, today);
            let bad = checked(st, Some(info.version@), local, opt_string(last), Some(e@), today);
            &&& good.notice == (b.next == CheckAction::ShowNotice)
            &&& b.next == CheckAction::ShowNotice ==> check_step(shown.state, day, local).state
                == good.state && check_step(failed.state, day, local).state == bad.state
            &&& b.next != CheckAction::ShowNotice ==> check_step(b.state, day, local).state
                == good.state
        }),
{
}

/// What the check does not wait for ends it, and nothing is logged.
pub proof fn law_unasked_ends_the_check(st: CheckState, event: CheckEvent, local: Seq<char>)
    requires
        match event {
            CheckEvent::Fetched(_) => st.phase != CheckPhase::Fetching,
            CheckEvent::LastNotice(_) => st.phase != CheckPhase::AskingLog,
            CheckEvent::Shown => st.phase != CheckPhase::Showing,
            CheckEvent::NotShown(_) => st.phase != CheckPhase::Showing,
            CheckEvent::Today(_) => st.phase != CheckPhase::Recording,
        },
    ensures
        check_step(st, event, local).next == CheckAction::Done,
        check_step(st, event, local).log is None,
        check_step(st, event, local).state.notified == st.notified,
        check_step(st, event, local).state.failed == st.failed,
        check_step(st, event, local).state.written == st.written,
        check_step(st, event, local).state.day == st.day,
{
}

} // verus!
