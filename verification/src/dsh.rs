//! The service: its port and page, the output that it gives, the job object that
//! holds its processes, and the single instance of the launcher.
use vstd::prelude::*;

use crate::log::{error, logs, Level, Line, LogCommand};
use crate::text::{
    decimal, opt_str, parse_unsigned, push_all, push_decimal, push_signed, read_unsigned,
    signed_decimal, to_chars, trim, trimmed,
};
use crate::wide::{to_wide, wide};

verus! {

// ---- The port ----

/// The port that the service listens on by default.
pub const DEFAULT_PORT: u16 = 3080;

/// The port that a setting gives: a number from 1 to 65535, with white space
/// around it allowed; anything else gives the default.
pub open spec fn port_of(value: Option<Seq<char>>) -> int {
    match value {
        Some(v) => match parse_unsigned(trim(v), u16::MAX as int) {
            Some(p) => if p > 0 {
                p
            } else {
                DEFAULT_PORT as int
            },
            None => DEFAULT_PORT as int,
        },
        None => DEFAULT_PORT as int,
    }
}

/// Reads the port out of a setting.
pub fn port_from_env(value: Option<&str>) -> (r: u16)
    ensures
        r == port_of(opt_str(value)),
        r > 0,
{
    if let Some(v) = value {
        let chars = to_chars(v);
        if let Some(p) = read_unsigned(trimmed(chars.as_slice()), 0xffff) {
            if p > 0 {
                return p as u16;
            }
        }
    }
    DEFAULT_PORT
}

/// The port of the service: the one that is set, or the default.
pub fn web_port(setting: Option<&str>) -> (r: u16)
    ensures
        r == port_of(opt_str(setting)),
        r > 0,
{
    port_from_env(setting)
}

/// The address of the service's page.
pub open spec fn page_address(port: int) -> Seq<char> {
    "http://127.0.0.1:"@ + decimal(port)
}

/// The address of the service's page.
pub fn web_url(port: u16) -> (r: String)
    ensures
        r@ == page_address(port as int),
{
    let mut url = "http://127.0.0.1:".to_string();
    push_decimal(&mut url, port as u64);
    url
}

/// Milliseconds after which a port that does not answer counts as not ready.
pub const PROBE_TIMEOUT_MS: u64 = 500;

/// Whether something holds the port without serving it: nothing answers there, and
/// yet it cannot be bound.
pub fn port_occupied(ready: bool, bind_failed: bool) -> (r: bool)
    ensures
        r == (!ready && bind_failed),
{
    !ready && bind_failed
}

// ---- Output ----

/// When the service last gave output. Times are in milliseconds.
#[derive(Clone, Copy, Debug, PartialEq, Eq, Structural)]
pub struct OutputActivity {
    /// When output last came, or when the service was started.
    pub last: u64,
    /// Whether any output has come.
    pub received: bool,
}

impl OutputActivity {
    /// The service is being started, and has given no output.
    pub fn new(now: u64) -> (r: OutputActivity)
        ensures
            r.last == now,
            !r.received,
    {
        OutputActivity { last: now, received: false }
    }

    /// Output came.
    pub fn touch(&mut self, now: u64)
        ensures
            final(self).last == now,
            final(self).received,
    {
        self.received = true;
        self.last = now;
    }

    /// Whether any output has come.
    pub fn has_received_output(&self) -> (r: bool)
        ensures
            r == self.received,
    {
        self.received
    }

    /// How long ago output last came, or the service was started.
    pub fn elapsed(&self, now: u64) -> (r: u64)
        ensures
            r == (if now > self.last {
                now - self.last
            } else {
                0
            }),
    {
        if now > self.last {
            now - self.last
        } else {
            0
        }
    }
}

// ---- Opening things ----

/// What the shell is asked to open, zero-terminated.
#[derive(Debug)]
pub struct ShellOpen {
    pub verb: Vec<u16>,
    pub target: Vec<u16>,
}

/// Asks the shell to open an address, a file or a directory.
pub fn shell_open(target: &str) -> (r: ShellOpen)
    ensures
        r.verb@ == wide("open"@),
        r.target@ == wide(target@),
{
    ShellOpen { verb: to_wide("open"), target: to_wide(target) }
}

/// Asks the shell to open the service's page.
pub fn open_page(port: u16) -> (r: ShellOpen)
    ensures
        r.verb@ == wide("open"@),
        r.target@ == wide(page_address(port as int)),
{
    let url = web_url(port);
    shell_open(url.as_str())
}

/// What an answer of the shell means: above 32 it did what it was asked; else the
/// answer itself is the error.
pub fn shell_execute_open(answer: isize) -> (r: Result<(), String>)
    ensures
        match r {
            Ok(()) => answer > 32,
            Err(e) => answer <= 32 && e@ == "ShellExecuteW 失败 (错误码 "@ + signed_decimal(
                answer as int,
            ) + ")"@,
        },
{
    if answer > 32 {
        Ok(())
    } else {
        let mut e = "ShellExecuteW 失败 (错误码 ".to_string();
        push_signed(&mut e, answer as i64);
        push_all(&mut e, ")");
        Err(e)
    }
}

// ---- The job object ----

/// The limit that has all processes of a job ended with the job
/// (`JOB_OBJECT_LIMIT_KILL_ON_JOB_CLOSE`).
pub const KILL_ON_JOB_CLOSE: u32 = 0x2000;

/// The job object that holds the service's processes. Once it has been made and
/// its limit set, it is used for good; before that nothing of it is kept.
#[derive(Clone, Copy, Debug, PartialEq, Eq, Structural)]
pub struct JobCell {
    /// The handle of the job that is used.
    pub job: Option<usize>,
    /// The handle of a job whose limit is being set.
    pub making: Option<usize>,
}

/// What happened about the job.
#[derive(Clone, Copy, Debug, PartialEq, Eq, Structural)]
pub enum JobEvent {
    /// The job is needed.
    Wanted,
    /// A job was made.
    Created(usize),
    /// No job could be made.
    NotCreated,
    /// The limit was set, or not.
    Limited(bool),
    /// The handle was closed.
    Closed,
}

/// What to do about the job.
#[derive(Clone, Copy, Debug, PartialEq, Eq, Structural)]
pub enum JobAction {
    /// Use this job.
    Use(usize),
    /// Make a job.
    Create,
    /// Set these limits on this job.
    Limit(usize, u32),
    /// Close this handle.
    Close(usize),
    /// There is no job.
    Unavailable,
}

/// What an event about the job leads to, and what it logs.
pub open spec fn job_step(st: JobCell, event: JobEvent) -> (JobCell, Option<Line>, JobAction) {
    match event {
        JobEvent::Wanted => match st.job {
            Some(job) => (st, None, JobAction::Use(job)),
            None => (st, None, JobAction::Create),
        },
        JobEvent::NotCreated => (
            st,
            Some((Level::Fail, "CreateJobObjectW 失败 (Job 不可用，dsh 将无法被自动回收)"@)),
            JobAction::Unavailable,
        ),
        JobEvent::Created(job) => (
            JobCell { making: Some(job), ..st },
            None,
            JobAction::Limit(job, KILL_ON_JOB_CLOSE),
        ),
        JobEvent::Limited(ok) => match st.making {
            Some(job) => if ok {
                (JobCell { job: Some(job), making: None }, None, JobAction::Use(job))
            } else {
                (
                    JobCell { making: None, ..st },
                    Some(
                        (
                            Level::Fail,
                            "SetInformationJobObject 失败 (KILL_ON_JOB_CLOSE 未生效，dsh 退出时可能残留)"@,
                        ),
                    ),
                    JobAction::Close(job),
                )
            },
            None => (st, None, JobAction::Unavailable),
        },
        JobEvent::Closed => (st, None, JobAction::Unavailable),
    }
}

impl JobCell {
    /// No job has been made.
    pub fn new() -> (r: JobCell)
        ensures
            r.job is None,
            r.making is None,
    {
        JobCell { job: None, making: None }
    }

    /// Takes an event about the job, and gives the line to log, if any, and what is
    /// to be done.
    pub fn job_handle(&mut self, event: JobEvent) -> (r: (Option<LogCommand>, JobAction))
        ensures
            *final(self) == job_step(*old(self), event).0,
            logs(r.0, job_step(*old(self), event).1),
            r.1 == job_step(*old(self), event).2,
    {
        match event {
            JobEvent::Wanted => match self.job {
                Some(job) => (None, JobAction::Use(job)),
                None => (None, JobAction::Create),
            },
            JobEvent::NotCreated => (
                Some(error("CreateJobObjectW 失败 (Job 不可用，dsh 将无法被自动回收)")),
                JobAction::Unavailable,
            ),
            JobEvent::Created(job) => {
                self.making = Some(job);
                (None, JobAction::Limit(job, KILL_ON_JOB_CLOSE))
            },
            JobEvent::Limited(ok) => match self.making {
                Some(job) => {
                    self.making = None;
                    if ok {
                        self.job = Some(job);
                        (None, JobAction::Use(job))
                    } else {
                        (
                            Some(
                                error(
                                    "SetInformationJobObject 失败 (KILL_ON_JOB_CLOSE 未生效，dsh 退出时可能残留)",
                                ),
                            ),
                            JobAction::Close(job),
                        )
                    }
                },
                None => (None, JobAction::Unavailable),
            },
            JobEvent::Closed => (None, JobAction::Unavailable),
        }
    }
}

/// A job that was made is used again and again, and none is made beside it.
pub proof fn law_job_is_kept(st: JobCell, job: usize)
    requires
        st.job == Some(job),
    ensures
        job_step(st, JobEvent::Wanted) == (st, None::<Line>, JobAction::Use(job)),
{
}

/// A job is used only if its limit was set: what is used was used before, or its
/// limit has just been set.
pub proof fn law_job_is_limited(st: JobCell, event: JobEvent)
    ensures
        job_step(st, event).0.job != st.job ==> event == JobEvent::Limited(true) && st.making
            is Some && job_step(st, event).0.job == st.making,
        job_step(st, event).2 matches JobAction::Use(job) ==> job_step(st, event).0.job == Some(job),
{
}

/// A failure is not kept: a job that cannot be made, or whose limit cannot be set,
/// is closed, and the next need makes a new one.
pub proof fn law_job_failure_is_not_kept(job: usize)
    ensures
        ({
            let none = JobCell { job: None, making: None };
            let failed = job_step(none, JobEvent::NotCreated).0;
            let made = job_step(none, JobEvent::Created(job)).0;
            let unlimited = job_step(made, JobEvent::Limited(false));
            &&& job_step(failed, JobEvent::Wanted).2 == JobAction::Create
            &&& unlimited.2 == JobAction::Close(job)
            &&& job_step(unlimited.0, JobEvent::Wanted).2 == JobAction::Create
        }),
{
}

// ---- The single instance ----

/// The system's answer that a named object was there before
/// (`ERROR_ALREADY_EXISTS`).
pub const ALREADY_EXISTS: u32 = 183;

/// The name of the mutex that an instance holds.
pub open spec fn mutex_text(id: Seq<char>) -> Seq<char> {
    "Local\\DshLauncher.SingleInstance"@ + id
}

/// The name of the mutex that an instance holds, zero-terminated.
pub fn mutex_name(id: &str) -> (r: Vec<u16>)
    ensures
        r@ == wide(mutex_text(id@)),
{
    let mut name = "Local\\DshLauncher.SingleInstance".to_string();
    push_all(&mut name, id);
    to_wide(name.as_str())
}

/// What the attempt to make the mutex means.
#[derive(Clone, Copy, Debug, PartialEq, Eq, Structural)]
pub enum Instance {
    /// This is the only instance: it keeps the handle.
    Only,
    /// Another instance is running: the handle is closed.
    Another,
    /// The mutex could not be made.
    Failed,
}

/// Whether this is the only instance. A mutex that could not be made is a failure,
/// and is logged; it does not mean that another instance is running.
pub fn single_instance_guard(made: bool, last_error: u32, error_text: &str) -> (r: (
    Option<LogCommand>,
    Instance,
))
    ensures
        r.1 == (if !made {
            Instance::Failed
        } else if last_error == ALREADY_EXISTS {
            Instance::Another
        } else {
            Instance::Only
        }),
        logs(
            r.0,
            if made {
                None
            } else {
                Some((Level::Fail, "创建单实例互斥体失败："@ + error_text@))
            },
        ),
{
    if !made {
        let mut line = "创建单实例互斥体失败：".to_string();
        push_all(&mut line, error_text);
        (Some(error(line.as_str())), Instance::Failed)
    } else if last_error == ALREADY_EXISTS {
        (None, Instance::Another)
    } else {
        (None, Instance::Only)
    }
}

/// Instances with different names hold different mutexes.
pub proof fn law_mutex_per_instance(a: Seq<char>, b: Seq<char>)
    requires
        mutex_text(a) == mutex_text(b),
    ensures
        a == b,
{
    let base = "Local\\DshLauncher.SingleInstance"@;
    assert(a =~= mutex_text(a).skip(base.len() as int));
    assert(b =~= mutex_text(b).skip(base.len() as int));
}

// ---- What the service's settings promise ----

/// A number from 1 to 65535, with or without white space around it, is the port; any
/// other number is not, and the port is then 3080, as it is without a setting.
pub proof fn law_port_is_read(before: Seq<char>, n: int, after: Seq<char>)
    requires
        0 <= n,
        forall|k: int| 0 <= k < before.len() ==> crate::text::white(#[trigger] before[k]),
        forall|k: int| 0 <= k < after.len() ==> crate::text::white(#[trigger] after[k]),
    ensures
        port_of(Some(before + decimal(n) + after)) == (if 1 <= n <= 65535 {
            n
        } else {
            3080
        }),
        port_of(None) == 3080,
{
    let s = decimal(n);
    crate::text::lemma_decimal_value(n);
    assert(crate::text::is_digit(s[0]) && crate::text::is_digit(s.last()));
    crate::text::law_trim_around(before, s, after);
    crate::text::law_decimal(n, 0, 65535);
}

/// Whatever is set, the port is one from 1 to 65535; a setting that holds anything
/// but digits between its white space, a plus sign before them apart, gives 3080.
pub proof fn law_port_is_a_port(value: Seq<char>, k: int)
    ensures
        1 <= port_of(Some(value)) <= 65535,
        0 <= k < trim(value).len() && !(48 <= trim(value)[k] as u32 <= 57) && !(k == 0
            && trim(value)[k] == '+') ==> port_of(Some(value)) == 3080,
        trim(value).len() == 0 ==> port_of(Some(value)) == 3080,
{
    if parse_unsigned(trim(value), u16::MAX as int) is Some {
        crate::text::law_only_numbers_are_read(trim(value), u16::MAX as int);
    }
}

/// The page is on this machine, at the service's port: the address ends in it, and
/// what stands before it does not depend on it.
pub proof fn law_page_is_local(port: u16)
    ensures
        ({
            let n = page_address(port as int).len() - decimal(port as int).len();
            &&& page_address(port as int).take(n) == "http://127.0.0.1:"@
            &&& page_address(port as int).skip(n) == decimal(port as int)
        }),
{
    let head = "http://127.0.0.1:"@;
    assert(page_address(port as int).take(head.len() as int) =~= head);
    assert(page_address(port as int).skip(head.len() as int) =~= decimal(port as int));
}

/// A job is made, gets the limit that ends its processes with it, and is then used;
/// nothing is logged on the way. Each failure is logged as one and leaves no job.
pub proof fn law_making_a_job(job: usize)
    ensures
        ({
            let none = JobCell { job: None, making: None };
            let wanted = job_step(none, JobEvent::Wanted);
            let created = job_step(wanted.0, JobEvent::Created(job));
            let limited = job_step(created.0, JobEvent::Limited(true));
            let unlimited = job_step(created.0, JobEvent::Limited(false));
            let closed = job_step(unlimited.0, JobEvent::Closed);
            let not_created = job_step(wanted.0, JobEvent::NotCreated);
            &&& wanted == (none, None::<Line>, JobAction::Create)
            &&& created.1 is None
            &&& created.2 == JobAction::Limit(job, 0x2000)
            &&& limited == (
                JobCell { job: Some(job), making: None },
                None::<Line>,
                JobAction::Use(job),
            )
            &&& unlimited.0 == none
            &&& unlimited.1 is Some && (unlimited.1->0).0 == Level::Fail
            &&& unlimited.2 == JobAction::Close(job)
            &&& closed == (none, None::<Line>, JobAction::Unavailable)
            &&& not_created.0 == none
            &&& not_created.1 is Some && (not_created.1->0).0 == Level::Fail
            &&& not_created.2 == JobAction::Unavailable
        }),
{
}

/// The mutex is one of the user's session, and its name ends in the instance's.
pub proof fn law_mutex_name(id: Seq<char>)
    ensures
        mutex_text(id).skip(mutex_text(id).len() - id.len()) == id,
        mutex_text(id).take(mutex_text(id).len() - id.len()) == mutex_text(Seq::empty()),
        mutex_text(id).take(6) == "Local\\"@,
{
    reveal_strlit("Local\\DshLauncher.SingleInstance");
    reveal_strlit("Local\\");
    assert(mutex_text(id).skip(mutex_text(id).len() - id.len()) =~= id);
    assert(mutex_text(id).take(mutex_text(id).len() - id.len()) =~= mutex_text(Seq::empty()));
    assert(mutex_text(id).take(6) =~= "Local\\"@);
}

} // verus!
