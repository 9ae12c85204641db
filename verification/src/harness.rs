//! Starting and stopping the service: the steps, in order, what each outcome leads
//! to, and what is cleaned up when one fails.
use vstd::prelude::*;

use crate::dsh::{port_occupied, DEFAULT_PORT};
use crate::log::{said, say, Level, Line, LogCommand};
use crate::listeners::{
    has_wrappers, is_stranger, kill_list, law_strangers_are_spared, law_who_is_ended,
    lemma_filter_from, sort_listeners, stranger, strangers, victims,
};
use crate::process::{ancestors, name_of, rows, service_name, Named};
use crate::tree::{reaches, Process};
use crate::text::{
    debug_of, debug_text, decimal, law_list_text, list_text, push_all, push_decimal, push_list,
    push_text, texts,
};

verus! {

// ---- The command ----

/// The command that starts the service; a port other than the default is passed on.
pub open spec fn command_text(port: int) -> Seq<char> {
    if port == DEFAULT_PORT {
        "npx -y @deepseek-ai/dsh web"@
    } else {
        "npx -y @deepseek-ai/dsh web --port "@ + decimal(port)
    }
}

/// The command that starts the service.
pub fn web_command(port: u16) -> (r: String)
    ensures
        r@ == command_text(port as int),
{
    if port == DEFAULT_PORT {
        "npx -y @deepseek-ai/dsh web".to_string()
    } else {
        let mut cmd = "npx -y @deepseek-ai/dsh web --port ".to_string();
        push_decimal(&mut cmd, port as u64);
        cmd
    }
}

// ---- Resuming the first process ----

/// How often the threads of a process are looked for.
pub const RESUME_TRIES: u32 = 20;

/// Milliseconds between two looks.
pub const RESUME_WAIT_MS: u64 = 10;

/// What to do to resume a process.
#[derive(Clone, Copy, Debug, PartialEq, Eq, Structural)]
pub enum ResumeAction {
    /// List the threads of the system.
    ListThreads,
    /// Open this thread.
    Open(u32),
    /// Resume the thread that was opened, and close it.
    Resume,
    /// Wait a moment.
    Wait,
    /// It is over, and the process runs or does not.
    Finish(bool),
}

/// What came of it.
#[derive(Debug)]
pub enum ResumeEvent {
    /// The threads: of each the process that owns it, and its id.
    Threads(Vec<(u32, u32)>),
    /// The threads could not be listed.
    NoThreads,
    /// The thread was opened, or not.
    Opened(bool),
    /// What resuming answered: `u32::MAX` if it failed.
    Resumed(u32),
    Waited,
}

/// Whether a thread is of a process.
pub open spec fn belongs_to(thread: (u32, u32), pid: u32) -> bool {
    thread.0 == pid
}

/// The id of a thread.
pub open spec fn thread_id(thread: (u32, u32)) -> u32 {
    thread.1
}

/// The threads of a process, in the order of the list.
pub open spec fn threads_of(list: Seq<(u32, u32)>, pid: u32) -> Seq<u32> {
    list.filter(|t: (u32, u32)| belongs_to(t, pid)).map_values(|t: (u32, u32)| thread_id(t))
}

/// How far the resuming is.
pub struct ResumeState {
    pub pid: u32,
    /// How many looks found no thread that could be opened.
    pub failed: u32,
    /// The threads of the process that are left to try.
    pub left: Seq<u32>,
    pub action: ResumeAction,
}

/// The next thread is tried; if none is left, the look was in vain.
pub open spec fn try_next(st: ResumeState) -> ResumeState {
    if st.left.len() > 0 {
        ResumeState { left: st.left.skip(1), action: ResumeAction::Open(st.left[0]), ..st }
    } else {
        ResumeState { failed: (st.failed + 1) as u32, action: ResumeAction::Wait, ..st }
    }
}

/// What an outcome leads to. The first thread that can be opened decides.
pub open spec fn resume_step(st: ResumeState, event: ResumeEvent) -> ResumeState {
    match (st.action, event) {
        (ResumeAction::ListThreads, ResumeEvent::Threads(list)) => try_next(
            ResumeState { left: threads_of(list@, st.pid), ..st },
        ),
        (ResumeAction::ListThreads, _) => try_next(ResumeState { left: Seq::empty(), ..st }),
        (ResumeAction::Open(_), ResumeEvent::Opened(true)) => ResumeState {
            action: ResumeAction::Resume,
            ..st
        },
        (ResumeAction::Open(_), _) => try_next(st),
        (ResumeAction::Resume, ResumeEvent::Resumed(count)) => ResumeState {
            action: ResumeAction::Finish(count != u32::MAX),
            ..st
        },
        (ResumeAction::Resume, _) => ResumeState { action: ResumeAction::Finish(false), ..st },
        (ResumeAction::Wait, _) => ResumeState {
            action: if st.failed < RESUME_TRIES {
                ResumeAction::ListThreads
            } else {
                ResumeAction::Finish(false)
            },
            ..st
        },
        (ResumeAction::Finish(_), _) => st,
    }
}

/// What holds while a process is resumed: there are looks left, except at the end.
pub open spec fn resume_inv(st: ResumeState) -> bool {
    &&& st.failed <= RESUME_TRIES
    &&& st.action == ResumeAction::ListThreads || st.action is Open || st.action
        == ResumeAction::Resume ==> st.failed < RESUME_TRIES
}

/// A process that was started suspended, on its way to running.
#[derive(Debug)]
pub struct Resume {
    pid: u32,
    failed: u32,
    left: Vec<u32>,
    action: ResumeAction,
}

impl View for Resume {
    type V = ResumeState;

    closed spec fn view(&self) -> ResumeState {
        ResumeState { pid: self.pid, failed: self.failed, left: self.left@, action: self.action }
    }
}

fn pick_threads(list: &Vec<(u32, u32)>, pid: u32) -> (r: Vec<u32>)
    ensures
        r@ == threads_of(list@, pid),
{
    let mut out: Vec<u32> = Vec::new();
    let mut i: usize = 0;
    let ghost own = |t: (u32, u32)| belongs_to(t, pid);
    let ghost id = |t: (u32, u32)| thread_id(t);
    proof {
        assert(list@.take(0).filter(own) =~= Seq::<(u32, u32)>::empty()) by {
            reveal(Seq::filter);
        }
    }
    while i < list.len()
        invariant
            i <= list@.len(),
            own == (|t: (u32, u32)| belongs_to(t, pid)),
            id == (|t: (u32, u32)| thread_id(t)),
            out@ == list@.take(i as int).filter(own).map_values(id),
        decreases list@.len() - i,
    {
        let t: (u32, u32) = list[i];
        let ghost before = list@.take(i as int).filter(own);
        proof {
            assert(list@.take(i + 1).drop_last() =~= list@.take(i as int));
            assert(list@.take(i + 1).last() == t);
            reveal(Seq::filter);
        }
        if t.0 == pid {
            out.push(t.1);
            proof {
                assert(before.push(t).map_values(id) =~= before.map_values(id).push(t.1));
            }
        }
        i += 1;
    }
    proof {
        assert(list@.take(i as int) =~= list@);
    }
    out
}

impl Resume {
    /// Begins with the first look.
    pub fn resume_process_main_thread(pid: u32) -> (r: Resume)
        ensures
            r@ == (ResumeState {
                pid,
                failed: 0,
                left: Seq::empty(),
                action: ResumeAction::ListThreads,
            }),
            resume_inv(r@),
    {
        Resume { pid, failed: 0, left: Vec::new(), action: ResumeAction::ListThreads }
    }

    /// What is to be done.
    pub fn action(&self) -> (r: ResumeAction)
        ensures
            r == self@.action,
    {
        self.action
    }

    fn try_next(&mut self)
        requires
            old(self)@.failed < RESUME_TRIES,
        ensures
            final(self)@ == try_next(old(self)@),
    {
        if self.left.len() > 0 {
            let ghost before = self.left@;
            let t: u32 = self.left.remove(0);
            proof {
                assert(self.left@ =~= before.skip(1));
            }
            self.action = ResumeAction::Open(t);
        } else {
            self.failed += 1;
            self.action = ResumeAction::Wait;
        }
    }

    /// Takes the outcome.
    pub fn step(&mut self, event: ResumeEvent)
        requires
            resume_inv(old(self)@),
        ensures
            final(self)@ == resume_step(old(self)@, event),
            resume_inv(final(self)@),
    {
        match (self.action, event) {
            (ResumeAction::ListThreads, ResumeEvent::Threads(list)) => {
                self.left = pick_threads(&list, self.pid);
                self.try_next();
            },
            (ResumeAction::ListThreads, _) => {
                self.left = Vec::new();
                self.try_next();
            },
            (ResumeAction::Open(_), ResumeEvent::Opened(true)) => {
                self.action = ResumeAction::Resume;
            },
            (ResumeAction::Open(_), _) => {
                self.try_next();
            },
            (ResumeAction::Resume, ResumeEvent::Resumed(count)) => {
                self.action = ResumeAction::Finish(count != u32::MAX);
            },
            (ResumeAction::Resume, _) => {
                self.action = ResumeAction::Finish(false);
            },
            (ResumeAction::Wait, _) => {
                self.action = if self.failed < RESUME_TRIES {
                    ResumeAction::ListThreads
                } else {
                    ResumeAction::Finish(false)
                };
            },
            (ResumeAction::Finish(_), _) => {},
        }
    }
}

/// Resuming ends: each step that does not finish leaves fewer looks, or fewer
/// threads to try in the same look. It says that the process runs only if a thread
/// was resumed.
pub proof fn law_resume_ends(st: ResumeState, event: ResumeEvent)
    requires
        resume_inv(st),
    ensures
        ({
            let next = resume_step(st, event);
            let rank = |a: ResumeAction|
                match a {
                    ResumeAction::Wait => 4int,
                    ResumeAction::ListThreads => 3,
                    ResumeAction::Open(_) => 2,
                    ResumeAction::Resume => 1,
                    ResumeAction::Finish(_) => 0,
                };
            &&& resume_inv(next)
            &&& st.action !is Finish ==> {
                ||| next.failed > st.failed
                ||| next.failed == st.failed && rank(next.action) < rank(st.action)
                ||| next.failed == st.failed && next.action is Open && st.action is Open
                    && next.left.len() < st.left.len()
            }
            &&& next.action == ResumeAction::Finish(true) && st.action !is Finish ==> st.action
                == ResumeAction::Resume && event is Resumed
        }),
{
}

// ---- Starting ----

/// Which step of starting is under way.
#[derive(Clone, Copy, Debug, PartialEq, Eq, Structural)]
pub enum StartPhase {
    Spawn,
    Job,
    Attach,
    Resume,
    Pipes,
    KillTree,
    TerminateJob,
    Over,
}

/// What to do to start the service.
#[derive(Clone, Copy, Debug, PartialEq, Eq, Structural)]
pub enum StartAction {
    /// Create the first process, suspended and without a window.
    Spawn,
    /// Get the job object.
    GetJob,
    /// Put the process into the job.
    Attach,
    /// Let the process run.
    Resume(u32),
    /// Take the pipes that the service writes to, and read from them.
    TakePipes,
    /// End the tree of this process.
    KillTree(u32),
    /// End all processes of the job.
    TerminateJob,
    /// It is over.
    Finish,
}

/// What came of it.
#[derive(Debug)]
pub enum StartEvent {
    /// The process was created.
    Spawned(u32),
    NotSpawned(String),
    /// There is a job object, or not.
    Job(bool),
    /// The process is in the job; whether the launcher is quitting meanwhile.
    Attached(bool),
    NotAttached(String),
    /// Whether the process runs, and whether the launcher is quitting meanwhile.
    Resumed(bool, bool),
    /// Whether the two pipes are there.
    Pipes(bool, bool),
    /// The processes were ended.
    Cleaned,
}

/// How starting ended.
#[derive(Debug)]
pub enum StartEnd {
    Started,
    /// The launcher is quitting.
    Interrupted,
    Failed(String),
}

/// How starting ended.
pub enum StartOutcome {
    Started,
    Interrupted,
    Failed(Seq<char>),
}

pub open spec fn outcome_of(end: StartEnd) -> StartOutcome {
    match end {
        StartEnd::Started => StartOutcome::Started,
        StartEnd::Interrupted => StartOutcome::Interrupted,
        StartEnd::Failed(e) => StartOutcome::Failed(e@),
    }
}

/// How far the starting is.
pub struct StartState {
    pub port: u16,
    pub phase: StartPhase,
    /// The first process, once it was created.
    pub pid: Option<u32>,
    /// Whether it is in the job.
    pub attached: bool,
    /// Whether it was let run.
    pub resumed: bool,
    /// Whether its processes were ended.
    pub cleaned: bool,
    pub end: Option<StartOutcome>,
}

pub open spec fn no_job_text() -> Seq<char> {
    "Job 对象不可用 (dsh 将无法被自动回收)，拒绝启动"@
}

pub open spec fn not_resumed_text() -> Seq<char> {
    "恢复挂起的 dsh 启动进程失败 (主线程未找到或无法恢复)"@
}

pub open spec fn started_text(port: u16) -> Seq<char> {
    "已启动 dsh ("@ + command_text(port as int) + ") 并挂入 Job，输出已并入 launcher.log"@
}

/// What an outcome leads to, and what it logs.
pub open spec fn start_step(st: StartState, event: StartEvent) -> (StartState, Seq<Line>) {
    match (st.phase, event) {
        (StartPhase::Spawn, StartEvent::Spawned(pid)) => (
            StartState { phase: StartPhase::Job, pid: Some(pid), ..st },
            seq![],
        ),
        (StartPhase::Spawn, StartEvent::NotSpawned(e)) => (
            StartState { phase: StartPhase::Over, end: Some(StartOutcome::Failed(e@)), ..st },
            seq![],
        ),
        (StartPhase::Job, StartEvent::Job(there)) => if there {
            (StartState { phase: StartPhase::Attach, ..st }, seq![])
        } else {
            (
                StartState {
                    phase: StartPhase::KillTree,
                    end: Some(StartOutcome::Failed(no_job_text())),
                    ..st
                },
                seq![],
            )
        },
        (StartPhase::Attach, StartEvent::Attached(quitting)) => if quitting {
            (
                StartState {
                    phase: StartPhase::TerminateJob,
                    attached: true,
                    end: Some(StartOutcome::Interrupted),
                    ..st
                },
                seq![],
            )
        } else {
            (StartState { phase: StartPhase::Resume, attached: true, ..st }, seq![])
        },
        (StartPhase::Attach, StartEvent::NotAttached(e)) => (
            StartState { phase: StartPhase::KillTree, end: Some(StartOutcome::Failed(e@)), ..st },
            seq![
                (
                    Level::Fail,
                    "AssignProcessToJobObject 失败 (dsh 将无法被 Job 回收)："@ + e@,
                ),
            ],
        ),
        (StartPhase::Resume, StartEvent::Resumed(runs, quitting)) => if !runs {
            (
                StartState {
                    phase: StartPhase::TerminateJob,
                    end: Some(StartOutcome::Failed(not_resumed_text())),
                    ..st
                },
                seq![(Level::Fail, not_resumed_text())],
            )
        } else if quitting {
            (
                StartState {
                    phase: StartPhase::TerminateJob,
                    resumed: true,
                    end: Some(StartOutcome::Interrupted),
                    ..st
                },
                seq![],
            )
        } else {
            (StartState { phase: StartPhase::Pipes, resumed: true, ..st }, seq![])
        },
        (StartPhase::Pipes, StartEvent::Pipes(stdout, stderr)) => if stdout && stderr {
            (
                StartState { phase: StartPhase::Over, end: Some(StartOutcome::Started), ..st },
                seq![(Level::Info, started_text(st.port))],
            )
        } else {
            (
                StartState {
                    phase: StartPhase::TerminateJob,
                    end: Some(
                        StartOutcome::Failed(
                            if !stdout {
                                "无法获取 dsh stdout 管道"@
                            } else {
                                "无法获取 dsh stderr 管道"@
                            },
                        ),
                    ),
                    ..st
                },
                seq![],
            )
        },
        (StartPhase::KillTree, StartEvent::Cleaned) => (
            StartState { phase: StartPhase::Over, cleaned: true, ..st },
            seq![],
        ),
        (StartPhase::TerminateJob, StartEvent::Cleaned) => (
            StartState { phase: StartPhase::Over, cleaned: true, ..st },
            seq![],
        ),
        _ => (st, seq![]),
    }
}

/// What a state asks for.
pub open spec fn start_action(st: StartState) -> StartAction {
    match st.phase {
        StartPhase::Spawn => StartAction::Spawn,
        StartPhase::Job => StartAction::GetJob,
        StartPhase::Attach => StartAction::Attach,
        StartPhase::Resume => StartAction::Resume(st.pid->0),
        StartPhase::Pipes => StartAction::TakePipes,
        StartPhase::KillTree => StartAction::KillTree(st.pid->0),
        StartPhase::TerminateJob => StartAction::TerminateJob,
        StartPhase::Over => StartAction::Finish,
    }
}

/// What holds at every moment of starting.
pub open spec fn start_inv(st: StartState) -> bool {
    let ended_badly = st.end is Some && st.end->0 !is Started;
    &&& st.resumed ==> st.attached
    &&& st.attached ==> st.pid is Some
    &&& match st.phase {
        StartPhase::Spawn => st.pid is None && st.end is None,
        StartPhase::Job | StartPhase::Attach => st.pid is Some && !st.attached && st.end is None,
        StartPhase::Resume => st.attached && !st.resumed && st.end is None,
        StartPhase::Pipes => st.resumed && st.end is None,
        StartPhase::KillTree => st.pid is Some && !st.attached && ended_badly,
        StartPhase::TerminateJob => st.attached && ended_badly,
        StartPhase::Over => st.end is Some && (st.end->0 is Started ==> st.resumed) && (
        ended_badly && st.pid is Some ==> st.cleaned),
    }
}

/// Before the first step.
pub open spec fn before_start(port: u16) -> StartState {
    StartState {
        port,
        phase: StartPhase::Spawn,
        pid: None,
        attached: false,
        resumed: false,
        cleaned: false,
        end: None,
    }
}

/// The service, being started.
#[derive(Debug)]
pub struct StartHarness {
    port: u16,
    phase: StartPhase,
    pid: Option<u32>,
    attached: bool,
    resumed: bool,
    cleaned: bool,
    end: Option<StartEnd>,
}

impl View for StartHarness {
    type V = StartState;

    closed spec fn view(&self) -> StartState {
        StartState {
            port: self.port,
            phase: self.phase,
            pid: self.pid,
            attached: self.attached,
            resumed: self.resumed,
            cleaned: self.cleaned,
            end: match self.end {
                Some(end) => Some(outcome_of(end)),
                None => None,
            },
        }
    }
}

impl StartHarness {
    /// Before the first step.
    pub fn start_harness(port: u16) -> (r: StartHarness)
        ensures
            r@ == before_start(port),
            start_inv(r@),
    {
        StartHarness {
            port,
            phase: StartPhase::Spawn,
            pid: None,
            attached: false,
            resumed: false,
            cleaned: false,
            end: None,
        }
    }

    /// What is to be done.
    pub fn action(&self) -> (r: StartAction)
        requires
            start_inv(self@),
        ensures
            r == start_action(self@),
    {
        let pid: u32 = match self.pid {
            Some(pid) => pid,
            None => 0,
        };
        match self.phase {
            StartPhase::Spawn => StartAction::Spawn,
            StartPhase::Job => StartAction::GetJob,
            StartPhase::Attach => StartAction::Attach,
            StartPhase::Resume => StartAction::Resume(pid),
            StartPhase::Pipes => StartAction::TakePipes,
            StartPhase::KillTree => StartAction::KillTree(pid),
            StartPhase::TerminateJob => StartAction::TerminateJob,
            StartPhase::Over => StartAction::Finish,
        }
    }

    /// Takes the outcome, and gives the lines to log.
    pub fn step(&mut self, event: StartEvent) -> (r: Vec<LogCommand>)
        requires
            start_inv(old(self)@),
        ensures
            final(self)@ == start_step(old(self)@, event).0,
            said(r@, start_step(old(self)@, event).1),
            start_inv(final(self)@),
    {
        let mut out: Vec<LogCommand> = Vec::new();
        proof {
            assert(said(out@, seq![]));
        }
        match (self.phase, event) {
            (StartPhase::Spawn, StartEvent::Spawned(pid)) => {
                self.phase = StartPhase::Job;
                self.pid = Some(pid);
            },
            (StartPhase::Spawn, StartEvent::NotSpawned(e)) => {
                self.phase = StartPhase::Over;
                self.end = Some(StartEnd::Failed(e));
            },
            (StartPhase::Job, StartEvent::Job(there)) => {
                if there {
                    self.phase = StartPhase::Attach;
                } else {
                    self.phase = StartPhase::KillTree;
                    self.end =
                    Some(
                        StartEnd::Failed(
                            "Job 对象不可用 (dsh 将无法被自动回收)，拒绝启动".to_string(),
                        ),
                    );
                }
            },
            (StartPhase::Attach, StartEvent::Attached(quitting)) => {
                self.attached = true;
                if quitting {
                    self.phase = StartPhase::TerminateJob;
                    self.end = Some(StartEnd::Interrupted);
                } else {
                    self.phase = StartPhase::Resume;
                }
            },
            (StartPhase::Attach, StartEvent::NotAttached(e)) => {
                let mut line =
                    "AssignProcessToJobObject 失败 (dsh 将无法被 Job 回收)：".to_string();
                push_all(&mut line, e.as_str());
                say(&mut out, Level::Fail, line.as_str());
                self.phase = StartPhase::KillTree;
                self.end = Some(StartEnd::Failed(e));
            },
            (StartPhase::Resume, StartEvent::Resumed(runs, quitting)) => {
                if !runs {
                    let e = "恢复挂起的 dsh 启动进程失败 (主线程未找到或无法恢复)";
                    say(&mut out, Level::Fail, e);
                    self.phase = StartPhase::TerminateJob;
                    self.end = Some(StartEnd::Failed(e.to_string()));
                } else {
                    self.resumed = true;
                    if quitting {
                        self.phase = StartPhase::TerminateJob;
                        self.end = Some(StartEnd::Interrupted);
                    } else {
                        self.phase = StartPhase::Pipes;
                    }
                }
            },
            (StartPhase::Pipes, StartEvent::Pipes(stdout, stderr)) => {
                if stdout && stderr {
                    let mut line = "已启动 dsh (".to_string();
                    let cmd = web_command(self.port);
                    push_all(&mut line, cmd.as_str());
                    push_all(&mut line, ") 并挂入 Job，输出已并入 launcher.log");
                    say(&mut out, Level::Info, line.as_str());
                    self.phase = StartPhase::Over;
                    self.end = Some(StartEnd::Started);
                } else {
                    self.phase = StartPhase::TerminateJob;
                    self.end =
                    Some(
                        StartEnd::Failed(
                            if !stdout {
                                "无法获取 dsh stdout 管道".to_string()
                            } else {
                                "无法获取 dsh stderr 管道".to_string()
                            },
                        ),
                    );
                }
            },
            (StartPhase::KillTree, StartEvent::Cleaned) => {
                self.cleaned = true;
                self.phase = StartPhase::Over;
            },
            (StartPhase::TerminateJob, StartEvent::Cleaned) => {
                self.cleaned = true;
                self.phase = StartPhase::Over;
            },
            _ => {},
        }
        out
    }

    /// How starting ended, once it is over.
    pub fn result(self) -> (r: Option<StartEnd>)
        ensures
            match r {
                Some(end) => self@.end == Some(outcome_of(end)),
                None => self@.end is None,
            },
    {
        self.end
    }
}

/// A run: the states that the outcomes lead through.
pub open spec fn start_run(port: u16, events: Seq<StartEvent>) -> StartState
    decreases events.len(),
{
    if events.len() == 0 {
        before_start(port)
    } else {
        start_step(start_run(port, events.drop_last()), events.last()).0
    }
}

proof fn lemma_start_inv(port: u16, events: Seq<StartEvent>)
    ensures
        start_inv(start_run(port, events)),
    decreases events.len(),
{
    if events.len() > 0 {
        lemma_start_inv(port, events.drop_last());
    }
}

/// Nothing of the service runs outside the job: the first process is let run only
/// once it is in the job, and only if the launcher was not quitting then.
pub proof fn law_runs_only_in_the_job(port: u16, events: Seq<StartEvent>)
    ensures
        ({
            let st = start_run(port, events);
            &&& start_action(st) is Resume ==> st.attached && !st.resumed
            &&& st.resumed ==> st.attached
            &&& st.phase == StartPhase::Attach ==> !start_step(
                st,
                StartEvent::Attached(true),
            ).0.resumed && start_step(st, StartEvent::Attached(true)).0.phase
                == StartPhase::TerminateJob
        }),
{
    lemma_start_inv(port, events);
}

/// A start that does not succeed leaves nothing behind: every process that was
/// created has been ended when it is over.
pub proof fn law_failed_start_is_cleaned_up(port: u16, events: Seq<StartEvent>)
    requires
        start_action(start_run(port, events)) == StartAction::Finish,
    ensures
        ({
            let st = start_run(port, events);
            &&& st.end is Some
            &&& st.end->0 !is Started && st.pid is Some ==> st.cleaned
            &&& st.end->0 is Started ==> st.attached && st.resumed
        }),
{
    lemma_start_inv(port, events);
}

// ---- Stopping ----

/// Milliseconds to wait until the end of the job's processes shows.
pub const STOP_WAIT_MS: u64 = 300;

/// What to do to stop the service.
#[derive(Clone, Copy, Debug, PartialEq, Eq, Structural)]
pub enum StopAction {
    /// Get the job object.
    GetJob,
    /// End all processes of the job.
    TerminateJob,
    /// Wait a moment.
    Wait,
    /// Look at the port.
    Probe,
    /// Find out who listens on the port.
    ListListeners,
    /// List the processes with their names.
    ListNamed,
    /// List the processes.
    ListProcesses,
    /// End the processes that were found.
    Terminate,
    /// It is over.
    Finish,
}

/// What came of it.
#[derive(Debug)]
pub enum StopEvent {
    /// There is a job object, or not.
    Job(bool),
    /// The job's processes were ended, or not.
    Terminated(bool),
    Waited,
    /// Whether the port answers, and whether binding it failed.
    Port(bool, bool),
    Listeners(Vec<u32>),
    Named(Vec<(u32, u32, String)>),
    Processes(Vec<(u32, u32)>),
    /// The processes that were found were ended.
    Ended,
}

/// How far the stopping is.
pub struct StopState {
    pub action: StopAction,
    /// Who listens on the port.
    pub listeners: Seq<u32>,
    /// The processes with their names.
    pub named: Seq<Named>,
    /// Whose trees are ended, and whose ancestors too.
    pub roots: Seq<u32>,
    pub ancestor_roots: Seq<u32>,
    /// The processes with their parents.
    pub processes: Seq<Process>,
    /// Whom to end, in order.
    pub victims: Seq<u32>,
}

/// Before the first step.
pub open spec fn before_stop() -> StopState {
    StopState {
        action: StopAction::GetJob,
        listeners: Seq::empty(),
        named: Seq::empty(),
        roots: Seq::empty(),
        ancestor_roots: Seq::empty(),
        processes: Seq::empty(),
        victims: Seq::empty(),
    }
}

/// A stranger as it is written in the log.
pub open spec fn stranger_text(s: (u32, Seq<char>)) -> Seq<char> {
    "("@ + decimal(s.0 as int) + ", "@ + debug_text(s.1) + ")"@
}

/// The line about the strangers that hold the port.
pub open spec fn strangers_text(found: Seq<(u32, Seq<char>)>) -> Seq<char> {
    "端口占用者不是已知 dsh 进程，拒绝误杀："@ + list_text(
        found.map_values(|s: (u32, Seq<char>)| stranger_text(s)),
    )
}

/// The line about the trees that are ended.
pub open spec fn roots_text(roots: Seq<u32>) -> Seq<char> {
    "终止占用端口的进程树，根 PID："@ + list_text(
        roots.map_values(|p: u32| decimal(p as int)),
    )
}

/// The strangers among the listeners.
pub open spec fn strangers_among(t: Seq<Named>, pids: Seq<u32>) -> Seq<(u32, Seq<char>)> {
    pids.filter(|p: u32| is_stranger(t, p)).map_values(|p: u32| stranger(t, p))
}

/// The names are known: strangers are spared, and the trees of the others are
/// ended, if there are any.
pub open spec fn on_named(st: StopState, t: Seq<Named>) -> (StopState, Seq<Line>) {
    let roots = st.listeners.filter(|p: u32| !is_stranger(t, p));
    let found = strangers_among(t, st.listeners);
    let warned = if found.len() > 0 {
        seq![(Level::Warn, strangers_text(found))]
    } else {
        seq![]
    };
    if roots.len() == 0 {
        (
            StopState { action: StopAction::Finish, named: t, ..st },
            warned.push((Level::Warn, "未找到可安全终止的 dsh 监听进程，放弃兜底清理"@)),
        )
    } else {
        (
            StopState {
                action: StopAction::ListProcesses,
                named: t,
                roots,
                ancestor_roots: st.listeners.filter(|p: u32| has_wrappers(t, p)),
                ..st
            },
            warned.push((Level::Info, roots_text(roots))),
        )
    }
}

/// What an outcome leads to, and what it logs.
pub open spec fn stop_step(st: StopState, event: StopEvent) -> (StopState, Seq<Line>) {
    match (st.action, event) {
        (StopAction::GetJob, StopEvent::Job(there)) => (
            StopState {
                action: if there {
                    StopAction::TerminateJob
                } else {
                    StopAction::Wait
                },
                ..st
            },
            seq![],
        ),
        (StopAction::TerminateJob, StopEvent::Terminated(ok)) => (
            StopState { action: StopAction::Wait, ..st },
            if ok {
                seq![]
            } else {
                seq![(Level::Warn, "TerminateJobObject 失败 (Job 秒杀未生效)"@)]
            },
        ),
        (StopAction::Wait, StopEvent::Waited) => (
            StopState { action: StopAction::Probe, ..st },
            seq![],
        ),
        (StopAction::Probe, StopEvent::Port(ready, bind_failed)) => if ready || bind_failed {
            (
                StopState { action: StopAction::ListListeners, ..st },
                seq![(Level::Info, "端口仍被占用，执行纯 Win32 兜底清理"@)],
            )
        } else {
            (StopState { action: StopAction::Finish, ..st }, seq![])
        },
        (StopAction::ListListeners, StopEvent::Listeners(pids)) => if pids@.len() == 0 {
            (
                StopState { action: StopAction::Finish, ..st },
                seq![(Level::Warn, "未找到占用端口的监听进程，放弃兜底清理"@)],
            )
        } else {
            (StopState { action: StopAction::ListNamed, listeners: pids@, ..st }, seq![])
        },
        (StopAction::ListNamed, StopEvent::Named(named)) => on_named(st, rows(named@)),
        (StopAction::ListProcesses, StopEvent::Processes(ps)) => (
            StopState {
                action: StopAction::Terminate,
                processes: ps@,
                victims: victims(st.named, ps@, st.roots, st.ancestor_roots),
                ..st
            },
            seq![],
        ),
        (StopAction::Terminate, StopEvent::Ended) => (
            StopState { action: StopAction::Finish, ..st },
            seq![],
        ),
        _ => (st, seq![]),
    }
}

/// The service, being stopped.
#[derive(Debug)]
pub struct StopHarness {
    action: StopAction,
    listeners: Vec<u32>,
    named: Vec<(u32, u32, String)>,
    roots: Vec<u32>,
    ancestor_roots: Vec<u32>,
    processes: Vec<(u32, u32)>,
    victims: Vec<u32>,
}

impl View for StopHarness {
    type V = StopState;

    closed spec fn view(&self) -> StopState {
        StopState {
            action: self.action,
            listeners: self.listeners@,
            named: rows(self.named@),
            roots: self.roots@,
            ancestor_roots: self.ancestor_roots@,
            processes: self.processes@,
            victims: self.victims@,
        }
    }
}

fn roots_line(roots: &Vec<u32>) -> (r: String)
    ensures
        r@ == roots_text(roots@),
{
    let mut items: Vec<String> = Vec::new();
    let mut i: usize = 0;
    let ghost write = |p: u32| decimal(p as int);
    proof {
        assert(texts(items@) =~= roots@.take(0).map_values(write));
    }
    while i < roots.len()
        invariant
            i <= roots@.len(),
            write == (|p: u32| decimal(p as int)),
            texts(items@) == roots@.take(i as int).map_values(write),
        decreases roots@.len() - i,
    {
        let mut item = String::new();
        push_decimal(&mut item, roots[i] as u64);
        proof {
            assert(Seq::<char>::empty() + decimal(roots@[i as int] as int) =~= decimal(
                roots@[i as int] as int,
            ));
            assert(roots@.take(i + 1).map_values(write) =~= roots@.take(i as int).map_values(
                write,
            ).push(decimal(roots@[i as int] as int)));
        }
        push_text(&mut items, item);
        i += 1;
    }
    let mut line = "终止占用端口的进程树，根 PID：".to_string();
    push_list(&mut line, &items);
    proof {
        assert(roots@.take(i as int) =~= roots@);
    }
    line
}

fn strangers_line(skipped: &Vec<(u32, String)>) -> (r: String)
    ensures
        r@ == strangers_text(strangers(skipped@)),
{
    let mut items: Vec<String> = Vec::new();
    let mut i: usize = 0;
    let ghost all = strangers(skipped@);
    let ghost write = |s: (u32, Seq<char>)| stranger_text(s);
    proof {
        assert(texts(items@) =~= all.take(0).map_values(write));
    }
    while i < skipped.len()
        invariant
            i <= skipped@.len(),
            all == strangers(skipped@),
            write == (|s: (u32, Seq<char>)| stranger_text(s)),
            texts(items@) == all.take(i as int).map_values(write),
        decreases skipped@.len() - i,
    {
        let mut item = "(".to_string();
        push_decimal(&mut item, skipped[i].0 as u64);
        push_all(&mut item, ", ");
        let name = debug_of(skipped[i].1.as_str());
        push_all(&mut item, name.as_str());
        push_all(&mut item, ")");
        proof {
            assert(all[i as int] == (skipped@[i as int].0, skipped@[i as int].1@));
            assert(item@ == stranger_text(all[i as int]));
            assert(all.take(i + 1).map_values(write) =~= all.take(i as int).map_values(
                write,
            ).push(stranger_text(all[i as int])));
        }
        push_text(&mut items, item);
        i += 1;
    }
    let mut line = "端口占用者不是已知 dsh 进程，拒绝误杀：".to_string();
    push_list(&mut line, &items);
    proof {
        assert(all.take(i as int) =~= all);
    }
    line
}

impl StopHarness {
    /// Before the first step.
    pub fn stop_harness() -> (r: StopHarness)
        ensures
            r@ == before_stop(),
    {
        let r = StopHarness {
            action: StopAction::GetJob,
            listeners: Vec::new(),
            named: Vec::new(),
            roots: Vec::new(),
            ancestor_roots: Vec::new(),
            processes: Vec::new(),
            victims: Vec::new(),
        };
        proof {
            assert(rows(r.named@) =~= Seq::<Named>::empty());
        }
        r
    }

    /// What is to be done.
    pub fn action(&self) -> (r: StopAction)
        ensures
            r == self@.action,
    {
        self.action
    }

    /// Whom to end, in order.
    pub fn victims(&self) -> (r: &Vec<u32>)
        ensures
            r@ == self@.victims,
    {
        &self.victims
    }

    fn take_names(&mut self, named: Vec<(u32, u32, String)>) -> (r: Vec<LogCommand>)
        ensures
            final(self)@ == on_named(old(self)@, rows(named@)).0,
            said(r@, on_named(old(self)@, rows(named@)).1),
    {
        let mut out: Vec<LogCommand> = Vec::new();
        let ghost t = rows(named@);
        let ghost found = strangers_among(t, self.listeners@);
        proof {
            assert(said(out@, seq![]));
        }
        let sorted = sort_listeners(self.listeners.as_slice(), named.as_slice());
        proof {
            assert(strangers(sorted.skipped@).len() == sorted.skipped@.len());
        }
        if sorted.skipped.len() > 0 {
            let line = strangers_line(&sorted.skipped);
            say(&mut out, Level::Warn, line.as_str());
            proof {
                assert(seq![].push((Level::Warn, strangers_text(found))) =~= seq![
                    (Level::Warn, strangers_text(found)),
                ]);
            }
        }
        if sorted.roots.len() == 0 {
            say(&mut out, Level::Warn, "未找到可安全终止的 dsh 监听进程，放弃兜底清理");
            self.action = StopAction::Finish;
        } else {
            let line = roots_line(&sorted.roots);
            say(&mut out, Level::Info, line.as_str());
            self.action = StopAction::ListProcesses;
            self.roots = sorted.roots;
            self.ancestor_roots = sorted.ancestor_roots;
        }
        self.named = named;
        out
    }

    /// Takes the outcome, and gives the lines to log.
    pub fn step(&mut self, event: StopEvent) -> (r: Vec<LogCommand>)
        ensures
            final(self)@ == stop_step(old(self)@, event).0,
            said(r@, stop_step(old(self)@, event).1),
    {
        let mut out: Vec<LogCommand> = Vec::new();
        proof {
            assert(said(out@, seq![]));
        }
        match (self.action, event) {
            (StopAction::GetJob, StopEvent::Job(there)) => {
                self.action = if there {
                    StopAction::TerminateJob
                } else {
                    StopAction::Wait
                };
            },
            (StopAction::TerminateJob, StopEvent::Terminated(ok)) => {
                if !ok {
                    say(&mut out, Level::Warn, "TerminateJobObject 失败 (Job 秒杀未生效)");
                }
                self.action = StopAction::Wait;
            },
            (StopAction::Wait, StopEvent::Waited) => {
                self.action = StopAction::Probe;
            },
            (StopAction::Probe, StopEvent::Port(ready, bind_failed)) => {
                if ready || port_occupied(ready, bind_failed) {
                    say(&mut out, Level::Info, "端口仍被占用，执行纯 Win32 兜底清理");
                    self.action = StopAction::ListListeners;
                } else {
                    self.action = StopAction::Finish;
                }
            },
            (StopAction::ListListeners, StopEvent::Listeners(pids)) => {
                if pids.len() == 0 {
                    say(&mut out, Level::Warn, "未找到占用端口的监听进程，放弃兜底清理");
                    self.action = StopAction::Finish;
                } else {
                    self.listeners = pids;
                    self.action = StopAction::ListNamed;
                }
            },
            (StopAction::ListNamed, StopEvent::Named(named)) => {
                return self.take_names(named);
            },
            (StopAction::ListProcesses, StopEvent::Processes(ps)) => {
                self.victims =
                kill_list(
                    self.roots.as_slice(),
                    self.ancestor_roots.as_slice(),
                    self.named.as_slice(),
                    ps.as_slice(),
                );
                self.processes = ps;
                self.action = StopAction::Terminate;
            },
            (StopAction::Terminate, StopEvent::Ended) => {
                self.action = StopAction::Finish;
            },
            _ => {},
        }
        out
    }
}

/// A run: the states that the outcomes lead through.
pub open spec fn stop_run(events: Seq<StopEvent>) -> StopState
    decreases events.len(),
{
    if events.len() == 0 {
        before_stop()
    } else {
        stop_step(stop_run(events.drop_last()), events.last()).0
    }
}

spec fn stop_inv(st: StopState) -> bool {
    &&& st.action == StopAction::ListProcesses || st.action == StopAction::Terminate ==> {
        &&& st.roots == st.listeners.filter(|p: u32| !is_stranger(st.named, p))
        &&& st.ancestor_roots == st.listeners.filter(|p: u32| has_wrappers(st.named, p))
    }
    &&& st.action == StopAction::Terminate ==> st.victims == victims(
        st.named,
        st.processes,
        st.roots,
        st.ancestor_roots,
    )
}

proof fn lemma_stop_inv(events: Seq<StopEvent>)
    ensures
        stop_inv(stop_run(events)),
    decreases events.len(),
{
    if events.len() > 0 {
        lemma_stop_inv(events.drop_last());
    }
}

/// Whoever is ended one by one for holding the port is below a listener that is of
/// the service or has no known name, or is itself of the service: an unrelated
/// process that holds the port is never ended, whatever the port is set to.
pub proof fn law_stop_spares_strangers(events: Seq<StopEvent>, pid: u32)
    requires
        stop_run(events).action == StopAction::Terminate,
        stop_run(events).victims.contains(pid),
    ensures
        ({
            let st = stop_run(events);
            ||| exists|p: u32|
                st.listeners.contains(p) && !is_stranger(st.named, p) && #[trigger] reaches(
                    st.processes,
                    p,
                    pid,
                )
            ||| name_of(st.named, pid) is Some && service_name(name_of(st.named, pid)->0)
        }),
{
    lemma_stop_inv(events);
    let st = stop_run(events);
    law_strangers_are_spared(st.named, st.processes, st.listeners);
}

/// If nobody but strangers holds the port, nobody is ended for it.
pub proof fn law_stop_gives_up_on_strangers(st: StopState, t: Seq<Named>)
    requires
        forall|k: int|
            0 <= k < st.listeners.len() ==> is_stranger(t, #[trigger] st.listeners[k]),
    ensures
        on_named(st, t).0.action == StopAction::Finish,
{
    let pred = |p: u32| !is_stranger(t, p);
    if st.listeners.filter(pred).len() > 0 {
        lemma_filter_from(st.listeners, pred, 0);
    }
}

// ---- What starting and stopping promise ----

/// The command names the port unless it is 3080, and names the very port.
pub proof fn law_command_names_the_port(port: u16)
    ensures
        command_text(3080) == "npx -y @deepseek-ai/dsh web"@,
        port != 3080 ==> command_text(port as int) == command_text(3080) + " --port "@ + decimal(
            port as int,
        ),
{
    reveal_strlit("npx -y @deepseek-ai/dsh web");
    reveal_strlit("npx -y @deepseek-ai/dsh web --port ");
    reveal_strlit(" --port ");
    if port != 3080 {
        assert(command_text(port as int) =~= command_text(3080) + " --port "@ + decimal(
            port as int,
        ));
    }
}

/// The threads of a process are found in the order of the list, thread by thread,
/// by the process that owns them.
pub proof fn law_threads_of_the_process(
    a: Seq<(u32, u32)>,
    b: Seq<(u32, u32)>,
    owner: u32,
    thread: u32,
    pid: u32,
)
    ensures
        threads_of(a + b, pid) == threads_of(a, pid) + threads_of(b, pid),
        threads_of(seq![(owner, thread)], pid) == (if owner == pid {
            seq![thread]
        } else {
            seq![]
        }),
{
    let own = |t: (u32, u32)| belongs_to(t, pid);
    Seq::filter_distributes_over_add(a, b, own);
    assert(threads_of(a + b, pid) =~= threads_of(a, pid) + threads_of(b, pid));
    reveal(Seq::filter);
    let one = seq![(owner, thread)];
    assert(one.drop_last() =~= Seq::<(u32, u32)>::empty());
    assert(Seq::<(u32, u32)>::empty().filter(own) =~= Seq::<(u32, u32)>::empty());
    assert(own(one.last()) <==> owner == pid);
    if owner == pid {
        assert(threads_of(one, pid) =~= seq![thread]);
    } else {
        assert(threads_of(one, pid) =~= Seq::<u32>::empty());
    }
}

/// The first thread that can be opened is resumed, and decides: threads that cannot
/// be opened are passed over, one by one.
pub proof fn law_first_thread_decides(st: ResumeState, list: Vec<(u32, u32)>, count: u32)
    requires
        st.action == ResumeAction::ListThreads,
    ensures
        ({
            let found = threads_of(list@, st.pid);
            let first = resume_step(st, ResumeEvent::Threads(list));
            let opened = resume_step(first, ResumeEvent::Opened(true));
            let shut = resume_step(first, ResumeEvent::Opened(false));
            let end = resume_step(opened, ResumeEvent::Resumed(count));
            &&& found.len() > 0 ==> {
                &&& first.action == ResumeAction::Open(found[0])
                &&& opened.action == ResumeAction::Resume
                &&& end.action == ResumeAction::Finish(count != 0xffff_ffff)
                &&& found.len() > 1 ==> shut.action == ResumeAction::Open(found[1]) && shut.left
                    == found.skip(2)
                &&& found.len() == 1 ==> shut.action == ResumeAction::Wait
            }
            &&& found.len() == 0 ==> first.action == ResumeAction::Wait
            &&& resume_step(st, ResumeEvent::NoThreads).action == ResumeAction::Wait
        }),
{
    let found = threads_of(list@, st.pid);
    if found.len() > 1 {
        assert(found.skip(1).skip(1) =~= found.skip(2));
    }
}

/// `n` looks in vain, with a wait after each.
pub open spec fn in_vain(st: ResumeState, n: nat) -> ResumeState
    decreases n,
{
    if n == 0 {
        st
    } else {
        resume_step(
            resume_step(in_vain(st, (n - 1) as nat), ResumeEvent::NoThreads),
            ResumeEvent::Waited,
        )
    }
}

/// The threads are looked for twenty times, and no more.
pub proof fn law_twenty_looks(pid: u32, n: nat)
    requires
        n <= 20,
    ensures
        ({
            let first = ResumeState {
                pid,
                failed: 0,
                left: Seq::empty(),
                action: ResumeAction::ListThreads,
            };
            in_vain(first, n).action == (if n < 20 {
                ResumeAction::ListThreads
            } else {
                ResumeAction::Finish(false)
            })
        }),
{
    let first = ResumeState {
        pid,
        failed: 0,
        left: Seq::empty(),
        action: ResumeAction::ListThreads,
    };
    lemma_in_vain(first, n);
}

proof fn lemma_in_vain(st: ResumeState, n: nat)
    requires
        n <= 20,
        st.failed == 0,
        st.action == ResumeAction::ListThreads,
    ensures
        in_vain(st, n).failed == n,
        in_vain(st, n).action == (if n < 20 {
            ResumeAction::ListThreads
        } else {
            ResumeAction::Finish(false)
        }),
    decreases n,
{
    if n > 0 {
        lemma_in_vain(st, (n - 1) as nat);
    }
}

/// The steps of a start that succeeds, in order: the first process is created,
/// the job is fetched, the process put into it, let run, and its pipes taken; the
/// one line that is logged holds the command.
pub proof fn law_successful_start(port: u16, pid: u32)
    ensures
        ({
            let spawned = start_step(before_start(port), StartEvent::Spawned(pid));
            let job = start_step(spawned.0, StartEvent::Job(true));
            let attached = start_step(job.0, StartEvent::Attached(false));
            let resumed = start_step(attached.0, StartEvent::Resumed(true, false));
            let piped = start_step(resumed.0, StartEvent::Pipes(true, true));
            &&& start_action(before_start(port)) == StartAction::Spawn
            &&& start_action(spawned.0) == StartAction::GetJob
            &&& start_action(job.0) == StartAction::Attach
            &&& start_action(attached.0) == StartAction::Resume(pid)
            &&& start_action(resumed.0) == StartAction::TakePipes
            &&& start_action(piped.0) == StartAction::Finish
            &&& piped.0.end == Some(StartOutcome::Started)
            &&& spawned.1 + job.1 + attached.1 + resumed.1 == Seq::<Line>::empty()
            &&& piped.1 == seq![
                (
                    Level::Info,
                    "已启动 dsh ("@ + command_text(port as int)
                        + ") 并挂入 Job，输出已并入 launcher.log"@,
                ),
            ]
        }),
{
    let spawned = start_step(before_start(port), StartEvent::Spawned(pid));
    let job = start_step(spawned.0, StartEvent::Job(true));
    let attached = start_step(job.0, StartEvent::Attached(false));
    let resumed = start_step(attached.0, StartEvent::Resumed(true, false));
    assert(spawned.1 + job.1 + attached.1 + resumed.1 =~= Seq::<Line>::empty());
}

/// A start that fails says why, and ends what it created: the tree of the first
/// process as long as that is outside the job, the whole job afterwards.
pub proof fn law_how_a_start_fails(port: u16, pid: u32, e: String, stdout: bool)
    ensures
        ({
            let first = before_start(port);
            let spawned = start_step(first, StartEvent::Spawned(pid)).0;
            let job = start_step(spawned, StartEvent::Job(true)).0;
            let attached = start_step(job, StartEvent::Attached(false)).0;
            let resumed = start_step(attached, StartEvent::Resumed(true, false)).0;
            let not_spawned = start_step(first, StartEvent::NotSpawned(e));
            let no_job = start_step(spawned, StartEvent::Job(false));
            let not_attached = start_step(job, StartEvent::NotAttached(e));
            let not_resumed = start_step(attached, StartEvent::Resumed(false, stdout));
            let no_pipe = start_step(resumed, StartEvent::Pipes(stdout, false));
            let no_stdout = start_step(resumed, StartEvent::Pipes(false, stdout));
            &&& start_action(not_spawned.0) == StartAction::Finish
            &&& not_spawned.0.end == Some(StartOutcome::Failed(e@))
            &&& not_spawned.1 == Seq::<Line>::empty()
            &&& start_action(no_job.0) == StartAction::KillTree(pid)
            &&& no_job.0.end == Some(
                StartOutcome::Failed(
                    "Job 对象不可用 (dsh 将无法被自动回收)，拒绝启动"@,
                ),
            )
            &&& start_action(not_attached.0) == StartAction::KillTree(pid)
            &&& not_attached.0.end == Some(StartOutcome::Failed(e@))
            &&& not_attached.1 == seq![
                (
                    Level::Fail,
                    "AssignProcessToJobObject 失败 (dsh 将无法被 Job 回收)："@ + e@,
                ),
            ]
            &&& start_action(not_resumed.0) == StartAction::TerminateJob
            &&& not_resumed.0.end == Some(
                StartOutcome::Failed(
                    "恢复挂起的 dsh 启动进程失败 (主线程未找到或无法恢复)"@,
                ),
            )
            &&& not_resumed.1 == seq![
                (
                    Level::Fail,
                    "恢复挂起的 dsh 启动进程失败 (主线程未找到或无法恢复)"@,
                ),
            ]
            &&& start_action(no_pipe.0) == StartAction::TerminateJob
            &&& stdout ==> no_pipe.0.end == Some(
                StartOutcome::Failed("无法获取 dsh stderr 管道"@),
            )
            &&& start_action(no_stdout.0) == StartAction::TerminateJob
            &&& no_stdout.0.end == Some(StartOutcome::Failed("无法获取 dsh stdout 管道"@))
            &&& no_job.1 + no_pipe.1 + no_stdout.1 == Seq::<Line>::empty()
        }),
{
    let spawned = start_step(before_start(port), StartEvent::Spawned(pid)).0;
    let job = start_step(spawned, StartEvent::Job(true)).0;
    let attached = start_step(job, StartEvent::Attached(false)).0;
    let resumed = start_step(attached, StartEvent::Resumed(true, false)).0;
    let no_job = start_step(spawned, StartEvent::Job(false));
    let no_pipe = start_step(resumed, StartEvent::Pipes(stdout, false));
    let no_stdout = start_step(resumed, StartEvent::Pipes(false, stdout));
    assert(no_job.1 + no_pipe.1 + no_stdout.1 =~= Seq::<Line>::empty());
}

/// A launcher that is quitting meanwhile interrupts the start, and the job is ended
/// with all that is in it; nothing is logged.
pub proof fn law_quitting_interrupts_the_start(port: u16, pid: u32)
    ensures
        ({
            let spawned = start_step(before_start(port), StartEvent::Spawned(pid)).0;
            let job = start_step(spawned, StartEvent::Job(true)).0;
            let early = start_step(job, StartEvent::Attached(true));
            let attached = start_step(job, StartEvent::Attached(false)).0;
            let late = start_step(attached, StartEvent::Resumed(true, true));
            &&& start_action(early.0) == StartAction::TerminateJob
            &&& start_action(late.0) == StartAction::TerminateJob
            &&& early.0.end == Some(StartOutcome::Interrupted)
            &&& late.0.end == Some(StartOutcome::Interrupted)
            &&& early.1 + late.1 == Seq::<Line>::empty()
        }),
{
    let spawned = start_step(before_start(port), StartEvent::Spawned(pid)).0;
    let job = start_step(spawned, StartEvent::Job(true)).0;
    let attached = start_step(job, StartEvent::Attached(false)).0;
    let early = start_step(job, StartEvent::Attached(true));
    let late = start_step(attached, StartEvent::Resumed(true, true));
    assert(early.1 + late.1 =~= Seq::<Line>::empty());
}

/// Once the cleaning is done the start is over, with the outcome that it had.
pub proof fn law_cleaning_keeps_the_outcome(st: StartState)
    requires
        start_action(st) is KillTree || start_action(st) == StartAction::TerminateJob,
    ensures
        start_action(start_step(st, StartEvent::Cleaned).0) == StartAction::Finish,
        start_step(st, StartEvent::Cleaned).0.end == st.end,
        start_step(st, StartEvent::Cleaned).1 == Seq::<Line>::empty(),
{
}

/// Stopping ends the job, if there is one, then waits and looks at the port; a port
/// that neither answers nor is bound is free, and it is over.
pub proof fn law_stopping_ends_the_job(there: bool, ended: bool, ready: bool, bind_failed: bool)
    ensures
        ({
            let first = stop_step(before_stop(), StopEvent::Job(there));
            let second = if there {
                stop_step(first.0, StopEvent::Terminated(ended))
            } else {
                first
            };
            let third = stop_step(second.0, StopEvent::Waited);
            let fourth = stop_step(third.0, StopEvent::Port(ready, bind_failed));
            &&& before_stop().action == StopAction::GetJob
            &&& there ==> first.0.action == StopAction::TerminateJob
            &&& second.0.action == StopAction::Wait
            &&& first.1 == Seq::<Line>::empty()
            &&& there ==> (second.1 == Seq::<Line>::empty() <==> ended)
            &&& there && !ended ==> second.1 == seq![
                (Level::Warn, "TerminateJobObject 失败 (Job 秒杀未生效)"@),
            ]
            &&& third.0.action == StopAction::Probe
            &&& third.1 == Seq::<Line>::empty()
            &&& !ready && !bind_failed ==> fourth.0.action == StopAction::Finish && fourth.1
                == Seq::<Line>::empty()
            &&& ready || bind_failed ==> fourth.0.action == StopAction::ListListeners && fourth.1
                == seq![(Level::Info, "端口仍被占用，执行纯 Win32 兜底清理"@)]
        }),
{
    let first = stop_step(before_stop(), StopEvent::Job(there));
    let second = if there {
        stop_step(first.0, StopEvent::Terminated(ended))
    } else {
        first
    };
    let third = stop_step(second.0, StopEvent::Waited);
    let fourth = stop_step(third.0, StopEvent::Port(ready, bind_failed));
    assert(first.1 =~= Seq::<Line>::empty());
    assert(there && ended ==> second.1 =~= Seq::<Line>::empty());
    assert(there && !ended ==> second.1.len() == 1);
    assert(third.1 =~= Seq::<Line>::empty());
    assert(!ready && !bind_failed ==> fourth.1 =~= Seq::<Line>::empty());
}

/// A port that is still held: the listeners are listed, then their names, then the
/// processes, and then whoever is to be ended is ended, once. Without listeners it
/// is over at once.
pub proof fn law_clearing_the_port(
    st: StopState,
    pids: Vec<u32>,
    named: Vec<(u32, u32, String)>,
    ps: Vec<(u32, u32)>,
)
    requires
        st.action == StopAction::ListListeners,
    ensures
        ({
            let first = stop_step(st, StopEvent::Listeners(pids));
            let second = stop_step(first.0, StopEvent::Named(named));
            let third = stop_step(second.0, StopEvent::Processes(ps));
            let fourth = stop_step(third.0, StopEvent::Ended);
            &&& pids@.len() == 0 ==> first.0.action == StopAction::Finish && first.1 == seq![
                (Level::Warn, "未找到占用端口的监听进程，放弃兜底清理"@),
            ]
            &&& pids@.len() > 0 ==> first.0.action == StopAction::ListNamed && first.0.listeners
                == pids@ && first.1 == Seq::<Line>::empty()
            &&& pids@.len() > 0 && second.0.action != StopAction::Finish ==> {
                &&& second.0.action == StopAction::ListProcesses
                &&& third.0.action == StopAction::Terminate
                &&& third.0.processes == ps@
                &&& third.0.named == rows(named@)
                &&& third.0.listeners == pids@
                &&& fourth.0.action == StopAction::Finish
                &&& third.1 + fourth.1 == Seq::<Line>::empty()
            }
        }),
{
    let first = stop_step(st, StopEvent::Listeners(pids));
    let second = stop_step(first.0, StopEvent::Named(named));
    let third = stop_step(second.0, StopEvent::Processes(ps));
    let fourth = stop_step(third.0, StopEvent::Ended);
    assert(pids@.len() > 0 ==> first.1 =~= Seq::<Line>::empty());
    assert(second.0.action == StopAction::ListProcesses ==> third.1 + fourth.1 =~= Seq::<
        Line,
    >::empty());
}

/// Who is ended one by one for holding the port, whatever led there: all in the tree
/// of a listener that is of the service or has no known name, and the ancestors of
/// the service above a listener that is of the service and no command interpreter.
pub proof fn law_stop_ends_the_service(events: Seq<StopEvent>, x: u32)
    requires
        stop_run(events).action == StopAction::Terminate,
    ensures
        ({
            let st = stop_run(events);
            st.victims.contains(x) <==> {
                ||| exists|p: u32|
                    st.listeners.contains(p) && (name_of(st.named, p) matches Some(name)
                        ==> service_name(name)) && #[trigger] reaches(st.processes, p, x)
                ||| exists|p: u32|
                    st.listeners.contains(p) && (name_of(st.named, p) matches Some(name)
                        && service_name(name) && name != "cmd.exe"@) && #[trigger] ancestors(
                        st.named,
                        p,
                        Seq::empty(),
                    ).contains(x)
            }
        }),
{
    lemma_stop_inv(events);
    let st = stop_run(events);
    law_who_is_ended(st.named, st.processes, st.listeners, x);
}

/// The names of the listeners are known: it goes on exactly if some listener is of
/// the service or has no known name. The strangers are warned of, if there are any,
/// in the first line, and the last line says what is done.
pub proof fn law_when_the_port_is_cleared(st: StopState, t: Seq<Named>)
    ensures
        ({
            let step = on_named(st, t);
            let going_on = exists|k: int|
                0 <= k < st.listeners.len() && (name_of(t, #[trigger] st.listeners[k]) matches Some(
                    name,
                ) ==> service_name(name));
            let strange = exists|k: int|
                0 <= k < st.listeners.len() && (name_of(t, #[trigger] st.listeners[k]) matches Some(
                    name,
                ) && !service_name(name));
            &&& step.0.action == (if going_on {
                StopAction::ListProcesses
            } else {
                StopAction::Finish
            })
            &&& step.1.len() == (if strange {
                2int
            } else {
                1
            })
            &&& strange ==> step.1[0].0 == Level::Warn
            &&& step.1.last().0 == (if going_on {
                Level::Info
            } else {
                Level::Warn
            })
        }),
{
    let (root, odd) = (|p: u32| !is_stranger(t, p), |p: u32| is_stranger(t, p));
    let roots = st.listeners.filter(root);
    let found = st.listeners.filter(odd);
    if roots.len() > 0 {
        lemma_filter_from(st.listeners, root, 0);
        let k = choose|k: int| 0 <= k < st.listeners.len() && st.listeners[k] == roots[0];
        assert(name_of(t, st.listeners[k]) matches Some(name) ==> service_name(name));
    }
    if exists|k: int|
        0 <= k < st.listeners.len() && (name_of(t, #[trigger] st.listeners[k]) matches Some(name)
            ==> service_name(name)) {
        let k = choose|k: int|
            0 <= k < st.listeners.len() && (name_of(t, #[trigger] st.listeners[k]) matches Some(
                name,
            ) ==> service_name(name));
        assert(root(st.listeners[k]));
        st.listeners.lemma_filter_contains(root, k);
    }
    if found.len() > 0 {
        lemma_filter_from(st.listeners, odd, 0);
        let k = choose|k: int| 0 <= k < st.listeners.len() && st.listeners[k] == found[0];
        assert(name_of(t, st.listeners[k]) matches Some(name) && !service_name(name));
    }
    if exists|k: int|
        0 <= k < st.listeners.len() && (name_of(t, #[trigger] st.listeners[k]) matches Some(name)
            && !service_name(name)) {
        let k = choose|k: int|
            0 <= k < st.listeners.len() && (name_of(t, #[trigger] st.listeners[k]) matches Some(
                name,
            ) && !service_name(name));
        assert(odd(st.listeners[k]));
        st.listeners.lemma_filter_contains(odd, k);
    }
}

/// The lines about the listeners name them: the strangers by number and name, the
/// others by number.
pub proof fn law_lines_name_the_listeners(pid: u32, name: Seq<char>)
    ensures
        roots_text(seq![pid]) == "终止占用端口的进程树，根 PID："@ + (seq!['['] + decimal(
            pid as int,
        ) + seq![']']),
        strangers_text(seq![(pid, name)]) == "端口占用者不是已知 dsh 进程，拒绝误杀："@ + (seq![
            '[',
            '(',
        ] + decimal(pid as int) + seq![',', ' '] + debug_text(name) + seq![')', ']']),
{
    reveal_strlit("(");
    reveal_strlit(")");
    reveal_strlit(", ");
    law_list_text(seq![], decimal(pid as int));
    law_list_text(seq![], stranger_text((pid, name)));
    assert(seq![pid].map_values(|p: u32| decimal(p as int)) =~= seq![decimal(pid as int)]);
    assert(seq![(pid, name)].map_values(|s: (u32, Seq<char>)| stranger_text(s)) =~= seq![
        stranger_text((pid, name)),
    ]);
    assert(seq!['['] + stranger_text((pid, name)) + seq![']'] =~= seq!['[', '('] + decimal(
        pid as int,
    ) + seq![',', ' '] + debug_text(name) + seq![')', ']']);
}

/// What is remembered of a start: before it nothing was created, attached, let run or
/// ended; the process is the one that was created; it counts as attached once it is,
/// as let run once it runs, and as ended once that was done.
pub proof fn law_start_remembers(port: u16, pid: u32, st: StartState, quitting: bool)
    ensures
        ({
            let first = before_start(port);
            let spawned = start_step(first, StartEvent::Spawned(pid)).0;
            let job = start_step(spawned, StartEvent::Job(true)).0;
            let attached = start_step(job, StartEvent::Attached(quitting)).0;
            &&& first.port == port && first.pid is None && first.end is None
            &&& !first.attached && !first.resumed && !first.cleaned
            &&& spawned.pid == Some(pid) && !spawned.attached && spawned.port == port
            &&& attached.attached && !attached.resumed && !attached.cleaned
            &&& st.phase == StartPhase::Resume ==> start_step(
                st,
                StartEvent::Resumed(true, quitting),
            ).0.resumed && !(start_step(st, StartEvent::Resumed(false, quitting)).0.resumed
                && !st.resumed)
            &&& st.phase == StartPhase::KillTree || st.phase == StartPhase::TerminateJob
                ==> start_step(st, StartEvent::Cleaned).0.cleaned
        }),
{
}

} // verus!
