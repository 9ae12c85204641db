//! Bringing the service up: clearing the port, starting the service, and waiting
//! until it answers. Times are in milliseconds.
use vstd::prelude::*;

use crate::log::{said, say, Level, Line, LogCommand};
use crate::text::push_all;

verus! {

/// How long the service may give no output before the wait is given up.
pub const STARTUP_IDLE_TIMEOUT_MS: u64 = 120_000;

/// How often the progress of the wait is told.
pub const STARTUP_PROGRESS_INTERVAL_MS: u64 = 5_000;

/// How recent output must be for the service to count as giving output.
pub const OUTPUT_ACTIVE_WINDOW_MS: u64 = 5_000;

/// How long to wait until the port is free.
pub const RELEASE_TIMEOUT_MS: u64 = 5_000;

/// The rest between two looks at a port that is to become free.
pub const RELEASE_REST_MS: u64 = 200;

/// The rest between two looks at a port that is to answer.
pub const READY_REST_MS: u64 = 500;

/// Where the flow stands.
#[derive(Clone, Copy, Debug, PartialEq, Eq, Structural)]
pub enum FlowPhase {
    /// Is the launcher quitting before anything was done?
    Begin,
    /// Does something hold the port?
    Occupied,
    /// What holds the port is being stopped.
    Clearing,
    /// Is the port free by now?
    Releasing,
    /// A rest before the next look at the port.
    ReleaseRest,
    /// Is the launcher quitting before the service is started?
    BeforeStart,
    /// Does the service answer already?
    Ready,
    /// The service is being started.
    Starting,
    /// The start was interrupted: is the launcher quitting?
    Interrupted,
    /// Is the launcher quitting while the service is awaited?
    Waiting,
    /// Does the service answer by now?
    WaitReady,
    /// Does the service give output?
    WaitOutput,
    /// A rest before the next look.
    WaitRest,
    /// The service did not come up: is the launcher quitting?
    NotReady,
    /// What was started is being stopped.
    GivingUp,
    /// It is over; whether the service answers.
    Over(bool),
}

/// What to do next.
#[derive(Clone, Copy, Debug, PartialEq, Eq, Structural)]
pub enum FlowAction {
    /// Find out whether the launcher is quitting.
    AskQuitting,
    /// Find out whether something holds the port without answering.
    ProbeOccupied,
    /// Stop the service.
    Stop,
    /// Rest for so long.
    Rest(u64),
    /// Find out whether the service answers.
    ProbeReady,
    /// Start the service.
    Start,
    /// Find out when the service last gave output.
    AskOutput,
    /// It is over; whether the service answers.
    Finish(bool),
}

/// What came of it.
#[derive(Debug)]
pub enum FlowEvent {
    Quitting(bool),
    /// Whether something holds the port, and what time it is.
    Occupied(bool, u64),
    /// The service was stopped at this time.
    Stopped(u64),
    Rested,
    Ready(bool),
    /// The service was started at this time.
    Started(u64),
    /// The start was interrupted.
    Interrupted(String),
    NotStarted(String),
    /// What time it is, how long ago output last came, and whether any came.
    Output(u64, u64, bool),
}

/// What the tray is told.
#[derive(Clone, Copy, Debug, PartialEq, Eq, Structural)]
pub enum FlowNote {
    /// The service does not answer yet.
    NotReady,
    /// The service is awaited: for how many seconds, and whether it gives output.
    Progress(u64, bool),
}

/// How far the flow is.
pub struct FlowState {
    pub phase: FlowPhase,
    /// Until when to wait for the port to become free.
    pub deadline: u64,
    /// When the service was started.
    pub started: u64,
    /// When the progress was last told.
    pub last_progress: u64,
    /// Whether the service was started, and awaited.
    pub waited: bool,
    /// Whether the wait was given up for want of output.
    pub idle_timeout: bool,
    /// The error of an interrupted start.
    pub error: Seq<char>,
}

/// Before the first step.
pub open spec fn before_flow() -> FlowState {
    FlowState {
        phase: FlowPhase::Begin,
        deadline: 0,
        started: 0,
        last_progress: 0,
        waited: false,
        idle_timeout: false,
        error: Seq::empty(),
    }
}

/// What a step of the flow gives.
pub struct FlowStep {
    pub state: FlowState,
    pub lines: Seq<Line>,
    pub note: Option<FlowNote>,
}

/// The last line of the flow.
pub open spec fn end_text(ready: bool) -> Seq<char> {
    if ready {
        "启动流程结束 (就绪 = true)"@
    } else {
        "启动流程结束 (就绪 = false)"@
    }
}

/// A step that logs nothing and tells nothing.
pub open spec fn silently(st: FlowState, phase: FlowPhase) -> FlowStep {
    FlowStep { state: FlowState { phase, ..st }, lines: seq![], note: None }
}

/// A step that logs one line.
pub open spec fn logging(st: FlowState, phase: FlowPhase, level: Level, msg: Seq<char>) -> FlowStep {
    FlowStep { state: FlowState { phase, ..st }, lines: seq![(level, msg)], note: None }
}

/// The end of the flow.
pub open spec fn ending(st: FlowState, ready: bool) -> FlowStep {
    logging(st, FlowPhase::Over(ready), Level::Info, end_text(ready))
}

/// How much time has passed since a moment; none if the moment is yet to come.
pub open spec fn since(now: u64, then: u64) -> int {
    if now > then {
        now - then
    } else {
        0
    }
}

/// The service was asked when it last gave output: it is given up only if it gave
/// none for too long; else the progress is told from time to time.
pub open spec fn on_output(st: FlowState, now: u64, idle: u64, received: bool) -> FlowStep {
    if idle >= STARTUP_IDLE_TIMEOUT_MS {
        logging(
            FlowState { idle_timeout: true, ..st },
            FlowPhase::NotReady,
            Level::Warn,
            "等待 dsh 端口就绪：已 120 秒无新输出，结束当前等待"@,
        )
    } else if since(now, st.last_progress) >= STARTUP_PROGRESS_INTERVAL_MS {
        FlowStep {
            state: FlowState { phase: FlowPhase::WaitRest, last_progress: now, ..st },
            lines: seq![],
            note: Some(
                FlowNote::Progress(
                    (since(now, st.started) / 1000) as u64,
                    received && idle <= OUTPUT_ACTIVE_WINDOW_MS,
                ),
            ),
        }
    } else {
        silently(st, FlowPhase::WaitRest)
    }
}

/// The service did not come up, and the launcher is quitting or not.
pub open spec fn on_not_ready(st: FlowState, quitting: bool) -> FlowStep {
    if quitting {
        ending(st, false)
    } else if st.idle_timeout {
        logging(
            st,
            FlowPhase::GivingUp,
            Level::Warn,
            "等待 dsh 端口就绪结束：清理当前启动树，watchdog 将重试"@,
        )
    } else {
        FlowStep {
            state: FlowState { phase: FlowPhase::Over(false), ..st },
            lines: seq![
                (
                    Level::Warn,
                    if st.waited {
                        "等待 dsh 端口就绪结束，watchdog 将重试"@
                    } else {
                        "dsh 启动失败，watchdog 将重试"@
                    },
                ),
                (Level::Info, end_text(false)),
            ],
            note: None,
        }
    }
}

/// What an outcome leads to. An outcome that was not asked for changes nothing.
pub open spec fn flow_step(st: FlowState, event: FlowEvent) -> FlowStep {
    match (st.phase, event) {
        (FlowPhase::Begin, FlowEvent::Quitting(quitting)) => if quitting {
            silently(st, FlowPhase::Over(false))
        } else {
            FlowStep {
                state: FlowState { phase: FlowPhase::Occupied, ..st },
                lines: seq![(Level::Info, "启动流程开始"@)],
                note: Some(FlowNote::NotReady),
            }
        },
        (FlowPhase::Occupied, FlowEvent::Occupied(occupied, _)) => if occupied {
            logging(
                st,
                FlowPhase::Clearing,
                Level::Info,
                "端口被外部进程占用，先执行清理"@,
            )
        } else {
            silently(st, FlowPhase::BeforeStart)
        },
        (FlowPhase::Clearing, FlowEvent::Stopped(now)) => silently(
            FlowState { deadline: (now + RELEASE_TIMEOUT_MS) as u64, ..st },
            FlowPhase::Releasing,
        ),
        (FlowPhase::Releasing, FlowEvent::Occupied(occupied, now)) => silently(
            st,
            if occupied && now < st.deadline {
                FlowPhase::ReleaseRest
            } else {
                FlowPhase::BeforeStart
            },
        ),
        (FlowPhase::ReleaseRest, FlowEvent::Rested) => silently(st, FlowPhase::Releasing),
        (FlowPhase::BeforeStart, FlowEvent::Quitting(quitting)) => silently(
            st,
            if quitting {
                FlowPhase::Over(false)
            } else {
                FlowPhase::Ready
            },
        ),
        (FlowPhase::Ready, FlowEvent::Ready(ready)) => if ready {
            ending(st, true)
        } else {
            silently(st, FlowPhase::Starting)
        },
        (FlowPhase::Starting, FlowEvent::Started(now)) => silently(
            FlowState { started: now, last_progress: now, waited: true, ..st },
            FlowPhase::Waiting,
        ),
        (FlowPhase::Starting, FlowEvent::Interrupted(e)) => silently(
            FlowState { error: e@, ..st },
            FlowPhase::Interrupted,
        ),
        (FlowPhase::Starting, FlowEvent::NotStarted(e)) => logging(
            st,
            FlowPhase::NotReady,
            Level::Fail,
            "启动 dsh 失败："@ + e@,
        ),
        (FlowPhase::Interrupted, FlowEvent::Quitting(quitting)) => if quitting {
            logging(
                st,
                FlowPhase::NotReady,
                Level::Info,
                "启动流程收到退出请求，取消启动 dsh"@,
            )
        } else {
            logging(st, FlowPhase::NotReady, Level::Fail, "启动 dsh 失败："@ + st.error)
        },
        (FlowPhase::Waiting, FlowEvent::Quitting(quitting)) => silently(
            st,
            if quitting {
                FlowPhase::NotReady
            } else {
                FlowPhase::WaitReady
            },
        ),
        (FlowPhase::WaitReady, FlowEvent::Ready(ready)) => if ready {
            ending(st, true)
        } else {
            silently(st, FlowPhase::WaitOutput)
        },
        (FlowPhase::WaitOutput, FlowEvent::Output(now, idle, received)) => on_output(
            st,
            now,
            idle,
            received,
        ),
        (FlowPhase::WaitRest, FlowEvent::Rested) => silently(st, FlowPhase::Waiting),
        (FlowPhase::NotReady, FlowEvent::Quitting(quitting)) => on_not_ready(st, quitting),
        (FlowPhase::GivingUp, FlowEvent::Stopped(_)) => ending(st, false),
        _ => silently(st, st.phase),
    }
}

/// What a state asks for.
pub open spec fn flow_action(phase: FlowPhase) -> FlowAction {
    match phase {
        FlowPhase::Begin => FlowAction::AskQuitting,
        FlowPhase::Occupied => FlowAction::ProbeOccupied,
        FlowPhase::Clearing => FlowAction::Stop,
        FlowPhase::Releasing => FlowAction::ProbeOccupied,
        FlowPhase::ReleaseRest => FlowAction::Rest(RELEASE_REST_MS),
        FlowPhase::BeforeStart => FlowAction::AskQuitting,
        FlowPhase::Ready => FlowAction::ProbeReady,
        FlowPhase::Starting => FlowAction::Start,
        FlowPhase::Interrupted => FlowAction::AskQuitting,
        FlowPhase::Waiting => FlowAction::AskQuitting,
        FlowPhase::WaitReady => FlowAction::ProbeReady,
        FlowPhase::WaitOutput => FlowAction::AskOutput,
        FlowPhase::WaitRest => FlowAction::Rest(READY_REST_MS),
        FlowPhase::NotReady => FlowAction::AskQuitting,
        FlowPhase::GivingUp => FlowAction::Stop,
        FlowPhase::Over(ready) => FlowAction::Finish(ready),
    }
}

/// The flow.
#[derive(Debug)]
pub struct StartupFlow {
    phase: FlowPhase,
    deadline: u64,
    started: u64,
    last_progress: u64,
    waited: bool,
    idle_timeout: bool,
    error: String,
}

impl View for StartupFlow {
    type V = FlowState;

    closed spec fn view(&self) -> FlowState {
        FlowState {
            phase: self.phase,
            deadline: self.deadline,
            started: self.started,
            last_progress: self.last_progress,
            waited: self.waited,
            idle_timeout: self.idle_timeout,
            error: self.error@,
        }
    }
}

fn since_then(now: u64, then: u64) -> (r: u64)
    ensures
        r == since(now, then),
{
    if now > then {
        now - then
    } else {
        0
    }
}

impl StartupFlow {
    /// Before the first step.
    pub fn run_startup_flow() -> (r: StartupFlow)
        ensures
            r@ == before_flow(),
    {
        StartupFlow {
            phase: FlowPhase::Begin,
            deadline: 0,
            started: 0,
            last_progress: 0,
            waited: false,
            idle_timeout: false,
            error: String::new(),
        }
    }

    /// What is to be done.
    pub fn action(&self) -> (r: FlowAction)
        ensures
            r == flow_action(self@.phase),
    {
        match self.phase {
            FlowPhase::Begin => FlowAction::AskQuitting,
            FlowPhase::Occupied => FlowAction::ProbeOccupied,
            FlowPhase::Clearing => FlowAction::Stop,
            FlowPhase::Releasing => FlowAction::ProbeOccupied,
            FlowPhase::ReleaseRest => FlowAction::Rest(RELEASE_REST_MS),
            FlowPhase::BeforeStart => FlowAction::AskQuitting,
            FlowPhase::Ready => FlowAction::ProbeReady,
            FlowPhase::Starting => FlowAction::Start,
            FlowPhase::Interrupted => FlowAction::AskQuitting,
            FlowPhase::Waiting => FlowAction::AskQuitting,
            FlowPhase::WaitReady => FlowAction::ProbeReady,
            FlowPhase::WaitOutput => FlowAction::AskOutput,
            FlowPhase::WaitRest => FlowAction::Rest(READY_REST_MS),
            FlowPhase::NotReady => FlowAction::AskQuitting,
            FlowPhase::GivingUp => FlowAction::Stop,
            FlowPhase::Over(ready) => FlowAction::Finish(ready),
        }
    }

    fn end(&mut self, ready: bool, out: &mut Vec<LogCommand>)
        ensures
            final(self)@ == (FlowState { phase: FlowPhase::Over(ready), ..old(self)@ }),
            forall|want: Seq<Line>| #[trigger]
                said(old(out)@, want) ==> said(
                    final(out)@,
                    want.push((Level::Info, end_text(ready))),
                ),
    {
        self.phase = FlowPhase::Over(ready);
        if ready {
            say(out, Level::Info, "启动流程结束 (就绪 = true)");
        } else {
            say(out, Level::Info, "启动流程结束 (就绪 = false)");
        }
    }

    fn fail(&mut self, e: &str, out: &mut Vec<LogCommand>)
        ensures
            final(self)@ == (FlowState { phase: FlowPhase::NotReady, ..old(self)@ }),
            forall|want: Seq<Line>| #[trigger]
                said(old(out)@, want) ==> said(
                    final(out)@,
                    want.push((Level::Fail, "启动 dsh 失败："@ + e@)),
                ),
    {
        let mut line = "启动 dsh 失败：".to_string();
        push_all(&mut line, e);
        say(out, Level::Fail, line.as_str());
        self.phase = FlowPhase::NotReady;
    }

    fn output(&mut self, now: u64, idle: u64, received: bool, out: &mut Vec<LogCommand>) -> (r:
        Option<FlowNote>)
        requires
            said(old(out)@, seq![]),
        ensures
            final(self)@ == on_output(old(self)@, now, idle, received).state,
            said(final(out)@, on_output(old(self)@, now, idle, received).lines),
            r == on_output(old(self)@, now, idle, received).note,
    {
        proof {
            assert forall|l: Line| #[trigger] seq![].push(l) =~= seq![l] by {}
        }
        if idle >= STARTUP_IDLE_TIMEOUT_MS {
            self.idle_timeout = true;
            self.phase = FlowPhase::NotReady;
            say(
                out,
                Level::Warn,
                "等待 dsh 端口就绪：已 120 秒无新输出，结束当前等待",
            );
            None
        } else {
            self.phase = FlowPhase::WaitRest;
            if since_then(now, self.last_progress) >= STARTUP_PROGRESS_INTERVAL_MS {
                self.last_progress = now;
                Some(
                    FlowNote::Progress(
                        since_then(now, self.started) / 1000,
                        received && idle <= OUTPUT_ACTIVE_WINDOW_MS,
                    ),
                )
            } else {
                None
            }
        }
    }

    fn not_ready(&mut self, quitting: bool, out: &mut Vec<LogCommand>)
        requires
            said(old(out)@, seq![]),
        ensures
            final(self)@ == on_not_ready(old(self)@, quitting).state,
            said(final(out)@, on_not_ready(old(self)@, quitting).lines),
    {
        proof {
            assert forall|l: Line| #[trigger] seq![].push(l) =~= seq![l] by {}
            assert forall|l: Line, m: Line| #[trigger] seq![l].push(m) =~= seq![l, m] by {}
        }
        if quitting {
            self.end(false, out);
        } else if self.idle_timeout {
            say(
                out,
                Level::Warn,
                "等待 dsh 端口就绪结束：清理当前启动树，watchdog 将重试",
            );
            self.phase = FlowPhase::GivingUp;
        } else {
            if self.waited {
                say(out, Level::Warn, "等待 dsh 端口就绪结束，watchdog 将重试");
            } else {
                say(out, Level::Warn, "dsh 启动失败，watchdog 将重试");
            }
            self.end(false, out);
        }
    }

    /// Takes the outcome, and gives the lines to log and what to tell the tray.
    pub fn step(&mut self, event: FlowEvent) -> (r: (Vec<LogCommand>, Option<FlowNote>))
        requires
            event matches FlowEvent::Stopped(now) ==> now + RELEASE_TIMEOUT_MS <= u64::MAX,
        ensures
            final(self)@ == flow_step(old(self)@, event).state,
            said(r.0@, flow_step(old(self)@, event).lines),
            r.1 == flow_step(old(self)@, event).note,
    {
        let mut out: Vec<LogCommand> = Vec::new();
        let mut note: Option<FlowNote> = None;
        proof {
            assert(said(out@, seq![]));
            assert forall|l: Line| #[trigger] seq![].push(l) =~= seq![l] by {}
        }
        match (self.phase, event) {
            (FlowPhase::Begin, FlowEvent::Quitting(quitting)) => {
                if quitting {
                    self.phase = FlowPhase::Over(false);
                } else {
                    say(&mut out, Level::Info, "启动流程开始");
                    note = Some(FlowNote::NotReady);
                    self.phase = FlowPhase::Occupied;
                }
            },
            (FlowPhase::Occupied, FlowEvent::Occupied(occupied, _)) => {
                if occupied {
                    say(&mut out, Level::Info, "端口被外部进程占用，先执行清理");
                    self.phase = FlowPhase::Clearing;
                } else {
                    self.phase = FlowPhase::BeforeStart;
                }
            },
            (FlowPhase::Clearing, FlowEvent::Stopped(now)) => {
                self.deadline = now + RELEASE_TIMEOUT_MS;
                self.phase = FlowPhase::Releasing;
            },
            (FlowPhase::Releasing, FlowEvent::Occupied(occupied, now)) => {
                self.phase = if occupied && now < self.deadline {
                    FlowPhase::ReleaseRest
                } else {
                    FlowPhase::BeforeStart
                };
            },
            (FlowPhase::ReleaseRest, FlowEvent::Rested) => {
                self.phase = FlowPhase::Releasing;
            },
            (FlowPhase::BeforeStart, FlowEvent::Quitting(quitting)) => {
                self.phase = if quitting {
                    FlowPhase::Over(false)
                } else {
                    FlowPhase::Ready
                };
            },
            (FlowPhase::Ready, FlowEvent::Ready(ready)) => {
                if ready {
                    self.end(true, &mut out);
                } else {
                    self.phase = FlowPhase::Starting;
                }
            },
            (FlowPhase::Starting, FlowEvent::Started(now)) => {
                self.started = now;
                self.last_progress = now;
                self.waited = true;
                self.phase = FlowPhase::Waiting;
            },
            (FlowPhase::Starting, FlowEvent::Interrupted(e)) => {
                self.error = e;
                self.phase = FlowPhase::Interrupted;
            },
            (FlowPhase::Starting, FlowEvent::NotStarted(e)) => {
                self.fail(e.as_str(), &mut out);
            },
            (FlowPhase::Interrupted, FlowEvent::Quitting(quitting)) => {
                if quitting {
                    say(&mut out, Level::Info, "启动流程收到退出请求，取消启动 dsh");
                    self.phase = FlowPhase::NotReady;
                } else {
                    let e = self.error.clone();
                    self.fail(e.as_str(), &mut out);
                }
            },
            (FlowPhase::Waiting, FlowEvent::Quitting(quitting)) => {
                self.phase = if quitting {
                    FlowPhase::NotReady
                } else {
                    FlowPhase::WaitReady
                };
            },
            (FlowPhase::WaitReady, FlowEvent::Ready(ready)) => {
                if ready {
                    self.end(true, &mut out);
                } else {
                    self.phase = FlowPhase::WaitOutput;
                }
            },
            (FlowPhase::WaitOutput, FlowEvent::Output(now, idle, received)) => {
                note = self.output(now, idle, received, &mut out);
            },
            (FlowPhase::WaitRest, FlowEvent::Rested) => {
                self.phase = FlowPhase::Waiting;
            },
            (FlowPhase::NotReady, FlowEvent::Quitting(quitting)) => {
                self.not_ready(quitting, &mut out);
            },
            (FlowPhase::GivingUp, FlowEvent::Stopped(_)) => {
                self.end(false, &mut out);
            },
            _ => {},
        }
        (out, note)
    }
}

// ---- What the flow promises ----

/// A service that answers already is used as it is: it is started only after it
/// was found not to answer.
pub proof fn law_running_service_is_reused(st: FlowState, event: FlowEvent)
    ensures
        flow_step(st, event).state.phase == FlowPhase::Starting && st.phase != FlowPhase::Starting
            ==> st.phase == FlowPhase::Ready && event == FlowEvent::Ready(false),
        st.phase == FlowPhase::Ready ==> flow_step(st, FlowEvent::Ready(true)).state.phase
            == FlowPhase::Over(true),
{
}

/// The flow ends with a service that answers only if it was just seen to answer.
pub proof fn law_ready_means_ready(st: FlowState, event: FlowEvent)
    requires
        st.phase !is Over,
    ensures
        flow_step(st, event).state.phase == FlowPhase::Over(true) ==> event == FlowEvent::Ready(
            true,
        ),
{
}

/// The wait is given up for want of output only after two minutes without any; as
/// long as output keeps coming it goes on, however long it takes.
pub proof fn law_output_keeps_the_wait_alive(st: FlowState, now: u64, idle: u64, received: bool)
    requires
        st.phase == FlowPhase::WaitOutput,
    ensures
        ({
            let next = flow_step(st, FlowEvent::Output(now, idle, received)).state;
            &&& idle < 120 * 1000 ==> next.phase == FlowPhase::WaitRest && next.idle_timeout
                == st.idle_timeout
            &&& idle >= 120 * 1000 ==> next.phase == FlowPhase::NotReady && next.idle_timeout
        }),
{
}

/// A wait that was given up for want of output leaves nothing behind: what was
/// started is stopped before the flow ends, unless the launcher is quitting, which
/// stops it anyway.
pub proof fn law_giving_up_stops_the_service(st: FlowState)
    requires
        st.phase == FlowPhase::NotReady,
        st.idle_timeout,
    ensures
        flow_action(flow_step(st, FlowEvent::Quitting(false)).state.phase) == FlowAction::Stop,
{
}

/// A launcher that is quitting starts nothing.
pub proof fn law_quitting_starts_nothing(st: FlowState)
    requires
        flow_action(st.phase) == FlowAction::AskQuitting,
    ensures
        ({
            let next = flow_step(st, FlowEvent::Quitting(true)).state.phase;
            next == FlowPhase::Over(false) || next == FlowPhase::NotReady
        }),
        st.phase == FlowPhase::NotReady ==> flow_step(st, FlowEvent::Quitting(true)).state.phase
            == FlowPhase::Over(false),
{
}

/// The wait for the port to become free ends: once its time is over the flow goes
/// on, whatever holds the port.
pub proof fn law_release_wait_ends(st: FlowState, occupied: bool, now: u64)
    requires
        st.phase == FlowPhase::Releasing,
        now >= st.deadline,
    ensures
        flow_step(st, FlowEvent::Occupied(occupied, now)).state.phase == FlowPhase::BeforeStart,
{
}

/// The flow asks in this order: whether the launcher is quitting, whether something
/// holds the port, whether the launcher is quitting, whether the service answers;
/// only if it does not, it is started. The tray is told at once that the service
/// does not answer yet, and the log says that the flow begins.
pub proof fn law_order_of_the_start(t: u64, started: u64)
    ensures
        ({
            let first = flow_step(before_flow(), FlowEvent::Quitting(false));
            let second = flow_step(first.state, FlowEvent::Occupied(false, t));
            let third = flow_step(second.state, FlowEvent::Quitting(false));
            let fourth = flow_step(third.state, FlowEvent::Ready(false));
            let fifth = flow_step(fourth.state, FlowEvent::Started(started));
            let sixth = flow_step(fifth.state, FlowEvent::Quitting(false));
            let seventh = flow_step(sixth.state, FlowEvent::Ready(false));
            &&& flow_action(before_flow().phase) == FlowAction::AskQuitting
            &&& flow_action(first.state.phase) == FlowAction::ProbeOccupied
            &&& flow_action(second.state.phase) == FlowAction::AskQuitting
            &&& flow_action(third.state.phase) == FlowAction::ProbeReady
            &&& flow_action(fourth.state.phase) == FlowAction::Start
            &&& flow_action(fifth.state.phase) == FlowAction::AskQuitting
            &&& flow_action(sixth.state.phase) == FlowAction::ProbeReady
            &&& flow_action(seventh.state.phase) == FlowAction::AskOutput
            &&& first.note == Some(FlowNote::NotReady)
            &&& first.lines == seq![(Level::Info, "启动流程开始"@)]
            &&& second.lines + third.lines + fourth.lines + fifth.lines + sixth.lines
                + seventh.lines == Seq::<Line>::empty()
            &&& flow_action(flow_step(third.state, FlowEvent::Ready(true)).state.phase)
                == FlowAction::Finish(true)
            &&& flow_action(flow_step(sixth.state, FlowEvent::Ready(true)).state.phase)
                == FlowAction::Finish(true)
        }),
{
    let first = flow_step(before_flow(), FlowEvent::Quitting(false));
    let second = flow_step(first.state, FlowEvent::Occupied(false, t));
    let third = flow_step(second.state, FlowEvent::Quitting(false));
    let fourth = flow_step(third.state, FlowEvent::Ready(false));
    let fifth = flow_step(fourth.state, FlowEvent::Started(started));
    let sixth = flow_step(fifth.state, FlowEvent::Quitting(false));
    let seventh = flow_step(sixth.state, FlowEvent::Ready(false));
    assert(second.lines + third.lines + fourth.lines + fifth.lines + sixth.lines + seventh.lines
        =~= Seq::<Line>::empty());
}

/// What holds the port is stopped first; the port is then looked at every fifth of a
/// second until it is free, but for no longer than five seconds from the stop.
pub proof fn law_port_is_cleared_first(t: u64, stopped: u64, occupied: bool, now: u64)
    requires
        stopped + 5000 <= u64::MAX,
    ensures
        ({
            let first = flow_step(before_flow(), FlowEvent::Quitting(false)).state;
            let second = flow_step(first, FlowEvent::Occupied(true, t));
            let third = flow_step(second.state, FlowEvent::Stopped(stopped)).state;
            let fourth = flow_step(third, FlowEvent::Occupied(occupied, now)).state;
            let fifth = flow_step(fourth, FlowEvent::Rested).state;
            &&& flow_action(second.state.phase) == FlowAction::Stop
            &&& second.lines == seq![(Level::Info, "端口被外部进程占用，先执行清理"@)]
            &&& flow_action(third.phase) == FlowAction::ProbeOccupied
            &&& occupied && now < stopped + 5000 ==> flow_action(fourth.phase) == FlowAction::Rest(
                200,
            ) && fifth == third
            &&& !occupied || now >= stopped + 5000 ==> flow_action(fourth.phase)
                == FlowAction::AskQuitting
        }),
{
}

/// While the service is awaited, the tray is told every five seconds for how many
/// whole seconds by now, and that the service gives output if some came in the last
/// five seconds; in between it is told nothing. Then the flow rests for half a second
/// and asks again.
pub proof fn law_progress_is_told(st: FlowState, now: u64, idle: u64, received: bool, secs: int)
    requires
        st.phase == FlowPhase::WaitOutput,
        idle < 120 * 1000,
    ensures
        ({
            let step = flow_step(st, FlowEvent::Output(now, idle, received));
            &&& now < st.last_progress + 5000 ==> step.note is None && step.state.last_progress
                == st.last_progress
            &&& now >= st.last_progress + 5000 ==> step.state.last_progress == now && (step.note
                matches Some(FlowNote::Progress(told, active)) && (st.started <= now ==> 1000
                * told <= now - st.started < 1000 * told + 1000) && (st.started > now ==> told
                == 0) && (active <==> received && idle <= 5000))
            &&& step.lines == Seq::<Line>::empty()
            &&& step.state.started == st.started
            &&& flow_action(step.state.phase) == FlowAction::Rest(500)
            &&& flow_action(flow_step(step.state, FlowEvent::Rested).state.phase)
                == FlowAction::AskQuitting
        }),
{
}

/// The time of the start is the time from which the wait is counted.
pub proof fn law_wait_counts_from_the_start(st: FlowState, now: u64)
    requires
        flow_action(st.phase) == FlowAction::Start,
    ensures
        ({
            let next = flow_step(st, FlowEvent::Started(now)).state;
            next.started == now && next.last_progress == now && next.waited
        }),
{
}

/// A service that cannot be started ends the flow without a service, and the log
/// says why, as a failure; a start that is interrupted is a failure only if the
/// launcher is not quitting.
pub proof fn law_failed_start_is_logged(st: FlowState, e: String, quitting: bool)
    requires
        flow_action(st.phase) == FlowAction::Start,
        !st.idle_timeout,
    ensures
        ({
            let failed = flow_step(st, FlowEvent::NotStarted(e));
            let cut = flow_step(st, FlowEvent::Interrupted(e));
            let told = flow_step(cut.state, FlowEvent::Quitting(quitting));
            let end = flow_step(told.state, FlowEvent::Quitting(quitting));
            &&& failed.lines == seq![(Level::Fail, "启动 dsh 失败："@ + e@)]
            &&& cut.lines == Seq::<Line>::empty()
            &&& flow_action(cut.state.phase) == FlowAction::AskQuitting
            &&& !quitting ==> told.lines == failed.lines
            &&& quitting ==> told.lines == seq![
                (Level::Info, "启动流程收到退出请求，取消启动 dsh"@),
            ]
            &&& flow_action(told.state.phase) == FlowAction::AskQuitting
            &&& flow_action(failed.state.phase) == FlowAction::AskQuitting
            &&& flow_action(end.state.phase) == FlowAction::Finish(false)
            &&& flow_step(failed.state, FlowEvent::Quitting(quitting)).state.phase
                == end.state.phase
        }),
{
}

/// A flow that ends without a service says so, unless the launcher was quitting
/// before anything was started; what came before it is a warning, and tells a
/// service that was awaited from one that was never started.
pub proof fn law_end_is_logged(st: FlowState, quitting: bool, now: u64)
    requires
        st.phase == FlowPhase::NotReady,
    ensures
        ({
            let step = flow_step(st, FlowEvent::Quitting(quitting));
            let last = (Level::Info, "启动流程结束 (就绪 = false)"@);
            &&& quitting ==> step.lines == seq![last] && flow_action(step.state.phase)
                == FlowAction::Finish(false)
            &&& !quitting && !st.idle_timeout ==> step.lines == seq![
                (
                    Level::Warn,
                    if st.waited {
                        "等待 dsh 端口就绪结束，watchdog 将重试"@
                    } else {
                        "dsh 启动失败，watchdog 将重试"@
                    },
                ),
                last,
            ] && flow_action(step.state.phase) == FlowAction::Finish(false)
            &&& !quitting && st.idle_timeout ==> step.lines == seq![
                (
                    Level::Warn,
                    "等待 dsh 端口就绪结束：清理当前启动树，watchdog 将重试"@,
                ),
            ]
            &&& !quitting && st.idle_timeout ==> flow_action(step.state.phase) == FlowAction::Stop
                && flow_step(step.state, FlowEvent::Stopped(now)).lines == seq![last]
                && flow_action(flow_step(step.state, FlowEvent::Stopped(now)).state.phase)
                == FlowAction::Finish(false)
        }),
{
}

/// A flow that ends with a service says so.
pub proof fn law_success_is_logged(st: FlowState, event: FlowEvent)
    requires
        st.phase !is Over,
        flow_step(st, event).state.phase == FlowPhase::Over(true),
    ensures
        flow_step(st, event).lines == seq![(Level::Info, "启动流程结束 (就绪 = true)"@)],
        flow_action(flow_step(st, event).state.phase) == FlowAction::Finish(true),
{
}

/// The launcher is quitting: nothing is done that was not begun, and the flow ends
/// without a service.
pub proof fn law_quitting_ends_the_flow(st: FlowState)
    requires
        flow_action(st.phase) == FlowAction::AskQuitting,
    ensures
        ({
            let first = flow_step(st, FlowEvent::Quitting(true)).state;
            let second = flow_step(first, FlowEvent::Quitting(true)).state;
            &&& flow_action(first.phase) == FlowAction::Finish(false) || (flow_action(first.phase)
                == FlowAction::AskQuitting && flow_action(second.phase) == FlowAction::Finish(
                false,
            ))
            &&& st.phase == FlowPhase::Begin || st.phase == FlowPhase::BeforeStart
                ==> flow_action(first.phase) == FlowAction::Finish(false) && flow_step(
                st,
                FlowEvent::Quitting(true),
            ).lines == Seq::<Line>::empty()
        }),
{
}

/// What was not asked for changes nothing.
pub proof fn law_unasked_changes_nothing(st: FlowState, event: FlowEvent)
    requires
        match event {
            FlowEvent::Quitting(_) => flow_action(st.phase) != FlowAction::AskQuitting,
            FlowEvent::Occupied(_, _) => flow_action(st.phase) != FlowAction::ProbeOccupied,
            FlowEvent::Stopped(_) => flow_action(st.phase) != FlowAction::Stop,
            FlowEvent::Rested => flow_action(st.phase) !is Rest,
            FlowEvent::Ready(_) => flow_action(st.phase) != FlowAction::ProbeReady,
            FlowEvent::Output(_, _, _) => flow_action(st.phase) != FlowAction::AskOutput,
            _ => flow_action(st.phase) != FlowAction::Start,
        },
    ensures
        flow_step(st, event).state == st,
        flow_step(st, event).lines == Seq::<Line>::empty(),
        flow_step(st, event).note is None,
{
}

/// Before the first step nothing has been started, awaited or given up, and no time
/// is remembered.
pub proof fn law_flow_begins_afresh()
    ensures
        ({
            let st = before_flow();
            &&& st.phase == FlowPhase::Begin
            &&& st.deadline == 0 && st.started == 0 && st.last_progress == 0
            &&& !st.waited && !st.idle_timeout
            &&& st.error == Seq::<char>::empty()
        }),
{
}

/// A wait that is given up for want of output is a warning.
pub proof fn law_giving_up_is_logged(st: FlowState, now: u64, idle: u64, received: bool)
    requires
        st.phase == FlowPhase::WaitOutput,
        idle >= 120 * 1000,
    ensures
        flow_step(st, FlowEvent::Output(now, idle, received)).lines == seq![
            (Level::Warn, "等待 dsh 端口就绪：已 120 秒无新输出，结束当前等待"@),
        ],
        flow_step(st, FlowEvent::Output(now, idle, received)).note is None,
{
}

} // verus!
