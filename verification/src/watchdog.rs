//! The watchdog, which keeps the service alive, and the animation of the tray icon.
use vstd::prelude::*;

use crate::log::{error, said, say, writes, Level, Line, LogCommand};
use crate::text::{decimal, push_all, push_decimal};

verus! {

/// Milliseconds between two looks at the service.
pub const WATCH_MS: u64 = 2_000;

/// Milliseconds between two looks once the service failed to come up repeatedly.
pub const SLOW_WATCH_MS: u64 = 30_000;

/// After how many starts in a row the looks become rarer.
pub const SLOW_AFTER: u32 = 3;

/// What the watchdog does next.
#[derive(Clone, Copy, Debug, PartialEq, Eq, Structural)]
pub enum WatchAction {
    /// Find out whether the service answers.
    Probe,
    /// Claim the start of the service: set the mark that it is being started, and
    /// find out whether it was set before.
    Claim,
    /// Begin the start of the service.
    Launch,
    /// Rest for so long.
    Rest(u64),
}

/// What came of it.
#[derive(Debug)]
pub enum WatchEvent {
    /// Whether the service answers.
    Probed(bool),
    /// Whether the service was being started already.
    Claimed(bool),
    /// The start was begun.
    Launched,
    /// The start could not be begun.
    NotLaunched(String),
    Rested,
}

/// What the watchdog remembers.
#[derive(Clone, Copy, Debug, PartialEq, Eq, Structural)]
pub struct Watchdog {
    /// How many starts there were since the service last answered.
    pub fail_count: u32,
    /// Whether the service answered at the last look.
    pub was_ready: Option<bool>,
    pub action: WatchAction,
}

/// What a step of the watchdog gives.
pub struct WatchStep {
    pub dog: Watchdog,
    pub lines: Seq<Line>,
    /// Whether the service answers, if that has changed: then the animation is
    /// switched off or on, and the tray is told.
    pub changed: Option<bool>,
    /// Whether the claim on the start is given up.
    pub release: bool,
}

pub open spec fn ready_text(port: int) -> Seq<char> {
    "dsh 就绪 (端口 "@ + decimal(port) + " 可连接)"@
}

/// How long to rest after so many starts in a row.
pub open spec fn interval_of(fail_count: int) -> u64 {
    if fail_count >= SLOW_AFTER {
        SLOW_WATCH_MS
    } else {
        WATCH_MS
    }
}

/// The line about the rarer looks.
pub open spec fn slow_lines(fail_count: int) -> Seq<Line> {
    if fail_count == SLOW_AFTER {
        seq![(Level::Warn, "连续拉起失败 3 次，轮询节奏放慢到 30 秒"@)]
    } else {
        seq![]
    }
}

/// The look is done: a rest, which is longer after many starts in a row.
pub open spec fn rest(dog: Watchdog, lines: Seq<Line>, changed: Option<bool>, release: bool) -> WatchStep {
    WatchStep {
        dog: Watchdog { action: WatchAction::Rest(interval_of(dog.fail_count as int)), ..dog },
        lines: lines + slow_lines(dog.fail_count as int),
        changed,
        release,
    }
}

/// A look found that the service answers, or that it does not.
pub open spec fn on_probed(dog: Watchdog, ready: bool, port: int) -> WatchStep {
    let same = dog.was_ready == Some(ready);
    let lines: Seq<Line> = if same {
        seq![]
    } else if ready {
        seq![(Level::Info, ready_text(port))]
    } else {
        seq![(Level::Info, "dsh 未就绪"@)]
    };
    let changed = if same {
        None
    } else {
        Some(ready)
    };
    if ready {
        rest(Watchdog { fail_count: 0, was_ready: Some(true), ..dog }, lines, changed, false)
    } else {
        WatchStep {
            dog: Watchdog { was_ready: Some(false), action: WatchAction::Claim, ..dog },
            lines,
            changed,
            release: false,
        }
    }
}

/// What an outcome leads to. An outcome that was not asked for changes nothing.
pub open spec fn watch_step(dog: Watchdog, event: WatchEvent, port: int) -> WatchStep {
    match (dog.action, event) {
        (WatchAction::Probe, WatchEvent::Probed(ready)) => on_probed(dog, ready, port),
        (WatchAction::Claim, WatchEvent::Claimed(already)) => if already {
            rest(dog, seq![], None, false)
        } else {
            WatchStep {
                dog: Watchdog { action: WatchAction::Launch, ..dog },
                lines: seq![(Level::Info, "dsh 未运行，触发保活拉起"@)],
                changed: None,
                release: false,
            }
        },
        (WatchAction::Launch, WatchEvent::Launched) => rest(
            Watchdog { fail_count: (dog.fail_count + 1) as u32, ..dog },
            seq![],
            None,
            false,
        ),
        (WatchAction::Launch, WatchEvent::NotLaunched(e)) => rest(
            Watchdog { fail_count: (dog.fail_count + 1) as u32, ..dog },
            seq![(Level::Fail, "启动流程线程创建失败："@ + e@)],
            None,
            true,
        ),
        (WatchAction::Rest(_), WatchEvent::Rested) => WatchStep {
            dog: Watchdog { action: WatchAction::Probe, ..dog },
            lines: seq![],
            changed: None,
            release: false,
        },
        _ => WatchStep { dog, lines: seq![], changed: None, release: false },
    }
}

/// What the watchdog does next. It ends before the next look at the service once the
/// launcher is quitting; a look that has begun is finished, its rest included.
pub open spec fn watch_next(dog: Watchdog, quitting: bool) -> Option<WatchAction> {
    if quitting && dog.action == WatchAction::Probe {
        None
    } else {
        Some(dog.action)
    }
}

/// What a step of the watchdog gives.
#[derive(Debug)]
pub struct WatchResult {
    pub lines: Vec<LogCommand>,
    pub changed: Option<bool>,
    pub release: bool,
}

/// Whether a result is what a step gives.
pub open spec fn gives(r: WatchResult, step: WatchStep) -> bool {
    said(r.lines@, step.lines) && r.changed == step.changed && r.release == step.release
}

impl Watchdog {
    /// Nothing is known.
    pub fn new() -> (r: Watchdog)
        ensures
            r == (Watchdog { fail_count: 0, was_ready: None, action: WatchAction::Probe }),
    {
        Watchdog { fail_count: 0, was_ready: None, action: WatchAction::Probe }
    }

    fn rest(&mut self, lines: Vec<LogCommand>, changed: Option<bool>, release: bool) -> (r:
        WatchResult)
        ensures
            forall|want: Seq<Line>| #[trigger]
                said(lines@, want) ==> gives(r, rest(*old(self), want, changed, release)),
            *final(self) == (Watchdog {
                action: WatchAction::Rest(interval_of(old(self).fail_count as int)),
                ..*old(self)
            }),
    {
        let mut lines = lines;
        let ghost before = lines@;
        if self.fail_count >= SLOW_AFTER {
            if self.fail_count == SLOW_AFTER {
                say(&mut lines, Level::Warn, "连续拉起失败 3 次，轮询节奏放慢到 30 秒");
            }
            self.action = WatchAction::Rest(SLOW_WATCH_MS);
        } else {
            self.action = WatchAction::Rest(WATCH_MS);
        }
        proof {
            assert forall|want: Seq<Line>| #[trigger] said(before, want) implies said(
                lines@,
                want + slow_lines(old(self).fail_count as int),
            ) by {
                if old(self).fail_count == SLOW_AFTER {
                    assert(want + slow_lines(old(self).fail_count as int) =~= want.push(
                        (Level::Warn, "连续拉起失败 3 次，轮询节奏放慢到 30 秒"@),
                    ));
                } else {
                    assert(want + slow_lines(old(self).fail_count as int) =~= want);
                }
            }
        }
        WatchResult { lines, changed, release }
    }

    fn probed(&mut self, ready: bool, port: u16) -> (r: WatchResult)
        ensures
            *final(self) == on_probed(*old(self), ready, port as int).dog,
            gives(r, on_probed(*old(self), ready, port as int)),
    {
        let mut lines: Vec<LogCommand> = Vec::new();
        let ghost mut want: Seq<Line> = seq![];
        proof {
            assert(said(lines@, want));
        }
        let same = match self.was_ready {
            Some(was) => was == ready,
            None => false,
        };
        if !same {
            if ready {
                let mut line = "dsh 就绪 (端口 ".to_string();
                push_decimal(&mut line, port as u64);
                push_all(&mut line, " 可连接)");
                say(&mut lines, Level::Info, line.as_str());
                proof {
                    want = seq![(Level::Info, ready_text(port as int))];
                    assert(Seq::<Line>::empty().push((Level::Info, ready_text(port as int)))
                        =~= want);
                }
            } else {
                say(&mut lines, Level::Info, "dsh 未就绪");
                proof {
                    want = seq![(Level::Info, "dsh 未就绪"@)];
                    assert(Seq::<Line>::empty().push((Level::Info, "dsh 未就绪"@)) =~= want);
                }
            }
        }
        let changed = if same {
            None
        } else {
            Some(ready)
        };
        self.was_ready = Some(ready);
        if ready {
            self.fail_count = 0;
            self.rest(lines, changed, false)
        } else {
            self.action = WatchAction::Claim;
            WatchResult { lines, changed, release: false }
        }
    }

    /// What is to be done; before a look at the service, as long as the launcher is
    /// not quitting.
    pub fn next(&self, quitting: bool) -> (r: Option<WatchAction>)
        ensures
            r == watch_next(*self, quitting),
    {
        match self.action {
            WatchAction::Probe => if quitting {
                None
            } else {
                Some(WatchAction::Probe)
            },
            action => Some(action),
        }
    }

    /// Takes the outcome, and gives what follows from it.
    pub fn step(&mut self, event: WatchEvent, port: u16) -> (r: WatchResult)
        requires
            old(self).fail_count < u32::MAX,
        ensures
            *final(self) == watch_step(*old(self), event, port as int).dog,
            gives(r, watch_step(*old(self), event, port as int)),
    {
        let mut lines: Vec<LogCommand> = Vec::new();
        proof {
            assert(said(lines@, seq![]));
            assert forall|l: Line| #[trigger] seq![].push(l) =~= seq![l] by {}
        }
        match (self.action, event) {
            (WatchAction::Probe, WatchEvent::Probed(ready)) => self.probed(ready, port),
            (WatchAction::Claim, WatchEvent::Claimed(already)) => if already {
                self.rest(lines, None, false)
            } else {
                say(&mut lines, Level::Info, "dsh 未运行，触发保活拉起");
                self.action = WatchAction::Launch;
                WatchResult { lines, changed: None, release: false }
            },
            (WatchAction::Launch, WatchEvent::Launched) => {
                self.fail_count += 1;
                self.rest(lines, None, false)
            },
            (WatchAction::Launch, WatchEvent::NotLaunched(e)) => {
                let mut line = "启动流程线程创建失败：".to_string();
                push_all(&mut line, e.as_str());
                say(&mut lines, Level::Fail, line.as_str());
                self.fail_count += 1;
                self.rest(lines, None, true)
            },
            (WatchAction::Rest(_), WatchEvent::Rested) => {
                self.action = WatchAction::Probe;
                WatchResult { lines, changed: None, release: false }
            },
            _ => WatchResult { lines, changed: None, release: false },
        }
    }

    /// A look failed in an unforeseen way: the animation is switched on, the next
    /// look counts as a change, and comes after a rest.
    pub fn crashed(&mut self) -> (r: LogCommand)
        ensures
            *final(self) == (Watchdog {
                was_ready: None,
                action: WatchAction::Rest(WATCH_MS),
                ..*old(self)
            }),
            writes(r, Level::Fail, "watchdog 单次检查异常，2 秒后继续"@),
    {
        self.was_ready = None;
        self.action = WatchAction::Rest(WATCH_MS);
        error("watchdog 单次检查异常，2 秒后继续")
    }
}

/// Whether the animation runs: if and only if the service does not answer.
pub fn animation_for(ready: bool) -> (r: bool)
    ensures
        r == !ready,
{
    !ready
}

/// One look at a service that does not answer, with nothing being started: the
/// start is claimed and begun.
pub open spec fn failed_look(dog: Watchdog, port: int) -> Watchdog {
    let probed = watch_step(dog, WatchEvent::Probed(false), port).dog;
    let claimed = watch_step(probed, WatchEvent::Claimed(false), port).dog;
    watch_step(claimed, WatchEvent::Launched, port).dog
}

/// So many looks one after another at a service that does not answer.
pub open spec fn failed_looks(dog: Watchdog, port: int, n: nat) -> Watchdog
    decreases n,
{
    if n == 0 {
        dog
    } else {
        let before = failed_looks(dog, port, (n - 1) as nat);
        failed_look(Watchdog { action: WatchAction::Probe, ..before }, port)
    }
}

/// After three starts in a row without an answer the looks come every 30 seconds,
/// before that every 2; and an answer makes them frequent again.
pub proof fn law_watch_slows_down(dog: Watchdog, port: int, n: nat)
    requires
        dog.fail_count == 0,
        dog.action == WatchAction::Probe,
        0 < n < u32::MAX,
    ensures
        ({
            let after = failed_looks(dog, port, n);
            let looking = Watchdog { action: WatchAction::Probe, ..after };
            &&& after.action == WatchAction::Rest(
                if n >= 3 {
                    30_000
                } else {
                    2_000
                },
            )
            &&& watch_step(looking, WatchEvent::Probed(true), port).dog.action == WatchAction::Rest(
                2_000,
            )
        }),
{
    lemma_failed_looks(dog, port, n);
}

proof fn lemma_failed_looks(dog: Watchdog, port: int, n: nat)
    requires
        dog.fail_count == 0,
        dog.action == WatchAction::Probe,
        n < u32::MAX,
    ensures
        failed_looks(dog, port, n).fail_count == n,
        n > 0 ==> failed_looks(dog, port, n).action == WatchAction::Rest(interval_of(n as int)),
    decreases n,
{
    if n > 0 {
        lemma_failed_looks(dog, port, (n - 1) as nat);
    }
}

/// The service is started if and only if it was found not to answer and the claim
/// on the start found that it is not being started; and a claim on the start that
/// comes to nothing is given up.
pub proof fn law_no_second_start(dog: Watchdog, event: WatchEvent, port: int)
    ensures
        dog.action != WatchAction::Launch ==> (watch_step(dog, event, port).dog.action
            == WatchAction::Launch <==> dog.action == WatchAction::Claim && event
            == WatchEvent::Claimed(false)),
        dog.action != WatchAction::Claim ==> (watch_step(dog, event, port).dog.action
            == WatchAction::Claim <==> dog.action == WatchAction::Probe && event
            == WatchEvent::Probed(false)),
        watch_step(dog, event, port).release <==> dog.action == WatchAction::Launch
            && event is NotLaunched,
{
}

/// What a watch comes to.
pub struct Watch {
    pub dog: Watchdog,
    /// What was done, in order.
    pub done: Seq<WatchAction>,
    /// How many starts were begun, or could not be begun, since the service last
    /// answered.
    pub starts: nat,
    /// Whether the watch has ended.
    pub stopped: bool,
}

/// A moment of a watch: whether the launcher is quitting, and what came of what was
/// done, if anything was.
pub type WatchMoment = (bool, WatchEvent);

/// How many starts there were since the service last answered, after an action and
/// what came of it.
pub open spec fn starts_after(starts: nat, action: WatchAction, event: WatchEvent) -> nat {
    if action == WatchAction::Probe && event == WatchEvent::Probed(true) {
        0
    } else if action == WatchAction::Launch && (event is Launched || event is NotLaunched) {
        starts + 1
    } else {
        starts
    }
}

/// The watch from the beginning on, through some moments.
pub open spec fn watched(moments: Seq<WatchMoment>, port: int) -> Watch
    decreases moments.len(),
{
    if moments.len() == 0 {
        Watch {
            dog: Watchdog { fail_count: 0, was_ready: None, action: WatchAction::Probe },
            done: seq![],
            starts: 0,
            stopped: false,
        }
    } else {
        let before = watched(moments.drop_last(), port);
        let (quitting, event) = moments.last();
        if before.stopped {
            before
        } else {
            match watch_next(before.dog, quitting) {
                None => Watch { stopped: true, ..before },
                Some(action) => Watch {
                    dog: watch_step(before.dog, event, port).dog,
                    done: before.done.push(action),
                    starts: starts_after(before.starts, action, event),
                    stopped: false,
                },
            }
        }
    }
}

/// The rests of a watch: 2 seconds after fewer than three starts since the service
/// last answered, 30 seconds after three or more; whatever came before.
pub proof fn law_rests_by_starts(moments: Seq<WatchMoment>, port: int)
    requires
        moments.len() < u32::MAX,
    ensures
        ({
            let watch = watched(moments, port);
            &&& watch.starts <= moments.len()
            &&& watch.dog.fail_count == watch.starts
            &&& watch.dog.action matches WatchAction::Rest(ms) ==> ms == (if watch.starts >= 3 {
                30_000u64
            } else {
                2_000u64
            })
        }),
    decreases moments.len(),
{
    if moments.len() > 0 {
        law_rests_by_starts(moments.drop_last(), port);
    }
}

/// The watch ends when it is seen, before a look at the service, that the launcher is
/// quitting: from then on nothing more is done, the service is neither looked at nor
/// started, whatever comes.
pub proof fn law_quitting_ends_the_watch(moments: Seq<WatchMoment>, port: int, k: int)
    requires
        0 <= k < moments.len(),
        moments[k].0,
        watched(moments.take(k), port).dog.action == WatchAction::Probe,
    ensures
        watched(moments, port).stopped,
        watched(moments, port).done == watched(moments.take(k), port).done,
    decreases moments.len(),
{
    let n = moments.len() - 1;
    assert(moments.drop_last() =~= moments.take(n));
    if k < n {
        assert(moments.drop_last().take(k) =~= moments.take(k));
        law_quitting_ends_the_watch(moments.drop_last(), port, k);
    }
}

/// Once the launcher is quitting, and stays so, no further look at the service is
/// begun; and unless a look is under way that has yet to claim or begin a start,
/// nothing is done but to rest.
pub proof fn law_quitting_begins_no_look(moments: Seq<WatchMoment>, port: int, k: int)
    requires
        0 <= k <= moments.len(),
        forall|j: int| k <= j < moments.len() ==> (#[trigger] moments[j]).0,
    ensures
        ({
            let before = watched(moments.take(k), port);
            let after = watched(moments, port);
            &&& before.done.len() <= after.done.len()
            &&& forall|i: int|
                before.done.len() <= i < after.done.len() ==> #[trigger] after.done[i]
                    != WatchAction::Probe
            &&& before.dog.action is Rest || before.dog.action is Probe ==> (after.dog.action is Rest
                || after.dog.action is Probe) && forall|i: int|
                before.done.len() <= i < after.done.len() ==> #[trigger] after.done[i] is Rest
        }),
    decreases moments.len(),
{
    let n = moments.len() - 1;
    if k == moments.len() {
        assert(moments.take(k) =~= moments);
    } else {
        let init = moments.drop_last();
        assert(init.take(k) =~= moments.take(k));
        assert forall|j: int| k <= j < init.len() implies (#[trigger] init[j]).0 by {
            assert(init[j] == moments[j]);
        }
        law_quitting_begins_no_look(init, port, k);
        assert(moments[n].0);
        let last = watched(init, port);
        let after = watched(moments, port);
        assert forall|i: int| 0 <= i < last.done.len() implies #[trigger] after.done[i]
            == last.done[i] by {}
    }
}

/// The animation and the tray change only if whether the service answers has
/// changed, and then each time; after an unforeseen failure they always do.
pub proof fn law_changes_are_told(dog: Watchdog, ready: bool, port: int)
    requires
        dog.action == WatchAction::Probe,
    ensures
        watch_step(dog, WatchEvent::Probed(ready), port).changed is Some <==> dog.was_ready
            != Some(ready),
        watch_step(dog, WatchEvent::Probed(ready), port).dog.was_ready == Some(ready),
        dog.was_ready is None ==> watch_step(dog, WatchEvent::Probed(ready), port).changed == Some(
            ready,
        ),
{
}

// ---- The animation ----

/// Milliseconds between two frames.
pub const FRAME_MS: u64 = 150;

/// What the animation does next.
#[derive(Clone, Copy, Debug, PartialEq, Eq, Structural)]
pub enum Frame {
    /// The next frame.
    Next,
    /// The end: the plain icon again.
    End,
    /// Nothing.
    Still,
}

/// The animation follows a switch.
#[derive(Clone, Copy, Debug, PartialEq, Eq, Structural)]
pub struct Animator {
    /// Whether the switch was on at the last look.
    pub was_running: bool,
}

/// What the switch asks for.
pub open spec fn frame_of(was_running: bool, running: bool) -> Frame {
    if running {
        Frame::Next
    } else if was_running {
        Frame::End
    } else {
        Frame::Still
    }
}

impl Animator {
    /// Begins with the switch as it is.
    pub fn new(running: bool) -> (r: Animator)
        ensures
            r.was_running == running,
    {
        Animator { was_running: running }
    }

    /// Looks at the switch.
    pub fn look(&mut self, running: bool) -> (r: Frame)
        ensures
            final(self).was_running == running,
            r == frame_of(old(self).was_running, running),
    {
        let was = self.was_running;
        self.was_running = running;
        if running {
            Frame::Next
        } else if was {
            Frame::End
        } else {
            Frame::Still
        }
    }

    /// Looks at the switch, as long as the launcher is not quitting.
    pub fn next(&mut self, quitting: bool, running: bool) -> (r: Option<Frame>)
        ensures
            quitting ==> r is None && *final(self) == *old(self),
            !quitting ==> r == Some(frame_of(old(self).was_running, running))
                && final(self).was_running == running,
    {
        if quitting {
            None
        } else {
            Some(self.look(running))
        }
    }

    /// A look failed in an unforeseen way: the switch is read again.
    pub fn crashed(&mut self, running: bool) -> (r: LogCommand)
        ensures
            final(self).was_running == running,
            writes(r, Level::Fail, "动画线程单次循环异常，150ms 后继续"@),
    {
        self.was_running = running;
        error("动画线程单次循环异常，150ms 后继续")
    }
}

/// The animation ends when the switch goes off, and once; as long as it is on each
/// look gives a frame, however often it was switched on.
pub proof fn law_animation_follows_the_switch(a: bool, b: bool, c: bool)
    ensures
        frame_of(a, b) == Frame::End <==> a && !b,
        frame_of(a, true) == Frame::Next,
        frame_of(a, b) == Frame::End && !c ==> frame_of(b, c) == Frame::Still,
{
}

/// What is told is what was just found: a look at the service tells the tray and
/// the animation whether it answers, unless the look before found the same; and no
/// other step tells anything.
pub proof fn law_told_what_was_found(dog: Watchdog, event: WatchEvent, port: int)
    ensures
        watch_step(dog, event, port).changed == (match (dog.action, event) {
            (WatchAction::Probe, WatchEvent::Probed(ready)) => if dog.was_ready == Some(ready) {
                None
            } else {
                Some(ready)
            },
            _ => None,
        }),
        watch_step(dog, event, port).changed matches Some(ready) ==> event == WatchEvent::Probed(
            ready,
        ) && dog.was_ready != Some(ready) && watch_step(dog, event, port).dog.was_ready == Some(
            ready,
        ),
        dog.action == WatchAction::Probe ==> (event matches WatchEvent::Probed(ready) ==> watch_step(
            dog,
            event,
            port,
        ).dog.was_ready == Some(ready)),
{
}

/// The watch goes on: a rest is followed by a look, and whatever a look leads to
/// ends in a rest; a service that answers is left alone, and so is one that is being
/// started already.
pub proof fn law_watch_goes_on(dog: Watchdog, ms: u64, e: String, port: int)
    ensures
        watch_step(Watchdog { action: WatchAction::Rest(ms), ..dog }, WatchEvent::Rested, port).dog
            == (Watchdog { action: WatchAction::Probe, ..dog }),
        watch_step(
            Watchdog { action: WatchAction::Probe, ..dog },
            WatchEvent::Probed(true),
            port,
        ).dog.action is Rest,
        watch_step(
            Watchdog { action: WatchAction::Probe, ..dog },
            WatchEvent::Probed(true),
            port,
        ).dog.fail_count == 0,
        watch_step(
            Watchdog { action: WatchAction::Probe, ..dog },
            WatchEvent::Probed(false),
            port,
        ).dog.fail_count == dog.fail_count,
        watch_step(
            Watchdog { action: WatchAction::Claim, ..dog },
            WatchEvent::Claimed(true),
            port,
        ).dog.action is Rest,
        watch_step(
            Watchdog { action: WatchAction::Claim, ..dog },
            WatchEvent::Claimed(true),
            port,
        ).dog.fail_count == dog.fail_count,
        watch_step(
            Watchdog { action: WatchAction::Launch, ..dog },
            WatchEvent::Launched,
            port,
        ).dog.action is Rest,
        watch_step(
            Watchdog { action: WatchAction::Launch, ..dog },
            WatchEvent::NotLaunched(e),
            port,
        ).dog.action is Rest,
        dog.fail_count < u32::MAX ==> watch_step(
            Watchdog { action: WatchAction::Launch, ..dog },
            WatchEvent::Launched,
            port,
        ).dog.fail_count == dog.fail_count + 1,
        dog.fail_count < u32::MAX ==> watch_step(
            Watchdog { action: WatchAction::Launch, ..dog },
            WatchEvent::NotLaunched(e),
            port,
        ).dog.fail_count == dog.fail_count + 1,
{
}

/// What a watch logs: that the service came up or went down when it did, that a
/// start is begun, that one could not be begun and why, and, at the third start in
/// a row, that the looks become rarer; nothing else.
pub proof fn law_watch_logs(dog: Watchdog, event: WatchEvent, port: int)
    ensures
        ({
            let out = watch_step(dog, event, port);
            let slower = (Level::Warn, "连续拉起失败 3 次，轮询节奏放慢到 30 秒"@);
            let rests = out.dog.action is Rest && dog.action !is Rest;
            let told: Seq<Line> = match (dog.action, event) {
                (WatchAction::Probe, WatchEvent::Probed(ready)) => if dog.was_ready == Some(ready) {
                    seq![]
                } else if ready {
                    seq![
                        (
                            Level::Info,
                            "dsh 就绪 (端口 "@ + crate::text::decimal(port) + " 可连接)"@,
                        ),
                    ]
                } else {
                    seq![(Level::Info, "dsh 未就绪"@)]
                },
                (WatchAction::Claim, WatchEvent::Claimed(false)) => seq![
                    (Level::Info, "dsh 未运行，触发保活拉起"@),
                ],
                (WatchAction::Launch, WatchEvent::NotLaunched(e)) => seq![
                    (Level::Fail, "启动流程线程创建失败："@ + e@),
                ],
                _ => seq![],
            };
            out.lines == told + (if rests && out.dog.fail_count == 3 {
                seq![slower]
            } else {
                seq![]
            })
        }),
{
    let out = watch_step(dog, event, port);
    assert(out.lines =~= out.lines + Seq::<Line>::empty());
}

/// The watch ends exactly where a look at the service would begin while the launcher
/// is quitting; otherwise it does what it is at.
pub proof fn law_where_the_watch_ends(dog: Watchdog)
    ensures
        watch_next(dog, false) == Some(dog.action),
        dog.action == WatchAction::Probe ==> watch_next(dog, true) is None,
        dog.action != WatchAction::Probe ==> watch_next(dog, true) == Some(dog.action),
{
}

/// What is given back of a step is all of it: its lines, in order, what is told, and
/// whether the claim is given up.
pub proof fn law_step_is_given(r: WatchResult, step: WatchStep, i: int)
    requires
        gives(r, step),
    ensures
        r.changed == step.changed,
        r.release == step.release,
        r.lines@.len() == step.lines.len(),
        0 <= i < step.lines.len() ==> (r.lines@[i] matches LogCommand::Write { level, msg }
            && level == step.lines[i].0 && msg@ == step.lines[i].1),
{
    if 0 <= i < step.lines.len() {
        assert(crate::log::writes(r.lines@[i], step.lines[i].0, step.lines[i].1));
    }
}

/// The plain icon is shown once the switch goes off, and nothing moves while it is
/// off.
pub proof fn law_frames(was_running: bool)
    ensures
        frame_of(was_running, true) == Frame::Next,
        frame_of(true, false) == Frame::End,
        frame_of(false, false) == Frame::Still,
{
}

} // verus!
