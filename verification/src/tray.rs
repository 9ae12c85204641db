//! The tray icon and its menu: what each event changes, and what it has done.
use vstd::prelude::*;

use crate::log::Level;
use crate::text::{decimal, push_all, push_decimal};

verus! {

// ---- Texts ----

/// What the tray icon says about the service.
pub open spec fn status_text(ready: bool, starting: bool, port: int) -> Seq<char> {
    if ready {
        "DshLauncher — dsh 运行中 (端口 "@ + decimal(port) + ")"@
    } else if starting {
        "DshLauncher — dsh 启动中…"@
    } else {
        "DshLauncher — dsh 未运行"@
    }
}

/// What the tray icon says about the service.
pub fn update_tooltip(ready: bool, starting: bool, port: u16) -> (r: String)
    ensures
        r@ == status_text(ready, starting, port as int),
{
    if ready {
        let mut text = "DshLauncher — dsh 运行中 (端口 ".to_string();
        push_decimal(&mut text, port as u64);
        push_all(&mut text, ")");
        text
    } else if starting {
        "DshLauncher — dsh 启动中…".to_string()
    } else {
        "DshLauncher — dsh 未运行".to_string()
    }
}

/// What the tray icon says while the service is awaited.
pub open spec fn progress_text(elapsed_secs: int, output_active: bool) -> Seq<char> {
    "DshLauncher — dsh 启动中… (已等待 "@ + decimal(elapsed_secs) + "s，"@ + (if output_active {
        "进程持续输出中"@
    } else {
        "暂未收到新输出"@
    }) + ")"@
}

/// What the tray icon says while the service is awaited: for how long, and whether
/// it gives output.
pub fn update_startup_progress(elapsed_secs: u64, output_active: bool) -> (r: String)
    ensures
        r@ == progress_text(elapsed_secs as int, output_active),
{
    let mut text = "DshLauncher — dsh 启动中… (已等待 ".to_string();
    push_decimal(&mut text, elapsed_secs);
    push_all(&mut text, "s，");
    if output_active {
        push_all(&mut text, "进程持续输出中");
    } else {
        push_all(&mut text, "暂未收到新输出");
    }
    push_all(&mut text, ")");
    text
}

// ---- Events and effects ----

/// What happened.
#[derive(Clone, Copy, Debug, PartialEq, Eq, Structural)]
pub enum UserEvent {
    /// "Open" was chosen in the menu.
    Open,
    /// "Configure" was chosen in the menu.
    Config,
    /// "Restart" was chosen in the menu.
    Restart,
    /// "Quit" was chosen in the menu.
    Quit,
    /// The tray icon was clicked twice.
    DoubleClick,
    /// Anything else that happens to the tray icon or its menu.
    Other,
    /// The next frame of the animation is due.
    AnimationTick,
    /// The animation has ended.
    AnimationStop,
    /// The service was started, or could not be started.
    AnimationDone { ready: bool },
    /// Whether the service answers has changed.
    TooltipUpdate { ready: bool },
    /// The look at the port that "Open" asked for is done.
    OpenProbeDone { ready: bool },
    /// The service is still awaited.
    StartupProgress { elapsed_secs: u64, output_active: bool },
}

/// What is to be done about it.
#[derive(Debug)]
pub enum Effect {
    /// Write a line into the log.
    Log(Level, String),
    /// Switch the animation on or off.
    SetAnim(bool),
    /// Set what the tray icon says.
    Tooltip(String),
    /// Enable or disable "Restart".
    EnableRestart(bool),
    /// Look at the port in the background, and report.
    Probe,
    /// Open the service's page.
    OpenPage,
    /// Open the directory with the service's configuration.
    OpenConfigDir,
    /// Stop the service in the background.
    StopService,
    /// Show this frame of the animation.
    ShowFrame(usize),
    /// Show the icon without animation.
    ShowDefault,
    /// Hide the tray icon.
    HideTray,
    /// Let another instance start.
    ReleaseInstance,
    /// Leave the event loop.
    Exit,
}

/// What is to be done about it.
pub enum Deed {
    Log(Level, Seq<char>),
    SetAnim(bool),
    Tooltip(Seq<char>),
    EnableRestart(bool),
    Probe,
    OpenPage,
    OpenConfigDir,
    StopService,
    ShowFrame(int),
    ShowDefault,
    HideTray,
    ReleaseInstance,
    Exit,
}

pub open spec fn deed(e: Effect) -> Deed {
    match e {
        Effect::Log(level, msg) => Deed::Log(level, msg@),
        Effect::SetAnim(on) => Deed::SetAnim(on),
        Effect::Tooltip(text) => Deed::Tooltip(text@),
        Effect::EnableRestart(on) => Deed::EnableRestart(on),
        Effect::Probe => Deed::Probe,
        Effect::OpenPage => Deed::OpenPage,
        Effect::OpenConfigDir => Deed::OpenConfigDir,
        Effect::StopService => Deed::StopService,
        Effect::ShowFrame(i) => Deed::ShowFrame(i as int),
        Effect::ShowDefault => Deed::ShowDefault,
        Effect::HideTray => Deed::HideTray,
        Effect::ReleaseInstance => Deed::ReleaseInstance,
        Effect::Exit => Deed::Exit,
    }
}

/// What a list of effects does, in order.
pub open spec fn deeds(effects: Seq<Effect>) -> Seq<Deed> {
    effects.map_values(|e: Effect| deed(e))
}

fn act(out: &mut Vec<Effect>, e: Effect)
    ensures
        deeds(final(out)@) == deeds(old(out)@).push(deed(e)),
{
    let ghost before = out@;
    out.push(e);
    proof {
        assert(deeds(out@) =~= deeds(before).push(deed(e)));
    }
}

fn log(out: &mut Vec<Effect>, level: Level, msg: &str)
    ensures
        deeds(final(out)@) == deeds(old(out)@).push(Deed::Log(level, msg@)),
{
    act(out, Effect::Log(level, msg.to_string()));
}

// ---- The state ----

/// What the tray remembers.
#[derive(Clone, Copy, Debug, PartialEq, Eq, Structural)]
pub struct App {
    /// How many frames the animation has.
    pub frames: usize,
    /// The frame that is shown.
    pub anim_idx: usize,
    /// Whether the page is to be opened once the service is ready.
    pub pending_open: bool,
    /// Whether that comes from "Restart".
    pub pending_from_restart: bool,
    /// Whether the launcher is quitting.
    pub quitting: bool,
    /// Whether "Restart" can be chosen.
    pub restart_enabled: bool,
    /// Whether this instance keeps others from starting.
    pub holds_instance: bool,
}

/// What is known at the moment of an event: whether the animation runs, whether
/// the service is being started, and its port.
#[derive(Clone, Copy, Debug, PartialEq, Eq, Structural)]
pub struct Moment {
    pub anim_running: bool,
    pub starting: bool,
    pub port: u16,
}

/// Whether "Restart" may be enabled: the launcher is not quitting, the service is
/// not being started, and no restart is under way.
pub open spec fn restart_available(app: App, now: Moment) -> bool {
    !app.quitting && !now.starting && !app.pending_from_restart
}

/// What "Open" has done: the page is opened once the service is ready.
pub open spec fn on_open(app: App, now: Moment) -> (App, Seq<Deed>) {
    (
        App { pending_open: true, pending_from_restart: false, ..app },
        seq![
            Deed::Log(Level::Info, "用户请求打开 dsh，后台探测端口"@),
            Deed::SetAnim(true),
            Deed::Tooltip(status_text(false, true, now.port as int)),
            Deed::Probe,
        ],
    )
}

/// What "Restart" has done, if it is enabled: the service is stopped, the watchdog
/// starts it again, and then the page is opened.
pub open spec fn on_restart(app: App, now: Moment) -> (App, Seq<Deed>) {
    if !app.restart_enabled {
        (app, seq![])
    } else {
        (
            App {
                restart_enabled: false,
                pending_open: true,
                pending_from_restart: true,
                ..app
            },
            seq![
                Deed::Log(Level::Info, "用户请求重启 dsh"@),
                Deed::EnableRestart(false),
                Deed::SetAnim(true),
                Deed::Tooltip(status_text(false, true, now.port as int)),
                Deed::StopService,
            ],
        )
    }
}

/// What "Quit" has done.
pub open spec fn on_quit(app: App) -> (App, Seq<Deed>) {
    (
        App { quitting: true, restart_enabled: false, holds_instance: false, ..app },
        seq![Deed::HideTray, Deed::EnableRestart(false), Deed::SetAnim(false)] + (
        if app.holds_instance {
            seq![Deed::ReleaseInstance]
        } else {
            seq![]
        }) + seq![Deed::Exit],
    )
}

/// The service answers: if the page was asked for, it is opened, once.
pub open spec fn consume_open(app: App) -> (App, Seq<Deed>) {
    if app.pending_open {
        (App { pending_open: false, ..app }, seq![Deed::OpenPage])
    } else {
        (app, seq![])
    }
}

/// The start of the service has ended.
pub open spec fn on_done(app: App, ready: bool, now: Moment) -> (App, Seq<Deed>) {
    let told = seq![Deed::Tooltip(status_text(ready, now.starting, now.port as int))];
    if ready {
        let calm = App { pending_from_restart: false, ..app };
        let enabled = restart_available(calm, now);
        let (next, opened) = consume_open(App { restart_enabled: enabled, ..calm });
        (next, told.push(Deed::EnableRestart(enabled)) + opened)
    } else if app.pending_from_restart && app.pending_open {
        (
            App {
                restart_enabled: false,
                pending_from_restart: false,
                pending_open: false,
                ..app
            },
            told.push(Deed::EnableRestart(false)).push(
                Deed::Log(
                    Level::Warn,
                    "重启失败：已清除打开待办 (dsh 未就绪，watchdog 将保活重试)"@,
                ),
            ),
        )
    } else {
        (
            App { restart_enabled: false, pending_from_restart: false, ..app },
            told.push(Deed::EnableRestart(false)),
        )
    }
}

/// The look at the port that "Open" asked for is done. While a restart is under
/// way, what it found is out of date.
pub open spec fn on_probe(app: App, ready: bool, now: Moment) -> (App, Seq<Deed>) {
    if !ready {
        (
            app,
            seq![
                Deed::Log(
                    Level::Info,
                    "dsh 未运行：登记打开待办，由 watchdog 拉起后就绪自动打开"@,
                ),
            ],
        )
    } else if app.pending_from_restart {
        (app, seq![])
    } else {
        let enabled = restart_available(app, now);
        let (next, opened) = consume_open(App { restart_enabled: enabled, ..app });
        (
            next,
            seq![
                Deed::SetAnim(false),
                Deed::Tooltip(status_text(true, false, now.port as int)),
                Deed::EnableRestart(enabled),
            ] + opened,
        )
    }
}

/// The frame after the one that is shown; after the last comes the first.
pub open spec fn next_frame(app: App) -> int {
    if app.anim_idx + 1 == app.frames {
        0
    } else {
        app.anim_idx + 1
    }
}

/// What an event changes, and what is done about it.
pub open spec fn app_step(app: App, event: UserEvent, now: Moment) -> (App, Seq<Deed>) {
    match event {
        UserEvent::Open => on_open(app, now),
        UserEvent::DoubleClick => on_open(app, now),
        UserEvent::Config => (
            app,
            seq![Deed::Log(Level::Info, "用户请求打开配置目录"@), Deed::OpenConfigDir],
        ),
        UserEvent::Restart => on_restart(app, now),
        UserEvent::Quit => on_quit(app),
        UserEvent::Other => (app, seq![]),
        UserEvent::AnimationTick => if now.anim_running {
            let idx = next_frame(app);
            (App { anim_idx: idx as usize, ..app }, seq![Deed::ShowFrame(idx)])
        } else {
            (app, seq![])
        },
        UserEvent::AnimationStop => if !now.anim_running {
            (App { anim_idx: 0, ..app }, seq![Deed::ShowDefault])
        } else {
            (app, seq![])
        },
        UserEvent::AnimationDone { ready } => on_done(app, ready, now),
        UserEvent::TooltipUpdate { ready } => {
            let enabled = ready && restart_available(app, now);
            (
                App { restart_enabled: enabled, ..app },
                seq![
                    Deed::EnableRestart(enabled),
                    Deed::Tooltip(status_text(ready, now.starting, now.port as int)),
                ],
            )
        },
        UserEvent::OpenProbeDone { ready } => on_probe(app, ready, now),
        UserEvent::StartupProgress { elapsed_secs, output_active } => if now.starting {
            (app, seq![Deed::Tooltip(progress_text(elapsed_secs as int, output_active))])
        } else {
            (app, seq![])
        },
    }
}

/// What holds of the tray at every moment: a frame of the animation is shown, and
/// "Restart" can be chosen only if the launcher is not quitting and no restart is
/// under way.
pub open spec fn app_inv(app: App) -> bool {
    &&& app.anim_idx < app.frames
    &&& app.restart_enabled ==> !app.quitting && !app.pending_from_restart
}

/// The tray before the first event.
pub open spec fn first_app(frames: usize) -> App {
    App {
        frames,
        anim_idx: 0,
        pending_open: false,
        pending_from_restart: false,
        quitting: false,
        restart_enabled: false,
        holds_instance: true,
    }
}

impl App {
    /// The tray before the first event.
    pub fn new(frames: usize) -> (r: App)
        requires
            frames > 0,
        ensures
            r == first_app(frames),
            app_inv(r),
    {
        App {
            frames,
            anim_idx: 0,
            pending_open: false,
            pending_from_restart: false,
            quitting: false,
            restart_enabled: false,
            holds_instance: true,
        }
    }

    /// Whether "Restart" may be enabled.
    pub fn restart_item_available(&self, now: Moment) -> (r: bool)
        ensures
            r == restart_available(*self, now),
    {
        !self.quitting && !now.starting && !self.pending_from_restart
    }

    /// Enables "Restart" if the service answers and nothing speaks against it.
    fn sync_restart_item(&mut self, ready: bool, now: Moment, out: &mut Vec<Effect>)
        ensures
            *final(self) == (App {
                restart_enabled: ready && restart_available(*old(self), now),
                ..*old(self)
            }),
            deeds(final(out)@) == deeds(old(out)@).push(
                Deed::EnableRestart(ready && restart_available(*old(self), now)),
            ),
    {
        let enabled = ready && self.restart_item_available(now);
        self.restart_enabled = enabled;
        act(out, Effect::EnableRestart(enabled));
    }

    fn handle_open(&mut self, now: Moment, out: &mut Vec<Effect>)
        ensures
            *final(self) == on_open(*old(self), now).0,
            deeds(final(out)@) == deeds(old(out)@) + on_open(*old(self), now).1,
    {
        let ghost before = deeds(out@);
        log(out, Level::Info, "用户请求打开 dsh，后台探测端口");
        self.pending_open = true;
        self.pending_from_restart = false;
        act(out, Effect::SetAnim(true));
        act(out, Effect::Tooltip(update_tooltip(false, true, now.port)));
        act(out, Effect::Probe);
        proof {
            assert(deeds(out@) =~= before + on_open(*old(self), now).1);
        }
    }

    fn handle_restart(&mut self, now: Moment, out: &mut Vec<Effect>)
        ensures
            *final(self) == on_restart(*old(self), now).0,
            deeds(final(out)@) == deeds(old(out)@) + on_restart(*old(self), now).1,
    {
        let ghost before = deeds(out@);
        if self.restart_enabled {
            log(out, Level::Info, "用户请求重启 dsh");
            self.restart_enabled = false;
            act(out, Effect::EnableRestart(false));
            act(out, Effect::SetAnim(true));
            self.pending_open = true;
            self.pending_from_restart = true;
            act(out, Effect::Tooltip(update_tooltip(false, true, now.port)));
            act(out, Effect::StopService);
        }
        proof {
            assert(deeds(out@) =~= before + on_restart(*old(self), now).1);
        }
    }

    fn handle_quit(&mut self, out: &mut Vec<Effect>)
        ensures
            *final(self) == on_quit(*old(self)).0,
            deeds(final(out)@) == deeds(old(out)@) + on_quit(*old(self)).1,
    {
        let ghost before = deeds(out@);
        self.quitting = true;
        act(out, Effect::HideTray);
        self.restart_enabled = false;
        act(out, Effect::EnableRestart(false));
        act(out, Effect::SetAnim(false));
        if self.holds_instance {
            self.holds_instance = false;
            act(out, Effect::ReleaseInstance);
        }
        act(out, Effect::Exit);
        proof {
            assert(deeds(out@) =~= before + on_quit(*old(self)).1);
        }
    }

    fn consume_open(&mut self, out: &mut Vec<Effect>)
        ensures
            *final(self) == consume_open(*old(self)).0,
            deeds(final(out)@) == deeds(old(out)@) + consume_open(*old(self)).1,
    {
        let ghost before = deeds(out@);
        if self.pending_open {
            self.pending_open = false;
            act(out, Effect::OpenPage);
        }
        proof {
            assert(deeds(out@) =~= before + consume_open(*old(self)).1);
        }
    }

    fn handle_done(&mut self, ready: bool, now: Moment, out: &mut Vec<Effect>)
        ensures
            *final(self) == on_done(*old(self), ready, now).0,
            deeds(final(out)@) == deeds(old(out)@) + on_done(*old(self), ready, now).1,
    {
        let ghost before = deeds(out@);
        act(out, Effect::Tooltip(update_tooltip(ready, now.starting, now.port)));
        if ready {
            self.pending_from_restart = false;
            self.sync_restart_item(true, now, out);
            self.consume_open(out);
        } else {
            self.restart_enabled = false;
            act(out, Effect::EnableRestart(false));
            if self.pending_from_restart {
                self.pending_from_restart = false;
                if self.pending_open {
                    self.pending_open = false;
                    log(
                        out,
                        Level::Warn,
                        "重启失败：已清除打开待办 (dsh 未就绪，watchdog 将保活重试)",
                    );
                }
            }
        }
        proof {
            assert(deeds(out@) =~= before + on_done(*old(self), ready, now).1);
        }
    }

    fn handle_probe(&mut self, ready: bool, now: Moment, out: &mut Vec<Effect>)
        ensures
            *final(self) == on_probe(*old(self), ready, now).0,
            deeds(final(out)@) == deeds(old(out)@) + on_probe(*old(self), ready, now).1,
    {
        let ghost before = deeds(out@);
        if ready {
            if !self.pending_from_restart {
                act(out, Effect::SetAnim(false));
                act(out, Effect::Tooltip(update_tooltip(true, false, now.port)));
                self.sync_restart_item(true, now, out);
                self.consume_open(out);
            }
        } else {
            log(out, Level::Info, "dsh 未运行：登记打开待办，由 watchdog 拉起后就绪自动打开");
        }
        proof {
            assert(deeds(out@) =~= before + on_probe(*old(self), ready, now).1);
        }
    }

    /// Takes an event, and gives what is to be done, in order.
    pub fn user_event(&mut self, event: UserEvent, now: Moment) -> (r: Vec<Effect>)
        requires
            app_inv(*old(self)),
        ensures
            *final(self) == app_step(*old(self), event, now).0,
            deeds(r@) == app_step(*old(self), event, now).1,
            app_inv(*final(self)),
    {
        let mut out: Vec<Effect> = Vec::new();
        match event {
            UserEvent::Open => self.handle_open(now, &mut out),
            UserEvent::DoubleClick => self.handle_open(now, &mut out),
            UserEvent::Config => {
                log(&mut out, Level::Info, "用户请求打开配置目录");
                act(&mut out, Effect::OpenConfigDir);
            },
            UserEvent::Restart => self.handle_restart(now, &mut out),
            UserEvent::Quit => self.handle_quit(&mut out),
            UserEvent::Other => {},
            UserEvent::AnimationTick => {
                if now.anim_running {
                    let next: usize = self.anim_idx + 1;
                    self.anim_idx = if next == self.frames {
                        0
                    } else {
                        next
                    };
                    act(&mut out, Effect::ShowFrame(self.anim_idx));
                }
            },
            UserEvent::AnimationStop => {
                if !now.anim_running {
                    self.anim_idx = 0;
                    act(&mut out, Effect::ShowDefault);
                }
            },
            UserEvent::AnimationDone { ready } => self.handle_done(ready, now, &mut out),
            UserEvent::TooltipUpdate { ready } => {
                self.sync_restart_item(ready, now, &mut out);
                act(&mut out, Effect::Tooltip(update_tooltip(ready, now.starting, now.port)));
            },
            UserEvent::OpenProbeDone { ready } => self.handle_probe(ready, now, &mut out),
            UserEvent::StartupProgress { elapsed_secs, output_active } => {
                if now.starting {
                    act(
                        &mut out,
                        Effect::Tooltip(update_startup_progress(elapsed_secs, output_active)),
                    );
                }
            },
        }
        proof {
            assert(deeds(out@) =~= app_step(*old(self), event, now).1);
        }
        out
    }
}

// ---- What the tray promises ----

/// What holds of the tray holds after every event.
pub proof fn law_app_invariant(app: App, event: UserEvent, now: Moment)
    requires
        app_inv(app),
    ensures
        app_inv(app_step(app, event, now).0),
{
}

/// A double click does what "Open" does; any other click does nothing.
pub proof fn law_double_click_opens(app: App, now: Moment)
    ensures
        app_step(app, UserEvent::DoubleClick, now) == app_step(app, UserEvent::Open, now),
        app_step(app, UserEvent::Other, now) == (app, Seq::<Deed>::empty()),
{
}

/// Whether an event says that the service answers.
pub open spec fn says_ready(event: UserEvent) -> bool {
    ||| event == UserEvent::AnimationDone { ready: true }
    ||| event == UserEvent::TooltipUpdate { ready: true }
    ||| event == UserEvent::OpenProbeDone { ready: true }
}

/// "Restart" becomes available only by an event that says that the service
/// answers, and only if the service is not being started, no restart is under way
/// and the launcher is not quitting.
pub proof fn law_restart_needs_a_running_service(app: App, event: UserEvent, now: Moment)
    requires
        app_inv(app),
        !app.restart_enabled,
        app_step(app, event, now).0.restart_enabled,
    ensures
        says_ready(event),
        !now.starting,
        !app.quitting,
        !app_step(app, event, now).0.pending_from_restart,
{
}

/// "Restart" stops the service only if it is available, and is then unavailable
/// until an event says that the service answers.
pub proof fn law_restart_only_once(app: App, event: UserEvent, now: Moment, later: Moment)
    requires
        app_inv(app),
    ensures
        app_step(app, event, now).1.contains(Deed::StopService) ==> event == UserEvent::Restart
            && app.restart_enabled,
        !app_step(app, UserEvent::Restart, now).0.restart_enabled,
        app_step(app_step(app, UserEvent::Restart, now).0, UserEvent::Restart, later).1
            == Seq::<Deed>::empty(),
{
}

/// The page is opened only by an event that says that the service answers, only if
/// it was asked for, and once for each time that it was.
pub proof fn law_page_opens_when_ready(app: App, event: UserEvent, now: Moment)
    ensures
        app_step(app, event, now).1.contains(Deed::OpenPage) ==> says_ready(event)
            && app.pending_open && !app_step(app, event, now).0.pending_open,
{
}

/// A page that was asked for is opened: if the service answers at once, when the
/// port was looked at; else it stays asked for, through failed starts, until the
/// service was started.
pub proof fn law_open_is_remembered(app: App, now: Moment, later: Moment, last: Moment)
    ensures
        ({
            let asked = app_step(app, UserEvent::Open, now).0;
            let not_there = app_step(asked, UserEvent::OpenProbeDone { ready: false }, later).0;
            let failed = app_step(not_there, UserEvent::AnimationDone { ready: false }, later).0;
            &&& app_step(asked, UserEvent::OpenProbeDone { ready: true }, later).1.last()
                == Deed::OpenPage
            &&& not_there.pending_open
            &&& failed.pending_open
            &&& app_step(failed, UserEvent::AnimationDone { ready: true }, last).1.last()
                == Deed::OpenPage
        }),
{
}

/// A restart that fails gives up on opening the page; one that succeeds opens it.
pub proof fn law_restart_opens_or_gives_up(app: App, now: Moment, later: Moment)
    requires
        app.restart_enabled,
    ensures
        ({
            let asked = app_step(app, UserEvent::Restart, now).0;
            let failed = app_step(asked, UserEvent::AnimationDone { ready: false }, later);
            let started = app_step(asked, UserEvent::AnimationDone { ready: true }, later);
            &&& !failed.0.pending_open
            &&& failed.1.last() is Log
            &&& started.1.last() == Deed::OpenPage
            &&& !started.0.pending_from_restart
        }),
{
}

/// While a restart is under way, an older look at the port changes nothing.
pub proof fn law_old_probe_is_ignored(app: App, now: Moment)
    requires
        app.pending_from_restart,
    ensures
        app_step(app, UserEvent::OpenProbeDone { ready: true }, now) == (app, Seq::<Deed>::empty()),
{
}

/// A frame or an end of the animation that comes late changes nothing.
pub proof fn law_late_frames_are_ignored(app: App, now: Moment)
    ensures
        !now.anim_running ==> app_step(app, UserEvent::AnimationTick, now) == (
            app,
            Seq::<Deed>::empty(),
        ),
        now.anim_running ==> app_step(app, UserEvent::AnimationStop, now) == (
            app,
            Seq::<Deed>::empty(),
        ),
{
}

/// The frames come one after another, and the first again after the last.
pub proof fn law_frames_go_round(app: App, now: Moment)
    requires
        app_inv(app),
        now.anim_running,
    ensures
        app_step(app, UserEvent::AnimationTick, now).0.anim_idx == (app.anim_idx + 1)
            % app.frames as int,
{
    let n = app.frames as int;
    let i = app.anim_idx + 1;
    if i == n {
        vstd::arithmetic::div_mod::lemma_mod_self_0(n);
    } else {
        vstd::arithmetic::div_mod::lemma_small_mod(i as nat, n as nat);
    }
}

/// Once the launcher is quitting it stays so, "Restart" stays unavailable, and the
/// instance is given up once.
pub proof fn law_quitting_is_final(app: App, event: UserEvent, now: Moment)
    requires
        app_inv(app),
    ensures
        app_step(app, UserEvent::Quit, now).0.quitting,
        app.quitting ==> app_step(app, event, now).0.quitting && !app_step(
            app,
            event,
            now,
        ).0.restart_enabled,
        app_step(app, event, now).1.contains(Deed::ReleaseInstance) ==> event == UserEvent::Quit
            && app.holds_instance && !app_step(app, event, now).0.holds_instance,
{
}

/// A service that does not answer cannot be restarted: after an event that says so
/// "Restart" is disabled, and the menu shows it, whatever was before.
pub proof fn law_no_restart_while_down(app: App, now: Moment)
    ensures
        !app_step(app, UserEvent::TooltipUpdate { ready: false }, now).0.restart_enabled,
        app_step(app, UserEvent::TooltipUpdate { ready: false }, now).1.contains(
            Deed::EnableRestart(false),
        ),
        !app_step(app, UserEvent::AnimationDone { ready: false }, now).0.restart_enabled,
        app_step(app, UserEvent::AnimationDone { ready: false }, now).1.contains(
            Deed::EnableRestart(false),
        ),
{
    let a = app_step(app, UserEvent::TooltipUpdate { ready: false }, now).1;
    let b = app_step(app, UserEvent::AnimationDone { ready: false }, now).1;
    assert(a[0] == Deed::EnableRestart(false));
    assert(b[1] == Deed::EnableRestart(false));
}

/// An event that says that the service answers enables "Restart" if and only if the
/// launcher is not quitting, the service is not being started and no restart is
/// under way; a service that was started ends a restart.
pub proof fn law_restart_while_up(app: App, now: Moment)
    ensures
        app_step(app, UserEvent::TooltipUpdate { ready: true }, now).0.restart_enabled <==> (
        !app.quitting && !now.starting && !app.pending_from_restart),
        app_step(app, UserEvent::AnimationDone { ready: true }, now).0.restart_enabled <==> (
        !app.quitting && !now.starting),
        !app_step(app, UserEvent::AnimationDone { ready: true }, now).0.pending_from_restart,
        !app.pending_from_restart ==> (app_step(
            app,
            UserEvent::OpenProbeDone { ready: true },
            now,
        ).0.restart_enabled <==> (!app.quitting && !now.starting)),
{
}

/// The menu shows what holds: whatever an event does, "Restart" is enabled in the
/// menu as it is remembered, and a change is always shown.
pub proof fn law_menu_shows_the_state(app: App, event: UserEvent, now: Moment, on: bool)
    ensures
        app_step(app, event, now).1.contains(Deed::EnableRestart(on)) ==> app_step(
            app,
            event,
            now,
        ).0.restart_enabled == on,
        app_step(app, event, now).0.restart_enabled != app.restart_enabled ==> app_step(
            app,
            event,
            now,
        ).1.contains(Deed::EnableRestart(app_step(app, event, now).0.restart_enabled)),
{
    let (next, done) = app_step(app, event, now);
    let shown = Deed::EnableRestart(next.restart_enabled);
    match event {
        UserEvent::Restart => {
            if app.restart_enabled {
                assert(done[1] == shown);
            }
        },
        UserEvent::Quit => {
            assert(done[1] == shown);
        },
        UserEvent::AnimationDone { ready } => {
            assert(done[1] == shown);
        },
        UserEvent::TooltipUpdate { ready } => {
            assert(done[0] == shown);
        },
        UserEvent::OpenProbeDone { ready } => {
            if ready && !app.pending_from_restart {
                assert(done[2] == shown);
            }
        },
        _ => {},
    }
}

/// The animation is switched on when the page is asked for and when a restart is
/// begun, and off when the launcher quits and when a look that "Open" asked for
/// finds that the service answers, no restart being under way; no other event
/// switches it.
pub proof fn law_when_the_animation_is_switched(app: App, event: UserEvent, now: Moment)
    ensures
        app_step(app, event, now).1.contains(Deed::SetAnim(true)) <==> (event == UserEvent::Open
            || event == UserEvent::DoubleClick || (event == UserEvent::Restart
            && app.restart_enabled)),
        app_step(app, event, now).1.contains(Deed::SetAnim(false)) <==> (event == UserEvent::Quit
            || (event == UserEvent::OpenProbeDone { ready: true } && !app.pending_from_restart)),
{
    let (next, done) = app_step(app, event, now);
    match event {
        UserEvent::Open | UserEvent::DoubleClick => {
            assert(done[1] == Deed::SetAnim(true));
        },
        UserEvent::Restart => {
            if app.restart_enabled {
                assert(done[2] == Deed::SetAnim(true));
            }
        },
        UserEvent::Quit => {
            assert(done[2] == Deed::SetAnim(false));
        },
        UserEvent::OpenProbeDone { ready } => {
            if ready && !app.pending_from_restart {
                assert(done[0] == Deed::SetAnim(false));
            }
        },
        _ => {},
    }
}

/// What an event says about the service is what the tray icon says: an event that
/// tells whether it answers, or how the wait for it goes, sets the text to just
/// that, and "Open" and "Restart" to a service that is being started.
pub proof fn law_icon_says_what_was_told(app: App, event: UserEvent, now: Moment, text: Seq<char>)
    requires
        app_step(app, event, now).1.contains(Deed::Tooltip(text)),
    ensures
        match event {
            UserEvent::TooltipUpdate { ready } => text == status_text(
                ready,
                now.starting,
                now.port as int,
            ),
            UserEvent::AnimationDone { ready } => text == status_text(
                ready,
                now.starting,
                now.port as int,
            ),
            UserEvent::OpenProbeDone { ready } => ready && text == status_text(
                true,
                false,
                now.port as int,
            ),
            UserEvent::StartupProgress { elapsed_secs, output_active } => now.starting && text
                == progress_text(elapsed_secs as int, output_active),
            UserEvent::Open | UserEvent::DoubleClick | UserEvent::Restart => text == status_text(
                false,
                true,
                now.port as int,
            ),
            _ => false,
        },
{
}

/// Those events do set the text.
pub proof fn law_icon_is_set(app: App, now: Moment, ready: bool, secs: u64, active: bool)
    ensures
        app_step(app, UserEvent::TooltipUpdate { ready }, now).1.contains(
            Deed::Tooltip(status_text(ready, now.starting, now.port as int)),
        ),
        app_step(app, UserEvent::AnimationDone { ready }, now).1.contains(
            Deed::Tooltip(status_text(ready, now.starting, now.port as int)),
        ),
        app_step(app, UserEvent::Open, now).1.contains(
            Deed::Tooltip(status_text(false, true, now.port as int)),
        ),
        now.starting ==> app_step(
            app,
            UserEvent::StartupProgress { elapsed_secs: secs, output_active: active },
            now,
        ).1.contains(Deed::Tooltip(progress_text(secs as int, active))),
        !app.pending_from_restart ==> app_step(
            app,
            UserEvent::OpenProbeDone { ready: true },
            now,
        ).1.contains(Deed::Tooltip(status_text(true, false, now.port as int))),
{
    assert(app_step(app, UserEvent::TooltipUpdate { ready }, now).1[1] is Tooltip);
    assert(app_step(app, UserEvent::AnimationDone { ready }, now).1[0] is Tooltip);
    assert(app_step(app, UserEvent::Open, now).1[2] is Tooltip);
    assert(app_step(app, UserEvent::OpenProbeDone { ready: true }, now).1.len() > 1
        ==> app_step(app, UserEvent::OpenProbeDone { ready: true }, now).1[1] is Tooltip);
    let e = UserEvent::StartupProgress { elapsed_secs: secs, output_active: active };
    assert(now.starting ==> app_step(app, e, now).1[0] is Tooltip);
}

/// The texts of the tray icon tell the states apart: one that answers by its port,
/// one that is being started, and one that does not run; all begin with the name of
/// the launcher.
pub proof fn law_status_texts_differ(starting: bool, p: u16, q: u16)
    ensures
        status_text(true, starting, p as int) == status_text(true, false, q as int) ==> p == q,
        status_text(true, starting, p as int) != status_text(false, true, q as int),
        status_text(true, starting, p as int) != status_text(false, false, q as int),
        status_text(false, true, p as int) != status_text(false, false, q as int),
        status_text(true, true, p as int) == status_text(true, false, p as int),
{
    reveal_strlit("DshLauncher — dsh 运行中 (端口 ");
    reveal_strlit("DshLauncher — dsh 启动中…");
    reveal_strlit("DshLauncher — dsh 未运行");
    reveal_strlit(")");
    let (a, b) = (status_text(true, starting, p as int), status_text(true, false, q as int));
    let head = "DshLauncher — dsh 运行中 (端口 "@;
    let n = head.len() as int;
    assert(a[18] == '运');
    assert(status_text(false, true, q as int)[18] == '启');
    assert(status_text(false, false, q as int)[18] == '未');
    assert(status_text(false, true, p as int)[18] == '启');
    if a == b {
        assert(decimal(p as int) =~= a.subrange(n, a.len() - 1));
        assert(decimal(q as int) =~= b.subrange(n, b.len() - 1));
        crate::text::lemma_decimal_value(p as int);
        crate::text::lemma_decimal_value(q as int);
    }
}

/// "Open" looks at the port, and asks for the page in its own name; "Configure" opens
/// the directory with the configuration; "Restart", where it is enabled, stops the
/// service and asks for the page in its name; each of these is done by that alone.
pub proof fn law_what_the_menu_does(app: App, event: UserEvent, now: Moment)
    ensures
        app_step(app, event, now).1.contains(Deed::Probe) <==> (event == UserEvent::Open || event
            == UserEvent::DoubleClick),
        app_step(app, event, now).1.contains(Deed::OpenConfigDir) <==> event == UserEvent::Config,
        app_step(app, event, now).1.contains(Deed::StopService) <==> (event == UserEvent::Restart
            && app.restart_enabled),
        event == UserEvent::Open ==> app_step(app, event, now).0.pending_open && !app_step(
            app,
            event,
            now,
        ).0.pending_from_restart,
        event == UserEvent::Restart && app.restart_enabled ==> app_step(
            app,
            event,
            now,
        ).0.pending_open && app_step(app, event, now).0.pending_from_restart && !app_step(
            app,
            event,
            now,
        ).0.restart_enabled,
        event == UserEvent::Config ==> app_step(app, event, now).0 == app,
{
    let (next, done) = app_step(app, event, now);
    match event {
        UserEvent::Open | UserEvent::DoubleClick => {
            assert(done[3] == Deed::Probe);
        },
        UserEvent::Config => {
            assert(done[1] == Deed::OpenConfigDir);
        },
        UserEvent::Restart => {
            if app.restart_enabled {
                assert(done[4] == Deed::StopService);
            }
        },
        _ => {},
    }
}

/// "Quit" hides the icon, lets another instance start if this one keeps it from
/// that, and leaves the loop, which comes last; no other event does any of these.
pub proof fn law_what_quitting_does(app: App, event: UserEvent, now: Moment)
    ensures
        app_step(app, event, now).1.contains(Deed::HideTray) <==> event == UserEvent::Quit,
        app_step(app, event, now).1.contains(Deed::Exit) <==> event == UserEvent::Quit,
        app_step(app, event, now).1.contains(Deed::ReleaseInstance) <==> (event == UserEvent::Quit
            && app.holds_instance),
        event == UserEvent::Quit ==> app_step(app, event, now).1.last() == Deed::Exit,
        event != UserEvent::Quit ==> app_step(app, event, now).0.quitting == app.quitting
            && app_step(app, event, now).0.holds_instance == app.holds_instance,
{
    let (next, done) = app_step(app, event, now);
    if event == UserEvent::Quit {
        assert(done[0] == Deed::HideTray);
        assert(done[done.len() - 1] == Deed::Exit);
        if app.holds_instance {
            assert(done[3] == Deed::ReleaseInstance);
        }
    }
}

/// A page that is asked for is opened by the first event that says that the service
/// was started, or that a look found it answering while no restart is under way, and
/// by no other event; what is asked for changes by no event but these, "Open",
/// "Restart" and a failed restart.
pub proof fn law_when_the_page_opens(app: App, event: UserEvent, now: Moment)
    ensures
        app_step(app, event, now).1.contains(Deed::OpenPage) <==> app.pending_open && (event
            == UserEvent::AnimationDone { ready: true } || (event == UserEvent::OpenProbeDone {
            ready: true,
        } && !app.pending_from_restart)),
        app_step(app, event, now).0.pending_open <==> (match event {
            UserEvent::Open | UserEvent::DoubleClick => true,
            UserEvent::Restart => app.pending_open || app.restart_enabled,
            UserEvent::AnimationDone { ready } => app.pending_open && !ready
                && !app.pending_from_restart,
            UserEvent::OpenProbeDone { ready } => app.pending_open && (!ready
                || app.pending_from_restart),
            _ => app.pending_open,
        }),
{
    let (next, done) = app_step(app, event, now);
    match event {
        UserEvent::AnimationDone { ready } => {
            if ready && app.pending_open {
                assert(done[2] == Deed::OpenPage);
            }
        },
        UserEvent::OpenProbeDone { ready } => {
            if ready && app.pending_open && !app.pending_from_restart {
                assert(done[3] == Deed::OpenPage);
            }
        },
        _ => {},
    }
}

/// A frame is shown only while the animation runs, and is the one that is then
/// remembered; the plain icon is shown only once it has stopped, and the animation
/// then begins anew.
pub proof fn law_what_is_shown(app: App, event: UserEvent, now: Moment, i: int)
    requires
        app_inv(app),
    ensures
        app_step(app, event, now).1.contains(Deed::ShowFrame(i)) <==> (event
            == UserEvent::AnimationTick && now.anim_running && i == (if app.anim_idx
            == app.frames - 1 {
            0
        } else {
            app.anim_idx + 1
        })),
        app_step(app, event, now).1.contains(Deed::ShowDefault) <==> (event
            == UserEvent::AnimationStop && !now.anim_running),
        event == UserEvent::AnimationTick && now.anim_running ==> app_step(
            app,
            event,
            now,
        ).1.contains(Deed::ShowFrame(app_step(app, event, now).0.anim_idx as int)),
        event == UserEvent::AnimationStop && !now.anim_running ==> app_step(
            app,
            event,
            now,
        ).0.anim_idx == 0,
        event != UserEvent::AnimationTick && event != UserEvent::AnimationStop ==> app_step(
            app,
            event,
            now,
        ).0.anim_idx == app.anim_idx,
{
    let (next, done) = app_step(app, event, now);
    if event == UserEvent::AnimationTick && now.anim_running {
        assert(done[0] == Deed::ShowFrame(next.anim_idx as int));
    }
    if event == UserEvent::AnimationStop && !now.anim_running {
        assert(done[0] == Deed::ShowDefault);
    }
}

/// What is logged: that the user asked for the page, the configuration or a
/// restart, that the page waits for the service, and that a failed restart gave up
/// on it; nothing else.
pub proof fn law_what_the_tray_logs(
    app: App,
    event: UserEvent,
    now: Moment,
    level: Level,
    msg: Seq<char>,
)
    ensures
        app_step(app, event, now).1.contains(Deed::Log(level, msg)) <==> (match event {
            UserEvent::Open | UserEvent::DoubleClick => level == Level::Info && msg
                == "用户请求打开 dsh，后台探测端口"@,
            UserEvent::Config => level == Level::Info && msg == "用户请求打开配置目录"@,
            UserEvent::Restart => app.restart_enabled && level == Level::Info && msg
                == "用户请求重启 dsh"@,
            UserEvent::OpenProbeDone { ready } => !ready && level == Level::Info && msg
                == "dsh 未运行：登记打开待办，由 watchdog 拉起后就绪自动打开"@,
            UserEvent::AnimationDone { ready } => !ready && app.pending_from_restart
                && app.pending_open && level == Level::Warn && msg
                == "重启失败：已清除打开待办 (dsh 未就绪，watchdog 将保活重试)"@,
            _ => false,
        }),
{
    let (next, done) = app_step(app, event, now);
    match event {
        UserEvent::Open | UserEvent::DoubleClick | UserEvent::Config => {
            assert(done[0] is Log);
        },
        UserEvent::Restart => {
            assert(app.restart_enabled ==> done[0] is Log);
        },
        UserEvent::OpenProbeDone { ready } => {
            assert(!ready ==> done[0] is Log);
        },
        UserEvent::AnimationDone { ready } => {
            if !ready && app.pending_from_restart && app.pending_open {
                assert(done[2] is Log);
            }
        },
        _ => {},
    }
}

/// The text about the wait tells for how long it has lasted, and whether the service
/// gives output.
pub proof fn law_progress_texts_differ(a: u64, x: bool, b: u64, y: bool)
    ensures
        progress_text(a as int, x) == progress_text(b as int, y) ==> a == b && x == y,
        progress_text(a as int, x).last() == ')',
{
    reveal_strlit("DshLauncher — dsh 启动中… (已等待 ");
    reveal_strlit("s，");
    reveal_strlit("进程持续输出中");
    reveal_strlit("暂未收到新输出");
    reveal_strlit(")");
    let (s, t) = (progress_text(a as int, x), progress_text(b as int, y));
    let n = "DshLauncher — dsh 启动中… (已等待 "@.len() as int;
    let (k, m) = (decimal(a as int).len() as int, decimal(b as int).len() as int);
    assert(s.len() == n + k + 2 + 7 + 1);
    assert(t.len() == n + m + 2 + 7 + 1);
    assert(s.last() == ')');
    if s == t {
        assert(decimal(a as int) =~= s.subrange(n, n + k));
        assert(decimal(b as int) =~= t.subrange(n, n + m));
        crate::text::lemma_decimal_value(a as int);
        crate::text::lemma_decimal_value(b as int);
        assert(s[n + k + 2] == (if x {
            '进'
        } else {
            '暂'
        }));
        assert(t[n + m + 2] == (if y {
            '进'
        } else {
            '暂'
        }));
    }
}

/// Before the first event nothing is asked for, the first frame is shown, "Restart"
/// cannot be chosen, and this instance keeps others from starting.
pub proof fn law_first_state(frames: usize)
    ensures
        ({
            let app = first_app(frames);
            &&& app.frames == frames && app.anim_idx == 0
            &&& !app.pending_open && !app.pending_from_restart
            &&& !app.quitting && !app.restart_enabled && app.holds_instance
        }),
{
}

/// "Other" changes nothing and does nothing, and no event changes how many frames
/// there are.
pub proof fn law_other_events(app: App, event: UserEvent, now: Moment)
    ensures
        app_step(app, UserEvent::Other, now) == (app, Seq::<Deed>::empty()),
        app_step(app, event, now).0.frames == app.frames,
{
}

/// What is done is what is asked for, effect by effect, in order.
pub proof fn law_deeds_are_the_effects(effects: Seq<Effect>, i: int)
    requires
        0 <= i < effects.len(),
    ensures
        deeds(effects).len() == effects.len(),
        match effects[i] {
            Effect::Log(level, msg) => deeds(effects)[i] == Deed::Log(level, msg@),
            Effect::SetAnim(on) => deeds(effects)[i] == Deed::SetAnim(on),
            Effect::Tooltip(text) => deeds(effects)[i] == Deed::Tooltip(text@),
            Effect::EnableRestart(on) => deeds(effects)[i] == Deed::EnableRestart(on),
            Effect::Probe => deeds(effects)[i] is Probe,
            Effect::OpenPage => deeds(effects)[i] is OpenPage,
            Effect::OpenConfigDir => deeds(effects)[i] is OpenConfigDir,
            Effect::StopService => deeds(effects)[i] is StopService,
            Effect::ShowFrame(k) => deeds(effects)[i] == Deed::ShowFrame(k as int),
            Effect::ShowDefault => deeds(effects)[i] is ShowDefault,
            Effect::HideTray => deeds(effects)[i] is HideTray,
            Effect::ReleaseInstance => deeds(effects)[i] is ReleaseInstance,
            Effect::Exit => deeds(effects)[i] is Exit,
        },
{
}

} // verus!
