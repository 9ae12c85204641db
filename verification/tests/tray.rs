use dsh_launcher::log::Level;
use dsh_launcher::tray::{
    update_startup_progress, update_tooltip, App, Effect, Moment, UserEvent,
};

const STILL: Moment = Moment { anim_running: false, starting: false, port: 3080 };
const MOVING: Moment = Moment { anim_running: true, starting: false, port: 3080 };
const STARTING: Moment = Moment { anim_running: true, starting: true, port: 3080 };

fn show(effects: &[Effect]) -> Vec<String> {
    effects
        .iter()
        .map(|e| match e {
            Effect::Log(level, msg) => format!("[{}] {}", level.tag(), msg),
            Effect::Tooltip(text) => format!("tip {}", text),
            other => format!("{:?}", other),
        })
        .collect()
}

/// A tray whose service answers.
fn running() -> App {
    let mut app = App::new(16);
    let done = app.user_event(UserEvent::TooltipUpdate { ready: true }, STILL);
    assert_eq!(
        show(&done),
        vec!["EnableRestart(true)", "tip DshLauncher — dsh 运行中 (端口 3080)"]
    );
    app
}

#[test]
fn tooltips() {
    assert_eq!(update_tooltip(true, true, 1), "DshLauncher — dsh 运行中 (端口 1)");
    assert_eq!(update_tooltip(false, true, 1), "DshLauncher — dsh 启动中…");
    assert_eq!(update_tooltip(false, false, 1), "DshLauncher — dsh 未运行");
    assert_eq!(
        update_startup_progress(12, true),
        "DshLauncher — dsh 启动中… (已等待 12s，进程持续输出中)"
    );
    assert_eq!(
        update_startup_progress(0, false),
        "DshLauncher — dsh 启动中… (已等待 0s，暂未收到新输出)"
    );
}

#[test]
fn open_waits_for_the_service() {
    let mut app = App::new(16);
    let done = app.user_event(UserEvent::Open, STILL);
    assert_eq!(
        show(&done),
        vec![
            "[INFO] 用户请求打开 dsh，后台探测端口",
            "SetAnim(true)",
            "tip DshLauncher — dsh 启动中…",
            "Probe",
        ]
    );
    assert!(app.pending_open);
    let done = app.user_event(UserEvent::OpenProbeDone { ready: false }, MOVING);
    assert_eq!(
        show(&done),
        vec!["[INFO] dsh 未运行：登记打开待办，由 watchdog 拉起后就绪自动打开"]
    );
    let done = app.user_event(UserEvent::AnimationDone { ready: false }, MOVING);
    assert_eq!(
        show(&done),
        vec!["tip DshLauncher — dsh 未运行", "EnableRestart(false)"]
    );
    assert!(app.pending_open);
    let done = app.user_event(UserEvent::AnimationDone { ready: true }, MOVING);
    assert_eq!(
        show(&done),
        vec![
            "tip DshLauncher — dsh 运行中 (端口 3080)",
            "EnableRestart(true)",
            "OpenPage",
        ]
    );
    let done = app.user_event(UserEvent::AnimationDone { ready: true }, MOVING);
    assert_eq!(done.len(), 2);
}

#[test]
fn open_of_a_running_service() {
    let mut app = running();
    let mut twin = app;
    let a = app.user_event(UserEvent::DoubleClick, STILL);
    let b = twin.user_event(UserEvent::Open, STILL);
    assert_eq!(show(&a), show(&b));
    assert_eq!(app, twin);
    let done = app.user_event(UserEvent::OpenProbeDone { ready: true }, MOVING);
    assert_eq!(
        show(&done),
        vec![
            "SetAnim(false)",
            "tip DshLauncher — dsh 运行中 (端口 3080)",
            "EnableRestart(true)",
            "OpenPage",
        ]
    );
    assert!(app.user_event(UserEvent::Other, STILL).is_empty());
}

#[test]
fn restart_is_guarded() {
    let mut app = App::new(16);
    assert!(app.user_event(UserEvent::Restart, STILL).is_empty());
    let mut app = running();
    let done = app.user_event(UserEvent::Restart, STILL);
    assert_eq!(
        show(&done),
        vec![
            "[INFO] 用户请求重启 dsh",
            "EnableRestart(false)",
            "SetAnim(true)",
            "tip DshLauncher — dsh 启动中…",
            "StopService",
        ]
    );
    assert!(app.user_event(UserEvent::Restart, STILL).is_empty());
    // While the restart is under way nothing enables it again.
    let done = app.user_event(UserEvent::TooltipUpdate { ready: true }, STILL);
    assert_eq!(show(&done)[0], "EnableRestart(false)");
    assert!(app.user_event(UserEvent::OpenProbeDone { ready: true }, STILL).is_empty());
    let mut failed = app;
    let done = failed.user_event(UserEvent::AnimationDone { ready: false }, STILL);
    assert_eq!(
        show(&done)[2],
        "[WARN] 重启失败：已清除打开待办 (dsh 未就绪，watchdog 将保活重试)"
    );
    assert!(!failed.pending_open);
    let done = app.user_event(UserEvent::AnimationDone { ready: true }, STARTING);
    assert_eq!(show(&done)[1], "EnableRestart(false)");
    assert_eq!(show(&done)[2], "OpenPage");
}

#[test]
fn animation_frames() {
    let mut app = App::new(2);
    assert_eq!(show(&app.user_event(UserEvent::AnimationTick, MOVING)), vec!["ShowFrame(1)"]);
    assert_eq!(show(&app.user_event(UserEvent::AnimationTick, MOVING)), vec!["ShowFrame(0)"]);
    app.user_event(UserEvent::AnimationTick, MOVING);
    assert!(app.user_event(UserEvent::AnimationTick, STILL).is_empty());
    assert!(app.user_event(UserEvent::AnimationStop, MOVING).is_empty());
    assert_eq!(show(&app.user_event(UserEvent::AnimationStop, STILL)), vec!["ShowDefault"]);
    assert_eq!(app.anim_idx, 0);
}

#[test]
fn configuration_and_progress() {
    let mut app = App::new(1);
    assert_eq!(
        show(&app.user_event(UserEvent::Config, STILL)),
        vec!["[INFO] 用户请求打开配置目录", "OpenConfigDir"]
    );
    let progress = UserEvent::StartupProgress { elapsed_secs: 5, output_active: true };
    assert!(app.user_event(progress, STILL).is_empty());
    assert_eq!(
        show(&app.user_event(progress, STARTING)),
        vec!["tip DshLauncher — dsh 启动中… (已等待 5s，进程持续输出中)"]
    );
}

#[test]
fn quitting() {
    let mut app = running();
    assert_eq!(
        show(&app.user_event(UserEvent::Quit, STILL)),
        vec!["HideTray", "EnableRestart(false)", "SetAnim(false)", "ReleaseInstance", "Exit"]
    );
    assert!(app.quitting);
    assert!(!show(&app.user_event(UserEvent::Quit, STILL)).contains(&"ReleaseInstance".to_string()));
    let done = app.user_event(UserEvent::TooltipUpdate { ready: true }, STILL);
    assert_eq!(show(&done)[0], "EnableRestart(false)");
    assert!(!app.restart_item_available(STILL));
    assert_eq!(Level::Info.tag(), "INFO");
}
