use dsh_launcher::log::LogCommand;
use dsh_launcher::watchdog::{animation_for, Animator, Frame, WatchAction, WatchEvent, Watchdog};

fn lines(cmds: &[LogCommand]) -> Vec<String> {
    cmds.iter()
        .map(|c| match c {
            LogCommand::Write { level, msg } => format!("[{}] {}", level.tag(), msg),
            _ => unreachable!(),
        })
        .collect()
}

fn failed_look(dog: &mut Watchdog) -> Vec<String> {
    dog.step(WatchEvent::Probed(false), 3080);
    dog.step(WatchEvent::Claimed(false), 3080);
    let out = dog.step(WatchEvent::Launched, 3080);
    lines(&out.lines)
}

#[test]
fn service_is_started_when_it_does_not_answer() {
    let mut dog = Watchdog::new();
    assert_eq!(dog.action, WatchAction::Probe);
    let out = dog.step(WatchEvent::Probed(false), 3080);
    assert_eq!(lines(&out.lines), vec!["[INFO] dsh 未就绪"]);
    assert_eq!(out.changed, Some(false));
    assert!(animation_for(false));
    assert_eq!(dog.action, WatchAction::Claim);
    let out = dog.step(WatchEvent::Claimed(false), 3080);
    assert_eq!(lines(&out.lines), vec!["[INFO] dsh 未运行，触发保活拉起"]);
    assert_eq!(dog.action, WatchAction::Launch);
    let out = dog.step(WatchEvent::Launched, 3080);
    assert!(out.lines.is_empty() && !out.release);
    assert_eq!(dog.action, WatchAction::Rest(2000));
    dog.step(WatchEvent::Rested, 3080);
    let out = dog.step(WatchEvent::Probed(false), 3080);
    assert!(out.lines.is_empty() && out.changed.is_none());
    // A start is under way: no second one.
    let out = dog.step(WatchEvent::Claimed(true), 3080);
    assert!(out.lines.is_empty());
    assert_eq!(dog.action, WatchAction::Rest(2000));
    dog.step(WatchEvent::Rested, 3080);
    let out = dog.step(WatchEvent::Probed(true), 3080);
    assert_eq!(lines(&out.lines), vec!["[INFO] dsh 就绪 (端口 3080 可连接)"]);
    assert_eq!(out.changed, Some(true));
    assert!(!animation_for(true));
    assert_eq!(dog.action, WatchAction::Rest(2000));
    assert_eq!(dog.fail_count, 0);
}

#[test]
fn looks_become_rarer() {
    let mut dog = Watchdog::new();
    for n in 1..6 {
        let log = failed_look(&mut dog);
        assert_eq!(dog.fail_count, n);
        if n == 3 {
            assert_eq!(log, vec!["[WARN] 连续拉起失败 3 次，轮询节奏放慢到 30 秒"]);
        } else {
            assert!(log.is_empty());
        }
        let rest = if n >= 3 { 30_000 } else { 2_000 };
        assert_eq!(dog.action, WatchAction::Rest(rest));
        dog.step(WatchEvent::Rested, 3080);
    }
    dog.step(WatchEvent::Probed(true), 3080);
    assert_eq!(dog.action, WatchAction::Rest(2_000));
}

#[test]
fn start_that_cannot_begin_gives_up_its_claim() {
    let mut dog = Watchdog::new();
    dog.step(WatchEvent::Probed(false), 1);
    dog.step(WatchEvent::Claimed(false), 1);
    let out = dog.step(WatchEvent::NotLaunched("坏".to_string()), 1);
    assert_eq!(lines(&out.lines), vec!["[FAIL] 启动流程线程创建失败：坏"]);
    assert!(out.release);
    assert_eq!(dog.fail_count, 1);
}

#[test]
fn crash_of_a_look() {
    let mut dog = Watchdog::new();
    dog.step(WatchEvent::Probed(true), 1);
    let line = dog.crashed();
    assert_eq!(lines(&[line]), vec!["[FAIL] watchdog 单次检查异常，2 秒后继续"]);
    assert_eq!(dog.action, WatchAction::Rest(2000));
    dog.step(WatchEvent::Rested, 1);
    assert_eq!(dog.step(WatchEvent::Probed(true), 1).changed, Some(true));
}

#[test]
fn animation_follows_the_switch() {
    let mut animator = Animator::new(true);
    assert_eq!(animator.look(true), Frame::Next);
    assert_eq!(animator.look(true), Frame::Next);
    assert_eq!(animator.look(false), Frame::End);
    assert_eq!(animator.look(false), Frame::Still);
    assert_eq!(animator.look(true), Frame::Next);
    let line = animator.crashed(false);
    assert_eq!(lines(&[line]), vec!["[FAIL] 动画线程单次循环异常，150ms 后继续"]);
    assert_eq!(animator.look(false), Frame::Still);
}

#[test]
fn quitting_ends_before_the_next_look() {
    let mut dog = Watchdog::new();
    assert_eq!(dog.next(false), Some(WatchAction::Probe));
    assert_eq!(dog.next(true), None);
    // A look that has begun is finished.
    dog.step(WatchEvent::Probed(false), 3080);
    assert_eq!(dog.next(true), Some(WatchAction::Claim));
    dog.step(WatchEvent::Claimed(false), 3080);
    assert_eq!(dog.next(true), Some(WatchAction::Launch));
    dog.step(WatchEvent::Launched, 3080);
    assert_eq!(dog.next(true), Some(WatchAction::Rest(2000)));
    dog.step(WatchEvent::Rested, 3080);
    assert_eq!(dog.next(true), None);
    dog.crashed();
    assert_eq!(dog.next(true), Some(WatchAction::Rest(2000)));
    dog.step(WatchEvent::Rested, 3080);
    assert_eq!(dog.next(true), None);
}

#[test]
fn quitting_ends_the_animation() {
    let mut animator = Animator::new(true);
    assert_eq!(animator.next(false, true), Some(Frame::Next));
    assert_eq!(animator.next(true, false), None);
    assert!(animator.was_running);
    assert_eq!(animator.next(false, false), Some(Frame::End));
    assert_eq!(animator.next(false, false), Some(Frame::Still));
}
