use dsh_launcher::log::LogCommand;
use dsh_launcher::startup::{FlowAction, FlowEvent, FlowNote, StartupFlow};

fn lines(cmds: &[LogCommand]) -> Vec<String> {
    cmds.iter()
        .map(|c| match c {
            LogCommand::Write { level, msg } => format!("[{}] {}", level.tag(), msg),
            _ => unreachable!(),
        })
        .collect()
}

fn step(flow: &mut StartupFlow, event: FlowEvent) -> Vec<String> {
    lines(&flow.step(event).0)
}

/// A flow that has found a free port and a silent service.
fn starting() -> StartupFlow {
    let mut flow = StartupFlow::run_startup_flow();
    assert_eq!(flow.action(), FlowAction::AskQuitting);
    let (log, note) = flow.step(FlowEvent::Quitting(false));
    assert_eq!(lines(&log), vec!["[INFO] 启动流程开始"]);
    assert_eq!(note, Some(FlowNote::NotReady));
    assert_eq!(flow.action(), FlowAction::ProbeOccupied);
    assert!(step(&mut flow, FlowEvent::Occupied(false, 0)).is_empty());
    assert_eq!(flow.action(), FlowAction::AskQuitting);
    step(&mut flow, FlowEvent::Quitting(false));
    assert_eq!(flow.action(), FlowAction::ProbeReady);
    step(&mut flow, FlowEvent::Ready(false));
    assert_eq!(flow.action(), FlowAction::Start);
    flow
}

/// A flow that waits for a service that was started at time 1000.
fn waiting() -> StartupFlow {
    let mut flow = starting();
    step(&mut flow, FlowEvent::Started(1000));
    assert_eq!(flow.action(), FlowAction::AskQuitting);
    flow
}

#[test]
fn running_service_is_reused() {
    let mut flow = StartupFlow::run_startup_flow();
    step(&mut flow, FlowEvent::Quitting(false));
    step(&mut flow, FlowEvent::Occupied(false, 0));
    step(&mut flow, FlowEvent::Quitting(false));
    assert_eq!(
        step(&mut flow, FlowEvent::Ready(true)),
        vec!["[INFO] 启动流程结束 (就绪 = true)"]
    );
    assert_eq!(flow.action(), FlowAction::Finish(true));
}

#[test]
fn occupied_port_is_cleared_first() {
    let mut flow = StartupFlow::run_startup_flow();
    step(&mut flow, FlowEvent::Quitting(false));
    assert_eq!(
        step(&mut flow, FlowEvent::Occupied(true, 0)),
        vec!["[INFO] 端口被外部进程占用，先执行清理"]
    );
    assert_eq!(flow.action(), FlowAction::Stop);
    step(&mut flow, FlowEvent::Stopped(100));
    assert_eq!(flow.action(), FlowAction::ProbeOccupied);
    step(&mut flow, FlowEvent::Occupied(true, 5099));
    assert_eq!(flow.action(), FlowAction::Rest(200));
    step(&mut flow, FlowEvent::Rested);
    step(&mut flow, FlowEvent::Occupied(true, 5100));
    assert_eq!(flow.action(), FlowAction::AskQuitting);
}

#[test]
fn service_comes_up() {
    let mut flow = waiting();
    step(&mut flow, FlowEvent::Quitting(false));
    assert_eq!(flow.action(), FlowAction::ProbeReady);
    step(&mut flow, FlowEvent::Ready(false));
    assert_eq!(flow.action(), FlowAction::AskOutput);
    let (log, note) = flow.step(FlowEvent::Output(5999, 100, true));
    assert!(log.is_empty() && note.is_none());
    assert_eq!(flow.action(), FlowAction::Rest(500));
    step(&mut flow, FlowEvent::Rested);
    step(&mut flow, FlowEvent::Quitting(false));
    step(&mut flow, FlowEvent::Ready(false));
    let (_, note) = flow.step(FlowEvent::Output(6000, 5000, true));
    assert_eq!(note, Some(FlowNote::Progress(5, true)));
    step(&mut flow, FlowEvent::Rested);
    step(&mut flow, FlowEvent::Quitting(false));
    step(&mut flow, FlowEvent::Ready(false));
    let (_, note) = flow.step(FlowEvent::Output(12_500, 5001, true));
    assert_eq!(note, Some(FlowNote::Progress(11, false)));
    step(&mut flow, FlowEvent::Rested);
    step(&mut flow, FlowEvent::Quitting(false));
    assert_eq!(
        step(&mut flow, FlowEvent::Ready(true)),
        vec!["[INFO] 启动流程结束 (就绪 = true)"]
    );
    assert_eq!(flow.action(), FlowAction::Finish(true));
}

#[test]
fn silence_ends_the_wait() {
    let mut flow = waiting();
    step(&mut flow, FlowEvent::Quitting(false));
    step(&mut flow, FlowEvent::Ready(false));
    let (_, note) = flow.step(FlowEvent::Output(900_000, 119_999, false));
    assert_eq!(note, Some(FlowNote::Progress(899, false)));
    step(&mut flow, FlowEvent::Rested);
    step(&mut flow, FlowEvent::Quitting(false));
    step(&mut flow, FlowEvent::Ready(false));
    assert_eq!(
        step(&mut flow, FlowEvent::Output(900_001, 120_000, false)),
        vec!["[WARN] 等待 dsh 端口就绪：已 120 秒无新输出，结束当前等待"]
    );
    assert_eq!(
        step(&mut flow, FlowEvent::Quitting(false)),
        vec!["[WARN] 等待 dsh 端口就绪结束：清理当前启动树，watchdog 将重试"]
    );
    assert_eq!(flow.action(), FlowAction::Stop);
    assert_eq!(
        step(&mut flow, FlowEvent::Stopped(0)),
        vec!["[INFO] 启动流程结束 (就绪 = false)"]
    );
    assert_eq!(flow.action(), FlowAction::Finish(false));
}

#[test]
fn failed_start_is_logged() {
    let mut flow = starting();
    assert_eq!(
        step(&mut flow, FlowEvent::NotStarted("坏".to_string())),
        vec!["[FAIL] 启动 dsh 失败：坏"]
    );
    assert_eq!(
        step(&mut flow, FlowEvent::Quitting(false)),
        vec![
            "[WARN] dsh 启动失败，watchdog 将重试",
            "[INFO] 启动流程结束 (就绪 = false)",
        ]
    );
    assert_eq!(flow.action(), FlowAction::Finish(false));
}

#[test]
fn quitting_ends_the_flow() {
    let mut flow = StartupFlow::run_startup_flow();
    assert!(step(&mut flow, FlowEvent::Quitting(true)).is_empty());
    assert_eq!(flow.action(), FlowAction::Finish(false));

    let mut flow = StartupFlow::run_startup_flow();
    step(&mut flow, FlowEvent::Quitting(false));
    step(&mut flow, FlowEvent::Occupied(false, 0));
    assert!(step(&mut flow, FlowEvent::Quitting(true)).is_empty());
    assert_eq!(flow.action(), FlowAction::Finish(false));

    let mut flow = starting();
    step(&mut flow, FlowEvent::Interrupted("收到退出请求".to_string()));
    assert_eq!(
        step(&mut flow, FlowEvent::Quitting(true)),
        vec!["[INFO] 启动流程收到退出请求，取消启动 dsh"]
    );
    assert_eq!(
        step(&mut flow, FlowEvent::Quitting(true)),
        vec!["[INFO] 启动流程结束 (就绪 = false)"]
    );

    let mut flow = starting();
    step(&mut flow, FlowEvent::Interrupted("中断".to_string()));
    assert_eq!(
        step(&mut flow, FlowEvent::Quitting(false)),
        vec!["[FAIL] 启动 dsh 失败：中断"]
    );

    let mut flow = waiting();
    assert!(step(&mut flow, FlowEvent::Quitting(true)).is_empty());
    assert_eq!(
        step(&mut flow, FlowEvent::Quitting(false)),
        vec![
            "[WARN] 等待 dsh 端口就绪结束，watchdog 将重试",
            "[INFO] 启动流程结束 (就绪 = false)",
        ]
    );
}
