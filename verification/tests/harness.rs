use dsh_launcher::harness::{
    web_command, Resume, ResumeAction, ResumeEvent, StartAction, StartEnd, StartEvent,
    StartHarness, StopAction, StopEvent, StopHarness, RESUME_TRIES,
};
use dsh_launcher::log::LogCommand;

fn lines(cmds: &[LogCommand]) -> Vec<String> {
    cmds.iter()
        .map(|c| match c {
            LogCommand::Write { level, msg } => format!("[{}] {}", level.tag(), msg),
            _ => unreachable!(),
        })
        .collect()
}

#[test]
fn command_passes_the_port_on() {
    assert_eq!(web_command(3080), "npx -y @deepseek-ai/dsh web");
    assert_eq!(web_command(39999), "npx -y @deepseek-ai/dsh web --port 39999");
}

#[test]
fn first_thread_that_opens_is_resumed() {
    let mut resume = Resume::resume_process_main_thread(7);
    assert_eq!(resume.action(), ResumeAction::ListThreads);
    resume.step(ResumeEvent::Threads(vec![(1, 100), (7, 101), (7, 102)]));
    assert_eq!(resume.action(), ResumeAction::Open(101));
    resume.step(ResumeEvent::Opened(false));
    assert_eq!(resume.action(), ResumeAction::Open(102));
    resume.step(ResumeEvent::Opened(true));
    assert_eq!(resume.action(), ResumeAction::Resume);
    resume.step(ResumeEvent::Resumed(1));
    assert_eq!(resume.action(), ResumeAction::Finish(true));
}

#[test]
fn resuming_gives_up_in_the_end() {
    let mut resume = Resume::resume_process_main_thread(7);
    let mut looks = 0;
    loop {
        match resume.action() {
            ResumeAction::ListThreads => {
                looks += 1;
                if looks % 2 == 0 {
                    resume.step(ResumeEvent::NoThreads);
                } else {
                    resume.step(ResumeEvent::Threads(vec![(8, 1)]));
                }
            }
            ResumeAction::Wait => resume.step(ResumeEvent::Waited),
            ResumeAction::Finish(runs) => {
                assert!(!runs);
                break;
            }
            _ => unreachable!(),
        }
    }
    assert_eq!(looks, RESUME_TRIES);
    let mut resume = Resume::resume_process_main_thread(7);
    resume.step(ResumeEvent::Threads(vec![(7, 1)]));
    resume.step(ResumeEvent::Opened(true));
    resume.step(ResumeEvent::Resumed(u32::MAX));
    assert_eq!(resume.action(), ResumeAction::Finish(false));
}

#[test]
fn start_in_order() {
    let mut start = StartHarness::start_harness(3080);
    assert_eq!(start.action(), StartAction::Spawn);
    assert!(start.step(StartEvent::Spawned(7)).is_empty());
    assert_eq!(start.action(), StartAction::GetJob);
    start.step(StartEvent::Job(true));
    assert_eq!(start.action(), StartAction::Attach);
    start.step(StartEvent::Attached(false));
    assert_eq!(start.action(), StartAction::Resume(7));
    start.step(StartEvent::Resumed(true, false));
    assert_eq!(start.action(), StartAction::TakePipes);
    assert_eq!(
        lines(&start.step(StartEvent::Pipes(true, true))),
        vec!["[INFO] 已启动 dsh (npx -y @deepseek-ai/dsh web) 并挂入 Job，输出已并入 launcher.log"]
    );
    assert_eq!(start.action(), StartAction::Finish);
    assert!(matches!(start.result(), Some(StartEnd::Started)));
}

fn failed(start: StartHarness) -> String {
    match start.result() {
        Some(StartEnd::Failed(e)) => e,
        _ => panic!("应失败"),
    }
}

#[test]
fn start_failures_clean_up() {
    let mut start = StartHarness::start_harness(1);
    start.step(StartEvent::NotSpawned("无".to_string()));
    assert_eq!(start.action(), StartAction::Finish);
    assert_eq!(failed(start), "无");

    let mut start = StartHarness::start_harness(1);
    start.step(StartEvent::Spawned(7));
    start.step(StartEvent::Job(false));
    assert_eq!(start.action(), StartAction::KillTree(7));
    start.step(StartEvent::Cleaned);
    assert_eq!(start.action(), StartAction::Finish);
    assert_eq!(failed(start), "Job 对象不可用 (dsh 将无法被自动回收)，拒绝启动");

    let mut start = StartHarness::start_harness(1);
    start.step(StartEvent::Spawned(7));
    start.step(StartEvent::Job(true));
    assert_eq!(
        lines(&start.step(StartEvent::NotAttached("拒".to_string()))),
        vec!["[FAIL] AssignProcessToJobObject 失败 (dsh 将无法被 Job 回收)：拒"]
    );
    assert_eq!(start.action(), StartAction::KillTree(7));
    start.step(StartEvent::Cleaned);
    assert_eq!(failed(start), "拒");

    let mut start = StartHarness::start_harness(1);
    start.step(StartEvent::Spawned(7));
    start.step(StartEvent::Job(true));
    start.step(StartEvent::Attached(false));
    assert_eq!(
        lines(&start.step(StartEvent::Resumed(false, true))),
        vec!["[FAIL] 恢复挂起的 dsh 启动进程失败 (主线程未找到或无法恢复)"]
    );
    assert_eq!(start.action(), StartAction::TerminateJob);
    start.step(StartEvent::Cleaned);
    assert_eq!(failed(start), "恢复挂起的 dsh 启动进程失败 (主线程未找到或无法恢复)");

    for (pipes, text) in [
        ((false, true), "无法获取 dsh stdout 管道"),
        ((false, false), "无法获取 dsh stdout 管道"),
        ((true, false), "无法获取 dsh stderr 管道"),
    ] {
        let mut start = StartHarness::start_harness(1);
        start.step(StartEvent::Spawned(7));
        start.step(StartEvent::Job(true));
        start.step(StartEvent::Attached(false));
        start.step(StartEvent::Resumed(true, false));
        start.step(StartEvent::Pipes(pipes.0, pipes.1));
        assert_eq!(start.action(), StartAction::TerminateJob);
        start.step(StartEvent::Cleaned);
        assert_eq!(failed(start), text);
    }
}

#[test]
fn quitting_interrupts_a_start() {
    let mut start = StartHarness::start_harness(1);
    start.step(StartEvent::Spawned(7));
    start.step(StartEvent::Job(true));
    start.step(StartEvent::Attached(true));
    assert_eq!(start.action(), StartAction::TerminateJob);
    start.step(StartEvent::Cleaned);
    assert!(matches!(start.result(), Some(StartEnd::Interrupted)));

    let mut start = StartHarness::start_harness(1);
    start.step(StartEvent::Spawned(7));
    start.step(StartEvent::Job(true));
    start.step(StartEvent::Attached(false));
    start.step(StartEvent::Resumed(true, true));
    assert_eq!(start.action(), StartAction::TerminateJob);
    start.step(StartEvent::Cleaned);
    assert!(matches!(start.result(), Some(StartEnd::Interrupted)));
}

/// A stop that is about to look at the port.
fn probing() -> StopHarness {
    let mut stop = StopHarness::stop_harness();
    assert_eq!(stop.action(), StopAction::GetJob);
    stop.step(StopEvent::Job(true));
    assert_eq!(stop.action(), StopAction::TerminateJob);
    assert!(stop.step(StopEvent::Terminated(true)).is_empty());
    assert_eq!(stop.action(), StopAction::Wait);
    stop.step(StopEvent::Waited);
    assert_eq!(stop.action(), StopAction::Probe);
    stop
}

#[test]
fn stop_ends_with_a_free_port() {
    let mut stop = probing();
    assert!(stop.step(StopEvent::Port(false, false)).is_empty());
    assert_eq!(stop.action(), StopAction::Finish);

    let mut stop = StopHarness::stop_harness();
    stop.step(StopEvent::Job(false));
    assert_eq!(stop.action(), StopAction::Wait);
    let mut stop = StopHarness::stop_harness();
    stop.step(StopEvent::Job(true));
    assert_eq!(
        lines(&stop.step(StopEvent::Terminated(false))),
        vec!["[WARN] TerminateJobObject 失败 (Job 秒杀未生效)"]
    );
}

#[test]
fn stop_ends_the_listeners_of_the_service() {
    let mut stop = probing();
    assert_eq!(
        lines(&stop.step(StopEvent::Port(false, true))),
        vec!["[INFO] 端口仍被占用，执行纯 Win32 兜底清理"]
    );
    assert_eq!(stop.action(), StopAction::ListListeners);
    stop.step(StopEvent::Listeners(vec![10, 20]));
    assert_eq!(stop.action(), StopAction::ListNamed);
    let named = vec![
        (10, 3, "node.exe".to_string()),
        (3, 2, "cmd.exe".to_string()),
        (20, 2, "sv\"chost.exe".to_string()),
    ];
    assert_eq!(
        lines(&stop.step(StopEvent::Named(named))),
        vec![
            "[WARN] 端口占用者不是已知 dsh 进程，拒绝误杀：[(20, \"sv\\\"chost.exe\")]",
            "[INFO] 终止占用端口的进程树，根 PID：[10]",
        ]
    );
    assert_eq!(stop.action(), StopAction::ListProcesses);
    stop.step(StopEvent::Processes(vec![(11, 10), (10, 3), (3, 2), (20, 2)]));
    assert_eq!(stop.action(), StopAction::Terminate);
    assert_eq!(stop.victims(), &vec![11, 10, 3]);
    stop.step(StopEvent::Ended);
    assert_eq!(stop.action(), StopAction::Finish);
}

#[test]
fn stop_gives_up_where_nobody_may_be_ended() {
    let mut stop = probing();
    stop.step(StopEvent::Port(true, false));
    assert_eq!(
        lines(&stop.step(StopEvent::Listeners(vec![]))),
        vec!["[WARN] 未找到占用端口的监听进程，放弃兜底清理"]
    );
    assert_eq!(stop.action(), StopAction::Finish);

    let mut stop = probing();
    stop.step(StopEvent::Port(true, false));
    stop.step(StopEvent::Listeners(vec![20]));
    let skipped = vec![(20, "svchost.exe".to_string())];
    assert_eq!(
        lines(&stop.step(StopEvent::Named(vec![(20, 2, "svchost.exe".to_string())]))),
        vec![
            format!("[WARN] 端口占用者不是已知 dsh 进程，拒绝误杀：{:?}", skipped),
            "[WARN] 未找到可安全终止的 dsh 监听进程，放弃兜底清理".to_string(),
        ]
    );
    assert_eq!(stop.action(), StopAction::Finish);
    assert!(stop.victims().is_empty());
}
