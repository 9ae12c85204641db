use dsh_launcher::dsh::{
    mutex_name, open_page, port_from_env, port_occupied, shell_execute_open, single_instance_guard,
    web_port, web_url, Instance, JobAction, JobCell, JobEvent, OutputActivity, ALREADY_EXISTS,
    DEFAULT_PORT, KILL_ON_JOB_CLOSE,
};
use dsh_launcher::log::LogCommand;
use dsh_launcher::wide::to_wide;
use windows_sys::Win32::Foundation::ERROR_ALREADY_EXISTS;
use windows_sys::Win32::System::JobObjects::JOB_OBJECT_LIMIT_KILL_ON_JOB_CLOSE;

fn text(cmd: Option<LogCommand>) -> Option<String> {
    match cmd {
        Some(LogCommand::Write { level, msg }) => Some(format!("[{}] {}", level.tag(), msg)),
        _ => None,
    }
}

#[test]
fn port_from_env_parses_valid() {
    assert_eq!(port_from_env(Some("39999")), 39999);
    assert_eq!(port_from_env(Some(" 8080 ")), 8080);
}

#[test]
fn port_from_env_rejects_invalid() {
    assert_eq!(port_from_env(Some("abc")), DEFAULT_PORT);
    assert_eq!(port_from_env(Some("0")), DEFAULT_PORT);
    assert_eq!(port_from_env(Some("70000")), DEFAULT_PORT);
    assert_eq!(port_from_env(Some("")), DEFAULT_PORT);
    assert_eq!(port_from_env(None), DEFAULT_PORT);
}

#[test]
fn page_and_port() {
    assert_eq!(DEFAULT_PORT, 3080);
    assert_eq!(web_port(None), 3080);
    assert_eq!(web_port(Some("65535")), 65535);
    assert_eq!(web_url(3080), "http://127.0.0.1:3080");
    let open = open_page(39999);
    assert_eq!(open.verb, to_wide("open"));
    assert_eq!(open.target, to_wide("http://127.0.0.1:39999"));
}

#[test]
fn occupied_means_held_but_silent() {
    assert!(!port_occupied(true, true), "监听中不算被占");
    assert!(!port_occupied(true, false), "监听中不算被占");
    assert!(!port_occupied(false, false), "释放后可 bind，不算被占");
    assert!(port_occupied(false, true));
}

#[test]
fn output_activity_tracks_received_output() {
    let mut activity = OutputActivity::new(100);
    assert!(!activity.has_received_output());
    activity.touch(200);
    assert!(activity.has_received_output());
    assert!(activity.elapsed(200) < 1000);
    assert_eq!(activity.elapsed(700), 500);
    assert_eq!(activity.elapsed(100), 0);
}

#[test]
fn shell_answers() {
    assert_eq!(shell_execute_open(33), Ok(()));
    assert_eq!(
        shell_execute_open(32),
        Err("ShellExecuteW 失败 (错误码 32)".to_string())
    );
    assert_eq!(
        shell_execute_open(-2),
        Err("ShellExecuteW 失败 (错误码 -2)".to_string())
    );
}

#[test]
fn job_is_made_once_and_kept() {
    let mut cell = JobCell::new();
    let (line, action) = cell.job_handle(JobEvent::Wanted);
    assert!(line.is_none());
    assert_eq!(action, JobAction::Create);
    let (_, action) = cell.job_handle(JobEvent::Created(7));
    assert_eq!(action, JobAction::Limit(7, KILL_ON_JOB_CLOSE));
    let (_, action) = cell.job_handle(JobEvent::Limited(true));
    assert_eq!(action, JobAction::Use(7));
    let (_, action) = cell.job_handle(JobEvent::Wanted);
    assert_eq!(action, JobAction::Use(7));
}

#[test]
fn job_failures_are_not_kept() {
    let mut cell = JobCell::new();
    cell.job_handle(JobEvent::Wanted);
    let (line, action) = cell.job_handle(JobEvent::NotCreated);
    assert_eq!(
        text(line).as_deref(),
        Some("[FAIL] CreateJobObjectW 失败 (Job 不可用，dsh 将无法被自动回收)")
    );
    assert_eq!(action, JobAction::Unavailable);
    assert_eq!(cell.job_handle(JobEvent::Wanted).1, JobAction::Create);
    cell.job_handle(JobEvent::Created(9));
    let (line, action) = cell.job_handle(JobEvent::Limited(false));
    assert_eq!(
        text(line).as_deref(),
        Some("[FAIL] SetInformationJobObject 失败 (KILL_ON_JOB_CLOSE 未生效，dsh 退出时可能残留)")
    );
    assert_eq!(action, JobAction::Close(9));
    assert_eq!(cell.job_handle(JobEvent::Closed).1, JobAction::Unavailable);
    assert_eq!(cell.job_handle(JobEvent::Wanted).1, JobAction::Create);
}

#[test]
fn one_instance_only() {
    assert_eq!(
        mutex_name("test"),
        to_wide("Local\\DshLauncher.SingleInstancetest")
    );
    assert_eq!(single_instance_guard(true, 0, "").1, Instance::Only);
    let (line, instance) = single_instance_guard(true, ALREADY_EXISTS, "x");
    assert!(line.is_none());
    assert_eq!(instance, Instance::Another);
    let (line, instance) = single_instance_guard(false, ALREADY_EXISTS, "坏");
    assert_eq!(text(line).as_deref(), Some("[FAIL] 创建单实例互斥体失败：坏"));
    assert_eq!(instance, Instance::Failed);
}

#[test]
fn numbers_of_the_system() {
    assert_eq!(ALREADY_EXISTS, ERROR_ALREADY_EXISTS);
    assert_eq!(KILL_ON_JOB_CLOSE, JOB_OBJECT_LIMIT_KILL_ON_JOB_CLOSE);
}
