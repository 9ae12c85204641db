use dsh_launcher::calendar::{log_day_of, LocalTime};
use dsh_launcher::log::{
    log_line, notice_message, prune_log_file, retention_cutoff, scan_last_logged_notify_version,
    Level, LogCommand,
};
use dsh_launcher::release::parse_release_json;
use dsh_launcher::update::{CheckAction, CheckEvent, Checker};

fn at(day: u16, hour: u16) -> LocalTime {
    LocalTime { year: 2026, month: 8, day, hour, minute: 30, second: 5 }
}

#[test]
fn written_notice_is_found_again() {
    let mut log = String::new();
    log.push_str(&log_line(&at(18, 9), Level::Info, "启动流程开始"));
    log.push_str(&log_line(&at(18, 9), Level::Info, &notice_message("26.08.18.01")));
    log.push_str(&log_line(&at(18, 10), Level::Dsh, "输出 更新通知成功：远端 v99"));
    let cutoff = retention_cutoff(log_day_of(&at(18, 12)));
    assert_eq!(
        scan_last_logged_notify_version(log.as_bytes(), cutoff).as_deref(),
        Some("26.08.18.01")
    );
    log.push_str(&log_line(&at(19, 9), Level::Info, &notice_message("26.08.19.01")));
    assert_eq!(
        scan_last_logged_notify_version(log.as_bytes(), cutoff).as_deref(),
        Some("26.08.19.01")
    );
}

#[test]
fn pruning_loses_no_recent_notice() {
    let mut log = String::new();
    log.push_str(&log_line(&at(10, 9), Level::Info, &notice_message("26.08.10.01")));
    log.push_str(&log_line(&at(17, 9), Level::Info, &notice_message("26.08.17.01")));
    log.push_str(&log_line(&at(11, 9), Level::Info, &notice_message("26.08.11.01")));
    let cutoff = retention_cutoff(log_day_of(&at(18, 12)));
    let kept = prune_log_file(log.as_bytes(), cutoff).unwrap();
    assert_eq!(
        kept,
        log_line(&at(17, 9), Level::Info, &notice_message("26.08.17.01")).into_bytes()
    );
    assert_eq!(
        scan_last_logged_notify_version(&kept, cutoff),
        scan_last_logged_notify_version(log.as_bytes(), cutoff)
    );
}

#[test]
fn written_line_is_gone_on_the_fourth_day() {
    let log = log_line(&at(15, 9), Level::Warn, "行");
    let third = retention_cutoff(log_day_of(&at(17, 23)));
    let fourth = retention_cutoff(log_day_of(&at(18, 4)));
    assert_eq!(prune_log_file(log.as_bytes(), third), None);
    assert_eq!(prune_log_file(log.as_bytes(), fourth), Some(Vec::new()));
}

#[test]
fn shown_version_is_not_shown_by_another_run() {
    let body = r#"{"tag_name":"v26.08.18.01"}"#;
    let local = "26.08.01.01";
    let mut log = log_line(&at(10, 9), Level::Info, "旧行");

    let mut first = Checker::new();
    let found = parse_release_json(body);
    assert_eq!(first.run_check(CheckEvent::Fetched(found), local).1, CheckAction::ReadLastNotice);
    assert_eq!(
        first.run_check(CheckEvent::LastNotice(None), local).1,
        CheckAction::ShowNotice
    );
    match first.run_check(CheckEvent::Shown, local).0 {
        Some(LogCommand::Write { level, msg }) => log.push_str(&log_line(&at(18, 9), level, &msg)),
        _ => unreachable!(),
    }
    log.push_str(&log_line(&at(18, 10), Level::Dsh, "输出"));

    let cutoff = retention_cutoff(log_day_of(&at(20, 12)));
    let pruned = prune_log_file(log.as_bytes(), cutoff).unwrap();
    for content in [log.as_bytes(), pruned.as_slice()] {
        let last = scan_last_logged_notify_version(content, cutoff);
        assert_eq!(last.as_deref(), Some("26.08.18.01"));
        let mut second = Checker::new();
        let found = parse_release_json(body);
        second.run_check(CheckEvent::Fetched(found), local);
        assert_eq!(
            second.run_check(CheckEvent::LastNotice(last), local).1,
            CheckAction::AskDay
        );
    }
}
