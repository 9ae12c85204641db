use dsh_launcher::log::{Level, LogCommand};
use dsh_launcher::release::{
    candidate_urls, extract_json_string, parse_release_json, Fetch, FetchAction, UpdateInfo,
};
use dsh_launcher::update::{
    newest_version, should_log_update_check, should_notify_version, spawn_checker,
    update_check_disabled, CheckAction, CheckEvent, CheckPoll, CheckTimer, Checker,
    CHECK_INTERVAL_MS,
};
use dsh_launcher::version::{exe_version, format_version, is_newer, local_version, parse_version};

const API: &str = "https://api.github.com/repos/NekoPawClub/DshLauncher/releases/latest";

fn line(cmd: &Option<LogCommand>) -> Option<(Level, String)> {
    match cmd {
        Some(LogCommand::Write { level, msg }) => Some((*level, msg.clone())),
        _ => None,
    }
}

fn found(version: &str) -> CheckEvent {
    CheckEvent::Fetched(Some(UpdateInfo { version: version.to_string() }))
}

#[test]
fn version_compare_segment_numeric() {
    assert!(is_newer("26.8.18.0", "26.8.18.1"));
    assert!(is_newer("26.8.18.1", "26.8.19.1"));
    assert!(is_newer("26.8.18.5", "26.9.1.0"));
    assert!(!is_newer("26.8.18.1", "26.8.18.1"));
    // 10 > 9: an order by characters would get this wrong.
    assert!(!is_newer("26.10.1.0", "26.9.30.9"));
    assert!(is_newer("26.9.30.9", "26.10.1.0"));
}

#[test]
fn local_version_injected_by_build_script() {
    let set = local_version(Some("26.8.18.1"), (26, 8, 5));
    assert!(parse_version(&set).is_some(), "本地版本格式非法：{}", set);
    let dated = local_version(None, (26, 8, 5));
    assert!(parse_version(&dated).is_some(), "本地版本格式非法：{}", dated);
}

#[test]
fn version_of_a_build() {
    assert_eq!(exe_version(Some("26.8.18.1"), (25, 1, 2)), (26, 8, 18, 1));
    assert_eq!(exe_version(Some("26.8.x.18.1"), (25, 1, 2)), (26, 8, 18, 1));
    assert_eq!(exe_version(Some("26.8.18"), (25, 1, 2)), (25, 1, 2, 0));
    assert_eq!(exe_version(None, (25, 1, 2)), (25, 1, 2, 0));
    assert_eq!(format_version((26, 8, 5, 1)), "26.08.05.01");
    assert_eq!(format_version((126, 8, 5, 100)), "126.08.05.100");
    assert_eq!(local_version(None, (26, 11, 3)), "26.11.03.00");
}

#[test]
fn notify_dedupe_by_logged_notify_version() {
    assert!(should_notify_version("26.08.18.01", None));
    assert!(!should_notify_version("26.08.18.01", Some("26.08.18.01")));
    assert!(should_notify_version("26.08.18.02", Some("26.08.18.01")));
    assert!(!should_notify_version("26.08.18.01", Some("26.08.18.02")));

    assert_eq!(
        newest_version(None, Some("26.08.18.01")),
        Some("26.08.18.01")
    );
    assert_eq!(
        newest_version(Some("26.08.18.01"), Some("26.08.18.02")),
        Some("26.08.18.02")
    );
    assert!(!should_notify_version(
        "26.08.18.02",
        newest_version(Some("26.08.18.01"), Some("26.08.18.02"))
    ));
}

#[test]
fn newest_of_one_or_none() {
    assert_eq!(newest_version(None, None), None);
    assert_eq!(newest_version(Some("1.2"), None), Some("1.2"));
    assert_eq!(newest_version(Some("1.3"), Some("1.2")), Some("1.3"));
    assert_eq!(newest_version(Some("x"), Some("1.2")), Some("x"));
}

#[test]
fn update_check_logged_once_per_startup_or_log_day() {
    let today = (2026, 8, 18);
    let next_day = (2026, 8, 19);

    assert!(should_log_update_check("26.08.18.01", None, None, today));
    assert!(!should_log_update_check(
        "26.08.18.01",
        Some("26.08.18.01"),
        Some(today),
        today
    ));
    assert!(should_log_update_check(
        "26.08.18.02",
        Some("26.08.18.01"),
        Some(today),
        today
    ));
    assert!(!should_log_update_check(
        "26.08.18.01",
        Some("26.08.18.02"),
        Some(today),
        today
    ));
    assert!(should_log_update_check(
        "26.08.18.02",
        Some("26.08.18.02"),
        Some(today),
        next_day
    ));
}

#[test]
fn version_padded_segments_normalized() {
    assert_eq!(parse_version("26.08.05.01"), Some((26, 8, 5, 1)));
    assert!(is_newer("26.8.5.0", "26.08.05.01"));
}

#[test]
fn version_parse_rejects_garbage() {
    assert!(!is_newer("26.8.18.0", "not-a-version"));
    assert!(!is_newer("x", "26.8.18.1"));
}

#[test]
fn version_parse_edges() {
    assert_eq!(parse_version(" vv26.8 "), Some((26, 8, 0, 0)));
    assert_eq!(parse_version("+1.2"), Some((1, 2, 0, 0)));
    assert_eq!(parse_version("4294967295"), Some((4294967295, 0, 0, 0)));
    assert_eq!(parse_version("4294967296"), None);
    assert_eq!(parse_version("1.2.3.4.5"), None);
    assert_eq!(parse_version("1..2"), None);
    assert_eq!(parse_version(""), None);
    assert_eq!(parse_version("-1"), None);
}

#[test]
fn release_json_extracts_fields() {
    let body = r#"{
            "url": "https://api.github.com/repos/NekoPawClub/DshLauncher/releases/1",
            "html_url": "https://github.com/NekoPawClub/DshLauncher/releases/tag/v26.8.18.1",
            "id": 1,
            "tag_name": "v26.8.18.1",
            "name": "v26.8.18.1",
            "assets": []
        }"#;
    let info = parse_release_json(body).expect("应解析成功");
    assert_eq!(info.version, "26.8.18.1");
}

#[test]
fn json_escape_handled() {
    let body = r#"{"html_url":"https:\/\/github.com\/x","tag_name":"v26.8.18.1"}"#;
    assert_eq!(
        extract_json_string(body, "html_url").as_deref(),
        Some("https://github.com/x")
    );
}

#[test]
fn json_escapes_of_every_sort() {
    let body = r#"{ "a" : "x\n\t\"\\\u中" }"#;
    assert_eq!(
        extract_json_string(body, "a").as_deref(),
        Some("x\n\t\"\\u中")
    );
    assert_eq!(extract_json_string(body, "b"), None);
    assert_eq!(extract_json_string(r#""a""#, "a"), None);
    assert_eq!(extract_json_string(r#""a":"x\"#, "a"), None);
}

#[test]
fn json_value_round_trip() {
    let value = "一\"b\\c\nd\te/";
    let escaped = value
        .replace('\\', "\\\\")
        .replace('"', "\\\"")
        .replace('\n', "\\n")
        .replace('\t', "\\t");
    let body = format!("{{\"x\":1,\"k\":\"{}\",\"y\":2}}", escaped);
    assert_eq!(extract_json_string(&body, "k").as_deref(), Some(value));
}

#[test]
fn release_without_a_version_is_none() {
    assert!(parse_release_json(r#"{"tag_name":"latest"}"#).is_none());
    assert!(parse_release_json("{}").is_none());
    assert_eq!(
        parse_release_json(r#"{"tag_name":"vv1.2"}"#).map(|i| i.version),
        Some("1.2".to_string())
    );
}

#[test]
fn release_version_is_digits_and_dots() {
    for tag in [" v1", "v 1", "1 ", "+26.8", "26.+8", "v+1", "1v", "v", "", "1.2.3.4.5", "1..2", "１"] {
        let body = format!("{{\"tag_name\":\"{}\"}}", tag);
        assert!(parse_release_json(&body).is_none(), "{}", tag);
    }
    let mut fetch = Fetch::new(None);
    assert_eq!(
        fetch.answer(Some(r#"{"tag_name":"v+26.8"}"#)),
        FetchAction::Get(1)
    );
    assert_eq!(
        fetch.answer(Some(r#"{"tag_name":"v26.8"}"#)),
        FetchAction::Found
    );
    assert_eq!(fetch.result().map(|i| i.version), Some("26.8".to_string()));
}

#[test]
fn update_disable_flag_parses_known_values() {
    assert!(update_check_disabled(Some("yes")));
    assert!(!update_check_disabled(Some("0")));
    assert!(!update_check_disabled(None));
    assert!(update_check_disabled(Some(" TRUE ")));
    assert!(update_check_disabled(Some("1")));
    assert!(update_check_disabled(Some("On")));
}

#[test]
fn json_malformed_string_returns_none() {
    assert_eq!(
        extract_json_string(r#"{"tag_name":"v26.8.18.1"#, "tag_name"),
        None
    );
    assert_eq!(extract_json_string(r#"{"tag_name":v1}"#, "tag_name"), None);
}

#[test]
fn candidates_in_order() {
    assert_eq!(
        candidate_urls(None),
        vec![
            API.to_string(),
            format!("https://ghproxy.net/{}", API),
            format!("https://ghfast.top/{}", API),
        ]
    );
    assert_eq!(
        candidate_urls(Some(" https://a/ ,, https://b/")),
        vec![
            API.to_string(),
            format!("https://a/{}", API),
            format!("https://b/{}", API),
            format!("https://ghproxy.net/{}", API),
            format!("https://ghfast.top/{}", API),
        ]
    );
}

#[test]
fn fetch_takes_the_first_usable_answer() {
    let mut fetch = Fetch::new(None);
    assert_eq!(fetch.start(), FetchAction::Get(0));
    assert_eq!(fetch.url(0), API);
    assert_eq!(fetch.answer(None), FetchAction::Get(1));
    assert_eq!(fetch.url(1), format!("https://ghproxy.net/{}", API));
    assert_eq!(fetch.answer(Some("<html>")), FetchAction::Get(2));
    assert_eq!(
        fetch.answer(Some(r#"{"tag_name":"v26.8.18.1"}"#)),
        FetchAction::Found
    );
    assert_eq!(
        fetch.result().map(|i| i.version),
        Some("26.8.18.1".to_string())
    );
}

#[test]
fn fetch_fails_when_no_address_answers() {
    let mut fetch = Fetch::new(None);
    assert_eq!(fetch.answer(None), FetchAction::Get(1));
    assert_eq!(fetch.answer(None), FetchAction::Get(2));
    assert_eq!(fetch.answer(None), FetchAction::Failed);
    assert!(fetch.result().is_none());
}

#[test]
fn checks_come_every_hour() {
    let mut timer = CheckTimer::new(1000);
    assert_eq!(timer.poll(false, 1000), CheckPoll::Check);
    assert_eq!(timer.poll(false, 2000), CheckPoll::Rest);
    assert_eq!(timer.poll(false, 1000 + CHECK_INTERVAL_MS - 1), CheckPoll::Rest);
    assert_eq!(timer.poll(false, 1000 + 60 * 60 * 1000), CheckPoll::Check);
    assert_eq!(timer.poll(true, 1000 + 9 * 60 * 60 * 1000), CheckPoll::Stop);
}

#[test]
fn checker_can_be_switched_off() {
    assert_eq!(spawn_checker(None, 7).ok(), Some(CheckTimer { next: 7 }));
    let off = spawn_checker(Some("on"), 7).err();
    assert_eq!(
        line(&off),
        Some((
            Level::Info,
            "更新检测已禁用 (DSHLAUNCHER_UPDATE_DISABLE)".to_string()
        ))
    );
}

#[test]
fn first_check_shows_and_records() {
    let local = "26.08.18.00";
    let mut checker = Checker::new();
    let (log, next) = checker.run_check(found("26.08.18.01"), local);
    assert!(log.is_none());
    assert_eq!(next, CheckAction::ReadLastNotice);
    let (log, next) = checker.run_check(CheckEvent::LastNotice(None), local);
    assert!(log.is_none());
    assert_eq!(next, CheckAction::ShowNotice);
    assert_eq!(checker.remote(), "26.08.18.01");
    let (log, next) = checker.run_check(CheckEvent::Shown, local);
    assert_eq!(
        line(&log),
        Some((Level::Info, "更新通知成功：远端 v26.08.18.01".to_string()))
    );
    assert_eq!(next, CheckAction::AskDay);
    let (log, next) = checker.run_check(CheckEvent::Today((2026, 8, 18)), local);
    assert_eq!(
        line(&log),
        Some((
            Level::Info,
            "更新检测成功：远端 v26.08.18.01 (本地 v26.08.18.00)".to_string()
        ))
    );
    assert_eq!(next, CheckAction::Done);

    // The same version is not shown again, and not recorded again on the same day.
    let (_, next) = checker.run_check(found("26.08.18.01"), local);
    assert_eq!(next, CheckAction::ReadLastNotice);
    let (_, next) = checker.run_check(CheckEvent::LastNotice(None), local);
    assert_eq!(next, CheckAction::AskDay);
    let (log, next) = checker.run_check(CheckEvent::Today((2026, 8, 18)), local);
    assert!(log.is_none());
    assert_eq!(next, CheckAction::Done);

    // A newer one is.
    checker.run_check(found("26.08.18.02"), local);
    let (_, next) = checker.run_check(
        CheckEvent::LastNotice(Some("26.08.18.01".to_string())),
        local,
    );
    assert_eq!(next, CheckAction::ShowNotice);
}

#[test]
fn failed_notice_is_retried() {
    let local = "26.08.18.00";
    let mut checker = Checker::new();
    checker.run_check(found("26.08.18.01"), local);
    checker.run_check(CheckEvent::LastNotice(None), local);
    let (log, next) = checker.run_check(CheckEvent::NotShown("坏".to_string()), local);
    assert_eq!(
        line(&log),
        Some((
            Level::Fail,
            "发送更新通知失败 (v26.08.18.01)：坏，下一轮检查将重试".to_string()
        ))
    );
    assert_eq!(next, CheckAction::AskDay);
    checker.run_check(CheckEvent::Today((2026, 8, 18)), local);
    checker.run_check(found("26.08.18.01"), local);
    let (_, next) = checker.run_check(
        CheckEvent::LastNotice(Some("26.08.18.01".to_string())),
        local,
    );
    assert_eq!(next, CheckAction::ShowNotice);
}

#[test]
fn notice_in_the_log_counts_after_a_restart() {
    let local = "26.08.18.00";
    let mut checker = Checker::new();
    checker.run_check(found("26.08.18.01"), local);
    let (_, next) = checker.run_check(
        CheckEvent::LastNotice(Some("26.08.18.01".to_string())),
        local,
    );
    assert_eq!(next, CheckAction::AskDay);
}

#[test]
fn version_that_is_not_newer_is_only_recorded() {
    let mut checker = Checker::new();
    let (_, next) = checker.run_check(found("26.08.18.01"), "26.08.18.01");
    assert_eq!(next, CheckAction::AskDay);
    let (log, _) = checker.run_check(CheckEvent::Today((2026, 8, 18)), "26.08.18.01");
    assert!(log.is_some());
    // The next log day is recorded too.
    checker.run_check(found("26.08.18.01"), "26.08.18.01");
    let (log, _) = checker.run_check(CheckEvent::Today((2026, 8, 19)), "26.08.18.01");
    assert!(log.is_some());
}

#[test]
fn unreachable_network_is_logged_and_ignored() {
    let mut checker = Checker::new();
    let (log, next) = checker.run_check(CheckEvent::Fetched(None), "1");
    assert_eq!(
        line(&log),
        Some((
            Level::Info,
            "更新检测失败 (网络不可达)，静默忽略".to_string()
        ))
    );
    assert_eq!(next, CheckAction::Done);
}
