use dsh_launcher::calendar::{civil_from_days, days_from_civil, log_day_of, LocalTime};
use dsh_launcher::log::{
    cleanup_if_day_changed, dsh_output, enforce_log_size_limit, error, flush, home_dir, info,
    instance_id, instance_suffix, legacy_log_date, legacy_log_expired, log_base_dir, log_file_name,
    log_line, notice_message, parse_timestamp, parse_update_notify_line, prune_log_file,
    retention_cutoff, sanitize_instance_id, scan_last_logged_notify_version, should_keep_log_line,
    timestamp, truncate_log_from_head, truncate_start, warn, Level, LogCommand, LogDir, PruneEnd,
    Pruner, MAX_KEEP_BYTES, MAX_LOG_BYTES,
};

fn at(year: u16, month: u16, day: u16, hour: u16, minute: u16, second: u16) -> LocalTime {
    LocalTime { year, month, day, hour, minute, second }
}

#[test]
fn log_day_boundary() {
    let mut st = at(2026, 8, 15, 3, 59, 0);
    assert_eq!(log_day_of(&st), (2026, 8, 14), "03:59 应归前一天");

    st.hour = 4;
    st.minute = 0;
    assert_eq!(log_day_of(&st), (2026, 8, 15), "04:00 应归当天");

    st.year = 2026;
    st.month = 3;
    st.day = 1;
    st.hour = 3;
    assert_eq!(log_day_of(&st), (2026, 2, 28), "非闰年 2 月应为 28 天");

    st.year = 2024;
    st.month = 3;
    st.day = 1;
    st.hour = 3;
    assert_eq!(log_day_of(&st), (2024, 2, 29), "闰年 2 月应为 29 天");

    st.year = 2026;
    st.month = 1;
    st.day = 1;
    st.hour = 3;
    assert_eq!(log_day_of(&st), (2025, 12, 31), "跨年边界");

    st.year = 2000;
    st.month = 3;
    st.day = 1;
    st.hour = 3;
    assert_eq!(log_day_of(&st), (2000, 2, 29), "世纪闰年 2000");

    st.year = 1900;
    st.month = 3;
    st.day = 1;
    st.hour = 3;
    assert_eq!(log_day_of(&st), (1900, 2, 28), "世纪非闰年 1900");
}

#[test]
fn days_and_dates_agree() {
    assert_eq!(days_from_civil(1970, 1, 1), 0);
    assert_eq!(days_from_civil(2000, 3, 1), 11017);
    assert_eq!(days_from_civil(1969, 12, 31), -1);
    for z in -800_000..800_000 {
        let (y, m, d) = civil_from_days(z);
        assert_eq!(days_from_civil(y, m, d), z);
    }
}

#[test]
fn written_notice_is_read_back() {
    assert_eq!(log_file_name(&instance_id(Some(""))), "launcher.log");
    let t = at(2026, 8, 18, 12, 0, 0);
    let mut content = String::new();
    for cmd in [
        info("单元测试日志写入验证"),
        info("更新通知成功：远端 v26.08.18.01"),
    ] {
        match cmd {
            LogCommand::Write { level, msg } => content.push_str(&log_line(&t, level, &msg)),
            _ => unreachable!(),
        }
    }
    assert!(matches!(flush(), LogCommand::Flush));
    assert!(
        content.contains("单元测试日志写入验证"),
        "日志内容应包含写入信息，实际：{content}"
    );
    let cutoff = retention_cutoff(log_day_of(&t));
    assert_eq!(
        scan_last_logged_notify_version(content.as_bytes(), cutoff).as_deref(),
        Some("26.08.18.01"),
        "日志管理线程应能读取到刚写入的通知成功版本"
    );
}

#[test]
fn levels_are_tagged() {
    let t = at(2026, 1, 2, 3, 4, 5);
    let tag = |cmd: LogCommand| match cmd {
        LogCommand::Write { level, msg } => log_line(&t, level, &msg),
        _ => String::new(),
    };
    assert_eq!(tag(info("a")), "2026-01-02 03:04:05 [INFO] a\n");
    assert_eq!(tag(warn("b")), "2026-01-02 03:04:05 [WARN] b\n");
    assert_eq!(tag(error("c")), "2026-01-02 03:04:05 [FAIL] c\n");
    assert_eq!(tag(dsh_output("d")), "2026-01-02 03:04:05 [DSH] d\n");
    assert_eq!(Level::Dsh.tag(), "DSH");
}

const PRUNE: &str = "2026-08-13 23:59:59 [INFO] old\n2020-01-01 00:00:00 [INFO] 更新检测成功：远端 v20.01.01.01 (本地 v20.01.01.00)\n2020-01-01 00:00:01 [INFO] 更新通知成功：远端 v20.01.01.01\n2026-08-14 04:00:00 [INFO] keep-day-14\nno-timestamp [INFO] keep\n2026-08-15 03:59:59 [INFO] keep-day-15\n";

#[test]
fn prune_log_file_removes_outdated_lines() {
    let cutoff = days_from_civil(2026, 8, 14);
    let pruned = prune_log_file(PRUNE.as_bytes(), cutoff).unwrap();
    let pruned = String::from_utf8(pruned).unwrap();
    assert!(!pruned.contains("old"), "过时行应被删除，实际：{pruned}");
    assert!(
        pruned.contains("keep-day-14"),
        "边界行应保留，实际：{pruned}"
    );
    assert!(
        pruned.contains("no-timestamp"),
        "无时间标签行应保留，实际：{pruned}"
    );
    assert!(
        pruned.contains("keep-day-15"),
        "按 4 点日界应保留，实际：{pruned}"
    );
    assert!(
        !pruned.contains("更新检测成功：远端 v20.01.01.01"),
        "过期更新检测行应按普通日志删除，实际：{pruned}"
    );
    assert!(
        !pruned.contains("更新通知成功：远端 v20.01.01.01"),
        "过期通知成功行应按普通日志删除，实际：{pruned}"
    );
    assert_eq!(
        pruned,
        "2026-08-14 04:00:00 [INFO] keep-day-14\nno-timestamp [INFO] keep\n2026-08-15 03:59:59 [INFO] keep-day-15\n"
    );
    // What is left is not pruned again.
    assert_eq!(prune_log_file(pruned.as_bytes(), cutoff), None);
}

#[test]
fn pruning_line_by_line() {
    let cutoff = days_from_civil(2026, 8, 14);
    let mut pruner = Pruner::new(cutoff);
    let mut kept = Vec::new();
    for l in PRUNE.split_inclusive('\n') {
        if pruner.line(l.as_bytes()) {
            kept.extend_from_slice(l.as_bytes());
        }
    }
    assert_eq!(prune_log_file(PRUNE.as_bytes(), cutoff), Some(kept));
    assert_eq!(pruner.finish(false, true), PruneEnd::Replace);
    assert_eq!(pruner.finish(true, true), PruneEnd::Abandon);
    assert_eq!(pruner.finish(false, false), PruneEnd::Abandon);
    let mut nothing = Pruner::new(cutoff);
    assert!(nothing.line(b"x\n"));
    assert_eq!(nothing.finish(false, true), PruneEnd::Discard);
}

#[test]
fn parse_timestamp_parses_log_prefix() {
    let st = parse_timestamp("2026-08-15 03:59:59 [INFO] x").unwrap();
    assert_eq!(
        (st.year, st.month, st.day, st.hour, st.minute, st.second),
        (2026, 8, 15, 3, 59, 59)
    );
    assert!(parse_timestamp("no timestamp").is_none());
}

#[test]
fn timestamp_edges() {
    assert_eq!(timestamp(&at(26, 1, 2, 3, 4, 5)), "0026-01-02 03:04:05");
    assert!(parse_timestamp("2026-08-15 03:59:5").is_none());
    assert!(parse_timestamp("2026/08/15 03:59:59").is_none());
    assert!(parse_timestamp("２026-08-15 03:59:59 x").is_none());
    assert!(parse_timestamp("20 6-08-15 03:59:59 x").is_none());
    let t = at(9999, 12, 31, 23, 59, 58);
    let read = parse_timestamp(&timestamp(&t)).unwrap();
    assert_eq!((read.year, read.second), (9999, 58));
}

#[test]
fn parse_update_notify_line_reads_remote_version() {
    let (version, day) =
        parse_update_notify_line("2026-08-18 03:59:59 [INFO] 更新通知成功：远端 v26.08.18.01")
            .expect("应解析成功");
    assert_eq!(version, "26.08.18.01");
    assert_eq!(day, (2026, 8, 17), "凌晨 4 点前应归前一天");
    assert!(parse_update_notify_line(
        "2026-08-18 10:00:00 [DSH] [INFO] 更新通知成功：远端 v26.08.18.01"
    )
    .is_none());
    assert!(parse_update_notify_line(
        "2026-08-18 10:00:00 [INFO] 更新检测成功：远端 v26.08.18.01 (本地 v26.08.18.00)"
    )
    .is_none());
}

#[test]
fn notice_line_round_trip() {
    let t = at(2026, 8, 18, 10, 0, 0);
    let line = log_line(&t, Level::Info, &notice_message("26.08.18.01"));
    assert_eq!(
        parse_update_notify_line(&line),
        Some(("26.08.18.01".to_string(), (2026, 8, 18)))
    );
    assert!(parse_update_notify_line("2026-08-18 10:00:00 [INFO] 更新通知成功：远端 vx").is_none());
}

#[test]
fn scan_last_logged_notify_version_respects_retention() {
    let cutoff = days_from_civil(2026, 8, 14);
    let content = "2026-08-13 23:59:59 [INFO] 更新通知成功：远端 v26.08.13.01\n2026-08-14 04:00:00 [INFO] 更新通知成功：远端 v26.08.14.01\n2026-08-15 03:59:59 [INFO] 更新通知成功：远端 v26.08.15.01\n";
    assert_eq!(
        scan_last_logged_notify_version(content.as_bytes(), cutoff).as_deref(),
        Some("26.08.15.01")
    );

    let expired = "2026-08-13 23:59:59 [INFO] 更新通知成功：远端 v26.08.13.01\n";
    assert_eq!(
        scan_last_logged_notify_version(expired.as_bytes(), cutoff),
        None
    );
}

#[test]
fn scan_reads_past_broken_bytes() {
    let cutoff = days_from_civil(2026, 8, 14);
    let mut content = b"\xff\xfe\n".to_vec();
    content.extend_from_slice("2026-08-14 04:00:00 [INFO] 更新通知成功：远端 v1.2".as_bytes());
    assert_eq!(
        scan_last_logged_notify_version(&content, cutoff).as_deref(),
        Some("1.2")
    );
}

#[test]
fn three_log_days_are_kept() {
    assert_eq!(retention_cutoff((2026, 8, 16)), days_from_civil(2026, 8, 14));
    let cutoff = retention_cutoff((2026, 8, 16));
    assert!(should_keep_log_line("2026-08-14 04:00:00 [INFO] x", cutoff));
    assert!(!should_keep_log_line("2026-08-14 03:59:59 [INFO] x", cutoff));
    assert!(should_keep_log_line("x", cutoff));
}

#[test]
fn time_counts_before_broken_bytes() {
    let mut line = b"2026-08-15 09:00:00 [DSH] ".to_vec();
    line.extend_from_slice(&[0xff, 0xfe, b'\n']);
    let day = days_from_civil(2026, 8, 15);
    assert!(Pruner::new(day).line(&line));
    assert!(!Pruner::new(day + 1).line(&line));
}

#[test]
fn cutoff_of_any_day() {
    assert_eq!(retention_cutoff((1970, 1, 1)), -2);
    assert_eq!(retention_cutoff((400_000, 3, 1)), days_from_civil(400_000, 2, 28));
    let mut last = Some((i64::MAX, 1, 1));
    assert_eq!(cleanup_if_day_changed(&mut last, (i64::MAX, 1, 1)), None);
}

#[test]
fn cleanup_once_a_log_day() {
    let mut last = None;
    assert_eq!(
        cleanup_if_day_changed(&mut last, (2026, 8, 16)),
        Some(days_from_civil(2026, 8, 14))
    );
    assert_eq!(cleanup_if_day_changed(&mut last, (2026, 8, 16)), None);
    assert_eq!(
        cleanup_if_day_changed(&mut last, (2026, 8, 17)),
        Some(days_from_civil(2026, 8, 15))
    );
}

#[test]
fn truncate_log_from_head_keeps_tail_within_target() {
    let content = "line-01\nline-02\nline-03\nline-04\nline-05\n";
    let bytes = truncate_log_from_head(content.as_bytes(), 16);
    assert!(bytes.len() <= content.len() - 16);
    let text = String::from_utf8(bytes).unwrap();
    assert!(text.ends_with("line-05\n"));
    assert!(text.starts_with("line-04\n") || text.starts_with("line-03\n"));
}

#[test]
fn truncate_log_from_head_handles_missing_newline() {
    let bytes = truncate_log_from_head(b"0123456789abcdef", 6);
    assert!(bytes.len() <= 10);
    assert_eq!(bytes, b"6789abcdef");
}

#[test]
fn truncation_starts_after_a_line() {
    assert_eq!(truncate_log_from_head(b"ab\ncd\n", 0), b"ab\ncd\n");
    assert_eq!(truncate_log_from_head(b"ab\ncd\n", 1), b"cd\n");
    assert_eq!(truncate_start(16, b"line-03\n"), 24);
    assert_eq!(truncate_start(6, b"6789abcdef"), 6);
    assert_eq!(truncate_start(0, b""), 0);
    assert_eq!(enforce_log_size_limit(MAX_LOG_BYTES), None);
    assert_eq!(
        enforce_log_size_limit(MAX_LOG_BYTES + 1),
        Some(MAX_LOG_BYTES + 1 - MAX_KEEP_BYTES)
    );
}

#[test]
fn dated_log_files() {
    assert_eq!(legacy_log_date("launcher-2026-08-14.log", ""), Some((2026, 8, 14)));
    assert_eq!(legacy_log_date("launcher-test-2026-08-14.log", "test"), Some((2026, 8, 14)));
    assert_eq!(legacy_log_date("launcher-test-2026-08-14.log", ""), None);
    assert_eq!(legacy_log_date("launcher.log", ""), None);
    assert_eq!(legacy_log_date("launcher-2026-08.log", ""), None);
    let cutoff = days_from_civil(2026, 8, 14);
    assert!(!legacy_log_expired("launcher-2026-08-14.log", "", cutoff));
    assert!(legacy_log_expired("launcher-2026-08-13.log", "", cutoff));
    assert!(!legacy_log_expired("other-2026-08-13.log", "", cutoff));
}

#[test]
fn instance_id_sanitizes_env_value() {
    assert_eq!(sanitize_instance_id("  test_01  "), "test_01");
    assert_eq!(sanitize_instance_id("../evil\\path"), "evilpath");
    assert_eq!(sanitize_instance_id("  "), "");
}

#[test]
fn clean_names_stay_clean() {
    for name in ["", " test-1 ", "../../a b", "名字_x", "A-b_9"] {
        let clean = sanitize_instance_id(name);
        assert_eq!(sanitize_instance_id(&clean), clean);
        assert!(clean.chars().all(|c| c.is_ascii_alphanumeric() || c == '-' || c == '_'));
    }
    assert_eq!(sanitize_instance_id("../../a b"), "ab");
}

#[test]
fn names_of_files_and_directories() {
    assert_eq!(instance_id(None), "");
    assert_eq!(instance_id(Some(" a b ")), "ab");
    assert_eq!(instance_suffix(""), "");
    assert_eq!(instance_suffix("test"), "test-");
    assert_eq!(log_file_name(""), "launcher.log");
    assert_eq!(log_file_name("test"), "launcher-test.log");
    assert_eq!(home_dir(Some("C:\\u"), Some("/h")), "C:\\u");
    assert_eq!(home_dir(None, Some("/h")), "/h");
    assert_eq!(home_dir(None, None), ".");
    assert!(matches!(log_base_dir(Some("/l"), None, Some("/h")), LogDir::Given(d) if d == "/l"));
    assert!(matches!(log_base_dir(Some("  "), None, Some("/h")), LogDir::UnderHome(d) if d == "/h"));
    assert!(matches!(log_base_dir(None, Some("/u"), Some("/h")), LogDir::UnderHome(d) if d == "/u"));
}
