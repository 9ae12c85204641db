use dsh_launcher::log::LogCommand;
use dsh_launcher::output::{log_dsh_bytes, read_failed, take_flushable_partial_bytes, Pump};

fn line(cmd: &LogCommand) -> String {
    match cmd {
        LogCommand::Write { level, msg } => format!("[{}] {}", level.tag(), msg),
        _ => unreachable!(),
    }
}

fn lines(cmds: &[LogCommand]) -> Vec<String> {
    cmds.iter().map(line).collect()
}

#[test]
fn take_flushable_partial_bytes_keeps_incomplete_utf8_tail() {
    let mut pending = b"abc\xe4\xb8".to_vec();
    assert_eq!(take_flushable_partial_bytes(&mut pending), b"abc");
    assert_eq!(pending, b"\xe4\xb8");
    assert!(take_flushable_partial_bytes(&mut pending).is_empty());

    let mut invalid = vec![0xff, 0xfe];
    assert_eq!(take_flushable_partial_bytes(&mut invalid), vec![0xff, 0xfe]);
    assert!(invalid.is_empty());
}

#[test]
fn flushing_agrees_with_utf8_of_std() {
    let samples: [&[u8]; 12] = [
        b"",
        b"a",
        b"\xc3",
        b"\xc3\xa9",
        b"\xe0\x80",
        b"\xe0\xa0",
        b"\xed\xa0",
        b"\xf0\x90\x80",
        b"\xf4\x90",
        b"\xf5",
        b"\x80a",
        b"a\xff",
    ];
    for bytes in samples {
        let mut pending = bytes.to_vec();
        let taken = take_flushable_partial_bytes(&mut pending);
        let expected = match std::str::from_utf8(bytes) {
            Ok(_) => bytes.len(),
            Err(e) if e.valid_up_to() > 0 => e.valid_up_to(),
            Err(e) if e.error_len().is_some() => bytes.len(),
            Err(_) => 0,
        };
        assert_eq!(taken, &bytes[..expected], "{:?}", bytes);
        assert_eq!(pending, &bytes[expected..]);
    }
}

#[test]
fn line_ends_are_stripped() {
    assert_eq!(line(&log_dsh_bytes(b"a\r\n\n")), "[DSH] a");
    assert_eq!(line(&log_dsh_bytes(b"\n")), "[DSH] ");
    assert_eq!(line(&log_dsh_bytes("中\rx".as_bytes())), "[DSH] 中\rx");
    assert_eq!(line(&log_dsh_bytes(b"a\xffb")), "[DSH] a\u{fffd}b");
    assert_eq!(line(&read_failed("坏")), "[FAIL] 读取 dsh 输出失败：坏");
}

#[test]
fn output_is_cut_at_lines_and_characters() {
    let mut pump = Pump::new();
    assert_eq!(
        lines(&pump.pump_dsh_output("a\nb\r\nc".as_bytes())),
        vec!["[DSH] a", "[DSH] b", "[DSH] c"]
    );
    assert!(pump.pending.is_empty());
    assert_eq!(lines(&pump.pump_dsh_output(b"x\xe4\xb8")), vec!["[DSH] x"]);
    assert_eq!(pump.pending, b"\xe4\xb8");
    assert_eq!(lines(&pump.pump_dsh_output(b"\xad")), vec!["[DSH] 中"]);
    assert!(pump.finish().is_none());
    pump.pump_dsh_output(b"\xe4");
    assert_eq!(pump.finish().map(|c| line(&c)), Some("[DSH] \u{fffd}".to_string()));
    assert!(pump.finish().is_none());
}

#[test]
fn no_character_is_torn_wherever_blocks_end() {
    let text = "é中😀\n行二 without end 😀";
    let bytes = text.as_bytes();
    for cut in 0..bytes.len() {
        let mut pump = Pump::new();
        let mut all = lines(&pump.pump_dsh_output(&bytes[..cut]));
        all.extend(lines(&pump.pump_dsh_output(&bytes[cut..])));
        assert!(pump.finish().is_none());
        let joined: String = all.iter().map(|l| l.trim_start_matches("[DSH] ")).collect();
        assert!(!joined.contains('\u{fffd}'), "{}", cut);
        let plain: String = text.replace('\n', "");
        assert_eq!(joined.replace(' ', ""), plain.replace(' ', ""));
    }
}
