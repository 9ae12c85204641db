use dsh_launcher::text::{
    after_prefix, before_suffix, find, from_chars, has_prefix, is_white, lowered, push_decimal,
    push_list, push_padded, push_signed, read_unsigned, split_at_char, to_chars, trimmed,
    trimmed_leading, trimmed_start,
};
use dsh_launcher::wide::{from_utf16_lossy, process_entry_exe_name, to_wide};

fn chars(s: &str) -> Vec<char> {
    s.chars().collect()
}

#[test]
fn white_space_is_that_of_unicode() {
    for n in 0..=0x10ffff {
        if let Some(c) = char::from_u32(n) {
            assert_eq!(is_white(c), c.is_whitespace(), "{:x}", n);
        }
    }
}

#[test]
fn trimming_is_that_of_str() {
    for s in ["", " ", "a", " a", "a ", "\u{3000}中 文\u{a0}\n", "\t\t"] {
        let v = chars(s);
        assert_eq!(from_chars(trimmed(&v)), s.trim());
        assert_eq!(from_chars(trimmed_start(&v)), s.trim_start());
    }
    assert_eq!(from_chars(trimmed_leading(&chars("vv1v"), 'v')), "1v");
}

#[test]
fn searching() {
    assert_eq!(find(&chars("abcabc"), &chars("ca")), Some(2));
    assert_eq!(find(&chars("abc"), &chars("x")), None);
    assert_eq!(find(&chars("abc"), &chars("")), Some(0));
    assert!(has_prefix(&chars("abc"), &chars("ab")));
    assert_eq!(after_prefix(&chars("abc"), &chars("b")), None);
    assert_eq!(before_suffix(&chars("a.log"), &chars(".log")), Some(&['a'][..]));
    let v = chars("a,,b,");
    let parts: Vec<String> = split_at_char(&v, ',').iter().map(|p| from_chars(p)).collect();
    assert_eq!(parts, vec!["a", "", "b", ""]);
    let parts: Vec<&str> = "a,,b,".split(',').collect();
    assert_eq!(parts, vec!["a", "", "b", ""]);
}

#[test]
fn numbers() {
    assert_eq!(read_unsigned(&chars("0012"), 100), Some(12));
    assert_eq!(read_unsigned(&chars("+7"), 100), Some(7));
    assert_eq!(read_unsigned(&chars("101"), 100), None);
    assert_eq!(read_unsigned(&chars("+"), 100), None);
    assert_eq!(read_unsigned(&chars("18446744073709551616"), u64::MAX), None);
    assert_eq!(read_unsigned(&chars("18446744073709551615"), u64::MAX), Some(u64::MAX));
    let mut out = String::new();
    push_decimal(&mut out, 0);
    push_padded(&mut out, 7, 3);
    push_signed(&mut out, -5);
    push_signed(&mut out, i64::MIN);
    assert_eq!(out, "0007-5-9223372036854775808");
    assert_eq!(from_chars(&lowered(&chars("AbZ中É"))), "abz中É");
    assert_eq!(to_chars("a中"), vec!['a', '中']);
}

#[test]
fn lists() {
    let mut out = "x".to_string();
    push_list(&mut out, &vec![]);
    push_list(&mut out, &vec!["1".to_string()]);
    push_list(&mut out, &vec!["1".to_string(), "2".to_string()]);
    assert_eq!(out, "x[][1][1, 2]");
}

#[test]
fn dsh_to_wide_encodes_and_terminates() {
    assert_eq!(to_wide("ab中"), vec![0x61, 0x62, 0x4e2d, 0]);
}

#[test]
fn toast_to_wide_encodes_and_terminates() {
    assert_eq!(to_wide("ab中"), vec![0x61, 0x62, 0x4e2d, 0]);
}

#[test]
fn utf16_round_trip() {
    for s in ["", "a", "中文", "😀x\u{10ffff}\u{10000}\u{ffff}"] {
        let units: Vec<u16> = s.encode_utf16().collect();
        let mut wide = units.clone();
        wide.push(0);
        assert_eq!(to_wide(s), wide);
        assert_eq!(from_utf16_lossy(&units), s);
    }
}

#[test]
fn utf16_halves_are_replaced() {
    for units in [
        vec![0xd800],
        vec![0xdc00, 0x61],
        vec![0xd800, 0xd800, 0xdc00],
        vec![0xd800, 0x61, 0xdbff],
    ] {
        assert_eq!(from_utf16_lossy(&units), String::from_utf16_lossy(&units));
    }
}

#[test]
fn exe_name_is_read_in_lower_case() {
    let mut field = [0u16; 260];
    for (i, u) in "Node.EXE".encode_utf16().enumerate() {
        field[i] = u;
    }
    field[9] = 0x41;
    assert_eq!(process_entry_exe_name(&field), "node.exe");
    assert_eq!(process_entry_exe_name(&[0xc9, 0x130]), "ÉİI".replace('I', "").to_lowercase());
    assert_eq!(process_entry_exe_name(&[]), "");
}
