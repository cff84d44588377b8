use windows_tool::utils::command::{command_invocation, elevate_restart_argument, join_commands, RunCommandOptions};
use windows_tool::utils::output::decode_process_output;
use windows_tool::utils::hex::{extract_last_field, hex_error_message, HexDecodeError};
use windows_tool::utils::string::StringExt;
use windows_tool::utils::time::{format_ymd, format_ymd_hms, now_ymd, now_ymd_hms, LocalTime};
use windows_tool::utils::unit_conversion::{format_bytes, ByteConversionStandard, ByteFormat};
use windows_tool::utils::Str;

#[test]
fn test_is_all_digits() {
    assert!("12345".is_all_digits());
    assert!(!"123a45".is_all_digits());
    assert!(!"".is_all_digits());
}

#[test]
fn test_to_i64() {
    assert_eq!("123".to_i64(), Some(123));
    assert_eq!("-456".to_i64(), Some(-456));
    assert_eq!("12.34".to_i64(), None);
    assert_eq!("abc".to_i64(), None);
}

#[test]
fn decode_userconfig_hex_sample() {
    let hex_string = "0055736572436f6e66696700016c616e677561676500736368696e657365000808";
    let bytes = hex::decode(hex_string).unwrap();
    println!("原始字节: {:?}", bytes);
    let parts: Vec<&[u8]> = bytes.split(|&b| b == 0x00).collect();
    for (i, part) in parts.iter().enumerate() {
        if !part.is_empty() {
            match std::str::from_utf8(part) {
                Ok(s) => println!("部分 {}: '{}'", i, s),
                Err(_) => println!("部分 {}: 非UTF8数据: {:?}", i, part),
            }
        }
    }
    let decoded = String::from_utf8_lossy(&bytes).into_owned();
    println!("\n整体转换: {}", decoded);
    println!("encode\t{}", hex::encode(decoded));
    assert_eq!(extract_last_field(&bytes), Some("schinese".to_string()));
}

#[test]
fn extract_last_field_cases() {
    assert_eq!(extract_last_field(b"a\0b\0"), Some("b".to_string()));
    assert_eq!(extract_last_field(b"ok\0\x01\x02"), Some("ok".to_string()));
    assert_eq!(extract_last_field(b"ok\0\xff\xfe"), Some("ok".to_string()));
    assert_eq!(extract_last_field(b"line\tand\nbreak"), Some("line\tand\nbreak".to_string()));
    assert_eq!(extract_last_field(b"\0\0"), None);
    assert_eq!(extract_last_field(b""), None);
}

#[test]
fn integer_and_float_shapes() {
    assert!("+456".is_valid_integer(true));
    assert!(!"+456".is_valid_integer(false));
    assert!(!"-".is_valid_integer(true));
    assert!("007".is_valid_integer(false));
    assert!("3.14".is_valid_float(true));
    assert!("-2.718".is_valid_float(true));
    assert!(".5".is_valid_float(false));
    assert!(!"5.".is_valid_float(false));
    assert!(!"1.2.3".is_valid_float(false));
    assert!(!"+".is_valid_float(true));
    assert!(!"-1".is_valid_float(false));
    assert!("٣".is_all_digits_unicode());
    assert!(!"٣".is_all_digits());
    assert!(!"".is_all_digits_unicode());
    assert_eq!("9223372036854775807".to_i64(), Some(i64::MAX));
    assert_eq!("-9223372036854775808".to_i64(), Some(i64::MIN));
    assert_eq!("9223372036854775808".to_i64(), None);
    assert_eq!("+7".to_i64(), Some(7));
}

#[test]
fn ascii_digit_trait() {
    assert!(String::from("0123").is_ascii_digit());
    assert!(String::new().is_ascii_digit());
    assert!(!String::from("12a").is_ascii_digit());
}

#[test]
fn command_options_and_join() {
    let t = RunCommandOptions::tasklist();
    assert!(t.hide_window && !t.use_admin && !t.print_command);
    let o = RunCommandOptions::new(false, true, false);
    assert!(!o.hide_window && o.use_admin && !o.print_command);
    let cmds = vec!["a".to_string(), "b c".to_string(), "d".to_string()];
    assert_eq!(join_commands(&cmds), "a && b c && d");
    assert_eq!(join_commands(&[]), "");
}

#[test]
fn byte_standards() {
    assert_eq!(ByteConversionStandard::Binary.bytes_per_gb(), 1_073_741_824);
    assert_eq!(ByteConversionStandard::Decimal.bytes_per_gb(), 1_000_000_000);
    assert_eq!(ByteConversionStandard::Binary.label(), "二进制 (IEC)");
    assert_eq!(ByteConversionStandard::Decimal.label(), "十进制 (SI)");
}

#[test]
fn date_formats() {
    let t = LocalTime { year: 2025, month: 9, day: 6, hour: 4, minute: 5, second: 59, nanosecond: 1_500_000_000 };
    assert_eq!(format_ymd(&t), "2025-09-06");
    assert_eq!(format_ymd_hms(&t), "2025年09月06日 04-05-60");
    let early = LocalTime { year: 7, month: 1, day: 1, hour: 0, minute: 0, second: 0, nanosecond: 0 };
    assert_eq!(format_ymd(&early), "0007-01-01");
    let big = LocalTime { year: 12345, month: 12, day: 31, hour: 0, minute: 0, second: 0, nanosecond: 0 };
    assert_eq!(format_ymd(&big), "+12345-12-31");
    let neg = LocalTime { year: -5, month: 12, day: 31, hour: 0, minute: 0, second: 0, nanosecond: 0 };
    assert_eq!(format_ymd(&neg), "-0005-12-31");
    let today = now_ymd();
    assert_eq!(today, chrono::Local::now().format("%Y-%m-%d").to_string());
    assert_eq!(now_ymd_hms().chars().count(), "2025年09月06日 04-05-06".chars().count());
}

#[test]
fn process_output_decoding() {
    assert_eq!(decode_process_output("ok 好".as_bytes()), "ok 好");
    assert_eq!(decode_process_output(&[0xC4, 0xE3, 0xBA, 0xC3]), "你好");
}

#[test]
fn invocations() {
    let (p, a) = command_invocation("netsh x", RunCommandOptions::new(true, false, true));
    assert_eq!(p, "cmd.exe");
    assert_eq!(a, vec!["/C", "netsh x"]);
    let (p, a) = command_invocation("netsh x", RunCommandOptions::new(true, true, true));
    assert_eq!(p, "powershell");
    assert_eq!(a, vec!["powershell -Command \"Start-Process cmd '/C netsh x'\" -Verb RunAs"]);
    assert_eq!(
        elevate_restart_argument("C:\\a.exe"),
        "powershell -Command \"Start-Process 'C:\\a.exe'\" -Verb RunAs"
    );
}

#[test]
fn test_format_bytes() {
    assert_eq!(1024.format_bytes(), "1.00 KB");
    assert_eq!(1_500_000.format_bytes(), "1.43 MB");
    assert_eq!(15_000_000_000.format_bytes(), "13.97 GB");
}

fn float_size_text(n: u64) -> String {
    let units = ["B", "KB", "MB", "GB", "TB", "PB", "EB"];
    let mut value = n as f64;
    let mut unit_index = 0;
    while value >= 1024.0 && unit_index < units.len() - 1 {
        value /= 1024.0;
        unit_index += 1;
    }
    format!("{:.2} {}", value, units[unit_index])
}

#[test]
fn format_bytes_small_and_units() {
    assert_eq!(format_bytes(0), "0.00 B");
    assert_eq!(format_bytes(1023), "1023.00 B");
    assert_eq!(format_bytes(1_048_576), "1.00 MB");
    assert_eq!(format_bytes(1u64 << 40), "1.00 TB");
    assert_eq!(format_bytes(1u64 << 50), "1.00 PB");
    assert_eq!(format_bytes(1u64 << 60), "1.00 EB");
    assert_eq!(format_bytes(u64::MAX), "16.00 EB");
}

#[test]
fn format_bytes_matches_float_formatting() {
    let cases: [u64; 16] = [
        0,
        1,
        999,
        1023,
        1024,
        1152,
        1_500_000,
        15_000_000_000,
        (1u64 << 53) - 1,
        (1u64 << 53) + 1,
        (1u64 << 53) + 3,
        (1u64 << 60) - 1,
        u64::MAX - 1,
        u64::MAX,
        123_456_789_012_345_678,
        1_125_899_906_842_624 * 1000,
    ];
    for n in cases {
        assert_eq!(format_bytes(n), float_size_text(n), "n = {}", n);
    }
    let mut n: u64 = 7;
    for _ in 0..2000 {
        assert_eq!(format_bytes(n), float_size_text(n), "n = {}", n);
        n = n.wrapping_mul(6364136223846793005).wrapping_add(1442695040888963407) >> (n % 40);
    }
}

#[test]
fn test_string() {
    let test_strings = ["12345", "0", "", "123a45", "12.34", "-123", "+456", "3.14", "-2.718"];
    let expected: [(bool, bool, bool, bool, Option<i64>); 9] = [
        (true, true, true, true, Some(12345)),
        (true, true, true, true, Some(0)),
        (false, false, false, false, None),
        (false, false, false, false, None),
        (false, false, false, true, None),
        (false, false, true, true, Some(-123)),
        (false, false, true, true, Some(456)),
        (false, false, false, true, None),
        (false, false, false, true, None),
    ];
    for (s, e) in test_strings.iter().zip(expected.iter()) {
        assert_eq!(s.is_all_digits(), e.0, "{}", s);
        assert_eq!(s.is_all_digits_unicode(), e.1, "{}", s);
        assert_eq!(s.is_valid_integer(true), e.2, "{}", s);
        assert_eq!(s.is_valid_float(true), e.3, "{}", s);
        assert_eq!(s.to_i64(), e.4, "{}", s);
    }
    assert!("12345".is_all_digits());
    let s = String::from("-42");
    assert!(s.is_valid_integer(true));
    assert_eq!(s.to_i64(), Some(-42));
}

#[test]
fn hex_error_texts_match_debug() {
    let cases = [
        (HexDecodeError::InvalidHexCharacter { c: '\n', index: 5 }, hex::FromHexError::InvalidHexCharacter { c: '\n', index: 5 }),
        (HexDecodeError::InvalidHexCharacter { c: 'z', index: 0 }, hex::FromHexError::InvalidHexCharacter { c: 'z', index: 0 }),
        (HexDecodeError::InvalidHexCharacter { c: '\u{c3}', index: 12 }, hex::FromHexError::InvalidHexCharacter { c: '\u{c3}', index: 12 }),
        (HexDecodeError::OddLength, hex::FromHexError::OddLength),
        (HexDecodeError::InvalidStringLength, hex::FromHexError::InvalidStringLength),
    ];
    for (mine, theirs) in cases {
        assert_eq!(hex_error_message(&mine), format!("{:?}", theirs));
    }
    assert_eq!(hex_error_message(&HexDecodeError::OddLength), "OddLength");
}
