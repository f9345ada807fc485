use trash_cli::age::parse_age;
use trash_cli::date::{is_leap, parse_iso_datetime};
use trash_cli::json::json_escape;
use trash_cli::percent::{percent_decode, percent_decode_bytes, percent_encode};
use trash_cli::text::{
    chars_of, contains, decimal_of, is_white_space, lines_of, parse_number, stands_before,
    starts_with, str_eq, string_of, strip_prefix, trim,
};

#[test]
fn white_space_is_that_of_std() {
    for n in 0..=0x10ffffu32 {
        if let Some(c) = char::from_u32(n) {
            assert_eq!(is_white_space(c), c.is_whitespace(), "{:x}", n);
        }
    }
}

#[test]
fn trim_agrees_with_std() {
    for s in [
        "", " ", "\t\n", "a", " a", "a ", "  a b  ", "\u{a0}x\u{3000}", "\u{200b}x", "é \u{2028}",
        "\u{85}\u{1680}", "y\n", "yes\r\n",
    ] {
        assert_eq!(trim(s), s.trim());
    }
}

#[test]
fn lines_agree_with_std() {
    for s in [
        "", "\n", "\r\n", "\r", "a", "a\n", "a\r\n", "a\nb", "a\n\nb\n", "a\r\r\nb", "a\rb\n",
        "a\nb\r", "é\nü\r\n", "\n\n",
    ] {
        let want: Vec<String> = s.lines().map(|l| l.to_string()).collect();
        assert_eq!(lines_of(s), want, "{:?}", s);
    }
}

#[test]
fn numbers_agree_with_std() {
    for s in [
        "", "+", "-", "0", "00", "7", "+7", "-7", "++7", "18446744073709551615",
        "18446744073709551616", "99999999999999999999999", "000000000000000000000000001", "1a",
        " 1", "1 ", "٣", "1_0", "0x1",
    ] {
        assert_eq!(parse_number(s.as_bytes()), s.parse::<u64>().ok(), "{:?}", s);
    }
}

#[test]
fn decimals_agree_with_std() {
    for n in [0u64, 1, 9, 10, 99, 100, 12345, u64::MAX] {
        assert_eq!(decimal_of(n), n.to_string());
    }
}

#[test]
fn parts_and_prefixes_agree_with_std() {
    let texts = ["", "a", "ab", "abc", "bc", "aab", "é", "aé", "/x/y", "x/"];
    for s in texts {
        for p in texts {
            assert_eq!(contains(s, p), s.contains(p));
            assert_eq!(starts_with(s, p), s.starts_with(p));
            assert_eq!(strip_prefix(s, p), s.strip_prefix(p).map(|t| t.to_string()));
            assert_eq!(str_eq(s, p), s == p);
            assert_eq!(stands_before(s, p), s < p);
        }
    }
}

#[test]
fn order_is_by_bytes() {
    assert!(stands_before("2024-01-01T00:00:00", "2024-01-01T00:00:01"));
    assert!(stands_before("Z", "a"));
    assert!(stands_before("z", "é"));
    assert!(stands_before("\u{ffff}", "\u{10000}"));
    assert!(!stands_before("a", "a"));
}

#[test]
fn characters_come_back() {
    let v = chars_of("aé\u{10000}");
    assert_eq!(v, vec!['a', 'é', '\u{10000}']);
    assert_eq!(string_of(&v, 1, 3), "é\u{10000}");
    assert_eq!(string_of(&v, 1, 1), "");
}

#[test]
fn escapes_are_decoded() {
    assert_eq!(percent_decode("/home/a%20b"), "/home/a b");
    assert_eq!(percent_decode("%C3%a9"), "é");
    assert_eq!(percent_decode("%41%42"), "AB");
    assert_eq!(percent_decode("%2525"), "%25");
    assert_eq!(percent_decode(""), "");
    assert_eq!(percent_decode("plain/é"), "plain/é");
}

#[test]
fn what_is_no_escape_stays() {
    assert_eq!(percent_decode("%"), "%");
    assert_eq!(percent_decode("%4"), "%4");
    assert_eq!(percent_decode("%zz"), "%zz");
    assert_eq!(percent_decode("%4g"), "%4g");
    assert_eq!(percent_decode("%-1"), "%-1");
    assert_eq!(percent_decode("% 1"), "% 1");
    assert_eq!(percent_decode("%é"), "%é");
    assert_eq!(percent_decode("100%"), "100%");
    assert_eq!(percent_decode("%%41"), "%A");
}

#[test]
fn plus_sign_counts_as_a_sign() {
    assert_eq!(percent_decode("%+A"), "\n");
    assert_eq!(percent_decode("%++"), "%++");
    assert_eq!(percent_decode("%A+"), "%A+");
}

#[test]
fn invalid_utf8_is_replaced() {
    assert_eq!(percent_decode("a%FFb"), "a\u{fffd}b");
    assert_eq!(percent_decode("%C3"), "\u{fffd}");
    assert_eq!(percent_decode("%E2%82"), "\u{fffd}");
    assert_eq!(percent_decode("%80%80"), "\u{fffd}\u{fffd}");
    assert_eq!(percent_decode_bytes(b"%FF%00x"), vec![255, 0, b'x']);
}

#[test]
fn decoding_agrees_with_std_on_every_pair() {
    for a in 0u8..128 {
        for b in 0u8..128 {
            let s = String::from_utf8(vec![b'%', a, b]).unwrap();
            let pair = String::from_utf8(vec![a, b]).unwrap();
            let want = match u8::from_str_radix(&pair, 16) {
                Ok(v) => vec![v],
                Err(_) => s.as_bytes().to_vec(),
            };
            assert_eq!(percent_decode_bytes(s.as_bytes()), want);
        }
    }
}

#[test]
fn encoded_text_reads_back() {
    let text = "/tmp/100% é\n\r x";
    let mut encoded = String::new();
    for b in text.bytes() {
        if b.is_ascii_alphanumeric() || b == b'/' {
            encoded.push(b as char);
        } else {
            encoded.push_str(&format!("%{:02X}", b));
        }
    }
    assert_eq!(percent_decode(&encoded), text);
}

#[test]
fn written_paths_read_back() {
    assert_eq!(percent_encode("/tmp/a%41.txt"), "/tmp/a%2541.txt");
    assert_eq!(percent_encode("/a\nb\rc"), "/a%0Ab%0Dc");
    assert_eq!(percent_encode("/home/é file+?"), "/home/é file+?");
    assert_eq!(percent_encode(""), "");
    for p in ["/tmp/a%41.txt", "%", "%%", "%2", "/a\nPath=/b", "\r\n", "/é%ü\u{10000}", "100%\n"] {
        assert_eq!(percent_decode(&percent_encode(p)), p);
    }
}

#[test]
fn digits_of_either_case_and_any_choice_of_bytes() {
    for e in ["a%c3%A9a", "%61é%61", "%61%C3%a9a", "aéa"] {
        assert_eq!(percent_decode(e), "aéa");
    }
}

#[test]
fn leap_years() {
    assert!(is_leap(2000));
    assert!(is_leap(2024));
    assert!(is_leap(0));
    assert!(!is_leap(1900));
    assert!(!is_leap(2023));
    assert!(!is_leap(2100));
}

#[test]
fn dates_are_counted_from_1970() {
    assert_eq!(parse_iso_datetime("1970-01-01T00:00:00"), Some(0));
    assert_eq!(parse_iso_datetime("1970-01-01T00:00:01"), Some(1));
    assert_eq!(parse_iso_datetime("1970-01-02T00:00:00"), Some(86400));
    assert_eq!(parse_iso_datetime("2000-02-29T12:00:00"), Some(951825600));
    assert_eq!(parse_iso_datetime("2026-03-31T14:30:22"), Some(1774967422));
    assert_eq!(parse_iso_datetime("2024-12-31T23:59:59"), Some(1735689599));
    assert_eq!(parse_iso_datetime("2025-01-01T00:00:00"), Some(1735689600));
}

#[test]
fn dates_are_read_loosely() {
    // Separators, further text and white space around do not matter.
    assert_eq!(parse_iso_datetime("  2025-01-01 00:00:00\n"), Some(1735689600));
    assert_eq!(parse_iso_datetime("2025/01/01x00.00.00.123Z"), Some(1735689600));
    // Fields out of range are counted on.
    assert_eq!(parse_iso_datetime("1970-00-00T00:00:00"), Some(0));
    assert_eq!(parse_iso_datetime("1970-01-01T99:99:99"), Some(99 * 3600 + 99 * 60 + 99));
    assert_eq!(parse_iso_datetime("1970-99-01T00:00:00"), Some(365 * 86400));
    assert_eq!(parse_iso_datetime("0001-01-01T00:00:00"), Some(0));
    assert_eq!(parse_iso_datetime("+970-01-01T00:00:00"), Some(0));
    assert_eq!(parse_iso_datetime("9999-12-31T23:59:59"), Some(253402300799));
}

#[test]
fn dates_that_cannot_be_read() {
    assert_eq!(parse_iso_datetime(""), None);
    assert_eq!(parse_iso_datetime("2025-01-01"), None);
    assert_eq!(parse_iso_datetime("2025-01-01T00:00:0"), None);
    assert_eq!(parse_iso_datetime("202x-01-01T00:00:00"), None);
    assert_eq!(parse_iso_datetime("2025-01-01T00:00:xx"), None);
    assert_eq!(parse_iso_datetime("epoch+1735689600-----"), None);
}

#[test]
fn dates_that_cut_a_character() {
    for d in [
        "żẐẑẓ-01-01T00:00:00",
        "202é-01-01T00:00:00",
        "2025-0é-01T00:00:00",
        "2025-01-01T00:00:0é",
        "xxxx-0é-01T00:00:00",
        "éééééééééé",
    ] {
        assert!(d.len() >= 19);
        assert_eq!(parse_iso_datetime(d), None, "{}", d);
    }
    // A character between two fields, or behind the last, does no harm.
    assert_eq!(parse_iso_datetime("2025-01-01T00:00:00é"), Some(1735689600));
}

#[test]
fn later_stamps_are_later() {
    let stamps = [
        "1999-12-31T23:59:59", "2000-01-01T00:00:00", "2000-02-28T23:59:59",
        "2000-02-29T00:00:00", "2000-03-01T00:00:00", "2100-02-28T00:00:00",
        "2100-03-01T00:00:00",
    ];
    for i in 1..stamps.len() {
        assert!(stands_before(stamps[i - 1], stamps[i]));
        assert!(parse_iso_datetime(stamps[i - 1]) < parse_iso_datetime(stamps[i]));
    }
    let day = |s| parse_iso_datetime(s).unwrap();
    assert_eq!(day("2100-03-01T00:00:00") - day("2100-02-28T00:00:00"), 86400);
    assert_eq!(day("2000-03-01T00:00:00") - day("2000-02-28T00:00:00"), 2 * 86400);
}

#[test]
fn ages_by_unit() {
    assert_eq!(parse_age("7d"), Some(604800));
    assert_eq!(parse_age("90s"), Some(90));
    assert_eq!(parse_age("5m"), Some(300));
    assert_eq!(parse_age("2h"), Some(7200));
    assert_eq!(parse_age("2w"), Some(1209600));
    assert_eq!(parse_age("1M"), Some(2592000));
    assert_eq!(parse_age("1y"), Some(31536000));
    assert_eq!(parse_age("0d"), Some(0));
    assert_eq!(parse_age(" 7d "), Some(604800));
    assert_eq!(parse_age("+3h"), Some(10800));
}

#[test]
fn bare_number_counts_days() {
    assert_eq!(parse_age("30"), parse_age("30d"));
    assert_eq!(parse_age("30"), Some(2592000));
}

#[test]
fn ages_that_mean_nothing() {
    for s in ["", "  ", "d", "7x", "7D", "-1d", "1.5d", "7 d", "d7", "7dd", "é", "7é"] {
        assert_eq!(parse_age(s), None, "{:?}", s);
    }
}

#[test]
fn ages_too_large_to_count() {
    assert_eq!(parse_age("18446744073709551615s"), Some(u64::MAX));
    assert_eq!(parse_age("18446744073709551615m"), None);
    assert_eq!(parse_age("584942417355y"), Some(584942417355 * 31536000));
    assert_eq!(parse_age("584942417356y"), None);
    assert_eq!(parse_age("18446744073709551616s"), None);
}

#[test]
fn json_escapes() {
    assert_eq!(json_escape("plain é"), "plain é");
    assert_eq!(json_escape("a\"b\\c"), "a\\\"b\\\\c");
    assert_eq!(json_escape("\n\r\t"), "\\n\\r\\t");
    assert_eq!(json_escape("\u{0}\u{1f}\u{8}"), "\\u0000\\u001f\\u0008");
    assert_eq!(json_escape("\u{7f}/"), "\u{7f}/");
    assert_eq!(json_escape(""), "");
}

#[test]
fn json_escapes_of_all_controls() {
    for n in 0u32..0x20 {
        let c = char::from_u32(n).unwrap();
        let want = match c {
            '\n' => "\\n".to_string(),
            '\r' => "\\r".to_string(),
            '\t' => "\\t".to_string(),
            _ => format!("\\u{:04x}", n),
        };
        assert_eq!(json_escape(&c.to_string()), want);
    }
}
