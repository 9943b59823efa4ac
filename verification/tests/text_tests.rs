use ftc_insights::text::{
    chars_of, count_char_in, int_to_text, parse_i32, same_text, split_lines, starts_with,
};

#[test]
fn parse_plain_numbers() {
    assert_eq!(parse_i32("0"), Some(0));
    assert_eq!(parse_i32("16236"), Some(16236));
    assert_eq!(parse_i32("+42"), Some(42));
    assert_eq!(parse_i32("-17"), Some(-17));
    assert_eq!(parse_i32("007"), Some(7));
}

#[test]
fn parse_matches_std_on_limits() {
    assert_eq!(parse_i32("2147483647"), Some(i32::MAX));
    assert_eq!(parse_i32("-2147483648"), Some(i32::MIN));
    assert_eq!(parse_i32("2147483648"), None);
    assert_eq!(parse_i32("-2147483649"), None);
    assert_eq!(parse_i32("99999999999999999999"), None);
}

#[test]
fn parse_rejects_what_std_rejects() {
    for s in ["", "-", "+", "12a", " 12", "12 ", "1.5", "--1", "+-1", "abc"] {
        assert_eq!(parse_i32(s), None, "{:?}", s);
        assert!(s.parse::<i32>().is_err());
    }
}

#[test]
fn parse_agrees_with_std_on_samples() {
    for s in ["1", "-0", "+0", "30000", "-30000", "2147483647", "4294967296", "x1", "1x"] {
        assert_eq!(parse_i32(s), s.parse::<i32>().ok(), "{:?}", s);
    }
}

#[test]
fn decimal_text_matches_to_string() {
    for n in [0i64, 7, -1, 10, 123456, -987, i64::MAX, i64::MIN] {
        assert_eq!(int_to_text(n), n.to_string());
    }
}

#[test]
fn decimal_text_reads_back() {
    for n in [0i32, 1, -1, 19, -2000, i32::MAX, i32::MIN] {
        assert_eq!(parse_i32(&int_to_text(n as i64)), Some(n));
    }
}

#[test]
fn split_lines_keeps_empty_pieces() {
    assert_eq!(split_lines(""), vec![String::new()]);
    assert_eq!(split_lines("a"), vec!["a".to_string()]);
    assert_eq!(split_lines("a\nbc"), vec!["a".to_string(), "bc".to_string()]);
    assert_eq!(split_lines("a\n"), vec!["a".to_string(), String::new()]);
    assert_eq!(split_lines("\n\n"), vec![String::new(), String::new(), String::new()]);
}

#[test]
fn split_lines_agrees_with_std() {
    for s in ["key1\nkey2\nkey3", "x\r\ny", "\nlead", "trail\n"] {
        let ours = split_lines(s);
        let std: Vec<String> = s.split("\n").map(|x| x.to_string()).collect();
        assert_eq!(ours, std);
    }
}

#[test]
fn prefixes_and_counts() {
    assert!(starts_with("Red1", "Red"));
    assert!(starts_with("Red", "Red"));
    assert!(!starts_with("Re", "Red"));
    assert!(!starts_with("Blue1", "Red"));
    assert!(starts_with("anything", ""));
    assert_eq!(count_char_in("mmom", 'm'), 3);
    assert_eq!(count_char_in("", 'm'), 0);
    assert_eq!(count_char_in("ooo", 'm'), 0);
}

#[test]
fn text_equality_and_round_trip() {
    assert!(same_text("2022", "2022"));
    assert!(!same_text("2022", "2021"));
    assert!(!same_text("202", "2022"));
    assert_eq!(chars_of("héllo"), vec!['h', 'é', 'l', 'l', 'o']);
}

#[test]
fn split_pieces_count_and_contents() {
    for s in ["", "a", "a\nb\n\nc", "\n", "no newline at all"] {
        let pieces = split_lines(s);
        assert_eq!(pieces.len(), s.matches('\n').count() + 1);
        assert!(pieces.iter().all(|p| !p.contains('\n')));
    }
}
