use firewall_metrics::iptables::counter::parse_counter;
use firewall_metrics::text::{
    chars_equal, find, find_char, matches_at, parse_u64, skip_after, spells_keyword, split_lines,
    take_before, to_chars,
};

fn chars(s: &str) -> Vec<char> {
    s.chars().collect()
}

fn lines(s: &str) -> Vec<String> {
    split_lines(&chars(s)).iter().map(|l| l.iter().collect()).collect()
}

#[test]
fn to_chars_keeps_every_character() {
    assert_eq!(to_chars(""), Vec::<char>::new());
    assert_eq!(to_chars("aé\u{1F600}b"), vec!['a', 'é', '\u{1F600}', 'b']);
}

#[test]
fn split_lines_agrees_with_std() {
    for text in [
        "",
        "\n",
        "\n\n",
        "a",
        "a\n",
        "a\nb",
        "a\r\nb\r\n",
        "a\r",
        "a\r\n\r\n",
        "\r\n",
        "a\r\r\nb",
        "a\n\nb\n",
        "\ra\n",
    ] {
        let expected: Vec<String> = text.lines().map(|l| l.to_string()).collect();
        assert_eq!(lines(text), expected, "{:?}", text);
    }
}

#[test]
fn searching() {
    let s = chars("ab: c: d");
    assert_eq!(find_char(&s, ':'), Some(2));
    assert_eq!(find_char(&s, 'z'), None);
    assert_eq!(find_char(&[], 'z'), None);
    assert_eq!(find(&s, &chars(": ")), Some(2));
    assert_eq!(find(&s, &chars("c: d")), Some(4));
    assert_eq!(find(&s, &chars("c: d ")), None);
    assert_eq!(find(&s, &[]), Some(0));
    assert_eq!(find(&[], &[]), Some(0));
    assert_eq!(find(&[], &chars("a")), None);
    assert!(matches_at(&s, &chars("b:"), 1));
    assert!(!matches_at(&s, &chars("b:"), 0));
    assert!(!matches_at(&s, &chars("d "), 7));
    assert!(matches_at(&s, &[], 8));
    assert!(!matches_at(&s, &[], 9));
    assert_eq!(take_before(&s, ':'), &chars("ab")[..]);
    assert_eq!(skip_after(&s, ':'), &chars(" c: d")[..]);
    assert_eq!(take_before(&s, 'z'), &s[..]);
    assert_eq!(skip_after(&s, 'z'), &[] as &[char]);
    assert!(chars_equal(&s, &chars("ab: c: d")));
    assert!(!chars_equal(&s, &chars("ab: c: e")));
    assert!(!chars_equal(&s, &chars("ab: c: ")));
}

#[test]
fn decimal_numbers() {
    assert_eq!(parse_u64(&chars("0")), Some(0));
    assert_eq!(parse_u64(&chars("0042")), Some(42));
    assert_eq!(parse_u64(&chars("18446744073709551615")), Some(u64::MAX));
    assert_eq!(parse_u64(&chars("18446744073709551616")), None);
    assert_eq!(parse_u64(&chars("99999999999999999999999")), None);
    assert_eq!(parse_u64(&chars("")), None);
    assert_eq!(parse_u64(&chars("+1")), None);
    assert_eq!(parse_u64(&chars("-1")), None);
    assert_eq!(parse_u64(&chars("1 ")), None);
    assert_eq!(parse_u64(&chars("١٢")), None);
}

#[test]
fn keywords() {
    assert!(spells_keyword(&chars("DrOp"), &chars("drop")));
    assert!(!spells_keyword(&chars("dro"), &chars("drop")));
    assert!(!spells_keyword(&chars("dr0p"), &chars("drop")));
    assert!(spells_keyword(&[], &[]));
}

#[test]
fn counters() {
    let c = parse_counter(&chars("[12:3456]")).unwrap();
    assert_eq!((c.packets, c.bytes), (12, 3456));
    assert!(parse_counter(&chars("[12:3456] ")).is_none());
    assert!(parse_counter(&chars("[]")).is_none());
    assert!(parse_counter(&chars("[:]")).is_none());
    assert!(parse_counter(&chars("]")).is_none());
}
