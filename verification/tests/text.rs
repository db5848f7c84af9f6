use network_statistics::number::{
    bool_to_text, i64_to_text, parse_bool, parse_i64, parse_u32, parse_u64, parse_u8, u64_to_text,
};
use network_statistics::text::{
    contains, is_text, is_white_space, lines, position, split_once, to_chars, to_text, trim,
};

fn chars(s: &str) -> Vec<char> {
    s.chars().collect()
}

#[test]
fn white_space_is_that_of_unicode() {
    for c in '\0'..=char::MAX {
        assert_eq!(is_white_space(c), c.is_whitespace(), "{:?}", c);
    }
}

#[test]
fn characters_and_back() {
    for s in ["", "abc", "a=b", "\u{fc}\u{1f600}\n"] {
        assert_eq!(to_chars(s), chars(s));
        assert_eq!(to_text(&chars(s)), s);
        assert!(is_text(&chars(s), s));
    }
    assert!(!is_text(&chars("abc"), "abd"));
    assert!(!is_text(&chars("abc"), "ab"));
}

#[test]
fn trimming_is_that_of_std() {
    for s in ["", " ", "a", " a ", "\t\r\n a b \u{3000}", "\u{a0}x", "x\u{2028}", "a\u{200b}"] {
        assert_eq!(to_text(trim(&chars(s))), s.trim());
    }
    assert_eq!(to_text(trim(&chars(" \u{85}a b\n"))), "a b");
}

#[test]
fn lines_are_those_of_std() {
    for s in [
        "", "\n", "a", "a\n", "a\nb", "a\r\nb\r\n", "a\rb\n", "a\r", "\r\n", "\n\n", "a\n\nb",
        "x\r\r\ny",
    ] {
        let all = chars(s);
        let ours: Vec<String> = lines(&all).iter().map(|l| to_text(l)).collect();
        let theirs: Vec<String> = s.lines().map(|l| l.to_string()).collect();
        assert_eq!(ours, theirs, "{:?}", s);
    }
    let all = chars("a\r\n\nb");
    let ours: Vec<String> = lines(&all).iter().map(|l| to_text(l)).collect();
    assert_eq!(ours, vec!["a", "", "b"]);
}

#[test]
fn splitting_at_the_first_separator() {
    for s in ["", "=", "a=b", "a=b=c", "=x", "x=", "ab"] {
        let all = chars(s);
        let ours = split_once(&all, '=').map(|(a, b)| (to_text(a), to_text(b)));
        let theirs = s.split_once('=').map(|(a, b)| (a.to_string(), b.to_string()));
        assert_eq!(ours, theirs);
    }
    assert_eq!(position(&chars("abc"), 'c'), 2);
    assert_eq!(position(&chars("abc"), 'd'), 3);
}

#[test]
fn searching_for_a_part() {
    for s in ["", "br", "br0", "xbr", "b", "abxr", "docker0", "eno1"] {
        for part in ["", "br", "docker", "1"] {
            assert_eq!(contains(&chars(s), part), s.contains(part), "{:?} {:?}", s, part);
        }
    }
    assert!(contains(&chars("virbr0"), "br"));
    assert!(!contains(&chars("eth0"), "lo"));
}

#[test]
fn numbers_are_read_as_std_reads_them() {
    for s in [
        "", "+", "-", "0", "00", "+0", "-0", "7", "+7", "-7", "++7", "+-7", " 7", "7 ", "7a", "a7",
        "255", "256", "300", "4294967295", "4294967296", "18446744073709551615",
        "18446744073709551616", "99999999999999999999999", "9223372036854775807",
        "9223372036854775808", "-9223372036854775808", "-9223372036854775809", "0000000000000000000042",
        "\u{661}", "1_000", "0x10",
    ] {
        let all = chars(s);
        assert_eq!(parse_u8(&all), s.parse::<u8>().ok(), "{:?}", s);
        assert_eq!(parse_u32(&all), s.parse::<u32>().ok(), "{:?}", s);
        assert_eq!(parse_u64(&all), s.parse::<u64>().ok(), "{:?}", s);
        assert_eq!(parse_i64(&all), s.parse::<i64>().ok(), "{:?}", s);
    }
    assert_eq!(parse_u32(&chars("+042")), Some(42));
    assert_eq!(parse_i64(&chars("-9223372036854775808")), Some(i64::MIN));
}

#[test]
fn numbers_are_written_as_std_writes_them() {
    for n in [0u64, 1, 9, 10, 99, 100, 1234567890, u64::MAX] {
        assert_eq!(u64_to_text(n), n.to_string());
        assert_eq!(parse_u64(&chars(&u64_to_text(n))), Some(n));
    }
    for n in [0i64, -1, 1, 42, -42, i64::MAX, i64::MIN, i64::MIN + 1] {
        assert_eq!(i64_to_text(n), n.to_string());
        assert_eq!(parse_i64(&chars(&i64_to_text(n))), Some(n));
    }
    assert_eq!(i64_to_text(-305), "-305");
}

#[test]
fn truth_values() {
    for s in ["true", "false", "True", "", "1", " true"] {
        assert_eq!(parse_bool(&chars(s)), s.parse::<bool>().ok());
    }
    assert_eq!(bool_to_text(true), "true");
    assert_eq!(bool_to_text(false), "false");
}
