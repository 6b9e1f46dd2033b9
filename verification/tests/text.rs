use bugpot::namemap::NameMap;
use bugpot::number::{decimal_text, parse_number};
use bugpot::text::{
    chars_of, comes_before, first_word_of, is_whitespace, lines_of, lowercased, same_ignoring_case,
    split_on, string_of, trimmed_str,
};

fn strings(v: Vec<Vec<char>>) -> Vec<String> {
    v.iter().map(|c| string_of(c)).collect()
}

#[test]
fn white_space_is_what_the_standard_calls_so() {
    for c in '\0'..=char::MAX {
        assert_eq!(is_whitespace(c), c.is_whitespace(), "{:x}", c as u32);
    }
}

#[test]
fn strings_read_back_from_their_characters() {
    for s in ["", "plain", "grüße, 世界 🎉"] {
        assert_eq!(string_of(&chars_of(s)), s);
        assert_eq!(chars_of(s), s.chars().collect::<Vec<char>>());
    }
}

#[test]
fn trimming_and_words() {
    for s in ["", " ", " a b ", "\u{a0}x\u{2003}", "x"] {
        assert_eq!(trimmed_str(s), s.trim());
        assert_eq!(
            first_word_of(&chars_of(s)).map(string_of),
            s.split_whitespace().next().map(str::to_owned)
        );
    }
}

#[test]
fn splitting_and_lines() {
    for s in ["", ",", "a,b", ",a,,b,", "a\r\nb\n\nc", "a\n", "a\r", "\r\n", "x\r\r\ny"] {
        assert_eq!(
            strings(split_on(&chars_of(s), ',')),
            s.split(',').map(str::to_owned).collect::<Vec<_>>()
        );
        assert_eq!(
            strings(lines_of(&chars_of(s))),
            s.lines().map(str::to_owned).collect::<Vec<_>>(),
            "{s:?}"
        );
    }
}

#[test]
fn letter_case_is_that_of_ascii() {
    let s = "ÄbC-Z09";
    assert_eq!(string_of(&lowercased(&chars_of(s))), s.to_ascii_lowercase());
    assert!(same_ignoring_case(&chars_of("UpGrade"), &chars_of("upgrade")));
    assert!(!same_ignoring_case(&chars_of("ä"), &chars_of("Ä")));
}

#[test]
fn order_is_that_of_strings() {
    let all = ["", "a", "ab", "b", "ba", "é", "世", "🎉"];
    for a in all {
        for b in all {
            assert_eq!(comes_before(&chars_of(a), &chars_of(b)), a <= b, "{a} {b}");
        }
    }
}

#[test]
fn numbers_read_back() {
    for n in [0, 7, 10, 65535, u64::MAX] {
        assert_eq!(decimal_text(n), n.to_string());
        assert_eq!(parse_number(&chars_of(&decimal_text(n)), 10, u64::MAX), Some(n));
    }
    for s in ["", "+", "+5", "-1", "5 ", "00012", "65536", "1_0", "٣"] {
        assert_eq!(
            parse_number(&chars_of(s), 10, 65535),
            s.parse::<u16>().ok().map(u64::from),
            "{s}"
        );
    }
    assert_eq!(parse_number(&chars_of("Ff"), 16, u64::MAX), Some(255));
}

#[test]
fn maps_hold_one_value_for_each_name() {
    let mut m: NameMap<u8> = NameMap::new();
    assert_eq!(m.insert("a".to_owned(), 1), None);
    assert_eq!(m.insert("b".to_owned(), 2), None);
    assert_eq!(m.insert("a".to_owned(), 3), Some(1));
    assert_eq!(m.len(), 2);
    assert_eq!(m.get("a"), Some(&3));
    assert_eq!(m.remove("a"), Some(3));
    assert_eq!(m.remove("a"), None);
    assert!(!m.contains("a"));
    assert_eq!(m.at(0), ("b", &2));
    assert_eq!(m.into_entries(), vec![("b".to_owned(), 2)]);
}
