use storage_deal::text::{blank, chars_of, labelled, mentions};

#[test]
fn blank_is_unicode_white_space() {
    for n in 0u32..=0x10FFFF {
        if let Some(c) = char::from_u32(n) {
            assert_eq!(blank(c), c.is_whitespace(), "U+{:04X}", n);
        }
    }
}

#[test]
fn blank_knows_the_common_cases() {
    assert!(blank(' '));
    assert!(blank('\t'));
    assert!(blank('\n'));
    assert!(blank('\r'));
    assert!(blank('\u{A0}'));
    assert!(blank('\u{3000}'));
    assert!(!blank('a'));
    assert!(!blank('0'));
    assert!(!blank(':'));
    assert!(!blank('\u{200B}'));
}

#[test]
fn chars_of_keeps_every_character() {
    assert_eq!(chars_of(""), Vec::<char>::new());
    assert_eq!(chars_of("abc"), vec!['a', 'b', 'c']);
    assert_eq!(chars_of("a\u{F1}\u{20AC}\u{1F600}"), vec!['a', '\u{F1}', '\u{20AC}', '\u{1F600}']);
}

#[test]
fn labelled_reads_what_follows_the_label() {
    assert_eq!(labelled("CommP CID: ", "CommP CID: baga123"), Some("baga123".to_string()));
    assert_eq!(labelled("Piece size: ", "Piece size: 1024"), Some("1024".to_string()));
    assert_eq!(
        labelled("provider collateral: ", "provider collateral: 0.000012 FIL"),
        Some("0.000012 FIL".to_string())
    );
}

#[test]
fn labelled_trims_the_line_and_the_value() {
    assert_eq!(labelled("deal uuid: ", "  deal uuid:   abc  \r"), Some("abc".to_string()));
    assert_eq!(labelled("deal uuid: ", "\tdeal uuid: a b\t"), Some("a b".to_string()));
    assert_eq!(labelled("deal uuid: ", "\u{A0}deal uuid: \u{2003}x\u{3000}"), Some("x".to_string()));
}

#[test]
fn labelled_keeps_inner_characters() {
    assert_eq!(labelled("url: ", "url: http://a/b?c=d: e"), Some("http://a/b?c=d: e".to_string()));
    assert_eq!(labelled("a: ", "a: x\ry"), Some("x\ry".to_string()));
    assert_eq!(labelled("a: ", "a: \u{E9}\u{20AC}"), Some("\u{E9}\u{20AC}".to_string()));
}

#[test]
fn labelled_rejects_another_label() {
    assert_eq!(labelled("Piece size: ", "Car file size: 2048"), None);
    assert_eq!(labelled("CommP CID: ", "commp cid: baga123"), None);
    assert_eq!(labelled("CommP CID: ", "CommP CID:baga123"), None);
    assert_eq!(labelled("CommP CID: ", "x CommP CID: baga123"), None);
    assert_eq!(labelled("CommP CID: ", "CommP  CID: baga123"), None);
}

#[test]
fn labelled_rejects_a_label_with_nothing_behind() {
    assert_eq!(labelled("CommP CID: ", "CommP CID: "), None);
    assert_eq!(labelled("CommP CID: ", "CommP CID:"), None);
    assert_eq!(labelled("CommP CID: ", "CommP CID:     "), None);
    assert_eq!(labelled("CommP CID: ", ""), None);
    assert_eq!(labelled("CommP CID: ", "   "), None);
    assert_eq!(labelled("CommP CID: ", "CommP"), None);
}

#[test]
fn labelled_rejects_a_value_over_two_lines() {
    assert_eq!(labelled("0 < ", "0 < 1\n2"), None);
    assert_eq!(labelled("0 < ", "0 < \n5"), None);
    assert_eq!(labelled("0 < ", "0 < 5\n"), Some("5".to_string()));
}

fn by_pattern(pattern: &str, line: &str) -> Option<String> {
    let re = sscanf::regex::Regex::new(pattern).unwrap();
    re.captures(line.trim())
        .map(|c| c.get(1).unwrap().as_str().trim().to_string())
}

#[test]
fn labelled_agrees_with_the_pattern() {
    let lines = [
        "CommP CID: baga123",
        "  CommP CID: baga123  ",
        "CommP CID: ",
        "CommP CID:",
        "CommP CID:  x",
        "CommP CID: a\nb",
        "CommP CID: a\rb",
        "CommP CID: \n",
        "\nCommP CID: q",
        "CommP CID: CommP CID: z",
        "Piece size: 1",
        "",
        " ",
        "CommP CID: \u{A0}",
        "CommP CID: \u{1F600} ok",
        "xCommP CID: a",
        "CommP CID",
    ];
    for line in lines {
        assert_eq!(
            labelled("CommP CID: ", line),
            by_pattern(r"^CommP CID: (.+?)$", line),
            "{:?}",
            line
        );
    }
    let quotes = ["0 < 100", " 0 < 100 ", "0 < ", "0 <", "0 < 1\n", "0 < \n1", "10 < 100", "0 < 0 < 1"];
    for line in quotes {
        assert_eq!(labelled("0 < ", line), by_pattern(r"^0 < (.+?)$", line), "{:?}", line);
    }
}

#[test]
fn mentions_finds_a_needle() {
    assert!(mentions("abc", "bc"));
    assert!(mentions("abc", "abc"));
    assert!(mentions("abc", "a"));
    assert!(mentions("abc", ""));
    assert!(mentions("", ""));
    assert!(mentions("aab", "ab"));
    assert!(mentions("x\u{20AC}y", "\u{20AC}y"));
}

#[test]
fn mentions_misses_what_is_not_there() {
    assert!(!mentions("", "a"));
    assert!(!mentions("ab", "abc"));
    assert!(!mentions("abc", "ac"));
    assert!(!mentions("abc", "cb"));
    assert!(!mentions("abc", "B"));
}

#[test]
fn mentions_agrees_with_contains() {
    let texts = ["", "a", "ab", "aaa", "abab", "storage price", "xyz: 0 < 1", "\u{E9}\u{E9}a"];
    let needles = ["", "a", "b", "ab", "ba", "aa", "aaaa", "price", ": ", "\u{E9}a", "\u{E9}"];
    for t in texts {
        for n in needles {
            assert_eq!(mentions(t, n), t.contains(n), "{:?} in {:?}", n, t);
        }
    }
}
