use csv_aggregator::order::compare_text;
use csv_aggregator::text::{chars_of, find_in, trim_text, whitespace};
use std::cmp::Ordering;

fn chars(s: &str) -> Vec<char> {
    s.chars().collect()
}

#[test]
fn chars_of_lists_the_characters() {
    assert_eq!(chars_of(""), Vec::<char>::new());
    assert_eq!(chars_of("abc"), vec!['a', 'b', 'c']);
    assert_eq!(chars_of("é日 x"), vec!['é', '日', ' ', 'x']);
}

#[test]
fn whitespace_is_what_std_calls_whitespace() {
    for code in 0..=0x10FFFFu32 {
        if let Some(c) = char::from_u32(code) {
            assert_eq!(whitespace(c), c.is_whitespace(), "U+{:04X}", code);
        }
    }
}

#[test]
fn trim_text_is_what_std_trims() {
    let samples = [
        "",
        " ",
        "   ",
        "a",
        " a",
        "a ",
        "  a b  ",
        "\t\r\n a\tb \n",
        "\u{A0}x\u{3000}",
        "\u{2003}é日\u{2028}",
        "x\u{200B}",
        "\u{FEFF}x",
        " \u{85} ",
        "a\u{0B}",
    ];
    for s in samples.iter() {
        assert_eq!(trim_text(s), s.trim(), "{:?}", s);
    }
}

#[test]
fn trim_text_keeps_inner_whitespace() {
    assert_eq!(trim_text("  3.0 pass "), "3.0 pass");
    assert_eq!(trim_text("a  b"), "a  b");
}

#[test]
fn find_in_is_what_std_finds() {
    let samples = ["", "a", "ab", "ba", "aab", "abab", "xaby", "日本語", "本", "é", "e"];
    for h in samples.iter() {
        for n in samples.iter() {
            assert_eq!(find_in(&chars(h), &chars(n)), h.contains(n), "{:?} in {:?}", n, h);
        }
    }
}

#[test]
fn compare_text_is_the_order_of_std() {
    let samples = [
        "", "a", "A", "aa", "ab", "b", "ba", "é", "e", "z", "日本", "日", "\u{10000}", "\u{FFFF}",
        "a\u{10000}", "a\u{FFFF}", " ", "10", "9",
    ];
    for a in samples.iter() {
        for b in samples.iter() {
            assert_eq!(compare_text(a, b), a.cmp(b), "{:?} against {:?}", a, b);
        }
    }
}

#[test]
fn compare_text_goes_by_code_point() {
    assert_eq!(compare_text("abc", "abd"), Ordering::Less);
    assert_eq!(compare_text("abc", "ab"), Ordering::Greater);
    assert_eq!(compare_text("Z", "a"), Ordering::Less);
    assert_eq!(compare_text("same", "same"), Ordering::Equal);
    assert_eq!(compare_text("\u{FFFF}", "\u{10000}"), Ordering::Less);
}
