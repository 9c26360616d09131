use feedwatch::text::{
    append, equal, includes, replace, split_lines, split_words, stands_at, to_chars, to_lower,
    to_lower_char, to_string,
};

fn chars(s: &str) -> Vec<char> {
    s.chars().collect()
}

fn rows(items: &[&str]) -> Vec<Vec<char>> {
    items.iter().map(|s| chars(s)).collect()
}

#[test]
fn chars_and_strings_round_trip() {
    assert_eq!(to_chars("héllo, wörld"), chars("héllo, wörld"));
    assert_eq!(to_string(&chars("héllo, wörld")), "héllo, wörld");
    assert_eq!(to_chars(""), Vec::<char>::new());
    assert_eq!(to_string(&Vec::new()), "");
}

#[test]
fn lower_folds_ascii_capitals_only() {
    assert_eq!(to_lower_char('A'), 'a');
    assert_eq!(to_lower_char('Z'), 'z');
    assert_eq!(to_lower_char('m'), 'm');
    assert_eq!(to_lower_char('@'), '@');
    assert_eq!(to_lower_char('['), '[');
    assert_eq!(to_lower_char('É'), 'É');
    assert_eq!(to_lower(&chars("Due SOON, ÉTÉ 42")), chars("due soon, ÉtÉ 42"));
}

#[test]
fn includes_finds_runs() {
    assert!(includes(&chars("an announcement"), &chars("announcement")));
    assert!(includes(&chars("abc"), &chars("")));
    assert!(includes(&chars(""), &chars("")));
    assert!(includes(&chars("abc"), &chars("c")));
    assert!(!includes(&chars("abc"), &chars("cb")));
    assert!(!includes(&chars("ab"), &chars("abc")));
    assert!(!includes(&chars("Announcement"), &chars("announcement")));
}

#[test]
fn stands_at_checks_one_place() {
    assert!(stands_at(&chars("hello"), &chars("ll"), 2));
    assert!(!stands_at(&chars("hello"), &chars("ll"), 3));
    assert!(!stands_at(&chars("hello"), &chars("lo!"), 3));
    assert!(stands_at(&chars("hello"), &chars(""), 5));
    assert!(!stands_at(&chars("hello"), &chars(""), 6));
}

#[test]
fn replace_goes_left_to_right_without_overlap() {
    assert_eq!(replace(&chars("a&lt;b&lt;"), &chars("&lt;"), &chars("<")), chars("a<b<"));
    assert_eq!(replace(&chars("aaa"), &chars("aa"), &chars("b")), chars("ba"));
    assert_eq!(replace(&chars("aaaa"), &chars("aa"), &chars("b")), chars("bb"));
    assert_eq!(replace(&chars("abc"), &chars("x"), &chars("y")), chars("abc"));
    assert_eq!(replace(&chars("abc"), &chars(""), &chars("y")), chars("abc"));
    assert_eq!(replace(&chars("a=b"), &chars("="), &chars("")), chars("ab"));
    assert_eq!(replace(&chars(""), &chars("a"), &chars("b")), chars(""));
}

#[test]
fn lines_end_at_line_feeds() {
    assert_eq!(split_lines(&chars("a\r\nb\n\nc\r")), rows(&["a", "b", "", "c\r"]));
    assert_eq!(split_lines(&chars("a\n")), rows(&["a"]));
    assert_eq!(split_lines(&chars("a\nb")), rows(&["a", "b"]));
    assert_eq!(split_lines(&chars("")), rows(&[]));
    assert_eq!(split_lines(&chars("\n")), rows(&[""]));
    assert_eq!(split_lines(&chars("\r\r\n")), rows(&["\r"]));
}

#[test]
fn lines_agree_with_std() {
    for text in ["", "\n", "x", "x\n", "x\r\n\r\ny", "\r", "a\rb\n", "one\ntwo\r\nthree", "\n\n\n"] {
        let expected: Vec<Vec<char>> = text.lines().map(|l| chars(l)).collect();
        assert_eq!(split_lines(&chars(text)), expected);
    }
}

#[test]
fn words_are_runs_without_white_space() {
    assert_eq!(split_words(&chars("  a bc\t\nd\r\x0Ce ")), rows(&["a", "bc", "d", "e"]));
    assert_eq!(split_words(&chars("abc")), rows(&["abc"]));
    assert_eq!(split_words(&chars("   ")), rows(&[]));
    assert_eq!(split_words(&chars("")), rows(&[]));
    assert_eq!(split_words(&chars("a\u{a0}b c")), rows(&["a\u{a0}b", "c"]));
}

#[test]
fn words_agree_with_std() {
    for text in ["", " ", "x", " x y ", "a\tb\nc\rd\x0Ce", "\x0Bv", "_1 _2  _3"] {
        let expected: Vec<Vec<char>> = text.split_ascii_whitespace().map(|w| chars(w)).collect();
        assert_eq!(split_words(&chars(text)), expected);
    }
}

#[test]
fn append_adds_at_the_end() {
    let mut out = chars("ab");
    append(&mut out, &chars("cd"));
    assert_eq!(out, chars("abcd"));
    append(&mut out, &chars(""));
    assert_eq!(out, chars("abcd"));
}

#[test]
fn equal_compares_content() {
    assert!(equal(&chars("title"), &chars("title")));
    assert!(!equal(&chars("title"), &chars("titles")));
    assert!(!equal(&chars("title"), &chars("tital")));
    assert!(equal(&chars(""), &chars("")));
}
