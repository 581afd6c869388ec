use fuzzerk::text::{
    chars_of, is_whitespace, slice_of, spells, split_at_most, split_every, split_first,
    split_words, starts_with, string_of, strings_of, trim,
};

fn c(s: &str) -> Vec<char> {
    s.chars().collect()
}

fn cs(items: &[&str]) -> Vec<Vec<char>> {
    items.iter().map(|s| c(s)).collect()
}

#[test]
fn white_space_is_what_std_calls_white_space() {
    let mut u: u32 = 0;
    while u <= 0x10FFFF {
        if let Some(ch) = char::from_u32(u) {
            assert_eq!(is_whitespace(ch), ch.is_whitespace(), "U+{:04X}", u);
        }
        u += 1;
    }
}

#[test]
fn strings_and_characters_convert_both_ways() {
    let s = "a\u{e9}\u{8d8a} \t\"";
    assert_eq!(chars_of(s), c(s));
    assert_eq!(string_of(&c(s)), s);
    assert_eq!(chars_of(""), Vec::<char>::new());
    assert_eq!(slice_of(&c("abcdef"), 2, 4), c("cd"));
    assert_eq!(slice_of(&c("abcdef"), 3, 3), c(""));
    assert_eq!(
        strings_of(&cs(&["a", "bc", "", "d"]), 1),
        vec!["bc".to_string(), String::new(), "d".to_string()]
    );
}

#[test]
fn trim_takes_white_space_off_both_ends() {
    for s in ["", "   ", "a", "  a b  ", "\t\u{a0}x\u{3000}\n", "a  ", "  a"] {
        assert_eq!(trim(&c(s)), c(s.trim()), "{:?}", s);
    }
}

#[test]
fn splitting_follows_std() {
    let texts = ["", " ", "a", "a b", "a  b", " a b ", "a b c d e f", "=a=b=", "k=v=w"];
    for t in texts {
        for sep in [' ', '='] {
            let want: Vec<Vec<char>> = t.split(sep).map(c).collect();
            assert_eq!(split_every(&c(t), sep), want, "{:?}", t);
            for n in 1..5usize {
                let want: Vec<Vec<char>> = t.splitn(n, sep).map(c).collect();
                assert_eq!(split_at_most(&c(t), sep, Some(n)), want, "{:?} {}", t, n);
            }
            let want = t.split_once(sep).map(|(a, b)| (c(a), c(b)));
            assert_eq!(split_first(&c(t), sep), want, "{:?}", t);
        }
        let want: Vec<Vec<char>> = t.split_whitespace().map(c).collect();
        assert_eq!(split_words(&c(t)), want, "{:?}", t);
    }
    assert_eq!(split_words(&c("\ta\u{a0}\u{a0}b\nc ")), cs(&["a", "b", "c"]));
}

#[test]
fn prefixes_and_whole_words_are_compared_by_character() {
    assert!(starts_with(&c("$0xff"), "$0x"));
    assert!(starts_with(&c("$0x"), "$0x"));
    assert!(!starts_with(&c("$0"), "$0x"));
    assert!(!starts_with(&c("a$0x"), "$0x"));
    assert!(starts_with(&c("anything"), ""));
    assert!(spells(&c("nop"), "nop"));
    assert!(!spells(&c("nop "), "nop"));
    assert!(!spells(&c("no"), "nop"));
    assert!(spells(&c(""), ""));
}
