use garnix_cli::name_set::NameSet;
use garnix_cli::text::{
    chars_of, chars_precede, has_char, has_prefix, join_path, same_chars, same_text,
    split_segments, starts_with, strip, strip_bounds, text_precedes, without_prefix, Strip,
};

fn chars(text: &str) -> Vec<char> {
    text.chars().collect()
}

const SAMPLES: [&str; 14] = [
    "", "a", "A", "ab", "a-b", "a.b", "b", "é", "e", "z", "zz", "\u{10000}", "\u{ffff}", "a\u{0}",
];

#[test]
fn chars_of_lists_the_characters() {
    for sample in SAMPLES {
        assert_eq!(chars_of(sample), chars(sample));
    }
    assert_eq!(chars_of("a.é"), vec!['a', '.', 'é']);
}

#[test]
fn split_is_the_split_on_dots() {
    assert_eq!(split_segments("a.b.c"), vec![chars("a"), chars("b"), chars("c")]);
    assert_eq!(split_segments(""), vec![chars("")]);
    assert_eq!(split_segments("."), vec![chars(""), chars("")]);
    assert_eq!(split_segments("a..b."), vec![chars("a"), chars(""), chars("b"), chars("")]);
    assert_eq!(split_segments("no dots"), vec![chars("no dots")]);
    for sample in ["packages.x86_64-linux.hello", "...", ".a", "é.ü", "a.b.c.d.e"] {
        let expected: Vec<Vec<char>> = sample.split('.').map(chars).collect();
        assert_eq!(split_segments(sample), expected);
    }
}

#[test]
fn join_puts_dots_between_the_segments() {
    let path = |list: &[&str]| list.iter().map(|s| s.to_string()).collect::<Vec<String>>();
    assert_eq!(join_path(&path(&[])), "");
    assert_eq!(join_path(&path(&["a"])), "a");
    assert_eq!(join_path(&path(&["a", "b", "c"])), "a.b.c");
    assert_eq!(join_path(&path(&["", ""])), ".");
    assert_eq!(join_path(&path(&["a.b", "", "c"])), "a.b..c");
}

#[test]
fn order_is_that_of_strings() {
    for left in SAMPLES {
        for right in SAMPLES {
            assert_eq!(text_precedes(left, right), left < right, "{:?} < {:?}", left, right);
            assert_eq!(chars_precede(&chars(left), &chars(right)), left < right);
            assert_eq!(same_text(left, right), left == right);
            assert_eq!(same_chars(&chars(left), &chars(right)), left == right);
        }
    }
    assert!(text_precedes("a", "ab"));
    assert!(!text_precedes("ab", "a"));
    assert!(text_precedes("Z", "a"));
    assert!(!text_precedes("a", "a"));
}

#[test]
fn prefixes_are_found() {
    for text in SAMPLES {
        for prefix in SAMPLES {
            assert_eq!(starts_with(text, prefix), text.starts_with(prefix));
            assert_eq!(has_prefix(&chars(text), &chars(prefix)), text.starts_with(prefix));
            assert_eq!(
                without_prefix(text, prefix),
                text.strip_prefix(prefix).map(|rest| rest.to_string())
            );
        }
    }
    assert_eq!(without_prefix("refs/heads/main", "refs/heads/"), Some("main".to_string()));
    assert_eq!(without_prefix("éa", "é"), Some("a".to_string()));
    assert_eq!(without_prefix("refs/head", "refs/heads/"), None);
    assert!(has_char(&chars("x86_64-linux"), '-'));
    assert!(!has_char(&chars("x86_64"), '-'));
    assert!(!has_char(&chars(""), '-'));
}

#[test]
fn strip_is_trim() {
    let samples = [
        "", " ", "a", " a ", "\t\n a b \r\n", "\u{a0}a\u{a0}", "\u{3000}x", "x\u{85}",
        "\u{2002}\u{200a}mid dle\u{2028}", "\u{200b}", "\u{180e}a", "\"a\"", " \"a\" ",
        "\"\"\"", "a\"b", "\u{1680}\u{202f}\u{205f}", "\u{1f}a\u{1c}",
    ];
    for sample in samples {
        assert_eq!(strip(sample, Strip::Whitespace), sample.trim(), "{:?}", sample);
        assert_eq!(strip(sample, Strip::Quotes), sample.trim_matches('"'), "{:?}", sample);
    }
    for code in 0u32..0x3100 {
        if let Some(c) = char::from_u32(code) {
            assert_eq!(Strip::Whitespace.test(c), c.is_whitespace(), "U+{:04X}", code);
            assert_eq!(Strip::Quotes.test(c), c == '"');
        }
    }
}

#[test]
fn strip_bounds_narrow_a_range() {
    let text = chars("x  ab  y");
    assert_eq!(strip_bounds(&text, 1, 7, Strip::Whitespace), (3, 5));
    assert_eq!(strip_bounds(&text, 0, 8, Strip::Whitespace), (0, 8));
    assert_eq!(strip_bounds(&text, 1, 3, Strip::Whitespace), (3, 3));
    assert_eq!(strip_bounds(&text, 4, 4, Strip::Whitespace), (4, 4));
    assert_eq!(strip_bounds(&chars("\"\"a\""), 0, 4, Strip::Quotes), (2, 3));
}

#[test]
fn name_set_keeps_each_name_once_and_in_order() {
    let mut set = NameSet::new();
    assert!(!set.contains("a"));
    assert!(set.insert("b".to_string()));
    assert!(set.insert("a".to_string()));
    assert!(set.insert("c".to_string()));
    assert!(!set.insert("a".to_string()));
    assert!(set.insert("B".to_string()));
    assert!(set.insert("ab".to_string()));
    assert!(set.contains("a"));
    assert!(set.contains("ab"));
    assert!(!set.contains("d"));
    assert!(!set.contains(""));
    assert!(set.remove("b"));
    assert!(!set.remove("b"));
    assert!(!set.remove("zzz"));
    assert!(!set.contains("b"));
    assert_eq!(
        set.into_sorted(),
        vec!["B".to_string(), "a".to_string(), "ab".to_string(), "c".to_string()]
    );
    assert_eq!(NameSet::new().into_sorted(), Vec::<String>::new());
}

#[test]
fn name_set_sorts_like_sort_and_dedup() {
    let names = ["pear", "apple", "fig", "apple", "Fig", "", "figs", "fi", "pear", "é", "z"];
    let mut set = NameSet::new();
    for name in names {
        set.insert(name.to_string());
    }
    let mut expected: Vec<String> = names.iter().map(|name| name.to_string()).collect();
    expected.sort();
    expected.dedup();
    assert_eq!(set.into_sorted(), expected);
}

#[test]
fn joining_the_segments_gives_the_name_back() {
    for sample in ["", ".", "a", "a.b.c", "packages.x86_64-linux.hello", "a..b.", ".é.", "no dots"] {
        let parts: Vec<String> =
            split_segments(sample).into_iter().map(|part| part.into_iter().collect()).collect();
        assert_eq!(join_path(&parts), sample);
    }
    for path in [vec!["a"], vec!["packages", "x86_64-linux", "hello"], vec!["", ""], vec![""]] {
        let owned: Vec<String> = path.iter().map(|part| part.to_string()).collect();
        let expected: Vec<Vec<char>> = path.iter().map(|part| chars(part)).collect();
        assert_eq!(split_segments(&join_path(&owned)), expected);
    }
}
