use spin_deps::text::{
    chars_of, copy_option, copy_texts, ends_with, is_white_space, lines, split_once, starts_with,
    terminate, trim,
};

const SAMPLES: [&str; 14] = [
    "",
    "\n",
    "\r\n",
    "a",
    "a\n",
    "a\r\nb\n\nc",
    "a\r",
    "a\r\r\n",
    "\n\n",
    "  a b \t",
    "\u{3000}x\u{a0}",
    "\u{1f600} = \u{e9}\n",
    " \u{200b} ",
    "x=y=z",
];

#[test]
fn white_space_is_that_of_std() {
    for c in '\0'..=char::MAX {
        assert_eq!(is_white_space(c), c.is_whitespace(), "{:?}", c);
    }
}

#[test]
fn trimming_is_that_of_std() {
    for s in SAMPLES {
        assert_eq!(trim(s), s.trim(), "{:?}", s);
    }
}

#[test]
fn lines_are_those_of_std() {
    for s in SAMPLES {
        let expected: Vec<String> = s.lines().map(|l| l.to_string()).collect();
        assert_eq!(lines(s), expected, "{:?}", s);
    }
}

#[test]
fn prefixes_suffixes_and_splits_are_those_of_std() {
    for s in SAMPLES {
        assert_eq!(chars_of(s), s.chars().collect::<Vec<char>>());
        assert_eq!(split_once(s, '='), s.split_once('='));
        for t in SAMPLES {
            assert_eq!(starts_with(s, t), s.starts_with(t));
            assert_eq!(ends_with(s, t), s.ends_with(t));
        }
    }
}

#[test]
fn terminated_lines_are_read_back() {
    let all = vec!["a".to_string(), "".to_string(), "b c".to_string()];
    assert_eq!(terminate(&all), "a\n\nb c\n");
    assert_eq!(lines(&terminate(&all)), all);
    assert_eq!(terminate(&vec![]), "");
}

#[test]
fn copies_are_equal() {
    assert_eq!(copy_option(&Some("a".to_string())), Some("a".to_string()));
    assert_eq!(copy_option(&None), None);
    assert_eq!(copy_texts(&vec!["a".to_string(), "b".to_string()]), vec!["a", "b"]);
}
