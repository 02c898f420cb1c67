use ralph_hats::format::{
    concat3, concat5, dashes, join, number, pad_right, signed_number, truncate_with_ellipsis,
};
use ralph_hats::order::{code_points, less, sort_positions};
use ralph_hats::split::{lines, split_dots, split_whitespace};
use ralph_hats::text::{
    contains_char, contains_str, ends_with, eq_ignore_ascii_case, is_whitespace, starts_with,
    str_eq, strip_prefix, to_ascii_lower, trim,
};

const SAMPLES: [&str; 12] = [
    "",
    " ",
    "a",
    " a b\t\u{3000}c\u{a0}",
    "a..b.",
    ".",
    "one\ntwo\r\nthree",
    "\n",
    "\r\n\r",
    "a\rb\n",
    "ÄÖ ü\u{85}",
    "emit EMIT Emit",
];

#[test]
fn white_space_is_that_of_the_standard_library() {
    for n in 0..=0x10ffffu32 {
        if let Some(c) = char::from_u32(n) {
            assert_eq!(is_whitespace(c), c.is_whitespace(), "{:x}", n);
            assert_eq!(to_ascii_lower(c), c.to_ascii_lowercase(), "{:x}", n);
        }
    }
}

#[test]
fn text_is_cut_like_in_the_standard_library() {
    for s in SAMPLES {
        assert_eq!(trim(s), s.trim(), "{:?}", s);
        assert_eq!(lines(s), s.lines().collect::<Vec<_>>(), "{:?}", s);
        assert_eq!(split_dots(s), s.split('.').collect::<Vec<_>>(), "{:?}", s);
        assert_eq!(
            split_whitespace(s),
            s.split_whitespace().collect::<Vec<_>>(),
            "{:?}",
            s
        );
    }
}

#[test]
fn text_is_searched_like_in_the_standard_library() {
    for s in SAMPLES {
        for t in SAMPLES {
            assert_eq!(str_eq(s, t), s == t);
            assert_eq!(contains_str(s, t), s.contains(t), "{:?} {:?}", s, t);
            assert_eq!(starts_with(s, t), s.starts_with(t));
            assert_eq!(ends_with(s, t), s.ends_with(t));
            assert_eq!(strip_prefix(s, t), s.strip_prefix(t));
            assert_eq!(eq_ignore_ascii_case(s, t), s.eq_ignore_ascii_case(t));
        }
        assert_eq!(contains_char(s, 'b'), s.contains('b'));
    }
    assert!(eq_ignore_ascii_case("eMiT", "EmIt"));
    assert!(!eq_ignore_ascii_case("ä", "Ä"));
}

#[test]
fn trimming_twice_is_trimming_once() {
    for s in SAMPLES {
        assert_eq!(trim(trim(s)), trim(s));
    }
}

#[test]
fn numbers_are_decimal() {
    for n in [0, 1, 9, 10, 99, 100, 12345, u128::MAX] {
        assert_eq!(number(n), n.to_string());
    }
    for n in [0, -1, 10, -10, i32::MAX, i32::MIN] {
        assert_eq!(signed_number(n), n.to_string());
    }
}

#[test]
fn text_is_padded_and_cut_by_characters() {
    assert_eq!(pad_right("äö", 4), "äö  ");
    assert_eq!(pad_right("abcde", 4), "abcde");
    assert_eq!(pad_right("", 0), "");
    assert_eq!(dashes(3), "---");
    assert_eq!(truncate_with_ellipsis("äöü", 3), "äöü");
    assert_eq!(truncate_with_ellipsis("äöüx", 3), "äöü...");
    assert_eq!(truncate_with_ellipsis("abc", 0), "...");
    assert_eq!(truncate_with_ellipsis("", 0), "");
}

#[test]
fn text_is_joined() {
    assert_eq!(join(&vec!["a", "", "b"], "\n"), "a\n\nb");
    assert_eq!(join(&vec![], ", "), "");
    assert_eq!(join(&vec!["x"], ", "), "x");
    assert_eq!(concat3("a", "b", "c"), "abc");
    assert_eq!(concat5("a", "b", "c", "d", "e"), "abcde");
}

#[test]
fn order_is_that_of_strings() {
    let names = ["b", "a", "", "ab", "a", "B", "é", "z", "\u{10000}", "\u{ffff}"];
    for x in names {
        for y in names {
            assert_eq!(less(&code_points(x), &code_points(y)), x < y);
        }
    }
    let keys: Vec<Vec<u32>> = names.iter().map(|n| code_points(n)).collect();
    let order = sort_positions(&keys);
    let mut expected: Vec<usize> = (0..names.len()).collect();
    expected.sort_by(|a, b| names[*a].cmp(names[*b]));
    assert_eq!(order, expected);
}
