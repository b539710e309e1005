use srcbot::attr_map::AttrMap;
use srcbot::numbers::{decimal_i32, decimal_u64, decimal_usize, parse_i64, parse_u64};
use srcbot::order::{comes_before, sort_places};
use srcbot::search::{
    lines_of, split_str, str_before_first, str_contains, str_ends_with, str_replace,
    str_starts_with,
};
use srcbot::text::{copy_texts, join_all, list_contains, same_text};
use srcbot::trim::{
    attr_safe_name, blank, is_space_char, swap_char, take_bytes, take_chars, trim, trim_end,
    unquote, words_of,
};

const SAMPLES: [&str; 16] = [
    "",
    " ",
    "a",
    "  a b  ",
    "\u{3000}x\u{a0}",
    "line\nline2\r\nline3",
    "\n",
    "\r\n",
    "a\r",
    "a\n\nb\n",
    "--x --y  --",
    "äöü ß",
    "ababab",
    "'q' \"r\"",
    "\"\"quoted\"\"",
    "x86_64-linux",
];

#[test]
fn white_space_is_that_of_unicode() {
    for n in 0..=0x10ffffu32 {
        if let Some(c) = char::from_u32(n) {
            assert_eq!(is_space_char(c), c.is_whitespace(), "{:x}", n);
        }
    }
}

#[test]
fn trimming_agrees_with_std() {
    for s in SAMPLES {
        assert_eq!(trim(s), s.trim());
        assert_eq!(trim_end(s), s.trim_end());
        assert_eq!(unquote(s), s.trim_matches('"'));
        assert_eq!(blank(s), s.trim().is_empty());
        assert_eq!(trim(&trim(s)), trim(s));
    }
}

#[test]
fn taking_apart_agrees_with_std() {
    for s in SAMPLES {
        assert_eq!(lines_of(s), s.lines().collect::<Vec<_>>(), "{:?}", s);
        assert_eq!(words_of(s), s.split_whitespace().collect::<Vec<_>>());
        assert_eq!(split_str(s, " --"), s.split(" --").collect::<Vec<_>>());
        assert_eq!(str_before_first(s, "b"), s.split_once('b').map(|p| p.0.to_string()));
        assert_eq!(join_all(&split_str(s, "a"), "a"), s);
    }
}

#[test]
fn searching_agrees_with_std() {
    for s in SAMPLES {
        for p in ["", "a", "ab", "b ", "\n", "ß", "line"] {
            assert_eq!(str_contains(s, p), s.contains(p));
            assert_eq!(str_starts_with(s, p), s.starts_with(p));
            assert_eq!(str_ends_with(s, p), s.ends_with(p));
            assert_eq!(str_replace(s, p, "<>"), s.replace(p, "<>"), "{:?} {:?}", s, p);
        }
        assert_eq!(str_replace(s, "zz", "y"), s);
        assert_eq!(str_replace(s, "a", "a"), s);
    }
}

#[test]
fn prefixes_are_cut() {
    assert_eq!(take_bytes("abc123def456", 8), "abc123de");
    assert_eq!(take_bytes("abc", 8), "abc");
    assert_eq!(take_bytes("äöü", 4), "äö");
    assert_eq!(take_chars("äöüß", 3), "äöü");
    assert_eq!(take_chars("ab", 7), "ab");
}

#[test]
fn names_are_made_safe() {
    assert_eq!(attr_safe_name("python3Packages.a/b"), "python3Packages_a_b");
    assert_eq!(attr_safe_name(&attr_safe_name("a.b/c")), "a_b_c");
    assert_eq!(swap_char("a.b.c", '.', '-'), "a-b-c");
}

#[test]
fn numbers_agree_with_std() {
    for n in [0u64, 1, 9, 10, 99, 100, 12345, u64::MAX] {
        assert_eq!(decimal_u64(n), n.to_string());
        assert_eq!(parse_u64(&decimal_u64(n)), Some(n));
    }
    assert_eq!(decimal_usize(42), "42");
    for n in [0i32, -1, 7, i32::MIN, i32::MAX] {
        assert_eq!(decimal_i32(n), n.to_string());
    }
    for s in [
        "", "+", "-", "0", "007", "+5", "-5", "--5", "5 ", "1e3", "18446744073709551615",
        "18446744073709551616", "99999999999999999999", "9223372036854775807",
        "9223372036854775808", "-9223372036854775808", "-9223372036854775809", "٣",
    ] {
        assert_eq!(parse_u64(s), s.parse::<u64>().ok(), "{:?}", s);
        assert_eq!(parse_i64(s), s.parse::<i64>().ok(), "{:?}", s);
    }
}

#[test]
fn order_agrees_with_std() {
    for a in SAMPLES {
        for b in SAMPLES {
            assert_eq!(comes_before(a, b), a < b, "{:?} {:?}", a, b);
        }
    }
}

#[test]
fn sorting_is_stable() {
    let keys: Vec<String> =
        ["b", "a", "b", "a", "c"].iter().map(|s| s.to_string()).collect();
    assert_eq!(sort_places(&keys, &vec![0, 1, 2, 3, 4]), vec![1, 3, 0, 2, 4]);
    assert_eq!(sort_places(&keys, &vec![]), Vec::<usize>::new());
}

#[test]
fn lists_of_strings() {
    let list: Vec<String> = vec!["a".to_string(), "b".to_string()];
    assert!(list_contains(&list, "b"));
    assert!(!list_contains(&list, "c"));
    assert_eq!(copy_texts(&list), list);
    assert_eq!(join_all(&list, ", "), "a, b");
    assert!(same_text("ä", "ä") && !same_text("a", "A"));
}

#[test]
fn maps_keep_the_order_of_names() {
    let mut map: AttrMap<u32> = AttrMap::new();
    assert!(map.is_empty());
    map.insert("x".to_string(), 1);
    map.insert("y".to_string(), 2);
    map.insert("x".to_string(), 3);
    assert_eq!(map.len(), 2);
    assert_eq!(map.get("x"), Some(&3));
    assert_eq!(map.get("z"), None);
    assert!(map.contains_key("y"));
    assert_eq!(map.key_at(0), "x");
    assert_eq!(*map.value_at(1), 2);
}
