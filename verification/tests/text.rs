//! Texts, and maps from texts.

use docker_exporter::string_map::StringMap;
use docker_exporter::text::{
    contains, eq_ignore_ascii_case, is_whitespace, same_text, trim, trim_start_matches,
};

const SAMPLES: [&str; 14] = [
    "",
    " ",
    "a",
    "/",
    "//a/",
    " a b ",
    "\t\n\u{a0}x\u{3000}",
    "true",
    "TRUE",
    "\u{e9}\u{c9}",
    "K\u{212a}k",
    "<none>",
    "repo:<none>",
    "<<none>>",
];

#[test]
fn white_space_is_what_unicode_says() {
    for code in 0u32..0x110000 {
        if let Some(c) = char::from_u32(code) {
            assert_eq!(is_whitespace(c), c.is_whitespace());
        }
    }
}

#[test]
fn trimming_takes_off_both_ends() {
    for s in SAMPLES {
        assert_eq!(trim(s), s.trim());
    }
    assert_eq!(trim("  a b\u{2003}"), "a b");
}

#[test]
fn trimming_takes_off_a_character_at_the_front() {
    for s in SAMPLES {
        for c in ['/', ' ', '<', '\u{e9}'] {
            assert_eq!(trim_start_matches(s, c), s.trim_start_matches(c));
        }
    }
    assert_eq!(trim_start_matches("//a/", '/'), "a/");
}

#[test]
fn a_part_is_found_anywhere() {
    for s in SAMPLES {
        for part in SAMPLES {
            assert_eq!(contains(s, part), s.contains(part));
        }
    }
    assert!(contains("aab", "ab"));
    assert!(!contains("ab", "aab"));
}

#[test]
fn case_counts_outside_ascii_only() {
    for a in SAMPLES {
        for b in SAMPLES {
            assert_eq!(eq_ignore_ascii_case(a, b), a.eq_ignore_ascii_case(b));
            assert_eq!(same_text(a, b), a == b);
        }
    }
    for code in 0u32..0x250 {
        if let Some(c) = char::from_u32(code) {
            let a = c.to_string();
            let b = c.to_ascii_uppercase().to_string();
            assert!(eq_ignore_ascii_case(&a, &b));
            assert_eq!(
                eq_ignore_ascii_case(&a, "k"),
                a.eq_ignore_ascii_case("k")
            );
        }
    }
}

#[test]
fn a_map_holds_each_key_once() {
    let mut map: StringMap<u32> = StringMap::new();
    assert_eq!(map.len(), 0);
    map.insert("a".to_owned(), 1);
    map.insert("b".to_owned(), 2);
    map.insert("a".to_owned(), 3);
    assert_eq!(map.len(), 2);
    assert_eq!(map.get("a"), Some(&3));
    assert_eq!(map.get("b"), Some(&2));
    assert_eq!(map.get("c"), None);
    assert!(map.contains_key("b"));
    assert!(!map.contains_key(""));
    assert_eq!(map.key(0), "a");
    assert_eq!(*map.value(1), 2);

    let copy = map.clone();
    map.insert("c".to_owned(), 4);
    assert_eq!(copy.len(), 2);
    assert_eq!(
        copy.into_entries(),
        vec![("a".to_owned(), 3), ("b".to_owned(), 2)]
    );
    assert_eq!(map.len(), 3);
}
