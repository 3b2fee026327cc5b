use frenchetv::text::{
    chars_of, char_index, find_text, is_white_space, parse_u64, push_number, replace, text_of,
    to_lower, to_lower_char, trim, utf8_size,
};
use frenchetv::text_map::{TextMap, TextSet};

#[test]
fn white_space_is_that_of_the_language() {
    for c in '\0'..=char::MAX {
        assert_eq!(is_white_space(c), c.is_whitespace(), "{c:?}");
        assert_eq!(utf8_size(c), c.len_utf8() as u64, "{c:?}");
        assert_eq!(to_lower_char(c), c.to_ascii_lowercase(), "{c:?}");
    }
}

#[test]
fn no_other_character_lowers_to_a_letter_of_the_names_compared() {
    // The names that are compared in lower case hold none of these two letters.
    for c in '\u{80}'..=char::MAX {
        for low in c.to_lowercase() {
            assert!(!low.is_ascii() || low == 'k' || low == 'i', "{c:?}");
        }
    }
    for name in ["referer", "referrer", "user-agent", "edef8ba9", "value=\"cbcs\""] {
        assert!(!name.contains('k') && !name.contains('i'));
    }
}

#[test]
fn texts_are_cut_and_built() {
    let all = chars_of(" \u{a0}é x\t");
    assert_eq!(text_of(trim(&all)), "é x");
    assert_eq!(find_text(&all, "x"), Some(4));
    assert_eq!(text_of(&replace(&chars_of("aXbX"), "X", &chars_of("yy"))), "ayybyy");
    assert_eq!(text_of(&to_lower(&chars_of("ÀBc"))), "Àbc");
    assert_eq!(char_index(&chars_of("é<"), 2), Some(1));
    assert_eq!(char_index(&chars_of("é<"), 1), None);
    assert_eq!(char_index(&chars_of("é<"), 3), Some(2));
}

#[test]
fn numbers_are_read_as_the_language_reads_them() {
    for s in ["0", "18446744073709551615", "18446744073709551616", "+7", "-7", "", "+", "1a", "007"] {
        assert_eq!(parse_u64(&chars_of(s)), s.parse::<u64>().ok(), "{s}");
    }
    for n in [0, 9, 10, 12345, u64::MAX] {
        let mut out = Vec::new();
        push_number(&mut out, n);
        assert_eq!(text_of(&out), n.to_string());
    }
}

#[test]
fn maps_and_sets_hold_what_was_put_in() {
    let mut map: TextMap<u32> = TextMap::new();
    assert!(map.is_empty());
    map.insert("a", 1);
    map.insert("b", 2);
    map.insert("a", 3);
    assert_eq!((map.get("a"), map.get("b"), map.get("c")), (Some(&3), Some(&2), None));
    map.remove("a");
    assert_eq!(map.get("a"), None);
    let mut set = TextSet::new();
    set.insert("x");
    set.insert("x");
    assert!(set.contains("x") && !set.contains("y"));
    assert_eq!(set.names(), ["x"]);
}
