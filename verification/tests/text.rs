use p2p_tunnel::calendar::{civil_from_days, moment_of};
use p2p_tunnel::number::{decimal_i64, decimal_u64, parse_i32, zero_filled_i64};
use p2p_tunnel::text::{
    cut, join, pad, relate, split_once, split_words, trim, trim_end, Relation,
};
use p2p_tunnel::text_map::TextMap;
use p2p_tunnel::text_set::TextSet;

#[test]
fn numbers_are_written_and_read() {
    assert_eq!(decimal_u64(0), "0");
    assert_eq!(decimal_u64(u64::MAX), "18446744073709551615");
    assert_eq!(decimal_i64(i64::MIN), "-9223372036854775808");
    assert_eq!(zero_filled_i64(7, 3), "007");
    assert_eq!(zero_filled_i64(-7, 4), "-007");
    for n in [0, 1, -1, 42, i32::MAX, i32::MIN] {
        assert_eq!(parse_i32(&decimal_i64(n as i64)), Some(n));
    }
    assert_eq!(parse_i32("+5"), Some(5));
    for bad in ["", "-", "+", "1 ", "2147483648", "-2147483649", "１"] {
        assert_eq!(parse_i32(bad), None);
        assert_eq!(bad.parse::<i32>().ok(), None);
    }
}

#[test]
fn words_and_trimming_agree_with_unicode() {
    for s in [
        "",
        " a  b ",
        "a",
        "\u{3000}x\u{a0}y\u{2028}",
        "\t\n\u{85}z",
        "\u{200b}a\u{180e}",
    ] {
        let words: Vec<String> = s.split_whitespace().map(|w| w.to_string()).collect();
        assert_eq!(split_words(s), words);
        assert_eq!(trim(s), s.trim());
        assert_eq!(trim_end(s), s.trim_end());
    }
}

#[test]
fn texts_are_related_as_std_does() {
    let samples = ["", "a", "ab", "b", "ä", "z", "日本", "日"];
    for a in samples {
        for b in samples {
            let expected = if a < b {
                Relation::Before
            } else if a == b {
                Relation::Same
            } else {
                Relation::After
            };
            assert_eq!(relate(a, b), expected);
        }
    }
}

#[test]
fn pieces_of_texts() {
    assert_eq!(split_once("a:b:c", ':'), Some(("a", "b:c")));
    assert_eq!(split_once("abc", ':'), None);
    assert_eq!(
        join(&vec!["a".to_string(), "b".to_string()], ", "),
        "a, b"
    );
    assert_eq!(join(&Vec::new(), ", "), "");
    assert_eq!(pad("ab", 4), "ab  ");
    assert_eq!(pad("abcde", 4), "abcde");
    assert_eq!(cut("abcdef", 4), "abcd");
    assert_eq!(cut("abc", 4), "abc");
}

#[test]
fn maps_and_sets_are_sorted() {
    let mut map: TextMap<u64> = TextMap::new();
    map.insert("b".to_string(), 1);
    map.insert("a".to_string(), 2);
    map.insert("b".to_string(), 3);
    assert_eq!(map.len(), 2);
    assert_eq!(map.key_at(0), "a");
    assert_eq!(map.get("b"), Some(&3));
    assert_eq!(map.remove("a"), Some(2));
    assert_eq!(map.remove("a"), None);
    let mut set = TextSet::from_texts(&vec!["y".to_string(), "x".to_string(), "y".to_string()]);
    assert_eq!(set.to_vec(), vec!["x", "y"]);
    assert!(!set.insert("x".to_string()));
    assert!(set.remove("x"));
    assert!(!set.contains("x"));
}

#[test]
fn days_have_dates() {
    assert_eq!(civil_from_days(0), (1970, 1, 1));
    assert_eq!(civil_from_days(-1), (1969, 12, 31));
    assert_eq!(civil_from_days(11016), (2000, 2, 29));
    assert_eq!(civil_from_days(-719468), (0, 3, 1));
    let m = moment_of(-1);
    assert_eq!(m.format(), "1969-12-31T23:59:59.999Z");
}
