use diavolo_format::schema::{rule_variant, type_size};
use diavolo_format::strmap::SortedStrMap;
use diavolo_format::text::{parse_u64, text_eq, text_lt, text_starts_with};

#[test]
fn type_size_vocabulary() {
    assert_eq!(type_size("u16"), Some(2));
    assert_eq!(type_size("u32"), Some(4));
    assert_eq!(type_size("u64"), Some(8));
    assert_eq!(type_size("i64"), Some(8));
    assert_eq!(type_size("bytes16"), Some(16));
    assert_eq!(type_size("bytes0"), Some(0));
    assert_eq!(type_size("bytes+7"), Some(7));
    assert_eq!(type_size("bytes"), None);
    assert_eq!(type_size("bytes-1"), None);
    assert_eq!(type_size("bytes1x"), None);
    assert_eq!(type_size("bytes18446744073709551615"), Some(u64::MAX));
    assert_eq!(type_size("bytes18446744073709551616"), None);
    assert_eq!(type_size("u8"), None);
    assert_eq!(type_size("U16"), None);
    assert_eq!(type_size(""), None);
}

#[test]
fn parse_matches_std() {
    for s in ["", "+", "-", "0", "+0", "-0", "007", "12a", "18446744073709551615", "18446744073709551616", "+18446744073709551615", "٣", " 1"] {
        assert_eq!(parse_u64(s), s.parse::<u64>().ok(), "{s:?}");
    }
}

#[test]
fn rule_variant_examples() {
    assert_eq!(rule_variant("header.version_unsupported"), "HeaderVersionUnsupported");
    assert_eq!(rule_variant("a..b"), "AB");
    assert_eq!(rule_variant("_x"), "X");
    assert_eq!(rule_variant("x_1y"), "X1y");
    assert_eq!(rule_variant(""), "");
    assert_eq!(rule_variant("éa.b"), "éaB");
    assert_eq!(rule_variant("policy.restore_target"), "PolicyRestoreTarget");
}

#[test]
fn rule_variant_has_no_separators() {
    for id in ["a.b_c", "..__", "x.y.z", "abc"] {
        let v = rule_variant(id);
        assert!(!v.contains('.') && !v.contains('_'));
    }
}

#[test]
fn text_order_and_prefix() {
    assert!(text_eq("abc", "abc"));
    assert!(!text_eq("abc", "abd"));
    assert!(text_lt("ab", "abc"));
    assert!(text_lt("abc", "abd"));
    assert!(!text_lt("abc", "abc"));
    assert!(text_lt("Z", "a"));
    assert!(text_lt("z", "é"));
    assert!(text_starts_with("reserved0", "reserved"));
    assert!(!text_starts_with("reserve", "reserved"));
}

#[test]
fn sorted_map_keeps_btree_order() {
    let mut m: SortedStrMap<u32> = SortedStrMap::new();
    m.insert("dir".to_string(), 1);
    m.insert("file".to_string(), 2);
    m.insert("chardev".to_string(), 3);
    m.insert("dir".to_string(), 4);
    assert_eq!(m.len(), 3);
    let keys: Vec<&str> = (0..m.len()).map(|i| m.key_at(i).as_str()).collect();
    assert_eq!(keys, vec!["chardev", "dir", "file"]);
    assert_eq!(*m.value_at(1), 4);
    assert!(m.contains_key("file"));
    assert!(!m.contains_key("symlink"));
}

#[test]
fn sorted_map_difference() {
    let mut a: SortedStrMap<()> = SortedStrMap::new();
    let mut b: SortedStrMap<()> = SortedStrMap::new();
    for k in ["z", "b", "a", "c"] {
        a.insert(k.to_string(), ());
    }
    for k in ["c", "a"] {
        b.insert(k.to_string(), ());
    }
    assert_eq!(a.keys_not_in(&b), vec!["b".to_string(), "z".to_string()]);
    assert!(b.keys_not_in(&a).is_empty());
}
