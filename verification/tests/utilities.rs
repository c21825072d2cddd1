use homeserver::util::table::{Key, Table};
use homeserver::util::text::{
    chars_of, class_has, hex_lower_short_chars, hex_upper_chars, parse_decimal, push_chars,
    same_chars, same_text, CharClass,
};

#[test]
fn a_table_holds_one_value_for_each_key() {
    let mut table: Table<String, u32> = Table::new();
    assert_eq!(table.len(), 0);
    assert_eq!(table.insert("a".to_owned(), 1), None);
    assert_eq!(table.insert("b".to_owned(), 2), None);
    assert_eq!(table.insert("a".to_owned(), 3), Some(1));
    assert_eq!(table.len(), 2);
    assert_eq!(table.get(&"a".to_owned()), Some(&3));
    assert_eq!(table.get_text("b"), Some(&2));
    assert_eq!(table.get_text("c"), None);
    assert!(table.contains_key(&"b".to_owned()));
    assert!(!table.contains_key(&"c".to_owned()));
    assert_eq!(table.position(&"b".to_owned()), Some(1));
    assert_eq!(table.position_of_text("a"), Some(0));
    assert_eq!(table.position_of_text("c"), None);
    assert_eq!(table.key_at(1), "b");
    assert_eq!(*table.value_at(0), 3);
    assert_eq!(table.swap_value(1, 9), 2);
    assert_eq!(table.get_text("b"), Some(&9));
    let copy = table.clone();
    assert_eq!(table.remove(&"a".to_owned()), Some(3));
    assert_eq!(table.remove(&"a".to_owned()), None);
    assert_eq!(table.len(), 1);
    assert_eq!(table.key_at(0), "b");
    assert_eq!(copy.len(), 2);
    assert_eq!(copy.get_text("a"), Some(&3));
}

#[test]
fn keys_are_compared_by_what_they_hold() {
    assert!("a".to_owned().same(&"a".to_owned()));
    assert!(!"a".to_owned().same(&"b".to_owned()));
    assert!(5u128.same(&5u128));
    assert!(!5u128.same(&6u128));
    assert_eq!("a".to_owned().duplicate(), "a");
    assert_eq!(7u128.duplicate(), 7);
}

#[test]
fn numbers_are_read_in_decimal() {
    assert_eq!(parse_decimal("0"), Some(0));
    assert_eq!(parse_decimal("007"), Some(7));
    assert_eq!(parse_decimal("+42"), Some(42));
    assert_eq!(parse_decimal(&usize::MAX.to_string()), Some(usize::MAX));
    assert_eq!(parse_decimal(&format!("{}0", usize::MAX)), None);
    assert_eq!(parse_decimal(&format!("{}", usize::MAX as u128 + 1)), None);
    for odd in ["", "+", "-1", "1 ", " 1", "1_000", "0x10", "++1", "1+", "\u{661}"] {
        assert_eq!(parse_decimal(odd), None, "{:?}", odd);
        assert_eq!(odd.parse::<usize>().ok(), None, "{:?}", odd);
    }
}

#[test]
fn numbers_are_written_in_hexadecimal() {
    let text = |v: Vec<char>| v.into_iter().collect::<String>();
    assert_eq!(text(hex_upper_chars(0, 4)), "0000");
    assert_eq!(text(hex_upper_chars(0xbeef, 4)), "BEEF");
    assert_eq!(text(hex_upper_chars(0x1_beef, 4)), "BEEF");
    assert_eq!(text(hex_upper_chars(u64::MAX, 16)), "FFFFFFFFFFFFFFFF");
    assert_eq!(text(hex_upper_chars(5, 0)), "");
    assert_eq!(text(hex_lower_short_chars(0)), "0");
    assert_eq!(text(hex_lower_short_chars(0xabc)), "abc");
    assert_eq!(text(hex_lower_short_chars(16)), "10");
    assert_eq!(text(hex_lower_short_chars(u64::MAX)), format!("{:x}", u64::MAX));
}

#[test]
fn text_is_compared_character_by_character() {
    assert!(same_text("", ""));
    assert!(same_text("caf\u{e9}", "caf\u{e9}"));
    assert!(!same_text("cafe", "caf\u{e9}"));
    assert!(!same_text("a", "ab"));
    assert_eq!(chars_of("a\u{e9}b"), vec!['a', '\u{e9}', 'b']);
    let mut v = vec!['x'];
    push_chars(&mut v, "yz");
    assert_eq!(v, vec!['x', 'y', 'z']);
    assert!(same_chars(&v, &chars_of("xyz")));
    assert!(!same_chars(&v, &chars_of("xy")));
    assert!(!same_chars(&v, &chars_of("xya")));
}

#[test]
fn character_classes() {
    for c in ['a', 'z', '0', '9', '-', '_', '.', '=', '/'] {
        assert!(class_has(CharClass::UserLocalpart, c), "{:?}", c);
    }
    for c in ['A', ':', '@', ' ', '\u{e9}', '+'] {
        assert!(!class_has(CharClass::UserLocalpart, c), "{:?}", c);
    }
    for c in ['a', 'Z', '5', '-', '.'] {
        assert!(class_has(CharClass::DnsName, c), "{:?}", c);
    }
    for c in ['_', ':', '/', ' '] {
        assert!(!class_has(CharClass::DnsName, c), "{:?}", c);
    }
    for c in ['0', 'a', 'f', 'A', 'F', ':', '.'] {
        assert!(class_has(CharClass::Ipv6, c), "{:?}", c);
    }
    for c in ['g', 'G', '-', '['] {
        assert!(!class_has(CharClass::Ipv6, c), "{:?}", c);
    }
    assert!(class_has(CharClass::Digit, '7') && !class_has(CharClass::Digit, 'a'));
}
