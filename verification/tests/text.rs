use dps_meter::keys::{sorted_elements, sorted_keys};
use dps_meter::text::{
    chars_of, decimal_of_i64, decimal_of_u64, parse_i32, parse_usize, same_text, trim,
};
use std::collections::{HashMap, HashSet};

#[test]
fn white_space_is_trimmed() {
    assert_eq!(trim(" \t\u{a0}a b\u{3000}\r\n"), "a b");
    assert_eq!(trim("\u{200b}"), "\u{200b}");
    assert_eq!(trim("  "), "");
    for c in (0..0x11_0000).filter_map(char::from_u32) {
        let s = c.to_string();
        assert_eq!(trim(&s).is_empty(), s.trim().is_empty());
    }
    assert_eq!(chars_of("aé"), vec!['a', 'é']);
    assert!(same_text("é", "é") && !same_text("a", "A"));
}

#[test]
fn numbers_are_read_back_from_their_text() {
    for n in [0, 9, 10, -1, -10, i64::MAX, i64::MIN, 1_000_000_007] {
        assert_eq!(decimal_of_i64(n), n.to_string());
    }
    assert_eq!(decimal_of_u64(u64::MAX), u64::MAX.to_string());
    for s in ["0", "-0", "+7", "-2147483648", "2147483647", "2147483648", "-2147483649", "", "+", "-", "1x", " 1", "1_0"] {
        assert_eq!(parse_i32(s), s.parse::<i32>().ok(), "{}", s);
    }
    for s in ["0", "-0", "+7", "18446744073709551615", "18446744073709551616", "", "+", "1x", "99999999999999999999"] {
        assert_eq!(parse_usize(s), s.parse::<usize>().ok(), "{}", s);
    }
}

#[test]
fn keys_are_walked_in_ascending_order() {
    let map: HashMap<i32, ()> = [(5, ()), (-3, ()), (9, ()), (0, ())].into_iter().collect();
    assert_eq!(sorted_keys(&map), vec![-3, 0, 5, 9]);
    assert_eq!(sorted_elements(&HashSet::from([2, 1, 3])), vec![1, 2, 3]);
}
