use vortex_core::bytes::push_le;
use vortex_core::bytes::read_be;
use vortex_core::bytes::read_le;
use vortex_core::order::bytes_equal;
use vortex_core::order::bytes_less;
use vortex_core::order::str_equal;
use vortex_core::order::str_less;
use vortex_core::sorted_map::SortedMap;

#[test]
fn integers_as_bytes() {
    let mut out = vec![9u8];
    push_le(&mut out, 0x0102_0304, 4);
    push_le(&mut out, 0x0102_0304, 2);
    push_le(&mut out, 5, 10);
    assert_eq!(out, vec![9, 4, 3, 2, 1, 4, 3, 5, 0, 0, 0, 0, 0, 0, 0, 0, 0]);
    assert_eq!(read_le(&out, 1, 4), 0x0102_0304);
    assert_eq!(read_be(&out, 1, 4), 0x0403_0201);
    assert_eq!(read_le(&[0xff; 8], 0, 8), u64::MAX);
    assert_eq!(read_be(&[0xff; 8], 0, 8), u64::MAX);
    assert_eq!(read_le(&out, 3, 0), 0);
}

#[test]
fn byte_strings_are_ordered() {
    let sorted: [&[u8]; 6] = [b"", b"\0", b"a", b"a\0", b"ab", b"\xff"];
    for (i, a) in sorted.iter().enumerate() {
        for (j, b) in sorted.iter().enumerate() {
            assert_eq!(bytes_less(a, b), i < j);
            assert_eq!(bytes_equal(a, b), i == j);
        }
    }
    assert!(str_less("a", "\u{e9}") && !str_less("b", "a"));
    assert!(str_equal("x", "x") && !str_equal("x", "xy"));
}

#[test]
fn maps_keep_their_keys_in_order() {
    let mut map: SortedMap<u32> = SortedMap::new();
    for (i, key) in ["m", "a", "z", "\u{e9}", "", "aa"].iter().enumerate() {
        map.insert(key.to_string(), i as u32);
    }
    map.insert("a".to_string(), 100);
    assert_eq!(map.len(), 6);
    let keys: Vec<&str> = (0..map.len()).map(|i| map.nth(i).unwrap().0.as_str()).collect();
    assert_eq!(keys, vec!["", "a", "aa", "m", "z", "\u{e9}"]);
    assert!(map.nth(6).is_none());
    assert_eq!(map.get("a"), Some(&100));
    assert_eq!(map.get("b"), None);
    assert_eq!(map.remove("m"), Some(0));
    assert_eq!(map.remove("m"), None);
    let mut left: Vec<(String, u32)> = Vec::new();
    while let Some(entry) = map.pop() {
        left.push(entry);
    }
    left.sort();
    assert_eq!(left.len(), 5);
    assert_eq!(left[1], ("a".to_string(), 100));
    assert_eq!(map.len(), 0);
}
