use vortex_core::object_path::key_or_encoded;
use vortex_core::object_path::object_path_from_literal;

#[test]
fn literal_keys_are_kept() {
    for key in ["a~b.vortex", "dir/a%7Eb[1].vortex", "x#{y}^|*?<>\"`\\", "a/b/c", "h\u{e9}/\u{4e16}", ""] {
        assert_eq!(object_path_from_literal(key), key);
        let again = object_path_from_literal(&object_path_from_literal(key));
        assert_eq!(again, key);
    }
}

#[test]
fn slashes_around_a_key_are_dropped() {
    assert_eq!(object_path_from_literal("/foo/bar/"), "foo/bar");
    assert_eq!(object_path_from_literal("/"), "");
    assert_eq!(object_path_from_literal("foo/"), "foo");
}

#[test]
fn impossible_segments_are_normalized() {
    assert_eq!(object_path_from_literal("foo/../bar"), "foo/%2E%2E/bar");
    assert_eq!(object_path_from_literal("foo//bar~"), "foo/bar%7E");
    assert_eq!(object_path_from_literal("./a"), "%2E/a");
    assert_eq!(object_path_from_literal("//"), "");
    assert_eq!(object_path_from_literal("a\u{7f}b"), "a%7Fb");
}

#[test]
fn parsing_decides() {
    assert_eq!(key_or_encoded("a~b", Some("a~b".to_string())), "a~b");
    assert_eq!(key_or_encoded("a~b", None), "a%7Eb");
}
