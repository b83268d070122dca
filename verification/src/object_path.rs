//! Keys of objects in an object store.

use object_store::path::Path;
use vstd::prelude::*;

verus! {

/// The position of the first slash, or the length if there is none.
pub open spec fn first_slash(s: Seq<char>) -> nat
    decreases s.len(),
{
    if s.len() == 0 || s[0] == '/' {
        0
    } else {
        1 + first_slash(s.skip(1))
    }
}

/// Whether the character is an ASCII control character.
pub open spec fn is_control(c: char) -> bool {
    c as u32 <= 0x1f || c as u32 == 0x7f
}

/// Whether a segment names something: it is not empty, not relative, and without controls.
pub open spec fn is_segment(s: Seq<char>) -> bool {
    &&& s.len() > 0
    &&& s != seq!['.']
    &&& s != seq!['.', '.']
    &&& forall|i: int| 0 <= i < s.len() ==> !is_control(#[trigger] s[i])
}

/// Whether the parts of a string between its slashes all name something.
pub open spec fn has_valid_segments(s: Seq<char>) -> bool
    decreases s.len(),
{
    let n = first_slash(s);
    &&& is_segment(s.take(n as int))
    &&& n < s.len() ==> has_valid_segments(s.skip(n as int + 1))
}

/// A string without a slash in front.
pub open spec fn without_leading(s: Seq<char>) -> Seq<char> {
    if s.len() > 0 && s[0] == '/' {
        s.skip(1)
    } else {
        s
    }
}

/// A string without a slash at its end.
pub open spec fn without_trailing(s: Seq<char>) -> Seq<char> {
    if s.len() > 0 && s.last() == '/' {
        s.drop_last()
    } else {
        s
    }
}

/// The key that a literal path stands for: the path without a slash around it, if it is empty or
/// all its segments name something.
pub open spec fn literal_key(path: Seq<char>) -> Option<Seq<char>> {
    let stripped = without_leading(path);
    if stripped.len() == 0 {
        Some(stripped)
    } else {
        let key = without_trailing(stripped);
        if has_valid_segments(key) {
            Some(key)
        } else {
            None
        }
    }
}

/// The key that `Path::from` makes of a string, with problematic characters percent-encoded.
pub uninterp spec fn encoded_key(path: Seq<char>) -> Seq<char>;

/// The text of a key that may be missing.
pub open spec fn key_text(key: Option<String>) -> Option<Seq<char>> {
    match key {
        Some(key) => Some(key@),
        None => None,
    }
}

/// `object_store::path::Path::parse`: the key of a literal path, kept as it is but for one slash
/// in front and one at the end; nothing if a segment is empty, relative or holds an ASCII control
/// character.
#[verifier::external_body]
fn parse_path(path: &str) -> (r: Option<String>)
    ensures
        key_text(r) == literal_key(path@),
{
    Path::parse(path).ok().map(String::from)
}

/// `object_store::path::Path::from`: a key for any string, which percent-encodes characters that
/// some stores do not take.
#[verifier::external_body]
fn encode_path(path: &str) -> (r: String)
    ensures
        r@ == encoded_key(path@),
{
    String::from(Path::from(path))
}

/// The key of a literal path: kept as it is where it can be, so that keys of a listing read back
/// unchanged; percent-encoded where it has empty, relative or otherwise impossible segments.
pub fn object_path_from_literal(path: &str) -> (r: String)
    ensures
        r@ == (match literal_key(path@) {
            Some(key) => key,
            None => encoded_key(path@),
        }),
{
    let parsed = parse_path(path);
    key_or_encoded(path, parsed)
}

/// The key of a literal path, given what parsing it came to.
pub fn key_or_encoded(path: &str, parsed: Option<String>) -> (r: String)
    ensures
        r@ == (match parsed {
            Some(key) => key@,
            None => encoded_key(path@),
        }),
{
    match parsed {
        Some(key) => key,
        None => encode_path(path),
    }
}

proof fn lemma_segments_edges(s: Seq<char>)
    requires
        has_valid_segments(s),
    ensures
        s.len() > 0,
        s[0] != '/',
        s.last() != '/',
    decreases s.len(),
{
    let n = first_slash(s);
    lemma_first_slash(s);
    assert(s.take(n as int).len() > 0);
    if n < s.len() {
        let rest = s.skip(n as int + 1);
        lemma_segments_edges(rest);
        assert(rest.last() == s.last());
    }
}

proof fn lemma_first_slash(s: Seq<char>)
    ensures
        first_slash(s) <= s.len(),
        first_slash(s) < s.len() ==> s[first_slash(s) as int] == '/',
        forall|i: int| 0 <= i < first_slash(s) ==> #[trigger] s[i] != '/',
    decreases s.len(),
{
    if s.len() > 0 && s[0] != '/' {
        lemma_first_slash(s.skip(1));
        assert forall|i: int| 0 <= i < first_slash(s) implies #[trigger] s[i] != '/' by {
            if i > 0 {
                assert(s[i] == s.skip(1)[i - 1]);
            }
        }
    }
}

/// A key that a literal path stands for is a literal path of that same key: it reads back
/// unchanged, and has no slash around it.
pub proof fn law_literal_keys_round_trip(path: Seq<char>)
    ensures
        literal_key(path) matches Some(key) ==> literal_key(key) == Some(key),
{
    if let Some(key) = literal_key(path) {
        if key.len() > 0 {
            lemma_segments_edges(key);
        }
    }
}

/// A path whose segments all name something is its own key.
pub proof fn law_literal_key_is_unchanged(path: Seq<char>)
    requires
        has_valid_segments(path),
    ensures
        literal_key(path) == Some(path),
{
    lemma_segments_edges(path);
}

/// Whether a path has valid segments shows in every part of it that lies between two slashes, or
/// between a slash and an end, and has none inside: such a part is not empty, neither `.` nor
/// `..`, and holds no control character.
pub proof fn law_segments_lie_between_slashes(s: Seq<char>)
    ensures
        has_valid_segments(s) <==> forall|a: int, b: int|
            #![trigger s.subrange(a, b)]
            0 <= a <= b <= s.len() && (a == 0 || s[a - 1] == '/') && (b == s.len() || s[b] == '/') && (
            forall|i: int| a <= i < b ==> s[i] != '/') ==> {
                let part = s.subrange(a, b);
                &&& part.len() > 0
                &&& part != seq!['.']
                &&& part != seq!['.', '.']
                &&& forall|i: int|
                    0 <= i < part.len() ==> (#[trigger] part[i]) as u32 >= 0x20 && part[i] as u32 != 0x7f
            },
    decreases s.len(),
{
    let n = first_slash(s) as int;
    lemma_first_slash(s);
    let first = s.subrange(0, n);
    assert(first =~= s.take(n));
    if n < s.len() {
        let rest = s.skip(n + 1);
        law_segments_lie_between_slashes(rest);
        if has_valid_segments(s) {
            assert forall|a: int, b: int|
                #![trigger s.subrange(a, b)]
                0 <= a <= b <= s.len() && (a == 0 || s[a - 1] == '/') && (b == s.len() || s[b] == '/')
                    && (forall|i: int| a <= i < b ==> s[i] != '/') implies is_segment(
                s.subrange(a, b),
            ) by {
                if a == 0 {
                    assert(b == n) by {
                        if b < n {
                            assert(s[b] != '/');
                        }
                        if b > n {
                            assert(s[n] != '/');
                        }
                    }
                } else {
                    assert(a > n) by {
                        if a <= n {
                            assert(s[a - 1] != '/');
                        }
                    }
                    assert(rest.subrange(a - n - 1, b - n - 1) =~= s.subrange(a, b));
                    assert forall|i: int| a - n - 1 <= i < b - n - 1 implies rest[i] != '/' by {
                        assert(rest[i] == s[i + n + 1]);
                    }
                }
            }
        }
        if forall|a: int, b: int|
            #![trigger s.subrange(a, b)]
            0 <= a <= b <= s.len() && (a == 0 || s[a - 1] == '/') && (b == s.len() || s[b] == '/') && (
            forall|i: int| a <= i < b ==> s[i] != '/') ==> is_segment(s.subrange(a, b)) {
            assert(is_segment(first));
            assert forall|a: int, b: int|
                #![trigger rest.subrange(a, b)]
                0 <= a <= b <= rest.len() && (a == 0 || rest[a - 1] == '/') && (b == rest.len()
                    || rest[b] == '/') && (forall|i: int| a <= i < b ==> rest[i] != '/') implies is_segment(
                rest.subrange(a, b),
            ) by {
                assert(rest.subrange(a, b) =~= s.subrange(a + n + 1, b + n + 1));
                assert forall|i: int| a + n + 1 <= i < b + n + 1 implies s[i] != '/' by {
                    assert(rest[i - n - 1] == s[i]);
                }
                if a > 0 {
                    assert(s[a + n] == rest[a - 1]);
                }
                if b < rest.len() {
                    assert(s[b + n + 1] == rest[b]);
                }
            }
        }
    } else {
        assert forall|a: int, b: int|
            #![trigger s.subrange(a, b)]
            0 <= a <= b <= s.len() && (a == 0 || s[a - 1] == '/') && (b == s.len() || s[b] == '/') && (
            forall|i: int| a <= i < b ==> s[i] != '/') implies a == 0 && b == n by {
            if a > 0 {
                assert(s[a - 1] != '/');
            }
            if b < n {
                assert(s[b] != '/');
            }
        }
    }
}

/// One slash in front of a key and one behind it make no difference.
pub proof fn law_slashes_around_a_key_do_not_count(key: Seq<char>)
    requires
        has_valid_segments(key),
    ensures
        literal_key(key) == Some(key),
        literal_key(seq!['/'] + key) == Some(key),
        literal_key(key.push('/')) == Some(key),
        literal_key((seq!['/'] + key).push('/')) == Some(key),
        literal_key(Seq::empty()) == Some(Seq::<char>::empty()),
        literal_key(seq!['/']) == Some(Seq::<char>::empty()),
{
    lemma_segments_edges(key);
    let led = seq!['/'] + key;
    assert(led.skip(1) =~= key);
    assert(key.push('/').drop_last() =~= key);
    assert(led.push('/').skip(1) =~= key.push('/'));
    assert(seq!['/'].skip(1) =~= Seq::<char>::empty());
}

/// A path that has a segment which names nothing, once a slash around it is taken off, is no
/// literal key.
pub proof fn law_invalid_segments_make_no_key(path: Seq<char>)
    requires
        path.len() > 0,
        path[0] != '/',
        path.last() != '/',
    ensures
        literal_key(path) == (if has_valid_segments(path) {
            Some(path)
        } else {
            None
        }),
{
}

} // verus!
