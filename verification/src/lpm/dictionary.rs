//! Dictionaries of the `onpair` crate.

use onpair::CompactDictionaryView;
use onpair::DictionaryView;
use vstd::prelude::*;

verus! {

#[verifier::external_type_specification]
#[verifier::external_body]
pub struct ExCompactDictionaryView<'a>(CompactDictionaryView<'a>);

/// The tokens of a dictionary, in the order of their ids.
pub uninterp spec fn dictionary_tokens(dict: CompactDictionaryView<'_>) -> Seq<Seq<u8>>;

/// `CompactDictionaryView::num_tokens`: the number of tokens, of which a `u16` can address each.
#[verifier::external_body]
pub(crate) fn num_tokens(dict: &CompactDictionaryView<'_>) -> (r: usize)
    ensures
        r == dictionary_tokens(*dict).len(),
        r <= 65536,
{
    dict.num_tokens()
}

/// `CompactDictionaryView::token`: the bytes of a token, of which there are one to 16.
#[verifier::external_body]
pub(crate) fn token<'a>(dict: &'a CompactDictionaryView<'_>, id: u16) -> (r: &'a [u8])
    requires
        id < dictionary_tokens(*dict).len(),
    ensures
        r@ == dictionary_tokens(*dict)[id as int],
        1 <= r@.len() <= 16,
{
    dict.token(id)
}

/// Whether each byte by itself is a token, and is so only once.
pub open spec fn complete(tokens: Seq<Seq<u8>>) -> bool {
    &&& forall|b: u8| #[trigger] has_single(tokens, b)
    &&& singles_unique(tokens)
}

/// Whether a byte by itself is a token.
pub open spec fn has_single(tokens: Seq<Seq<u8>>, b: u8) -> bool {
    exists|k: int| 0 <= k < tokens.len() && #[trigger] tokens[k] == seq![b]
}

/// Whether no two tokens of one byte are the same.
pub open spec fn singles_unique(tokens: Seq<Seq<u8>>) -> bool {
    forall|i: int, j: int|
        0 <= i < j < tokens.len() && (#[trigger] tokens[i]).len() == 1 && (
        #[trigger] tokens[j]).len() == 1 ==> tokens[i][0] != tokens[j][0]
}

/// Whether a dictionary holds each byte by itself, and only once.
pub fn is_complete(dict: &CompactDictionaryView<'_>) -> (r: bool)
    ensures
        r == complete(dictionary_tokens(*dict)),
{
    let n: usize = num_tokens(dict);
    let ghost tokens = dictionary_tokens(*dict);
    let mut seen: [bool; 256] = [false; 256];
    for i in 0..n
        invariant
            n <= 65536,
            n == tokens.len(),
            tokens == dictionary_tokens(*dict),
            seen@.len() == 256,
            forall|b: u8|
                #[trigger] seen@[b as int] <==> exists|k: int|
                    0 <= k < i && #[trigger] tokens[k] == seq![b],
            forall|p: int, q: int|
                0 <= p < q < i && (#[trigger] tokens[p]).len() == 1 && (
                #[trigger] tokens[q]).len() == 1 ==> tokens[p][0] != tokens[q][0],
    {
        let t = token(dict, i as u16);
        if t.len() == 1 {
            let b: u8 = t[0];
            assert(t@ =~= seq![b]);
            if seen[b as usize] {
                proof {
                    let k = choose|k: int| 0 <= k < i && #[trigger] tokens[k] == seq![b];
                    assert(tokens[k][0] == tokens[i as int][0]);
                    assert(!singles_unique(tokens));
                }
                return false;
            }
            let ghost before = seen@;
            seen[b as usize] = true;
            proof {
                assert forall|c: u8| #[trigger] seen@[c as int] <==> exists|k: int|
                    0 <= k < i + 1 && #[trigger] tokens[k] == seq![c] by {
                    if c == b {
                        assert(tokens[i as int] == seq![c]);
                    } else {
                        assert(seen@[c as int] == before[c as int]);
                        if tokens[i as int] == seq![c] {
                            assert(seq![c][0] == seq![b][0]);
                        }
                    }
                }
                assert forall|p: int, q: int|
                    0 <= p < q < i + 1 && (#[trigger] tokens[p]).len() == 1 && (
                    #[trigger] tokens[q]).len() == 1 implies tokens[p][0] != tokens[q][0] by {
                    if q == i {
                        if tokens[p][0] == b {
                            assert(tokens[p] =~= seq![b]);
                        }
                    }
                }
            }
        } else {
            proof {
                assert forall|c: u8| #[trigger] seen@[c as int] <==> exists|k: int|
                    0 <= k < i + 1 && #[trigger] tokens[k] == seq![c] by {
                    if tokens[i as int] == seq![c] {
                        assert(seq![c].len() == 1);
                    }
                }
            }
        }
    }
    for b in 0..256usize
        invariant
            n == tokens.len(),
            tokens == dictionary_tokens(*dict),
            seen@.len() == 256,
            forall|c: u8|
                #[trigger] seen@[c as int] <==> exists|k: int|
                    0 <= k < n && #[trigger] tokens[k] == seq![c],
            forall|c: int| 0 <= c < b ==> #[trigger] seen@[c],
    {
        if !seen[b] {
            assert(!has_single(tokens, b as u8)) by {
                assert(!seen@[(b as u8) as int]);
            }
            return false;
        }
    }
    assert forall|b: u8| #[trigger] has_single(tokens, b) by {
        assert(seen@[b as int]);
    }
    true
}

/// In a complete dictionary each byte by itself is exactly one token; and a dictionary in which
/// that holds is complete.
pub proof fn law_complete_has_each_byte_once(tokens: Seq<Seq<u8>>)
    ensures
        complete(tokens) <==> (forall|b: u8| tokens.contains(#[trigger] seq![b])) && (forall|i: int, j: int|
            0 <= i < tokens.len() && 0 <= j < tokens.len() && i != j && (#[trigger] tokens[i]).len() == 1
                ==> tokens[i] != #[trigger] tokens[j]),
{
    if complete(tokens) {
        assert forall|b: u8| tokens.contains(#[trigger] seq![b]) by {
            assert(has_single(tokens, b));
        }
    }
    if forall|b: u8| tokens.contains(#[trigger] seq![b]) {
        assert forall|b: u8| #[trigger] has_single(tokens, b) by {
            let k = choose|k: int| 0 <= k < tokens.len() && tokens[k] == seq![b];
            assert(tokens.contains(seq![b]));
            assert(tokens[k] == seq![b]);
        }
    }
    if forall|i: int, j: int|
        0 <= i < tokens.len() && 0 <= j < tokens.len() && i != j && (#[trigger] tokens[i]).len() == 1
            ==> tokens[i] != #[trigger] tokens[j] {
        assert forall|i: int, j: int|
            0 <= i < j < tokens.len() && (#[trigger] tokens[i]).len() == 1 && (
            #[trigger] tokens[j]).len() == 1 implies tokens[i][0] != tokens[j][0] by {
            if tokens[i][0] == tokens[j][0] {
                assert(tokens[i] =~= tokens[j]);
            }
        }
    }
}

} // verus!
