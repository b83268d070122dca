//! Finding the longest token that a byte string starts with.

use onpair::CompactDictionaryView;
use vstd::prelude::*;

use crate::bytes::byte_range;
use crate::bytes::law_le_bytes_inverts_le_value;
use crate::bytes::le_value;
use crate::lpm::bucket::has_bit;
use crate::lpm::bucket::lemma_no_bits;
use crate::lpm::bucket::lemma_same_members;
use crate::lpm::bucket::lemma_set_bit;
use crate::lpm::bucket::LongBucket;
use crate::lpm::bucket::LongEntry;
use crate::lpm::dictionary::complete;
use crate::lpm::dictionary::dictionary_tokens;
use crate::lpm::dictionary::has_single;
use crate::lpm::dictionary::is_complete;
use crate::lpm::dictionary::num_tokens;
use crate::lpm::dictionary::token;
use crate::lpm::window::high_bytes;
use crate::lpm::window::lemma_le_value_injective;
use crate::lpm::window::lemma_le_value_take;
use crate::lpm::window::lemma_mask;
use crate::lpm::window::load_le_u64;
use crate::lpm::window::load_window;
use crate::lpm::window::low_bytes;
use crate::lpm::window::mask_u64;
use crate::lpm::window::MAX_TOKEN;
use crate::lpm::window::PREFIX_LEN;
use crate::table::FxTable;

verus! {

/// Whether `data` starts with the token.
pub open spec fn is_prefix(token: Seq<u8>, data: Seq<u8>) -> bool {
    token.len() <= data.len() && data.take(token.len() as int) == token
}

/// Whether token `t` is a longest one that `data` starts with.
pub open spec fn longest_match(tokens: Seq<Seq<u8>>, data: Seq<u8>, t: u16) -> bool {
    &&& t < tokens.len()
    &&& is_prefix(tokens[t as int], data)
    &&& forall|k: int|
        0 <= k < tokens.len() && is_prefix(#[trigger] tokens[k], data) ==> tokens[k].len()
            <= tokens[t as int].len()
}

/// Whether each token has one to 16 bytes, and a `u16` can address it.
pub open spec fn well_sized(tokens: Seq<Seq<u8>>) -> bool {
    &&& tokens.len() <= 65536
    &&& forall|k: int| 0 <= k < tokens.len() ==> 1 <= (#[trigger] tokens[k]).len() <= 16
}

/// Whether an entry stands for a token that starts with the eight bytes packed in `prefix`.
pub open spec fn describes(tokens: Seq<Seq<u8>>, prefix: u64, e: LongEntry) -> bool {
    &&& e.wf()
    &&& e.token < tokens.len()
    &&& tokens[e.token as int].len() == 8 + e.slen
    &&& le_value(tokens[e.token as int].take(8)) == prefix
    &&& le_value(tokens[e.token as int].skip(8)) == e.suffix
}

/// The entry for token `k`.
pub open spec fn entry_of(tokens: Seq<Seq<u8>>, k: int) -> LongEntry {
    LongEntry {
        suffix: le_value(tokens[k].skip(8)) as u64,
        slen: (tokens[k].len() - 8) as u8,
        token: k as u16,
    }
}

/// The key of the eight bytes that token `k` starts with.
pub open spec fn prefix_of(tokens: Seq<Seq<u8>>, k: int) -> (u64, u8) {
    (le_value(tokens[k].take(8)) as u64, 0u8)
}

/// The key of token `k` by its bytes and their number.
pub open spec fn short_key(tokens: Seq<Seq<u8>>, k: int) -> (u64, u8) {
    (le_value(tokens[k]) as u64, tokens[k].len() as u8)
}

/// Whether the table holds the first `n` tokens of two to eight bytes.
spec fn short_holds(tokens: Seq<Seq<u8>>, short: Map<(u64, u8), usize>, n: int) -> bool {
    &&& forall|k: int|
        0 <= k < n && 2 <= (#[trigger] tokens[k]).len() <= 8 ==> short.contains_key(
            short_key(tokens, k),
        )
    &&& forall|key: (u64, u8)| #[trigger]
        short.contains_key(key) ==> {
            &&& short[key] < n
            &&& tokens[short[key] as int].len() == key.1
            &&& le_value(tokens[short[key] as int]) == key.0
            &&& 2 <= key.1 <= 8
        }
}

/// Whether the masks have the lengths of the first `n` tokens of two to eight bytes.
spec fn mask_holds(tokens: Seq<Seq<u8>>, mask: Seq<u16>, n: int) -> bool {
    forall|k: int|
        0 <= k < n && 2 <= (#[trigger] tokens[k]).len() <= 8 ==> has_bit(
            mask[tokens[k][0] as int],
            tokens[k].len() as u16,
        )
}

/// Whether the table has the first `n` tokens of one byte.
spec fn single_holds(tokens: Seq<Seq<u8>>, single: Seq<u16>, n: int) -> bool {
    forall|k: int|
        0 <= k < n && (#[trigger] tokens[k]).len() == 1 ==> single[tokens[k][0] as int]
            < tokens.len() && tokens[single[tokens[k][0] as int] as int] == tokens[k]
}

/// Whether the first `n` tokens longer than eight bytes are grouped by their first eight.
spec fn groups_hold(
    tokens: Seq<Seq<u8>>,
    prefixes: Map<(u64, u8), usize>,
    groups: Seq<Seq<LongEntry>>,
    group_prefix: Seq<u64>,
    n: int,
) -> bool {
    &&& groups.len() == group_prefix.len()
    &&& forall|key: (u64, u8)| #[trigger]
        prefixes.contains_key(key) ==> key.1 == 0 && prefixes[key] < groups.len()
            && group_prefix[prefixes[key] as int] == key.0
    &&& forall|k: int|
        0 <= k < n && (#[trigger] tokens[k]).len() > 8 ==> prefixes.contains_key(
            prefix_of(tokens, k),
        ) && groups[prefixes[prefix_of(tokens, k)] as int].contains(entry_of(tokens, k))
    &&& forall|g: int, i: int|
        0 <= g < groups.len() && 0 <= i < groups[g].len() ==> describes(
            tokens,
            group_prefix[g],
            #[trigger] groups[g][i],
        )
    &&& forall|g: int| 0 <= g < groups.len() ==> (#[trigger] groups[g]).len() <= n
}

/// The entries of each vector.
spec fn group_views(groups: Seq<Vec<LongEntry>>) -> Seq<Seq<LongEntry>> {
    groups.map_values(|g: Vec<LongEntry>| g@)
}

/// Whether the tokens longer than eight bytes are in buckets by their first eight.
spec fn long_holds(
    tokens: Seq<Seq<u8>>,
    long: Map<(u64, u8), usize>,
    buckets: Seq<LongBucket>,
) -> bool {
    &&& forall|key: (u64, u8)| #[trigger]
        long.contains_key(key) ==> {
            &&& long[key] < buckets.len()
            &&& buckets[long[key] as int].wf()
            &&& forall|i: int|
                0 <= i < buckets[long[key] as int].entries().len() ==> describes(
                    tokens,
                    key.0,
                    #[trigger] buckets[long[key] as int].entries()[i],
                )
        }
    &&& forall|k: int|
        0 <= k < tokens.len() && (#[trigger] tokens[k]).len() > 8 ==> long.contains_key(
            prefix_of(tokens, k),
        ) && buckets[long[prefix_of(tokens, k)] as int].entries().contains(entry_of(tokens, k))
}

/// Finds the longest token of a dictionary that a byte string starts with.
pub struct FastLpm {
    /// Tokens of two to eight bytes, by their packed bytes and length.
    short: FxTable,
    /// For the first eight bytes of longer tokens, which bucket these are in.
    long: FxTable,
    buckets: Vec<LongBucket>,
    /// For each first byte, bit `l` says whether a token of `l` bytes starts with it.
    short_len_mask: [u16; 256],
    /// The token of each byte by itself.
    single: [u16; 256],
    tokens: Ghost<Seq<Seq<u8>>>,
}

impl FastLpm {
    #[verifier::type_invariant]
    spec fn inv(self) -> bool {
        let tokens = self.tokens@;
        &&& well_sized(tokens)
        &&& forall|b: u8| #[trigger] has_single(tokens, b)
        &&& short_holds(tokens, self.short@, tokens.len() as int)
        &&& mask_holds(tokens, self.short_len_mask@, tokens.len() as int)
        &&& single_holds(tokens, self.single@, tokens.len() as int)
        &&& long_holds(tokens, self.long@, self.buckets@)
    }

    /// The tokens of the dictionary.
    pub closed spec fn tokens(self) -> Seq<Seq<u8>> {
        self.tokens@
    }
}

proof fn lemma_pack_bounds(s: Seq<u8>)
    requires
        s.len() <= 8,
    ensures
        le_value(s) < byte_range(s.len()),
        byte_range(s.len()) <= 0x1_0000_0000_0000_0000,
{
    law_le_bytes_inverts_le_value(s);
    crate::bytes::lemma_byte_range_monotone(s.len(), 8);
    crate::bytes::lemma_byte_range_values();
}

/// Takes token `k` into the groups.
#[verifier::rlimit(40)]
fn group_token(
    prefixes: &mut FxTable,
    groups: &mut Vec<Vec<LongEntry>>,
    Ghost(group_prefix): Ghost<Seq<u64>>,
    Ghost(tokens): Ghost<Seq<Seq<u8>>>,
    t: &[u8],
    k: u16,
) -> (r: Ghost<Seq<u64>>)
    requires
        k < tokens.len(),
        t@ == tokens[k as int],
        8 < t@.len() <= 16,
        groups_hold(tokens, old(prefixes)@, group_views(old(groups)@), group_prefix, k as int),
    ensures
        groups_hold(tokens, final(prefixes)@, group_views(final(groups)@), r@, k + 1),
{
    let len: usize = t.len();
    let prefix: u64 = load_le_u64(t, PREFIX_LEN);
    let slen: usize = len - PREFIX_LEN;
    let rest = vstd::slice::slice_subrange(t, PREFIX_LEN, len);
    let entry = LongEntry { suffix: load_le_u64(rest, slen), slen: slen as u8, token: k };
    proof {
        assert(rest@ =~= t@.skip(8));
        assert(rest@.take(slen as int) =~= rest@);
        lemma_pack_bounds(t@.take(8));
        lemma_pack_bounds(t@.skip(8));
        assert(entry == entry_of(tokens, k as int));
        assert((prefix, 0u8) == prefix_of(tokens, k as int));
        assert(describes(tokens, prefix, entry));
    }
    let ghost views0 = group_views(groups@);
    let ghost prefixes0 = prefixes@;
    match prefixes.get((prefix, 0)) {
        Some(g) => {
            let mut group: Vec<LongEntry> = Vec::new();
            std::mem::swap(&mut groups[g], &mut group);
            let ghost before = group@;
            group.push(entry);
            groups[g] = group;
            proof {
                let views = group_views(groups@);
                assert(views0[g as int] == before);
                assert(views =~= views0.update(g as int, before.push(entry)));
                assert forall|j: int|
                    0 <= j < k + 1 && (#[trigger] tokens[j]).len() > 8 implies prefixes@.contains_key(
                    prefix_of(tokens, j),
                ) && views[prefixes@[prefix_of(tokens, j)] as int].contains(
                    entry_of(tokens, j),
                ) by {
                    if j < k {
                        let h = prefixes@[prefix_of(tokens, j)] as int;
                        let e = entry_of(tokens, j);
                        assert(views0[h].contains(e));
                        if h == g {
                            let i = choose|i: int| 0 <= i < before.len() && before[i] == e;
                            assert(before.push(entry)[i] == e);
                        }
                    } else {
                        assert(before.push(entry)[before.len() as int] == entry);
                    }
                }
                assert forall|h: int, i: int|
                    0 <= h < views.len() && 0 <= i < views[h].len() implies describes(
                    tokens,
                    group_prefix[h],
                    #[trigger] views[h][i],
                ) by {
                    if h == g {
                        if i < before.len() {
                            assert(views0[h][i] == views[h][i]);
                        } else {
                            assert(prefixes0.contains_key((prefix, 0u8)));
                            assert(group_prefix[g as int] == prefix);
                        }
                    } else {
                        assert(views0[h][i] == views[h][i]);
                    }
                }
                assert forall|h: int| 0 <= h < views.len() implies (#[trigger] views[h]).len() <= k
                    + 1 by {
                    assert(views0[h].len() <= k);
                }
            }
            Ghost(group_prefix)
        },
        None => {
            let mut group: Vec<LongEntry> = Vec::new();
            group.push(entry);
            let g: usize = groups.len();
            let ghost one = group@;
            groups.push(group);
            let _ = prefixes.insert((prefix, 0), g);
            let ghost next = group_prefix.push(prefix);
            proof {
                let views = group_views(groups@);
                assert(views =~= views0.push(one));
                assert forall|j: int|
                    0 <= j < k + 1 && (#[trigger] tokens[j]).len() > 8 implies prefixes@.contains_key(
                    prefix_of(tokens, j),
                ) && views[prefixes@[prefix_of(tokens, j)] as int].contains(
                    entry_of(tokens, j),
                ) by {
                    if j < k {
                        assert(prefixes0.contains_key(prefix_of(tokens, j)));
                        assert(prefix_of(tokens, j) != (prefix, 0u8));
                        let h = prefixes0[prefix_of(tokens, j)] as int;
                        assert(views[h] == views0[h]);
                    } else {
                        assert(one[0] == entry);
                        assert(views[g as int] == one);
                    }
                }
                assert forall|h: int, i: int|
                    0 <= h < views.len() && 0 <= i < views[h].len() implies describes(
                    tokens,
                    next[h],
                    #[trigger] views[h][i],
                ) by {
                    if h < g {
                        assert(views0[h][i] == views[h][i]);
                    }
                }
                assert forall|h: int| 0 <= h < views.len() implies (#[trigger] views[h]).len() <= k
                    + 1 by {
                    if h < g {
                        assert(views0[h].len() <= k);
                    }
                }
                assert forall|key: (u64, u8)| #[trigger] prefixes@.contains_key(key) implies key.1
                    == 0 && prefixes@[key] < views.len() && next[prefixes@[key] as int]
                    == key.0 by {
                    if key != (prefix, 0u8) {
                        assert(prefixes0.contains_key(key));
                    }
                }
            }
            Ghost(next)
        },
    }
}

/// Makes the buckets of the groups.
#[verifier::rlimit(40)]
fn build_buckets(
    groups: Vec<Vec<LongEntry>>,
    Ghost(tokens): Ghost<Seq<Seq<u8>>>,
    Ghost(prefixes): Ghost<Map<(u64, u8), usize>>,
    Ghost(group_prefix): Ghost<Seq<u64>>,
) -> (r: Vec<LongBucket>)
    requires
        tokens.len() <= 65536,
        groups_hold(tokens, prefixes, group_views(groups@), group_prefix, tokens.len() as int),
    ensures
        long_holds(tokens, prefixes, r@),
{
    let ghost given = groups@;
    let ghost views = group_views(groups@);
    let mut buckets: Vec<LongBucket> = Vec::new();
    for group in it: groups
        invariant
            it.seq() == given,
            views == group_views(given),
            tokens.len() <= 65536,
            groups_hold(tokens, prefixes, views, group_prefix, tokens.len() as int),
            buckets@.len() == it.index(),
            forall|g: int|
                0 <= g < buckets@.len() ==> (#[trigger] buckets@[g]).wf()
                    && buckets@[g].entries().to_multiset() == views[g].to_multiset(),
    {
        let ghost g = it.index() as int;
        assert(views[g] == group@);
        assert forall|i: int| 0 <= i < group@.len() implies (#[trigger] group@[i]).wf() by {
            assert(describes(tokens, group_prefix[g], views[g][i]));
        }
        buckets.push(LongBucket::build(group));
    }
    proof {
        assert forall|key: (u64, u8)| #[trigger] prefixes.contains_key(key) implies {
            &&& prefixes[key] < buckets@.len()
            &&& buckets@[prefixes[key] as int].wf()
            &&& forall|i: int|
                0 <= i < buckets@[prefixes[key] as int].entries().len() ==> describes(
                    tokens,
                    key.0,
                    #[trigger] buckets@[prefixes[key] as int].entries()[i],
                )
        } by {
            let g = prefixes[key] as int;
            let entries = buckets@[g].entries();
            lemma_same_members(entries, views[g]);
            assert forall|i: int| 0 <= i < entries.len() implies describes(
                tokens,
                key.0,
                #[trigger] entries[i],
            ) by {
                assert(entries.contains(entries[i]));
                let j = choose|j: int| 0 <= j < views[g].len() && views[g][j] == entries[i];
                assert(describes(tokens, group_prefix[g], views[g][j]));
            }
        }
        assert forall|k: int|
            0 <= k < tokens.len() && (#[trigger] tokens[k]).len() > 8 implies prefixes.contains_key(
            prefix_of(tokens, k),
        ) && buckets@[prefixes[prefix_of(tokens, k)] as int].entries().contains(
            entry_of(tokens, k),
        ) by {
            let g = prefixes[prefix_of(tokens, k)] as int;
            lemma_same_members(buckets@[g].entries(), views[g]);
        }
    }
    buckets
}

impl FastLpm {
    /// The matcher of a dictionary, which must hold each byte by itself exactly once.
    #[verifier::rlimit(40)]
    pub fn from_dictionary(dict: CompactDictionaryView<'_>) -> (r: FastLpm)
        requires
            complete(dictionary_tokens(dict)),
        ensures
            r.tokens() == dictionary_tokens(dict),
    {
        let n: usize = num_tokens(&dict);
        let ghost tokens = dictionary_tokens(dict);
        let mut short = FxTable::new();
        let mut prefixes = FxTable::new();
        let mut groups: Vec<Vec<LongEntry>> = Vec::new();
        let ghost mut group_prefix: Seq<u64> = seq![];
        let mut short_len_mask: [u16; 256] = [0u16; 256];
        let mut single: [u16; 256] = [0u16; 256];
        proof {
            lemma_no_bits();
        }
        for i in 0..n
            invariant
                n <= 65536,
                n == tokens.len(),
                tokens == dictionary_tokens(dict),
                short_len_mask@.len() == 256,
                single@.len() == 256,
                forall|k: int| 0 <= k < i ==> 1 <= (#[trigger] tokens[k]).len() <= 16,
                short_holds(tokens, short@, i as int),
                mask_holds(tokens, short_len_mask@, i as int),
                single_holds(tokens, single@, i as int),
                groups_hold(tokens, prefixes@, group_views(groups@), group_prefix, i as int),
        {
            let id: u16 = i as u16;
            let t = token(&dict, id);
            let len: usize = t.len();
            let ghost short0 = short@;
            let ghost mask0 = short_len_mask@;
            let ghost single0 = single@;
            if len == 1 {
                let b: usize = t[0] as usize;
                single[b] = id;
                proof {
                    assert forall|k: int| 0 <= k < i + 1 && (#[trigger] tokens[k]).len()
                        == 1 implies single@[tokens[k][0] as int] < tokens.len()
                        && tokens[single@[tokens[k][0] as int] as int] == tokens[k] by {
                        if tokens[k][0] == b {
                            assert(tokens[i as int] =~= tokens[k]);
                        } else {
                            assert(single@[tokens[k][0] as int] == single0[tokens[k][0] as int]);
                        }
                    }
                }
            } else if len <= PREFIX_LEN {
                let packed: u64 = load_le_u64(t, len);
                let b: usize = t[0] as usize;
                proof {
                    assert(t@.take(len as int) =~= t@);
                    lemma_pack_bounds(t@);
                    assert((packed, len as u8) == short_key(tokens, i as int));
                    lemma_set_bit(short_len_mask@[b as int], len as u16);
                }
                let _ = short.insert((packed, len as u8), i);
                short_len_mask[b] = short_len_mask[b] | (1u16 << (len as u16));
                proof {
                    assert forall|k: int|
                        0 <= k < i + 1 && 2 <= (#[trigger] tokens[k]).len() <= 8 implies has_bit(
                        short_len_mask@[tokens[k][0] as int],
                        tokens[k].len() as u16,
                    ) by {
                        if k < i {
                            assert(has_bit(mask0[tokens[k][0] as int], tokens[k].len() as u16));
                        }
                    }
                    assert forall|key: (u64, u8)| #[trigger] short@.contains_key(key) implies {
                        &&& short@[key] < i + 1
                        &&& tokens[short@[key] as int].len() == key.1
                        &&& le_value(tokens[short@[key] as int]) == key.0
                        &&& 2 <= key.1 <= 8
                    } by {
                        if key != (packed, len as u8) {
                            assert(short0.contains_key(key));
                        }
                    }
                }
            } else {
                let next = group_token(
                    &mut prefixes,
                    &mut groups,
                    Ghost(group_prefix),
                    Ghost(tokens),
                    t,
                    id,
                );
                proof {
                    group_prefix = next@;
                }
            }
            proof {
                if len <= 8 {
                    assert(groups_hold(
                        tokens,
                        prefixes@,
                        group_views(groups@),
                        group_prefix,
                        i + 1,
                    ));
                }
            }
        }
        let buckets = build_buckets(
            groups,
            Ghost(tokens),
            Ghost(prefixes@),
            Ghost(group_prefix),
        );
        FastLpm {
            short,
            long: prefixes,
            buckets,
            short_len_mask,
            single,
            tokens: Ghost(tokens),
        }
    }
}

proof fn lemma_prefix_packs(token: Seq<u8>, data: Seq<u8>)
    requires
        0 < token.len() <= data.len(),
        token.len() <= 16,
    ensures
        token.len() <= 8 ==> {
            &&& le_value(low_bytes(data)) % byte_range(token.len()) == le_value(
                data.take(token.len() as int),
            )
            &&& (is_prefix(token, data) <==> le_value(low_bytes(data)) % byte_range(token.len())
                == le_value(token))
        },
        token.len() > 8 ==> {
            &&& (is_prefix(token, data) <==> le_value(low_bytes(data)) == le_value(token.take(8))
                && le_value(high_bytes(data)) % byte_range((token.len() - 8) as nat) == le_value(
                token.skip(8),
            ))
        },
{
    let n = token.len();
    if n <= 8 {
        lemma_le_value_take(low_bytes(data), n);
        assert(low_bytes(data).take(n as int) =~= data.take(n as int));
        if le_value(data.take(n as int)) == le_value(token) {
            lemma_le_value_injective(data.take(n as int), token);
        }
    } else {
        let m = (n - 8) as nat;
        lemma_le_value_take(high_bytes(data), m);
        assert(high_bytes(data).take(m as int) =~= data.subrange(8, n as int));
        assert(low_bytes(data) =~= data.take(8));
        if is_prefix(token, data) {
            assert(token.take(8) =~= data.take(8));
            assert(token.skip(8) =~= data.subrange(8, n as int));
        }
        if le_value(data.take(8)) == le_value(token.take(8)) && le_value(
            data.subrange(8, n as int),
        ) == le_value(token.skip(8)) {
            lemma_le_value_injective(data.take(8), token.take(8));
            lemma_le_value_injective(data.subrange(8, n as int), token.skip(8));
            assert(data.take(n as int) =~= data.take(8) + data.subrange(8, n as int));
            assert(token =~= token.take(8) + token.skip(8));
        }
    }
}

impl FastLpm {
    /// The matcher of a dictionary, or nothing if that does not hold each byte by itself exactly
    /// once.
    pub fn try_from_dictionary(dict: CompactDictionaryView<'_>) -> (r: Option<FastLpm>)
        ensures
            r is Some <==> complete(dictionary_tokens(dict)),
            r matches Some(lpm) ==> lpm.tokens() == dictionary_tokens(dict),
    {
        if is_complete(&dict) {
            Some(FastLpm::from_dictionary(dict))
        } else {
            None
        }
    }

    /// Looks among the tokens longer than eight bytes.
    #[verifier::rlimit(40)]
    fn find_long(&self, data: &[u8], lo: u64, hi: u64) -> (r: Option<(u16, usize)>)
        requires
            data@.len() > 0,
            lo as nat == le_value(low_bytes(data@)),
            hi as nat == le_value(high_bytes(data@)),
        ensures
            r matches Some((t, len)) ==> longest_match(self.tokens(), data@, t) && len
                == self.tokens()[t as int].len(),
            r is None ==> forall|k: int|
                0 <= k < self.tokens().len() && is_prefix(#[trigger] self.tokens()[k], data@)
                    ==> self.tokens()[k].len() <= 8,
    {
        proof {
            use_type_invariant(self);
        }
        let ghost tokens = self.tokens@;
        let win: usize = if data.len() < MAX_TOKEN {
            data.len()
        } else {
            MAX_TOKEN
        };
        if win <= PREFIX_LEN {
            return None;
        }
        let max_slen: usize = win - PREFIX_LEN;
        if self.long.is_empty() {
            proof {
                assert forall|k: int|
                    0 <= k < tokens.len() && is_prefix(#[trigger] tokens[k], data@) implies tokens[k].len()
                    <= 8 by {
                    if tokens[k].len() > 8 {
                        assert(self.long@.contains_key(prefix_of(tokens, k)));
                    }
                }
            }
            return None;
        }
        let bucket_at: Option<usize> = self.long.get((lo, 0));
        let found: Option<(u16, usize)> = match bucket_at {
            Some(at) => {
                assert(self.long@.contains_key((lo, 0u8)));
                self.buckets[at].find(hi, max_slen)
            },
            None => None,
        };
        proof {
            // A long token that starts the data stands in the bucket and matches there.
            assert forall|k: int|
                0 <= k < tokens.len() && is_prefix(#[trigger] tokens[k], data@) && tokens[k].len()
                    > 8 implies {
                &&& bucket_at is Some
                &&& exists|i: int|
                    0 <= i < self.buckets@[bucket_at->Some_0 as int].entries().len() && (
                    #[trigger] self.buckets@[bucket_at->Some_0 as int].entries()[i]).matches(
                        hi,
                        max_slen as nat,
                    ) && self.buckets@[bucket_at->Some_0 as int].entries()[i].slen
                        == tokens[k].len() - 8
            } by {
                lemma_prefix_packs(tokens[k], data@);
                lemma_pack_bounds(tokens[k].take(8));
                lemma_pack_bounds(tokens[k].skip(8));
                assert(prefix_of(tokens, k) == (lo, 0u8));
                let entries = self.buckets@[bucket_at->Some_0 as int].entries();
                let e = entry_of(tokens, k);
                assert(entries.contains(e));
                let i = choose|i: int| 0 <= i < entries.len() && entries[i] == e;
                assert(entries[i].matches(hi, max_slen as nat));
            }
            if let Some((t, slen)) = found {
                let entries = self.buckets@[bucket_at->Some_0 as int].entries();
                let i = choose|i: int|
                    0 <= i < entries.len() && (#[trigger] entries[i]).matches(hi, max_slen as nat)
                        && entries[i].token == t && entries[i].slen == slen;
                assert(describes(tokens, lo, entries[i]));
                lemma_prefix_packs(tokens[t as int], data@);
                assert(is_prefix(tokens[t as int], data@));
            }
        }
        match found {
            Some((t, slen)) => Some((t, PREFIX_LEN + slen)),
            None => None,
        }
    }

    /// The longest token that `data` starts with, and its length.
    #[verifier::rlimit(40)]
    pub fn find_longest_match(&self, data: &[u8]) -> (r: (u16, usize))
        requires
            data@.len() > 0,
        ensures
            longest_match(self.tokens(), data@, r.0),
            r.1 == self.tokens()[r.0 as int].len(),
            0 < r.1 <= data@.len(),
            self.tokens()[r.0 as int] == data@.take(r.1 as int),
            forall|k: int|
                0 <= k < self.tokens().len() && (#[trigger] self.tokens()[k]).len() <= data@.len()
                    && data@.take(self.tokens()[k].len() as int) == self.tokens()[k]
                    ==> self.tokens()[k].len() <= r.1,
    {
        proof {
            use_type_invariant(self);
        }
        let ghost tokens = self.tokens@;
        let (lo, hi) = load_window(data);
        match self.find_long(data, lo, hi) {
            Some((t, len)) => return (t, len),
            None => {},
        }
        let mask: u16 = self.short_len_mask[data[0] as usize];
        let mut len: usize = if data.len() < PREFIX_LEN {
            data.len()
        } else {
            PREFIX_LEN
        };
        assert forall|k: int|
            0 <= k < tokens.len() && is_prefix(#[trigger] tokens[k], data@) implies tokens[k].len()
            <= len by {
            assert(is_prefix(self.tokens()[k], data@));
        }
        while len >= 2
            invariant
                data@.len() > 0,
                len <= 8,
                len <= data@.len(),
                tokens == self.tokens@,
                self.inv(),
                mask == self.short_len_mask@[data@[0] as int],
                lo as nat == le_value(low_bytes(data@)),
                forall|k: int|
                    0 <= k < tokens.len() && is_prefix(#[trigger] tokens[k], data@)
                        ==> tokens[k].len() <= len,
                len >= 1,
            decreases len,
        {
            if (mask >> (len as u16)) & 1 == 1 {
                proof {
                    lemma_mask(lo, len as nat);
                    lemma_prefix_packs(data@.take(len as int), data@);
                }
                let key: (u64, u8) = (lo & mask_u64(len), len as u8);
                match self.short.get(key) {
                    Some(t) => {
                        proof {
                            assert(self.short@.contains_key(key));
                            lemma_prefix_packs(tokens[t as int], data@);
                            assert(is_prefix(tokens[t as int], data@));
                        }
                        return (t as u16, len);
                    },
                    None => {
                        proof {
                            assert forall|k: int|
                                0 <= k < tokens.len() && is_prefix(
                                    #[trigger] tokens[k],
                                    data@,
                                ) implies tokens[k].len() <= len - 1 by {
                                if tokens[k].len() == len {
                                    lemma_prefix_packs(tokens[k], data@);
                                    lemma_pack_bounds(tokens[k]);
                                    assert(short_key(tokens, k) == key);
                                    assert(self.short@.contains_key(key));
                                }
                            }
                        }
                    },
                }
            } else {
                proof {
                    assert forall|k: int|
                        0 <= k < tokens.len() && is_prefix(#[trigger] tokens[k], data@) implies tokens[k].len()
                        <= len - 1 by {
                        if tokens[k].len() == len {
                            assert(tokens[k][0] == data@[0]) by {
                                assert(data@.take(len as int)[0] == data@[0]);
                            }
                            assert(has_bit(mask, len as u16));
                        }
                    }
                }
            }
            len -= 1;
        }
        let t: u16 = self.single[data[0] as usize];
        proof {
            let b = data@[0];
            assert(has_single(tokens, b));
            let k = choose|k: int| 0 <= k < tokens.len() && #[trigger] tokens[k] == seq![b];
            assert(tokens[k].len() == 1 && tokens[k][0] == b);
            assert(tokens[t as int] == seq![b]);
            assert(data@.take(1) =~= seq![b]);
        }
        (t, 1)
    }
}

/// Whether `codes` are the tokens of `data` from position `from` to position `to`, each the
/// longest that the rest of `data` starts with.
pub open spec fn tokenizes(
    tokens: Seq<Seq<u8>>,
    codes: Seq<u16>,
    data: Seq<u8>,
    from: int,
    to: int,
) -> bool
    decreases codes.len(),
{
    if codes.len() == 0 {
        from == to
    } else {
        &&& 0 <= from < data.len()
        &&& longest_match(tokens, data.skip(from), codes[0])
        &&& tokenizes(
            tokens,
            codes.skip(1),
            data,
            from + tokens[codes[0] as int].len(),
            to,
        )
    }
}

proof fn lemma_tokenizes_push(
    tokens: Seq<Seq<u8>>,
    codes: Seq<u16>,
    data: Seq<u8>,
    from: int,
    to: int,
    t: u16,
)
    requires
        tokenizes(tokens, codes, data, from, to),
        0 <= to < data.len(),
        longest_match(tokens, data.skip(to), t),
    ensures
        tokenizes(tokens, codes.push(t), data, from, to + tokens[t as int].len()),
    decreases codes.len(),
{
    if codes.len() > 0 {
        lemma_tokenizes_push(
            tokens,
            codes.skip(1),
            data,
            from + tokens[codes[0] as int].len(),
            to,
            t,
        );
        assert(codes.push(t).skip(1) =~= codes.skip(1).push(t));
        assert(codes.push(t)[0] == codes[0]);
    } else {
        let end = to + tokens[t as int].len();
        assert(codes.push(t).skip(1) =~= Seq::<u16>::empty());
        assert(codes.push(t)[0] == t);
        assert(tokenizes(tokens, Seq::<u16>::empty(), data, end, end));
    }
}

/// The bytes that codes stand for.
pub open spec fn decode(tokens: Seq<Seq<u8>>, codes: Seq<u16>) -> Seq<u8>
    decreases codes.len(),
{
    if codes.len() == 0 {
        seq![]
    } else {
        tokens[codes[0] as int] + decode(tokens, codes.skip(1))
    }
}

/// The codes of row `i`.
pub open spec fn row_codes(codes: Seq<u16>, offsets: Seq<u64>, i: int) -> Seq<u16> {
    codes.subrange(offsets[i] as int, offsets[i + 1] as int)
}

/// Whether codes and row offsets are those of the rows.
pub open spec fn rows_tokenized(
    tokens: Seq<Seq<u8>>,
    rows: Seq<&[u8]>,
    codes: Seq<u16>,
    offsets: Seq<u64>,
) -> bool {
    &&& offsets.len() == rows.len() + 1
    &&& offsets[0] == 0
    &&& offsets.last() == codes.len()
    &&& forall|i: int|
        0 <= i < rows.len() ==> {
            &&& #[trigger] offsets[i] <= offsets[i + 1] <= codes.len()
            &&& tokenizes(
                tokens,
                row_codes(codes, offsets, i),
                rows[i]@,
                0,
                rows[i]@.len() as int,
            )
        }
}

/// Appends the codes of a row.
fn parse_row(lpm: &FastLpm, row: &[u8], codes: &mut Vec<u16>)
    ensures
        exists|added: Seq<u16>|
            final(codes)@ == old(codes)@ + added && #[trigger] tokenizes(
                lpm.tokens(),
                added,
                row@,
                0,
                row@.len() as int,
            ),
{
    let ghost tokens = lpm.tokens();
    let ghost start = codes@;
    let ghost mut added: Seq<u16> = seq![];
    let mut pos: usize = 0;
    assert(start + added =~= start);
    while pos < row.len()
        invariant
            tokens == lpm.tokens(),
            start == old(codes)@,
            pos <= row@.len(),
            codes@ == start + added,
            tokenizes(tokens, added, row@, 0, pos as int),
        decreases row@.len() - pos,
    {
        let rest = vstd::slice::slice_subrange(row, pos, row.len());
        assert(rest@ =~= row@.skip(pos as int));
        let (t, len) = lpm.find_longest_match(rest);
        proof {
            lemma_tokenizes_push(tokens, added, row@, 0, pos as int, t);
            assert((start + added).push(t) =~= start + added.push(t));
            added = added.push(t);
        }
        codes.push(t);
        pos += len;
    }
}

/// Whether the codes and offsets of the first `n` rows are right.
#[verifier::opaque]
spec fn rows_done(
    tokens: Seq<Seq<u8>>,
    rows: Seq<&[u8]>,
    codes: Seq<u16>,
    offsets: Seq<u64>,
    n: int,
) -> bool {
    forall|k: int|
        0 <= k < n ==> {
            &&& #[trigger] offsets[k] <= offsets[k + 1] <= codes.len()
            &&& tokenizes(
                tokens,
                row_codes(codes, offsets, k),
                rows[k]@,
                0,
                rows[k]@.len() as int,
            )
        }
}

proof fn lemma_row_done(
    tokens: Seq<Seq<u8>>,
    rows: Seq<&[u8]>,
    codes: Seq<u16>,
    offsets: Seq<u64>,
    added: Seq<u16>,
    end: u64,
)
    requires
        0 < offsets.len() <= rows.len(),
        rows_done(tokens, rows, codes, offsets, offsets.len() - 1),
        offsets.last() == codes.len(),
        end == codes.len() + added.len(),
        tokenizes(
            tokens,
            added,
            rows[offsets.len() - 1]@,
            0,
            rows[offsets.len() - 1]@.len() as int,
        ),
    ensures
        rows_done(tokens, rows, codes + added, offsets.push(end), offsets.len() as int),
{
    reveal(rows_done);
    let all = codes + added;
    let ends = offsets.push(end);
    assert forall|k: int| 0 <= k < offsets.len() implies {
        &&& #[trigger] ends[k] <= ends[k + 1] <= all.len()
        &&& tokenizes(tokens, row_codes(all, ends, k), rows[k]@, 0, rows[k]@.len() as int)
    } by {
        assert(ends[k] == offsets[k]);
        if k < offsets.len() - 1 {
            assert(ends[k + 1] == offsets[k + 1]);
            assert(row_codes(all, ends, k) =~= row_codes(codes, offsets, k));
        } else {
            assert(ends[k + 1] == end);
            assert(row_codes(all, ends, k) =~= added);
        }
    }
}

/// Tokenizes all rows: the codes of all rows one after the other, and where those of each row
/// start and end.
#[verifier::rlimit(40)]
pub fn parse_rows(lpm: &FastLpm, rows: &[&[u8]]) -> (r: (Vec<u16>, Vec<u64>))
    ensures
        rows_tokenized(lpm.tokens(), rows@, r.0@, r.1@),
{
    let mut codes: Vec<u16> = Vec::new();
    let mut offsets: Vec<u64> = Vec::new();
    offsets.push(0);
    proof {
        reveal(rows_done);
    }
    for i in 0..rows.len()
        invariant
            offsets@.len() == i + 1,
            offsets@[0] == 0,
            offsets@.last() == codes@.len(),
            rows_done(lpm.tokens(), rows@, codes@, offsets@, i as int),
    {
        let ghost done = codes@;
        parse_row(lpm, rows[i], &mut codes);
        let end: u64 = codes.len() as u64;
        proof {
            let added = choose|added: Seq<u16>|
                codes@ == done + added && #[trigger] tokenizes(
                    lpm.tokens(),
                    added,
                    rows@[i as int]@,
                    0,
                    rows@[i as int]@.len() as int,
                );
            lemma_row_done(
                lpm.tokens(),
                rows@,
                done,
                offsets@,
                added,
                end,
            );
        }
        offsets.push(end);
    }
    proof {
        reveal(rows_done);
    }
    (codes, offsets)
}

/// Whether no two tokens are the same.
pub open spec fn distinct(tokens: Seq<Seq<u8>>) -> bool {
    forall|i: int, j: int|
        0 <= i < j < tokens.len() ==> #[trigger] tokens[i] != #[trigger] tokens[j]
}

/// The codes of a row stand for exactly its bytes.
pub proof fn law_tokenizing_is_lossless(
    tokens: Seq<Seq<u8>>,
    codes: Seq<u16>,
    data: Seq<u8>,
    from: int,
)
    requires
        0 <= from <= data.len(),
        tokenizes(tokens, codes, data, from, data.len() as int),
    ensures
        decode(tokens, codes) == data.skip(from),
    decreases codes.len(),
{
    if codes.len() > 0 {
        let t = tokens[codes[0] as int];
        assert(is_prefix(t, data.skip(from)));
        assert(data.skip(from).take(t.len() as int) == t);
        law_tokenizing_is_lossless(tokens, codes.skip(1), data, from + t.len());
        assert(data.skip(from) =~= t + data.skip(from + t.len()));
    } else {
        assert(data.skip(from) =~= Seq::<u8>::empty());
    }
}

/// Where no two tokens are the same, a row has only one tokenization.
pub proof fn law_tokenization_is_unique(
    tokens: Seq<Seq<u8>>,
    a: Seq<u16>,
    b: Seq<u16>,
    data: Seq<u8>,
    from: int,
)
    requires
        distinct(tokens),
        tokenizes(tokens, a, data, from, data.len() as int),
        tokenizes(tokens, b, data, from, data.len() as int),
    ensures
        a == b,
    decreases a.len(),
{
    if a.len() > 0 && b.len() > 0 {
        let rest = data.skip(from);
        let s = tokens[a[0] as int];
        let t = tokens[b[0] as int];
        assert(is_prefix(s, rest) && is_prefix(t, rest));
        assert(s.len() == t.len());
        assert(s =~= t);
        assert(a[0] == b[0]);
        law_tokenization_is_unique(tokens, a.skip(1), b.skip(1), data, from + s.len());
        assert(a =~= seq![a[0]] + a.skip(1));
        assert(b =~= seq![b[0]] + b.skip(1));
    } else {
        assert(a =~= b);
    }
}

/// Where no two tokens are the same, rows have only one tokenization: any codes and row offsets
/// that are greedy for the rows are those that [`parse_rows`] gives.
#[verifier::spinoff_prover]
pub proof fn law_rows_tokenization_is_unique(
    tokens: Seq<Seq<u8>>,
    rows: Seq<&[u8]>,
    codes1: Seq<u16>,
    offsets1: Seq<u64>,
    codes2: Seq<u16>,
    offsets2: Seq<u64>,
)
    requires
        distinct(tokens),
        rows_tokenized(tokens, rows, codes1, offsets1),
        rows_tokenized(tokens, rows, codes2, offsets2),
    ensures
        codes1 == codes2,
        offsets1 == offsets2,
{
    assert(two_tokenizations(tokens, rows, codes1, offsets1, codes2, offsets2)) by {
        reveal(two_tokenizations);
    }
    lemma_same_tokenization(tokens, rows, codes1, offsets1, codes2, offsets2);
}

/// Whether both codes and offsets are tokenizations of the rows by distinct tokens.
#[verifier::opaque]
spec fn two_tokenizations(
    tokens: Seq<Seq<u8>>,
    rows: Seq<&[u8]>,
    codes1: Seq<u16>,
    offsets1: Seq<u64>,
    codes2: Seq<u16>,
    offsets2: Seq<u64>,
) -> bool {
    &&& distinct(tokens)
    &&& rows_tokenized(tokens, rows, codes1, offsets1)
    &&& rows_tokenized(tokens, rows, codes2, offsets2)
}

proof fn lemma_same_tokenization(
    tokens: Seq<Seq<u8>>,
    rows: Seq<&[u8]>,
    codes1: Seq<u16>,
    offsets1: Seq<u64>,
    codes2: Seq<u16>,
    offsets2: Seq<u64>,
)
    requires
        two_tokenizations(tokens, rows, codes1, offsets1, codes2, offsets2),
    ensures
        codes1 == codes2,
        offsets1 == offsets2,
{
    lemma_tokenization_ends(tokens, rows, codes1, offsets1, codes2, offsets2);
    assert forall|i: int| 0 <= i <= rows.len() implies #[trigger] offsets1[i] == offsets2[i] by {
        lemma_same_front(tokens, rows, codes1, offsets1, codes2, offsets2, i);
    }
    assert(offsets1 =~= offsets2);
    lemma_same_front(tokens, rows, codes1, offsets1, codes2, offsets2, rows.len() as int);
    assert(codes1.take(codes1.len() as int) =~= codes1);
    assert(codes2.take(codes2.len() as int) =~= codes2);
}

proof fn lemma_tokenization_ends(
    tokens: Seq<Seq<u8>>,
    rows: Seq<&[u8]>,
    codes1: Seq<u16>,
    offsets1: Seq<u64>,
    codes2: Seq<u16>,
    offsets2: Seq<u64>,
)
    requires
        two_tokenizations(tokens, rows, codes1, offsets1, codes2, offsets2),
    ensures
        offsets1.len() == rows.len() + 1,
        offsets2.len() == rows.len() + 1,
        offsets1[0] == 0,
        offsets2[0] == 0,
        offsets1[rows.len() as int] == codes1.len(),
        offsets2[rows.len() as int] == codes2.len(),
{
    reveal(two_tokenizations);
}

#[verifier::spinoff_prover]
proof fn lemma_same_row(
    tokens: Seq<Seq<u8>>,
    rows: Seq<&[u8]>,
    codes1: Seq<u16>,
    offsets1: Seq<u64>,
    codes2: Seq<u16>,
    offsets2: Seq<u64>,
    i: int,
)
    requires
        two_tokenizations(tokens, rows, codes1, offsets1, codes2, offsets2),
        0 <= i < rows.len(),
    ensures
        offsets1[i] <= offsets1[i + 1] <= codes1.len(),
        offsets2[i] <= offsets2[i + 1] <= codes2.len(),
        row_codes(codes1, offsets1, i) == row_codes(codes2, offsets2, i),
{
    reveal(two_tokenizations);
    law_tokenization_is_unique(
        tokens,
        row_codes(codes1, offsets1, i),
        row_codes(codes2, offsets2, i),
        rows[i]@,
        0,
    );
}

proof fn lemma_same_front(
    tokens: Seq<Seq<u8>>,
    rows: Seq<&[u8]>,
    codes1: Seq<u16>,
    offsets1: Seq<u64>,
    codes2: Seq<u16>,
    offsets2: Seq<u64>,
    n: int,
)
    requires
        two_tokenizations(tokens, rows, codes1, offsets1, codes2, offsets2),
        0 <= n <= rows.len(),
    ensures
        offsets1[n] == offsets2[n],
        offsets1[n] <= codes1.len(),
        offsets2[n] <= codes2.len(),
        codes1.take(offsets1[n] as int) == codes2.take(offsets2[n] as int),
    decreases n,
{
    if n == 0 {
        lemma_tokenization_ends(tokens, rows, codes1, offsets1, codes2, offsets2);
        assert(codes1.take(0) =~= codes2.take(0));
    } else {
        let m = n - 1;
        lemma_same_front(tokens, rows, codes1, offsets1, codes2, offsets2, m);
        lemma_same_row(tokens, rows, codes1, offsets1, codes2, offsets2, m);
        lemma_front_extends(
            codes1,
            codes2,
            offsets1[m] as int,
            offsets1[n] as int,
            offsets2[n] as int,
        );
    }
}

proof fn lemma_front_extends(a: Seq<u16>, b: Seq<u16>, start: int, end_a: int, end_b: int)
    requires
        0 <= start <= end_a <= a.len(),
        start <= end_b <= b.len(),
        a.take(start) == b.take(start),
        a.subrange(start, end_a) == b.subrange(start, end_b),
    ensures
        end_a == end_b,
        a.take(end_a) == b.take(end_b),
{
    assert(a.subrange(start, end_a).len() == end_a - start);
    assert(b.subrange(start, end_b).len() == end_b - start);
    assert(a.take(end_a) =~= a.take(start) + a.subrange(start, end_a));
    assert(b.take(end_b) =~= b.take(start) + b.subrange(start, end_b));
}

/// Codes stand for their tokens' bytes, one after the other.
pub proof fn law_decoding_concatenates(tokens: Seq<Seq<u8>>, a: Seq<u16>, b: Seq<u16>, code: u16)
    ensures
        decode(tokens, Seq::empty()) == Seq::<u8>::empty(),
        decode(tokens, seq![code]) == tokens[code as int],
        decode(tokens, a + b) == decode(tokens, a) + decode(tokens, b),
    decreases a.len(),
{
    assert(decode(tokens, Seq::empty()) =~= Seq::<u8>::empty());
    assert(seq![code].skip(1) =~= Seq::<u16>::empty());
    assert(decode(tokens, seq![code]) =~= tokens[code as int]);
    if a.len() > 0 {
        law_decoding_concatenates(tokens, a.skip(1), b, code);
        assert((a + b).skip(1) =~= a.skip(1) + b);
        assert(decode(tokens, a + b) =~= decode(tokens, a) + decode(tokens, b));
    } else {
        assert(a + b =~= b);
        assert(decode(tokens, a + b) =~= decode(tokens, a) + decode(tokens, b));
    }
}

/// Each code of a row is taken greedily: where the codes before it end, its token stands in the
/// row, and no token that stands there is longer.
pub proof fn law_codes_are_taken_greedily(
    tokens: Seq<Seq<u8>>,
    codes: Seq<u16>,
    data: Seq<u8>,
    from: int,
    to: int,
    i: int,
)
    requires
        0 <= from <= to <= data.len(),
        tokenizes(tokens, codes, data, from, to),
        0 <= i < codes.len(),
    ensures
        ({
            let at = from + decode(tokens, codes.take(i)).len();
            let rest = data.skip(at);
            let token = tokens[codes[i] as int];
            &&& at < data.len()
            &&& codes[i] < tokens.len()
            &&& token.len() <= rest.len()
            &&& rest.take(token.len() as int) == token
            &&& forall|k: int|
                0 <= k < tokens.len() && (#[trigger] tokens[k]).len() <= rest.len() && rest.take(
                    tokens[k].len() as int,
                ) == tokens[k] ==> tokens[k].len() <= token.len()
        }),
    decreases codes.len(),
{
    if i > 0 {
        let t = tokens[codes[0] as int];
        assert(is_prefix(t, data.skip(from)));
        if codes.skip(1).len() > 0 {
            lemma_tokenizes_bounds(tokens, codes.skip(1), data, from + t.len(), to);
        }
        law_codes_are_taken_greedily(tokens, codes.skip(1), data, from + t.len(), to, i - 1);
        assert(codes.skip(1)[i - 1] == codes[i]);
        assert(codes.take(i).skip(1) =~= codes.skip(1).take(i - 1));
        assert(codes.take(i)[0] == codes[0]);
    } else {
        assert(codes.take(0) =~= Seq::<u16>::empty());
        let rest = data.skip(from);
        assert forall|k: int|
            0 <= k < tokens.len() && (#[trigger] tokens[k]).len() <= rest.len() && rest.take(
                tokens[k].len() as int,
            ) == tokens[k] implies tokens[k].len() <= tokens[codes[0] as int].len() by {
            assert(is_prefix(tokens[k], rest));
        }
    }
}

proof fn lemma_tokenizes_bounds(
    tokens: Seq<Seq<u8>>,
    codes: Seq<u16>,
    data: Seq<u8>,
    from: int,
    to: int,
)
    requires
        tokenizes(tokens, codes, data, from, to),
    ensures
        from <= to,
    decreases codes.len(),
{
    if codes.len() > 0 {
        let t = tokens[codes[0] as int];
        lemma_tokenizes_bounds(tokens, codes.skip(1), data, from + t.len(), to);
    }
}

/// The codes of rows read back: between its own offset and the next, each row has the codes that
/// stand for its bytes. The first row's codes begin at the start and the last row's end at the end.
pub proof fn law_rows_read_back(
    tokens: Seq<Seq<u8>>,
    rows: Seq<&[u8]>,
    codes: Seq<u16>,
    offsets: Seq<u64>,
    i: int,
)
    requires
        rows_tokenized(tokens, rows, codes, offsets),
    ensures
        offsets.len() == rows.len() + 1,
        offsets[0] == 0,
        offsets[rows.len() as int] == codes.len(),
        0 <= i < rows.len() ==> {
            &&& offsets[i] <= offsets[i + 1] <= codes.len()
            &&& decode(tokens, codes.subrange(offsets[i] as int, offsets[i + 1] as int)) == rows[i]@
        },
{
    if 0 <= i < rows.len() {
        assert(offsets[i] <= offsets[i + 1]);
        law_tokenizing_is_lossless(tokens, row_codes(codes, offsets, i), rows[i]@, 0);
        assert(rows[i]@.skip(0) =~= rows[i]@);
    }
}

} // verus!
