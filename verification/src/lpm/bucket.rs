//! Tokens that share their first eight bytes.

use vstd::prelude::*;

use crate::bytes::byte_range;
use crate::bytes::law_le_bytes_inverts_le_value;
use crate::bytes::le_value;
use crate::bytes::lemma_byte_range_values;
use crate::lpm::window::lemma_le_value_injective;
use crate::lpm::window::lemma_le_value_take;
use crate::lpm::window::lemma_mask;
use crate::lpm::window::mask_u64;
use crate::lpm::window::MAX_SUFFIX;

verus! {

/// Whether bit `l` is set.
pub open spec fn has_bit(m: u16, l: u16) -> bool {
    (m >> l) & 1 == 1
}

/// Setting a bit changes no other.
pub proof fn lemma_set_bit(m: u16, l: u16)
    requires
        l < 16,
    ensures
        forall|k: u16|
            k < 16 ==> (#[trigger] has_bit(m | (1u16 << l), k) <==> k == l || has_bit(m, k)),
{
    assert forall|k: u16| k < 16 implies (#[trigger] has_bit(m | (1u16 << l), k) <==> k == l
        || has_bit(m, k)) by {
        assert(((m | (1u16 << l)) >> k) & 1 == 1 <==> k == l || (m >> k) & 1 == 1) by (bit_vector)
            requires
                l < 16,
                k < 16,
        ;
    }
}

/// Zero has no bit set.
pub proof fn lemma_no_bits()
    ensures
        forall|k: u16| k < 16 ==> !#[trigger] has_bit(0, k),
{
    assert forall|k: u16| k < 16 implies !#[trigger] has_bit(0, k) by {
        assert((0u16 >> k) & 1 == 0) by (bit_vector)
            requires
                k < 16,
        ;
    }
}

/// A token longer than eight bytes: its bytes past the first eight, packed, and their number.
#[derive(Clone, Copy, Debug, PartialEq, Eq, Structural)]
pub struct LongEntry {
    pub suffix: u64,
    pub slen: u8,
    pub token: u16,
}

impl LongEntry {
    /// Whether the suffix has one to eight bytes.
    pub open spec fn wf(self) -> bool {
        1 <= self.slen <= 8 && self.suffix < byte_range(self.slen as nat)
    }

    /// Whether the suffix is the first bytes of those packed in `val`, of which there are
    /// `max_slen`.
    pub open spec fn matches(self, val: u64, max_slen: nat) -> bool {
        self.slen <= max_slen && val as nat % byte_range(self.slen as nat) == self.suffix
    }
}

/// Whether `a` comes no later than `b`: by suffix length, then by suffix.
pub open spec fn entry_le(a: LongEntry, b: LongEntry) -> bool {
    a.slen < b.slen || (a.slen == b.slen && a.suffix <= b.suffix)
}

/// Whether entries are in order.
pub open spec fn entries_sorted(entries: Seq<LongEntry>) -> bool {
    forall|i: int, j: int|
        0 <= i < j < entries.len() ==> entry_le(#[trigger] entries[i], #[trigger] entries[j])
}

/// `slice::sort_unstable_by_key`: puts the entries in order and keeps each of them.
#[verifier::external_body]
fn sort_entries(entries: &mut Vec<LongEntry>)
    ensures
        final(entries)@.to_multiset() == old(entries)@.to_multiset(),
        entries_sorted(final(entries)@),
{
    entries.sort_unstable_by_key(|e| (e.slen, e.suffix));
}

/// Buckets with more entries are searched by suffix length.
pub const PROMOTE_THRESHOLD: usize = 48;

/// Tokens that share their first eight bytes, in order of suffix length and suffix.
#[derive(Debug)]
pub enum LongBucket {
    /// Few tokens, searched one by one.
    Linear(Vec<LongEntry>),
    /// Many tokens. Bit `s` of `present` says whether a suffix has length `s`; the tokens with
    /// suffixes of length `s` end at `ends[s]`.
    Grouped { entries: Vec<LongEntry>, ends: [u32; 9], present: u16 },
}

impl LongBucket {
    /// The tokens.
    pub open spec fn entries(self) -> Seq<LongEntry> {
        match self {
            LongBucket::Linear(entries) => entries@,
            LongBucket::Grouped { entries, ends, present } => entries@,
        }
    }

    /// Whether tokens are in order and, where they are grouped, the groups are right.
    pub open spec fn wf(self) -> bool {
        &&& entries_sorted(self.entries())
        &&& forall|i: int| 0 <= i < self.entries().len() ==> (#[trigger] self.entries()[i]).wf()
        &&& self matches LongBucket::Grouped { entries, ends, present } ==> {
            &&& ends@[0] == 0
            &&& groups_end(entries@, ends@, 9)
            &&& forall|s: u16|
                1 <= s <= 8 ==> (#[trigger] has_bit(present, s) <==> ends@[s - 1] < ends@[s as int])
        }
    }

    /// The bucket of these tokens.
    #[verifier::rlimit(40)]
    pub fn build(entries: Vec<LongEntry>) -> (r: LongBucket)
        requires
            entries@.len() <= u32::MAX,
            forall|i: int| 0 <= i < entries@.len() ==> (#[trigger] entries@[i]).wf(),
        ensures
            r.wf(),
            r.entries().to_multiset() == entries@.to_multiset(),
    {
        let mut entries = entries;
        let ghost given = entries@;
        sort_entries(&mut entries);
        proof {
            lemma_same_members(given, entries@);
            assert forall|i: int| 0 <= i < entries@.len() implies (#[trigger] entries@[i]).wf() by {
                assert(entries@.contains(entries@[i]));
                let k = choose|k: int| 0 <= k < given.len() && given[k] == entries@[i];
                assert(given[k].wf());
            }
            given.to_multiset_ensures();
            entries@.to_multiset_ensures();
        }
        if entries.len() <= PROMOTE_THRESHOLD {
            return LongBucket::Linear(entries);
        }
        let mut ends: [u32; 9] = [0u32; 9];
        let mut present: u16 = 0;
        proof {
            lemma_no_bits();
        }
        let mut s: usize = 1;
        while s < 9
            invariant
                1 <= s <= 9,
                entries@.len() <= u32::MAX,
                entries_sorted(entries@),
                forall|i: int| 0 <= i < entries@.len() ==> (#[trigger] entries@[i]).wf(),
                ends@.len() == 9,
                ends@[0] == 0,
                groups_end(entries@, ends@, s as int),
                forall|k: u16|
                    1 <= k < s ==> (#[trigger] has_bit(present, k) <==> ends@[k - 1]
                        < ends@[k as int]),
                forall|k: u16| s <= k < 16 ==> !#[trigger] has_bit(present, k),
            decreases 9 - s,
        {
            let start: usize = ends[s - 1] as usize;
            let mut p: usize = start;
            while p < entries.len() && entries[p].slen as usize == s
                invariant
                    1 <= s <= 8,
                    ends@.len() == 9,
                    start == ends@[s - 1],
                    start <= p <= entries@.len() <= u32::MAX,
                    groups_end(entries@, ends@, s as int),
                    ends@[0] == 0,
                    forall|i: int| start <= i < p ==> (#[trigger] entries@[i]).slen == s,
                decreases entries@.len() - p,
            {
                p += 1;
            }
            if p > start {
                proof {
                    lemma_set_bit(present, s as u16);
                }
                present = present | (1u16 << (s as u16));
            }
            let ghost before = ends@;
            ends[s] = p as u32;
            assert(groups_end(entries@, ends@, s + 1)) by {
                assert forall|t: int, i: int|
                    0 <= t < s + 1 && 0 <= i < entries@.len() implies (#[trigger] entries@[i].slen
                    <= t <==> i < #[trigger] ends@[t]) by {
                    if t < s {
                        assert(before[t] == ends@[t]);
                    } else if i < start {
                        assert(entries@[i].slen <= s - 1);
                    } else if i >= p && p < entries@.len() {
                        assert(entries@[p as int].slen != s);
                        assert(!(entries@[p as int].slen <= s - 1)) by {
                            assert(before[s - 1] == start);
                        }
                        if i > p {
                            assert(entry_le(entries@[p as int], entries@[i]));
                        }
                    }
                }
            }
            s += 1;
        }
        LongBucket::Grouped { entries, ends, present }
    }

    /// The token with the longest suffix among those whose suffix starts the bytes packed in
    /// `val`, of which there are `max_slen`; with the length of that suffix.
    pub fn find(&self, val: u64, max_slen: usize) -> (r: Option<(u16, usize)>)
        requires
            self.wf(),
        ensures
            r is None ==> forall|i: int|
                0 <= i < self.entries().len() ==> !(#[trigger] self.entries()[i]).matches(
                    val,
                    max_slen as nat,
                ),
            r matches Some((token, slen)) ==> {
                &&& exists|i: int|
                    0 <= i < self.entries().len() && (#[trigger] self.entries()[i]).matches(
                        val,
                        max_slen as nat,
                    ) && self.entries()[i].token == token && self.entries()[i].slen == slen
                &&& forall|i: int|
                    0 <= i < self.entries().len() && (#[trigger] self.entries()[i]).matches(
                        val,
                        max_slen as nat,
                    ) ==> self.entries()[i].slen <= slen
            },
    {
        let longest: usize = if max_slen < MAX_SUFFIX {
            max_slen
        } else {
            MAX_SUFFIX
        };
        assert forall|i: int| 0 <= i < self.entries().len() implies (
        #[trigger] self.entries()[i]).matches(val, max_slen as nat) == self.entries()[i].matches(
            val,
            longest as nat,
        ) by {
            assert(self.entries()[i].wf());
        }
        match self {
            LongBucket::Linear(entries) => find_linear(entries, val, longest),
            LongBucket::Grouped { entries, ends, present } => find_grouped(
                entries,
                ends,
                *present,
                val,
                longest,
            ),
        }
    }
}

/// Whether `ends` says, for suffix lengths below `n`, where the tokens up to that length end.
pub open spec fn groups_end(entries: Seq<LongEntry>, ends: Seq<u32>, n: int) -> bool {
    &&& forall|t: int| 0 <= t < n ==> #[trigger] ends[t] <= entries.len()
    &&& forall|t: int, i: int|
        0 <= t < n && 0 <= i < entries.len() ==> (#[trigger] entries[i].slen <= t <==> i
            < #[trigger] ends[t])
}

/// Sequences with the same elements contain the same.
pub proof fn lemma_same_members(a: Seq<LongEntry>, b: Seq<LongEntry>)
    requires
        a.to_multiset() == b.to_multiset(),
    ensures
        forall|e: LongEntry| a.contains(e) <==> b.contains(e),
        a.len() == b.len(),
{
    a.to_multiset_ensures();
    b.to_multiset_ensures();
    assert forall|e: LongEntry| a.contains(e) <==> b.contains(e) by {
        assert(a.contains(e) <==> a.to_multiset().count(e) > 0);
        assert(b.contains(e) <==> b.to_multiset().count(e) > 0);
    }
}

fn find_linear(entries: &Vec<LongEntry>, val: u64, max_slen: usize) -> (r: Option<(u16, usize)>)
    requires
        entries_sorted(entries@),
        forall|i: int| 0 <= i < entries@.len() ==> (#[trigger] entries@[i]).wf(),
    ensures
        r is None ==> forall|i: int|
            0 <= i < entries@.len() ==> !(#[trigger] entries@[i]).matches(val, max_slen as nat),
        r matches Some((token, slen)) ==> {
            &&& exists|i: int|
                0 <= i < entries@.len() && (#[trigger] entries@[i]).matches(val, max_slen as nat)
                    && entries@[i].token == token && entries@[i].slen == slen
            &&& forall|i: int|
                0 <= i < entries@.len() && (#[trigger] entries@[i]).matches(val, max_slen as nat)
                    ==> entries@[i].slen <= slen
        },
{
    let mut i: usize = entries.len();
    while i > 0
        invariant
            i <= entries@.len(),
            entries_sorted(entries@),
            forall|k: int| 0 <= k < entries@.len() ==> (#[trigger] entries@[k]).wf(),
            forall|k: int|
                i <= k < entries@.len() ==> !(#[trigger] entries@[k]).matches(
                    val,
                    max_slen as nat,
                ),
        decreases i,
    {
        i -= 1;
        let e = entries[i];
        let elen: usize = e.slen as usize;
        proof {
            assert(entries@[i as int].wf());
            lemma_mask(val, elen as nat);
        }
        if elen <= max_slen && val & mask_u64(elen) == e.suffix {
            proof {
                assert(entries@[i as int].matches(val, max_slen as nat));
                assert forall|k: int|
                    0 <= k < entries@.len() && (#[trigger] entries@[k]).matches(
                        val,
                        max_slen as nat,
                    ) implies entries@[k].slen <= elen by {
                    if k < i {
                        assert(entry_le(entries@[k], entries@[i as int]));
                    }
                }
            }
            return Some((e.token, elen));
        }
    }
    None
}

#[verifier::rlimit(40)]
fn find_grouped(
    entries: &Vec<LongEntry>,
    ends: &[u32; 9],
    present: u16,
    val: u64,
    max_slen: usize,
) -> (r: Option<(u16, usize)>)
    requires
        entries_sorted(entries@),
        forall|i: int| 0 <= i < entries@.len() ==> (#[trigger] entries@[i]).wf(),
        ends@[0] == 0,
        groups_end(entries@, ends@, 9),
        forall|s: u16|
            1 <= s <= 8 ==> (#[trigger] has_bit(present, s) <==> ends@[s - 1] < ends@[s as int]),
        max_slen <= 8,
    ensures
        r is None ==> forall|i: int|
            0 <= i < entries@.len() ==> !(#[trigger] entries@[i]).matches(val, max_slen as nat),
        r matches Some((token, slen)) ==> {
            &&& exists|i: int|
                0 <= i < entries@.len() && (#[trigger] entries@[i]).matches(val, max_slen as nat)
                    && entries@[i].token == token && entries@[i].slen == slen
            &&& forall|i: int|
                0 <= i < entries@.len() && (#[trigger] entries@[i]).matches(val, max_slen as nat)
                    ==> entries@[i].slen <= slen
        },
{
    let mut slen: usize = max_slen;
    while slen > 0
        invariant
            slen <= max_slen <= 8,
            ends@.len() == 9,
            entries_sorted(entries@),
            forall|i: int| 0 <= i < entries@.len() ==> (#[trigger] entries@[i]).wf(),
            groups_end(entries@, ends@, 9),
            forall|s: u16|
                1 <= s <= 8 ==> (#[trigger] has_bit(present, s) <==> ends@[s - 1]
                    < ends@[s as int]),
            forall|i: int|
                0 <= i < entries@.len() && (#[trigger] entries@[i]).matches(val, max_slen as nat)
                    ==> entries@[i].slen <= slen,
        decreases slen,
    {
        proof {
            lemma_mask(val, slen as nat);
        }
        assert(has_bit(present, slen as u16) <==> ends@[slen - 1] < ends@[slen as int]);
        if (present >> (slen as u16)) & 1 == 1 {
            let target: u64 = val & mask_u64(slen);
            match find_suffix(entries, ends[slen - 1] as usize, ends[slen] as usize, slen, target) {
                Some(i) => {
                    assert(entries@[i as int].matches(val, max_slen as nat));
                    return Some((entries[i].token, slen));
                },
                None => {},
            }
        }
        assert forall|i: int|
            0 <= i < entries@.len() && (#[trigger] entries@[i]).matches(
                val,
                max_slen as nat,
            ) implies entries@[i].slen <= slen - 1 by {
            if entries@[i].slen == slen {
                assert(entries@[i].slen <= slen as int <==> i < ends@[slen as int]);
                assert(entries@[i].slen <= slen - 1 <==> i < ends@[slen - 1]);
            }
        }
        slen -= 1;
    }
    assert forall|i: int| 0 <= i < entries@.len() implies !(#[trigger] entries@[i]).matches(
        val,
        max_slen as nat,
    ) by {
        assert(entries@[i].wf());
    }
    None
}

/// Finds a suffix of length `slen` in its group by halving.
fn find_suffix(
    entries: &Vec<LongEntry>,
    start: usize,
    end: usize,
    slen: usize,
    target: u64,
) -> (r: Option<usize>)
    requires
        entries_sorted(entries@),
        forall|i: int|
            0 <= i < entries@.len() ==> ((#[trigger] entries@[i]).slen == slen <==> start <= i
                < end),
    ensures
        r matches Some(i) ==> i < entries@.len() && entries@[i as int].slen == slen
            && entries@[i as int].suffix == target,
        r is None ==> forall|i: int|
            0 <= i < entries@.len() && (#[trigger] entries@[i]).slen == slen ==> entries@[i].suffix
                != target,
{
    let mut lo: usize = start;
    let mut hi: usize = if end <= entries.len() {
        end
    } else {
        entries.len()
    };
    while lo < hi
        invariant
            start <= lo,
            hi <= entries@.len(),
            hi <= end,
            entries_sorted(entries@),
            forall|i: int|
                0 <= i < entries@.len() ==> ((#[trigger] entries@[i]).slen == slen <==> start <= i
                    < end),
            forall|i: int|
                start <= i < end && i < entries@.len() && !(lo <= i < hi) ==> (
                #[trigger] entries@[i]).suffix != target,
        decreases hi - lo,
    {
        let mid: usize = lo + (hi - lo) / 2;
        let found: u64 = entries[mid].suffix;
        assert(entries@[mid as int].slen == slen);
        if found == target {
            return Some(mid);
        }
        proof {
            assert forall|i: int|
                start <= i < end && i < entries@.len() && i <= mid && found < target implies (
            #[trigger] entries@[i]).suffix != target by {
                if i < mid {
                    assert(entry_le(entries@[i], entries@[mid as int]));
                }
            }
            assert forall|i: int|
                start <= i < end && mid <= i < entries@.len() && found > target implies (
            #[trigger] entries@[i]).suffix != target by {
                if mid < i {
                    assert(entry_le(entries@[mid as int], entries@[i]));
                }
            }
        }
        if found < target {
            lo = mid + 1;
        } else {
            hi = mid;
        }
    }
    None
}

/// An entry matches packed bytes if these start with the bytes of its suffix, as far as there are
/// that many.
pub proof fn law_entries_match_by_their_bytes(e: LongEntry, suffix: Seq<u8>, data: Seq<u8>)
    requires
        1 <= suffix.len() <= 8,
        e.slen == suffix.len(),
        e.suffix == le_value(suffix),
        data.len() == 8,
    ensures
        forall|max_slen: nat|
            #![trigger e.matches(le_value(data) as u64, max_slen)]
            e.matches(le_value(data) as u64, max_slen) <==> suffix.len() <= max_slen && data.take(
                suffix.len() as int,
            ) == suffix,
{
    lemma_le_value_take(data, suffix.len());
    law_le_bytes_inverts_le_value(data);
    lemma_byte_range_values();
    if le_value(data.take(suffix.len() as int)) == le_value(suffix) {
        lemma_le_value_injective(data.take(suffix.len() as int), suffix);
    }
}

} // verus!
