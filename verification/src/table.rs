//! A hash table with integer keys and values.

use hashbrown::HashMap;
use rustc_hash::FxBuildHasher;
use vstd::prelude::*;

verus! {

/// A hash table from a number and a tag to a number. It holds a `hashbrown::HashMap` with the
/// hasher of `rustc_hash`, whose type has a parameter that cannot be named outside that crate.
#[verifier::external_body]
pub struct FxTable {
    inner: HashMap<(u64, u8), usize, FxBuildHasher>,
}

/// What a table holds.
pub uninterp spec fn table_entries(table: FxTable) -> Map<(u64, u8), usize>;

/// What an empty table holds.
pub open spec fn no_entries() -> Map<(u64, u8), usize> {
    Map::empty()
}

impl View for FxTable {
    type V = Map<(u64, u8), usize>;

    open spec fn view(&self) -> Map<(u64, u8), usize> {
        table_entries(*self)
    }
}

impl FxTable {
    /// `HashMap::with_hasher`: a table without entries.
    #[verifier::external_body]
    pub(crate) fn new() -> (r: FxTable)
        ensures
            table_entries(r) == no_entries(),
    {
        FxTable { inner: HashMap::with_hasher(FxBuildHasher) }
    }

    /// `HashMap::insert`: puts the value under the key, in place of any value there, which it
    /// returns.
    #[verifier::external_body]
    pub(crate) fn insert(&mut self, key: (u64, u8), value: usize) -> (r: Option<usize>)
        ensures
            table_entries(*final(self)) == table_entries(*old(self)).insert(key, value),
            r == (if table_entries(*old(self)).contains_key(key) {
                Some(table_entries(*old(self))[key])
            } else {
                None
            }),
    {
        self.inner.insert(key, value)
    }

    /// `HashMap::get`: the value under the key, if there is one.
    #[verifier::external_body]
    pub(crate) fn get(&self, key: (u64, u8)) -> (r: Option<usize>)
        ensures
            r == (if table_entries(*self).contains_key(key) {
                Some(table_entries(*self)[key])
            } else {
                None
            }),
    {
        self.inner.get(&key).copied()
    }

    /// `HashMap::is_empty`: whether there is no entry.
    #[verifier::external_body]
    pub(crate) fn is_empty(&self) -> (r: bool)
        ensures
            r <==> table_entries(*self) == no_entries(),
    {
        self.inner.is_empty()
    }
}

} // verus!
