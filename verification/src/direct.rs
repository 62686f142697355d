//! Packed store, direct-lookup variant: values are keyed by insertion
//! ordinal. The lookup table is a flat array of fixed-width rows, indexed
//! directly by ordinal position, and is itself capped by a byte budget
//! independent of package sizes, because the query runtime loads it eagerly
//! while package bodies are paged lazily.

use vstd::prelude::*;
use crate::BuildError;
use crate::bytes::u64_le_bytes;
use crate::bytes::push_u64_le;
use crate::keys::PackedKey;
use crate::pack::Packages;
use crate::pack::ValueLoc;
use crate::pack::loc_valid_in;
use crate::pack::bytes_at_in;
use crate::pack::extends;
use crate::pack::pack_all;
use crate::pack::pack_all_locs;
use crate::pack::lemma_extends_preserves_bytes;

verus! {

/// Byte size of one direct-lookup row: package index, offset and length,
/// each as a 64-bit little-endian integer. The key is implicit: the row's
/// ordinal position is the caller's chosen rank order.
pub const DIRECT_ROW_SIZE: usize = 24;

/// One serialized lookup row.
pub open spec fn direct_row(e: ValueLoc) -> Seq<u8> {
    u64_le_bytes(e.pkg as u64) + u64_le_bytes(e.off as u64) + u64_le_bytes(e.len as u64)
}

/// The serialized lookup table: the rows in ordinal order.
pub open spec fn direct_lookup_bytes(entries: Seq<ValueLoc>) -> Seq<u8>
    decreases entries.len(),
{
    if entries.len() == 0 {
        Seq::empty()
    } else {
        direct_lookup_bytes(entries.drop_last()) + direct_row(entries.last())
    }
}

/// The serialized table is exactly one fixed-width row per entry.
pub proof fn lemma_direct_lookup_len(entries: Seq<ValueLoc>)
    ensures
        direct_lookup_bytes(entries).len() == entries.len() * DIRECT_ROW_SIZE,
    decreases entries.len(),
{
    if entries.len() > 0 {
        lemma_direct_lookup_len(entries.drop_last());
    }
}

/// Packed store whose lookup table is indexed by insertion ordinal; used
/// for the popular-terms partition, where order is frequency rank.
pub struct DirectStore {
    pub packs: Packages,
    pub entries: Vec<ValueLoc>,
    pub lookup_used: usize,
    pub lookup_cap: usize,
    pub inserted: Ghost<Seq<Seq<u8>>>,
}

impl DirectStore {
    /// The values admitted so far, in insertion order.
    pub open spec fn values(&self) -> Seq<Seq<u8>> {
        self.inserted@
    }

    /// The emitted packages.
    pub open spec fn packages(&self) -> Seq<Seq<u8>> {
        self.packs.model()
    }

    pub open spec fn wf(&self) -> bool {
        &&& self.packs.wf()
        &&& self.entries@.len() == self.inserted@.len()
        &&& self.packs.model() == pack_all(self.values(), self.packs.max_size as nat)
        &&& self.entries@ == pack_all_locs(self.values(), self.packs.max_size as nat)
        &&& self.lookup_used == self.entries@.len() * DIRECT_ROW_SIZE
        &&& self.lookup_used <= self.lookup_cap
        &&& forall|i: int| 0 <= i < self.entries@.len() ==> loc_valid_in(
            self.packs.model(),
            #[trigger] self.entries@[i],
        ) && bytes_at_in(self.packs.model(), self.entries@[i]) == self.inserted@[i]
    }

    pub open spec fn max_value_size(&self) -> nat {
        self.packs.max_size as nat
    }

    pub fn new(max_package_size: usize, lookup_cap: usize) -> (r: DirectStore)
        requires
            max_package_size >= 1,
        ensures
            r.wf(),
            r.values() == Seq::<Seq<u8>>::empty(),
            r.packages() == Seq::<Seq<u8>>::empty(),
            r.max_value_size() == max_package_size,
            r.lookup_cap == lookup_cap,
    {
        let r = DirectStore {
            packs: Packages::new(max_package_size),
            entries: Vec::new(),
            lookup_used: 0,
            lookup_cap,
            inserted: Ghost(Seq::empty()),
        };
        proof {
            assert(r.entries@ =~= pack_all_locs(r.values(), r.packs.max_size as nat));
        }
        r
    }

    /// Appends a value under the next ordinal. Returns `Ok(false)` without
    /// mutating anything if one more lookup row would overflow the lookup
    /// byte budget; a value larger than one whole package is a fatal error
    /// and also leaves the store unchanged. The key is implicit in the
    /// ordinal and is not recorded.
    pub fn insert(&mut self, _key: &PackedKey, value: &Vec<u8>) -> (r: Result<bool, BuildError>)
        requires
            old(self).wf(),
        ensures
            final(self).wf(),
            final(self).lookup_cap == old(self).lookup_cap,
            final(self).max_value_size() == old(self).max_value_size(),
            match r {
                Ok(true) => {
                    &&& old(self).lookup_used + DIRECT_ROW_SIZE <= old(self).lookup_cap
                    &&& value@.len() <= old(self).max_value_size()
                    &&& final(self).values() == old(self).values().push(value@)
                    &&& extends(old(self).packages(), final(self).packages())
                },
                Ok(false) => {
                    &&& old(self).lookup_used + DIRECT_ROW_SIZE > old(self).lookup_cap
                    &&& final(self).values() == old(self).values()
                    &&& final(self).packages() == old(self).packages()
                    &&& final(self).entries@ == old(self).entries@
                    &&& final(self).lookup_used == old(self).lookup_used
                },
                Err(e) => {
                    &&& e == BuildError::OversizedValue
                    &&& old(self).lookup_used + DIRECT_ROW_SIZE <= old(self).lookup_cap
                    &&& value@.len() > old(self).max_value_size()
                    &&& final(self).values() == old(self).values()
                    &&& final(self).packages() == old(self).packages()
                    &&& final(self).entries@ == old(self).entries@
                    &&& final(self).lookup_used == old(self).lookup_used
                },
            },
    {
        if self.lookup_cap < DIRECT_ROW_SIZE || self.lookup_used > self.lookup_cap
            - DIRECT_ROW_SIZE {
            return Ok(false);
        }
        let ghost m0 = self.packs.model();
        match self.packs.append(value) {
            Err(e) => Err(e),
            Ok(loc) => {
                proof {
                    assert forall|i: int| 0 <= i < self.entries@.len() implies loc_valid_in(
                        self.packs.model(),
                        #[trigger] self.entries@[i],
                    ) && bytes_at_in(self.packs.model(), self.entries@[i]) == self.inserted@[i] by {
                        lemma_extends_preserves_bytes(m0, self.packs.model(), self.entries@[i]);
                    }
                }
                self.entries.push(loc);
                self.lookup_used = self.lookup_used + DIRECT_ROW_SIZE;
                proof {
                    self.inserted@ = self.inserted@.push(value@);
                    let cap = self.packs.max_size as nat;
                    assert(self.values().drop_last() =~= old(self).values());
                    assert(self.values().last() == value@);
                    assert(self.packs.model() == pack_all(self.values(), cap));
                    assert(self.entries@ =~= pack_all_locs(self.values(), cap));
                }
                Ok(true)
            },
        }
    }

    /// Number of admitted values.
    pub fn len(&self) -> (r: usize)
        requires
            self.wf(),
        ensures
            r == self.values().len(),
    {
        self.entries.len()
    }

    /// Returns the exact bytes passed to the `i`-th admitted `insert` call.
    pub fn get(&self, i: usize) -> (r: Vec<u8>)
        requires
            self.wf(),
            i < self.values().len(),
        ensures
            r@ == self.values()[i as int],
    {
        let loc = ValueLoc {
            pkg: self.entries[i].pkg,
            off: self.entries[i].off,
            len: self.entries[i].len,
        };
        self.packs.read(loc)
    }

    /// The serialized lookup table: one fixed-width row per ordinal.
    pub fn get_raw_lookup(&self) -> (r: Vec<u8>)
        requires
            self.wf(),
        ensures
            r@ == direct_lookup_bytes(self.entries@),
    {
        let mut out = Vec::<u8>::new();
        let n = self.entries.len();
        let mut i: usize = 0;
        while i < n
            invariant
                self.wf(),
                n == self.entries@.len(),
                0 <= i <= n,
                out@ == direct_lookup_bytes(self.entries@.take(i as int)),
                out@.len() == i * DIRECT_ROW_SIZE,
            decreases n - i,
        {
            let e = &self.entries[i];
            push_u64_le(&mut out, e.pkg as u64);
            push_u64_le(&mut out, e.off as u64);
            push_u64_le(&mut out, e.len as u64);
            proof {
                let t = self.entries@.take(i + 1);
                assert(t.drop_last() =~= self.entries@.take(i as int));
                assert(t.last() == self.entries@[i as int]);
                assert(out@ =~= direct_lookup_bytes(t));
            }
            i += 1;
        }
        proof {
            assert(self.entries@.take(n as int) =~= self.entries@);
        }
        out
    }

    /// The finalized sequence of package blobs.
    pub fn into_packages(self) -> (r: Vec<Vec<u8>>)
        ensures
            r@.map_values(|p: Vec<u8>| p@) == self.packages(),
    {
        self.packs.into_packages()
    }
}

} // verus!
