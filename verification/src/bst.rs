//! Packed store, binary-search variant: after all inserts, the accumulated
//! (key, location) rows are sorted ascending by key and laid out as a flat
//! fixed-stride table, so a lookup is a branchless binary search by
//! arithmetic offset — the node at the probed index splits the remaining
//! range in half, giving O(log n) worst-case probes. The layout is a pure
//! function of the sorted key set, so identical input reproduces identical
//! bytes. Values are packed into packages exactly as in the direct variant,
//! independent of key order.

use vstd::prelude::*;
use vstd::seq_lib::group_to_multiset_ensures;
use vstd::multiset::group_multiset_axioms;
use crate::BuildError;
use crate::bytes::u64_le_bytes;
use crate::bytes::push_u64_le;
use crate::keys::PackedKey;
use crate::keys::KeyKind;
use crate::keys::lemma_key_lt_trichotomy;
use crate::keys::lemma_key_lt_transitive;
use crate::pack::Packages;
use crate::pack::ValueLoc;
use crate::pack::loc_valid_in;
use crate::pack::bytes_at_in;
use crate::pack::extends;
use crate::pack::pack_step;
use crate::pack::pack_step_loc;
use crate::pack::lemma_extends_preserves_bytes;

verus! {

/// One accumulated row: an explicit key and the location of its value.
pub struct BstEntry {
    pub key: PackedKey,
    pub loc: ValueLoc,
}

/// Keys ascending (pairwise, so any subrange is sorted too).
pub open spec fn entries_sorted(s: Seq<BstEntry>) -> bool {
    forall|a: int, b: int|
        0 <= a < b < s.len() ==> (#[trigger] s[a]).key.key_le(&(#[trigger] s[b]).key)
}

/// No two rows share a key.
pub open spec fn entries_distinct(s: Seq<BstEntry>) -> bool {
    forall|a: int, b: int|
        0 <= a < b < s.len() ==> !(#[trigger] s[a]).key.key_eq(&(#[trigger] s[b]).key)
}

/// One serialized lookup-table row: the fixed-stride key encoding, then
/// package index, offset and length as 64-bit little-endian integers.
pub open spec fn bst_row(e: BstEntry) -> Seq<u8> {
    e.key.encoded() + u64_le_bytes(e.loc.pkg as u64) + u64_le_bytes(e.loc.off as u64)
        + u64_le_bytes(e.loc.len as u64)
}

/// The serialized lookup table: the rows in (sorted) order.
pub open spec fn bst_lookup_bytes(entries: Seq<BstEntry>) -> Seq<u8>
    decreases entries.len(),
{
    if entries.len() == 0 {
        Seq::empty()
    } else {
        bst_lookup_bytes(entries.drop_last()) + bst_row(entries.last())
    }
}

/// The serialized table is exactly one fixed-stride row per entry.
pub proof fn lemma_bst_lookup_len(entries: Seq<BstEntry>, kind: KeyKind)
    requires
        forall|i: int|
            0 <= i < entries.len() ==> (#[trigger] entries[i]).key.wf() && entries[i].key.spec_kind()
                == kind,
    ensures
        bst_lookup_bytes(entries).len() == entries.len() * (kind.spec_stride() + 24),
    decreases entries.len(),
{
    if entries.len() > 0 {
        assert(forall|i: int|
            0 <= i < entries.len() - 1 ==> #[trigger] entries.drop_last()[i] == entries[i]);
        lemma_bst_lookup_len(entries.drop_last(), kind);
        entries.last().key.lemma_encoded_len();
        let row = kind.spec_stride() + 24;
        assert(bst_lookup_bytes(entries).len() == (entries.len() - 1) * row + row);
        assert((entries.len() - 1) * row + row == entries.len() * row) by (nonlinear_arith);
    }
}

/// Packed store whose lookup table is binary-searchable by explicit key;
/// used for normal terms and for documents. Inserting never fails for lack
/// of lookup space: only the per-package value-size cap applies.
pub struct BstStore {
    pub packs: Packages,
    pub entries: Vec<BstEntry>,
    pub kind: KeyKind,
}

impl BstStore {
    /// The key of the `i`-th row.
    pub open spec fn key_at(&self, i: int) -> PackedKey {
        self.entries@[i].key
    }

    /// The value bytes of the `i`-th row.
    pub open spec fn val_at(&self, i: int) -> Seq<u8> {
        bytes_at_in(self.packs.model(), self.entries@[i].loc)
    }

    pub open spec fn len(&self) -> nat {
        self.entries@.len()
    }

    /// The emitted packages.
    pub open spec fn packages(&self) -> Seq<Seq<u8>> {
        self.packs.model()
    }

    pub open spec fn max_value_size(&self) -> nat {
        self.packs.max_size as nat
    }

    pub open spec fn wf(&self) -> bool {
        &&& self.packs.wf()
        &&& forall|i: int| 0 <= i < self.entries@.len() ==> {
            &&& (#[trigger] self.entries@[i]).key.wf()
            &&& self.entries@[i].key.spec_kind() == self.kind
            &&& loc_valid_in(self.packs.model(), self.entries@[i].loc)
        }
        &&& entries_distinct(self.entries@)
    }

    pub fn new(max_package_size: usize, kind: KeyKind) -> (r: BstStore)
        requires
            max_package_size >= 1,
        ensures
            r.wf(),
            r.len() == 0,
            r.packages() == Seq::<Seq<u8>>::empty(),
            r.max_value_size() == max_package_size,
            r.kind == kind,
    {
        BstStore { packs: Packages::new(max_package_size), entries: Vec::new(), kind }
    }

    /// Appends one (key, value) row. Always succeeds unless the single
    /// value is larger than one whole package, which is a fatal error that
    /// leaves the store unchanged.
    pub fn insert(&mut self, key: PackedKey, value: &Vec<u8>) -> (r: Result<(), BuildError>)
        requires
            old(self).wf(),
            key.wf(),
            key.spec_kind() == old(self).kind,
            forall|i: int|
                0 <= i < old(self).len() ==> !(#[trigger] old(self).key_at(i)).key_eq(&key),
        ensures
            final(self).wf(),
            final(self).kind == old(self).kind,
            final(self).max_value_size() == old(self).max_value_size(),
            match r {
                Ok(()) => {
                    &&& value@.len() <= old(self).max_value_size()
                    &&& final(self).len() == old(self).len() + 1
                    &&& final(self).key_at(old(self).len() as int) == key
                    &&& final(self).val_at(old(self).len() as int) == value@
                    &&& forall|i: int|
                        0 <= i < old(self).len() ==> #[trigger] final(self).entries@[i] == old(
                            self,
                        ).entries@[i] && final(self).val_at(i) == old(self).val_at(i)
                    &&& extends(old(self).packages(), final(self).packages())
                    // packing is the pure greedy function of the values
                    &&& final(self).packages() == pack_step(
                        old(self).packages(),
                        value@,
                        old(self).packs.max_size as nat,
                    )
                    &&& final(self).entries@[old(self).len() as int].loc == pack_step_loc(
                        old(self).packages(),
                        value@,
                        old(self).packs.max_size as nat,
                    )
                },
                Err(e) => {
                    &&& e == BuildError::OversizedValue
                    &&& value@.len() > old(self).max_value_size()
                    &&& final(self).entries@ == old(self).entries@
                    &&& final(self).packages() == old(self).packages()
                },
            },
    {
        let ghost m0 = self.packs.model();
        match self.packs.append(value) {
            Err(e) => Err(e),
            Ok(loc) => {
                proof {
                    assert forall|i: int| 0 <= i < self.entries@.len() implies loc_valid_in(
                        self.packs.model(),
                        (#[trigger] self.entries@[i]).loc,
                    ) && bytes_at_in(self.packs.model(), self.entries@[i].loc) == bytes_at_in(
                        m0,
                        self.entries@[i].loc,
                    ) by {
                        lemma_extends_preserves_bytes(m0, self.packs.model(), self.entries@[i].loc);
                    }
                }
                let ghost olde = self.entries@;
                self.entries.push(BstEntry { key, loc });
                proof {
                    let s = self.entries@;
                    assert forall|a: int, b: int| 0 <= a < b < s.len() implies !(
                    #[trigger] s[a]).key.key_eq(&(#[trigger] s[b]).key) by {
                        if b < s.len() - 1 {
                            assert(s[a] == olde[a] && s[b] == olde[b]);
                        } else {
                            assert(s[a] == olde[a] && s[b].key == key);
                            assert(!old(self).key_at(a).key_eq(&key));
                        }
                    }
                }
                Ok(())
            },
        }
    }

    /// Sorts the rows ascending by key, finalizing the table layout.
    fn sort_entries(&mut self)
        requires
            old(self).wf(),
        ensures
            final(self).wf(),
            final(self).kind == old(self).kind,
            final(self).packs == old(self).packs,
            final(self).entries@.to_multiset() == old(self).entries@.to_multiset(),
            final(self).entries@.len() == old(self).entries@.len(),
            entries_sorted(final(self).entries@),
    {
        broadcast use group_to_multiset_ensures;
        broadcast use group_multiset_axioms;

        let n = self.entries.len();
        let ghost orig = self.entries@;
        if n == 0 {
            return;
        }
        let mut i: usize = 1;
        while i < n
            invariant
                self.wf(),
                self.kind == old(self).kind,
                self.packs == old(self).packs,
                n == self.entries@.len(),
                1 <= i <= n,
                self.entries@.to_multiset() == orig.to_multiset(),
                forall|a: int, b: int|
                    0 <= a < b < i ==> (#[trigger] self.entries@[a]).key.key_le(
                        &(#[trigger] self.entries@[b]).key,
                    ),
            decreases n - i,
        {
            let ghost pre = self.entries@;
            let e = self.entries.remove(i);
            let ghost v1 = self.entries@;
            proof {
                assert(e == pre[i as int]);
                vstd::seq_lib::to_multiset_remove(pre, i as int);
                assert(v1.to_multiset() == pre.to_multiset().remove(e));
            }
            let mut j: usize = i;
            while j > 0 && e.key.lt(&self.entries[j - 1].key)
                invariant
                    self.entries@ == v1,
                    v1.len() == n - 1,
                    0 <= j <= i,
                    i <= n - 1,
                    forall|k: int| j <= k < i ==> e.key.key_lt(&(#[trigger] v1[k]).key),
                    forall|a: int, b: int|
                        0 <= a < b < i ==> (#[trigger] v1[a]).key.key_le(
                            &(#[trigger] v1[b]).key,
                        ),
                decreases j,
            {
                proof {
                    assert forall|k: int| j - 1 <= k < i implies e.key.key_lt(
                        &(#[trigger] v1[k]).key,
                    ) by {
                        if k > j - 1 {
                        } else {
                            assert(e.key.key_lt(&v1[j - 1].key));
                        }
                    }
                }
                j -= 1;
            }
            self.entries.insert(j, e);
            proof {
                let w = self.entries@;
                assert(w == v1.insert(j as int, e));
                vstd::seq_lib::to_multiset_insert(v1, j as int, e);
                assert(w.to_multiset() == v1.to_multiset().insert(e));
                assert(w.to_multiset() =~= pre.to_multiset()) by {
                    assert(pre.to_multiset().count(e) > 0) by {
                        assert(pre[i as int] == e && pre.contains(e));
                        vstd::seq_lib::to_multiset_contains(pre, e);
                    }
                }
                // the new prefix of length i + 1 is sorted
                assert forall|a: int, b: int| 0 <= a < b < i + 1 implies (
                #[trigger] w[a]).key.key_le(&(#[trigger] w[b]).key) by {
                    if j > 0 {
                        lemma_key_lt_trichotomy(&e.key, &v1[j - 1].key);
                    }
                    if a < j && b == j {
                        // w[a] == v1[a] <= v1[j-1] <= e
                        if a < j - 1 {
                            lemma_key_lt_transitive(&v1[a].key, &v1[j - 1].key, &e.key);
                        }
                    } else if a == j && b > j {
                        assert(e.key.key_lt(&v1[b - 1].key));
                    } else if a < j && b > j {
                        assert(v1[a].key.key_le(&v1[b - 1].key));
                    }
                }
                // well-formedness of each row is preserved under permutation
                assert forall|k: int| 0 <= k < w.len() implies {
                    &&& (#[trigger] w[k]).key.wf()
                    &&& w[k].key.spec_kind() == self.kind
                    &&& loc_valid_in(self.packs.model(), w[k].loc)
                } by {
                    if k < j {
                        assert(w[k] == pre[k]);
                    } else if k == j {
                        assert(w[k] == pre[i as int]);
                    } else if k <= i {
                        assert(w[k] == pre[k - 1]);
                    } else {
                        assert(w[k] == pre[k]);
                    }
                }
                // distinctness is preserved under permutation
                assert forall|a: int, b: int| 0 <= a < b < w.len() implies !(
                #[trigger] w[a]).key.key_eq(&(#[trigger] w[b]).key) by {
                    let a0 = sorted_source_index(pre, i as int, j as int, a);
                    let b0 = sorted_source_index(pre, i as int, j as int, b);
                    assert(w[a] == pre[a0] && w[b] == pre[b0] && a0 != b0);
                    if a0 < b0 {
                        assert(!pre[a0].key.key_eq(&pre[b0].key));
                    } else {
                        assert(!pre[b0].key.key_eq(&pre[a0].key));
                        lemma_key_lt_trichotomy(&pre[a0].key, &pre[b0].key);
                        lemma_key_lt_trichotomy(&pre[b0].key, &pre[a0].key);
                    }
                }
            }
            i += 1;
        }
    }

    /// Finalizes the store: sorts the rows ascending by key and returns the
    /// serialized lookup table. The packages are untouched: two adjacent
    /// keys in the table may reference non-adjacent packages.
    pub fn serialise(&mut self) -> (lookup: Vec<u8>)
        requires
            old(self).wf(),
        ensures
            final(self).wf(),
            final(self).kind == old(self).kind,
            final(self).packs == old(self).packs,
            final(self).entries@.to_multiset() == old(self).entries@.to_multiset(),
            final(self).entries@.len() == old(self).entries@.len(),
            entries_sorted(final(self).entries@),
            lookup@ == bst_lookup_bytes(final(self).entries@),
    {
        self.sort_entries();
        let mut out = Vec::<u8>::new();
        let n = self.entries.len();
        let mut i: usize = 0;
        while i < n
            invariant
                self.wf(),
                n == self.entries@.len(),
                0 <= i <= n,
                out@ == bst_lookup_bytes(self.entries@.take(i as int)),
            decreases n - i,
        {
            self.entries[i].key.encode_into(&mut out);
            let loc = ValueLoc {
                pkg: self.entries[i].loc.pkg,
                off: self.entries[i].loc.off,
                len: self.entries[i].loc.len,
            };
            push_u64_le(&mut out, loc.pkg as u64);
            push_u64_le(&mut out, loc.off as u64);
            push_u64_le(&mut out, loc.len as u64);
            proof {
                let t = self.entries@.take(i + 1);
                assert(t.drop_last() =~= self.entries@.take(i as int));
                assert(t.last() == self.entries@[i as int]);
                assert(out@ =~= bst_lookup_bytes(t));
            }
            i += 1;
        }
        proof {
            assert(self.entries@.take(n as int) =~= self.entries@);
        }
        out
    }

    /// Binary search over the sorted table. Finds the value stored under a
    /// present key; reports absence without a false match.
    pub fn lookup(&self, key: &PackedKey) -> (r: Option<Vec<u8>>)
        requires
            self.wf(),
            entries_sorted(self.entries@),
        ensures
            match r {
                Some(v) => exists|i: int|
                    0 <= i < self.len() && (#[trigger] self.key_at(i)).key_eq(key) && v@
                        == self.val_at(i),
                None => forall|i: int|
                    0 <= i < self.len() ==> !(#[trigger] self.key_at(i)).key_eq(key),
            },
    {
        let mut lo: usize = 0;
        let mut hi: usize = self.entries.len();
        while lo < hi
            invariant
                self.wf(),
                entries_sorted(self.entries@),
                0 <= lo <= hi <= self.entries@.len(),
                forall|i: int| 0 <= i < lo ==> (#[trigger] self.entries@[i]).key.key_lt(key),
                forall|i: int|
                    hi <= i < self.entries@.len() ==> key.key_lt(
                        &(#[trigger] self.entries@[i]).key,
                    ),
            decreases hi - lo,
        {
            let mid = lo + (hi - lo) / 2;
            if self.entries[mid].key.lt(key) {
                proof {
                    assert forall|i: int| 0 <= i < mid + 1 implies (
                    #[trigger] self.entries@[i]).key.key_lt(key) by {
                        if i < mid {
                            assert(self.entries@[i].key.key_le(&self.entries@[mid as int].key));
                            lemma_key_lt_transitive(
                                &self.entries@[i].key,
                                &self.entries@[mid as int].key,
                                key,
                            );
                        }
                    }
                }
                lo = mid + 1;
            } else if key.lt(&self.entries[mid].key) {
                proof {
                    assert forall|i: int| mid <= i < self.entries@.len() implies key.key_lt(
                        &(#[trigger] self.entries@[i]).key,
                    ) by {
                        if i > mid {
                            assert(self.entries@[mid as int].key.key_le(&self.entries@[i].key));
                            lemma_key_lt_transitive(
                                key,
                                &self.entries@[mid as int].key,
                                &self.entries@[i].key,
                            );
                        }
                    }
                }
                hi = mid;
            } else {
                proof {
                    lemma_key_lt_trichotomy(&self.entries@[mid as int].key, key);
                    assert(self.entries@[mid as int].key.key_eq(key));
                }
                let loc = ValueLoc {
                    pkg: self.entries[mid].loc.pkg,
                    off: self.entries[mid].loc.off,
                    len: self.entries[mid].loc.len,
                };
                let v = self.packs.read(loc);
                proof {
                    assert(self.key_at(mid as int).key_eq(key) && v@ == self.val_at(mid as int));
                }
                return Some(v);
            }
        }
        proof {
            assert forall|i: int| 0 <= i < self.len() implies !(#[trigger] self.key_at(
                i,
            )).key_eq(key) by {
                lemma_key_lt_trichotomy(&self.entries@[i].key, key);
            }
        }
        None
    }

    /// Number of packages emitted so far.
    pub fn package_count(&self) -> (r: usize)
        ensures
            r == self.packages().len(),
    {
        self.packs.packages.len()
    }

    /// The finalized sequence of package blobs.
    pub fn into_packages(self) -> (r: Vec<Vec<u8>>)
        ensures
            r@.map_values(|p: Vec<u8>| p@) == self.packages(),
    {
        self.packs.into_packages()
    }
}

/// Rows whose keys agree in kind and payload and whose locations agree
/// serialize identically, whatever the keys' in-memory representation.
pub proof fn lemma_bst_lookup_bytes_by_model(s1: Seq<BstEntry>, s2: Seq<BstEntry>)
    requires
        s1.len() == s2.len(),
        forall|i: int|
            0 <= i < s1.len() ==> {
                &&& (#[trigger] s1[i]).key.spec_kind() == (#[trigger] s2[i]).key.spec_kind()
                &&& s1[i].key.str_view() == s2[i].key.str_view()
                &&& s1[i].key.u32_view() == s2[i].key.u32_view()
                &&& s1[i].loc == s2[i].loc
            },
    ensures
        bst_lookup_bytes(s1) == bst_lookup_bytes(s2),
    decreases s1.len(),
{
    if s1.len() > 0 {
        assert(forall|i: int|
            0 <= i < s1.len() - 1 ==> #[trigger] s1.drop_last()[i] == s1[i]);
        assert(forall|i: int|
            0 <= i < s2.len() - 1 ==> #[trigger] s2.drop_last()[i] == s2[i]);
        lemma_bst_lookup_bytes_by_model(s1.drop_last(), s2.drop_last());
        assert(s1.last().key.encoded() == s2.last().key.encoded());
        assert(bst_row(s1.last()) == bst_row(s2.last()));
    }
}

/// Determinism of the table layout: the sorted order of a set of
/// distinct-keyed rows is unique, so the serialized lookup table is a pure
/// function of the inserted (key, location) set, whatever the insertion
/// order — identical input reproduces identical bytes.
pub proof fn lemma_bst_layout_unique(s1: Seq<BstEntry>, s2: Seq<BstEntry>)
    requires
        entries_sorted(s1),
        entries_sorted(s2),
        entries_distinct(s1),
        entries_distinct(s2),
        s1.to_multiset() == s2.to_multiset(),
    ensures
        s1 == s2,
    decreases s1.len(),
{
    broadcast use group_to_multiset_ensures;
    broadcast use group_multiset_axioms;

    vstd::seq_lib::to_multiset_len(s1);
    vstd::seq_lib::to_multiset_len(s2);
    if s1.len() == 0 {
        assert(s1 =~= s2);
    } else {
        let a = s1[0];
        let b = s2[0];
        assert(s1.contains(a) && s2.contains(b));
        vstd::seq_lib::to_multiset_contains(s1, a);
        vstd::seq_lib::to_multiset_contains(s2, a);
        vstd::seq_lib::to_multiset_contains(s1, b);
        vstd::seq_lib::to_multiset_contains(s2, b);
        assert(s2.contains(a) && s1.contains(b));
        let j = choose|j: int| 0 <= j < s2.len() && s2[j] == a;
        let i = choose|i: int| 0 <= i < s1.len() && s1[i] == b;
        if j != 0 {
            // both heads are minimal, so their keys are equivalent — which
            // distinctness of s2 forbids for two different rows
            assert(s2[0].key.key_le(&s2[j].key));
            assert(b.key.key_le(&a.key));
            if i != 0 {
                assert(s1[0].key.key_le(&s1[i].key));
                assert(a.key.key_le(&b.key));
                lemma_key_lt_trichotomy(&a.key, &b.key);
                assert(a.key.key_eq(&b.key));
                assert(!s2[0].key.key_eq(&s2[j].key));
                lemma_key_lt_transitive(&b.key, &a.key, &a.key);
                assert(false);
            } else {
                assert(a == b);
                assert(!s2[0].key.key_eq(&s2[j].key));
                lemma_key_lt_trichotomy(&a.key, &a.key);
                assert(false);
            }
        }
        assert(s1[0] == s2[0]);
        let t1 = s1.remove(0);
        let t2 = s2.remove(0);
        vstd::seq_lib::to_multiset_remove(s1, 0);
        vstd::seq_lib::to_multiset_remove(s2, 0);
        assert(t1.to_multiset() == t2.to_multiset());
        assert(forall|k: int| 0 <= k < t1.len() ==> #[trigger] t1[k] == s1[k + 1]);
        assert(forall|k: int| 0 <= k < t2.len() ==> #[trigger] t2[k] == s2[k + 1]);
        lemma_bst_layout_unique(t1, t2);
        assert(s1 =~= s2) by {
            assert(forall|k: int| 1 <= k < s1.len() ==> #[trigger] s1[k] == t1[k - 1]);
            assert(forall|k: int| 1 <= k < s2.len() ==> #[trigger] s2[k] == t2[k - 1]);
        }
    }
}

/// Where row `k` of `pre.remove(i).insert(j, pre[i])` came from in `pre`.
pub open spec fn sorted_source_index(pre: Seq<BstEntry>, i: int, j: int, k: int) -> int {
    if k == j {
        i
    } else if k < j {
        k
    } else if k <= i {
        k - 1
    } else {
        k
    }
}

} // verus!
