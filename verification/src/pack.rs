//! Size-bounded package filling, shared by both packed-store variants.
//!
//! Values are appended to the current package; a value that would overflow
//! the current package's byte ceiling opens a new package. A single value
//! never spans two packages: one whose serialized size exceeds the maximum
//! is a fatal construction error.

use vstd::prelude::*;
use crate::BuildError;

verus! {

/// Location of one value inside the emitted packages: enough to slice the
/// value out without decoding unrelated entries.
pub struct ValueLoc {
    pub pkg: usize,
    pub off: usize,
    pub len: usize,
}

/// `loc` names a real byte range of one package of `m`.
pub open spec fn loc_valid_in(m: Seq<Seq<u8>>, loc: ValueLoc) -> bool {
    loc.pkg < m.len() && loc.off + loc.len <= m[loc.pkg as int].len()
}

/// The bytes `loc` names inside `m`.
pub open spec fn bytes_at_in(m: Seq<Seq<u8>>, loc: ValueLoc) -> Seq<u8> {
    m[loc.pkg as int].subrange(loc.off as int, loc.off + loc.len)
}

/// `m2` extends `m1`: every package of `m1` is still there, with its old
/// bytes as an unchanged prefix. Bytes once written are never rewritten.
pub open spec fn extends(m1: Seq<Seq<u8>>, m2: Seq<Seq<u8>>) -> bool {
    m2.len() >= m1.len() && forall|i: int|
        0 <= i < m1.len() ==> (#[trigger] m1[i]).is_prefix_of(m2[i])
}

/// A byte range written before an extension still holds the same bytes
/// after it.
pub proof fn lemma_extends_preserves_bytes(m1: Seq<Seq<u8>>, m2: Seq<Seq<u8>>, loc: ValueLoc)
    requires
        extends(m1, m2),
        loc_valid_in(m1, loc),
    ensures
        loc_valid_in(m2, loc),
        bytes_at_in(m2, loc) == bytes_at_in(m1, loc),
{
    assert(m1[loc.pkg as int].is_prefix_of(m2[loc.pkg as int]));
    assert(bytes_at_in(m2, loc) =~= bytes_at_in(m1, loc));
}

/// Whether a value extends the current package rather than opening a new
/// one.
pub open spec fn pack_fits(m: Seq<Seq<u8>>, value: Seq<u8>, cap: nat) -> bool {
    m.len() > 0 && m.last().len() + value.len() <= cap
}

/// The package sequence after appending one value.
pub open spec fn pack_step(m: Seq<Seq<u8>>, value: Seq<u8>, cap: nat) -> Seq<Seq<u8>> {
    if pack_fits(m, value, cap) {
        m.update(m.len() - 1, m.last() + value)
    } else {
        m.push(value)
    }
}

/// Where that value lands.
pub open spec fn pack_step_loc(m: Seq<Seq<u8>>, value: Seq<u8>, cap: nat) -> ValueLoc {
    if pack_fits(m, value, cap) {
        ValueLoc {
            pkg: (m.len() - 1) as usize,
            off: m.last().len() as usize,
            len: value.len() as usize,
        }
    } else {
        ValueLoc { pkg: m.len() as usize, off: 0, len: value.len() as usize }
    }
}

/// The packages a sequence of appended values produces: packing is a pure
/// function of the values and the ceiling, so identical input reproduces
/// identical packages.
pub open spec fn pack_all(values: Seq<Seq<u8>>, cap: nat) -> Seq<Seq<u8>>
    decreases values.len(),
{
    if values.len() == 0 {
        Seq::empty()
    } else {
        pack_step(pack_all(values.drop_last(), cap), values.last(), cap)
    }
}

/// The locations those values land at, in append order.
pub open spec fn pack_all_locs(values: Seq<Seq<u8>>, cap: nat) -> Seq<ValueLoc>
    decreases values.len(),
{
    if values.len() == 0 {
        Seq::empty()
    } else {
        pack_all_locs(values.drop_last(), cap).push(
            pack_step_loc(pack_all(values.drop_last(), cap), values.last(), cap),
        )
    }
}

/// One location per appended value.
pub proof fn lemma_pack_all_locs_len(values: Seq<Seq<u8>>, cap: nat)
    ensures
        pack_all_locs(values, cap).len() == values.len(),
    decreases values.len(),
{
    if values.len() > 0 {
        lemma_pack_all_locs_len(values.drop_last(), cap);
    }
}

/// The accumulating package sequence of one store.
pub struct Packages {
    pub max_size: usize,
    pub packages: Vec<Vec<u8>>,
}

impl Packages {
    /// The emitted packages as plain byte sequences.
    pub open spec fn model(&self) -> Seq<Seq<u8>> {
        self.packages@.map_values(|p: Vec<u8>| p@)
    }

    /// Every package stays within the configured maximum size.
    pub open spec fn wf(&self) -> bool {
        1 <= self.max_size && forall|i: int|
            0 <= i < self.model().len() ==> (#[trigger] self.model()[i]).len() <= self.max_size
    }

    pub fn new(max_size: usize) -> (r: Packages)
        requires
            max_size >= 1,
        ensures
            r.wf(),
            r.max_size == max_size,
            r.model() == Seq::<Seq<u8>>::empty(),
    {
        let r = Packages { max_size, packages: Vec::new() };
        proof {
            assert(r.model() =~= Seq::<Seq<u8>>::empty());
        }
        r
    }

    /// Appends one value. The value lands wholly inside one package: the
    /// current one if it fits, a fresh one otherwise. A value larger than
    /// one whole package is refused and nothing changes.
    pub fn append(&mut self, value: &Vec<u8>) -> (r: Result<ValueLoc, BuildError>)
        requires
            old(self).wf(),
        ensures
            final(self).wf(),
            final(self).max_size == old(self).max_size,
            match r {
                Ok(loc) => {
                    &&& value@.len() <= old(self).max_size
                    &&& loc.len == value@.len()
                    &&& loc_valid_in(final(self).model(), loc)
                    &&& bytes_at_in(final(self).model(), loc) == value@
                    &&& extends(old(self).model(), final(self).model())
                    &&& final(self).model() == pack_step(
                        old(self).model(),
                        value@,
                        old(self).max_size as nat,
                    )
                    &&& loc == pack_step_loc(old(self).model(), value@, old(self).max_size as nat)
                    &&& if old(self).model().len() > 0 && old(self).model().last().len()
                        + value@.len() <= old(self).max_size {
                        &&& loc.pkg == old(self).model().len() - 1
                        &&& loc.off == old(self).model().last().len()
                        &&& final(self).model() == old(self).model().update(
                            old(self).model().len() - 1,
                            old(self).model().last() + value@,
                        )
                    } else {
                        &&& loc.pkg == old(self).model().len()
                        &&& loc.off == 0
                        &&& final(self).model() == old(self).model().push(value@)
                    }
                },
                Err(e) => {
                    &&& e == BuildError::OversizedValue
                    &&& value@.len() > old(self).max_size
                    &&& final(self).model() == old(self).model()
                },
            },
    {
        if value.len() > self.max_size {
            return Err(BuildError::OversizedValue);
        }
        let n = self.packages.len();
        if n > 0 && self.packages[n - 1].len() <= self.max_size - value.len() {
            let ghost m0 = self.model();
            let mut last = match self.packages.pop() {
                Some(p) => p,
                None => Vec::new(),
            };
            let off = last.len();
            last.extend_from_slice(value.as_slice());
            let loc = ValueLoc { pkg: n - 1, off, len: value.len() };
            self.packages.push(last);
            proof {
                assert(self.model() =~~= m0.update(m0.len() - 1, m0.last() + value@));
                assert(pack_fits(m0, value@, self.max_size as nat));
                assert(self.model() == pack_step(m0, value@, self.max_size as nat));
                assert(loc == pack_step_loc(m0, value@, self.max_size as nat));
                assert(bytes_at_in(self.model(), loc) =~= value@);
                assert(extends(m0, self.model())) by {
                    assert(forall|i: int| 0 <= i < m0.len() - 1 ==> self.model()[i] == m0[i]);
                    assert(m0.last() =~= (m0.last() + value@).subrange(0, m0.last().len() as int));
                    assert(forall|i: int|
                        0 <= i < m0.len() ==> (#[trigger] m0[i]).is_prefix_of(self.model()[i]));
                }
            }
            Ok(loc)
        } else {
            let ghost m0 = self.model();
            let mut p = Vec::<u8>::new();
            p.extend_from_slice(value.as_slice());
            let loc = ValueLoc { pkg: n, off: 0, len: value.len() };
            self.packages.push(p);
            proof {
                assert(self.model() =~~= m0.push(value@));
                assert(!pack_fits(m0, value@, self.max_size as nat));
                assert(self.model() == pack_step(m0, value@, self.max_size as nat));
                assert(loc == pack_step_loc(m0, value@, self.max_size as nat));
                assert(bytes_at_in(self.model(), loc) =~= value@);
                assert(forall|i: int|
                    0 <= i < m0.len() ==> (#[trigger] m0[i]).is_prefix_of(self.model()[i]));
            }
            Ok(loc)
        }
    }

    /// Copies the bytes of one recorded value range out of its package.
    pub fn read(&self, loc: ValueLoc) -> (r: Vec<u8>)
        requires
            self.wf(),
            loc_valid_in(self.model(), loc),
        ensures
            r@ == bytes_at_in(self.model(), loc),
    {
        let mut r = Vec::<u8>::new();
        let mut i: usize = 0;
        let p = &self.packages[loc.pkg];
        let plen = p.len();
        while i < loc.len
            invariant
                loc_valid_in(self.model(), loc),
                p@ == self.model()[loc.pkg as int],
                0 <= i <= loc.len,
                loc.off + loc.len <= plen,
                plen == p@.len(),
                r@ == p@.subrange(loc.off as int, loc.off + i),
            decreases loc.len - i,
        {
            r.push(p[loc.off + i]);
            proof {
                assert(r@ =~= p@.subrange(loc.off as int, loc.off + i + 1));
            }
            i += 1;
        }
        r
    }

    /// The finalized sequence of package blobs.
    pub fn into_packages(self) -> (r: Vec<Vec<u8>>)
        ensures
            r@.map_values(|p: Vec<u8>| p@) == self.model(),
    {
        self.packages
    }
}

} // verus!
