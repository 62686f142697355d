//! Index construction: consumes a stream of `(document id, term)` pairs,
//! interning each unseen term in first-seen order, appending the term id to
//! the document's term list and counting term frequency. Documents with no
//! terms still occupy their slot: gaps in the id space are filled with
//! empty term lists, never skipped. A second pass, after the stream ends,
//! derives each term's postings (the ascending ids of the documents that
//! list it).

use vstd::prelude::*;
use crate::BuildError;
use crate::bytes::bytes_eq;
use crate::keys::STR_KEY_CAP;

verus! {

/// Pure model of the accumulated index state: the term dictionary in
/// first-seen order, the per-document term-id lists, and the per-term
/// frequency (one count per listing document).
pub struct BuildModel {
    pub terms: Seq<Seq<u8>>,
    pub lists: Seq<Seq<usize>>,
    pub freq: Seq<nat>,
}

/// A term is a non-empty byte string without the terminator byte, short
/// enough for the fixed lookup-row width.
pub open spec fn term_valid(t: Seq<u8>) -> bool {
    &&& 1 <= t.len() <= STR_KEY_CAP
    &&& forall|i: int| 0 <= i < t.len() ==> t[i] != 0
}

pub open spec fn empty_model() -> BuildModel {
    BuildModel { terms: Seq::empty(), lists: Seq::empty(), freq: Seq::empty() }
}

/// First index of `t` in the dictionary, or -1 if unseen.
pub open spec fn find_term(terms: Seq<Seq<u8>>, t: Seq<u8>) -> int
    decreases terms.len(),
{
    if terms.len() == 0 {
        -1
    } else if terms[0] == t {
        0
    } else if find_term(terms.drop_first(), t) == -1 {
        -1
    } else {
        find_term(terms.drop_first(), t) + 1
    }
}

/// `find_term` returns the first match.
pub proof fn lemma_find_term_at(terms: Seq<Seq<u8>>, t: Seq<u8>, i: int)
    requires
        0 <= i < terms.len(),
        terms[i] == t,
        forall|j: int| 0 <= j < i ==> terms[j] != t,
    ensures
        find_term(terms, t) == i,
    decreases terms.len(),
{
    if i == 0 {
    } else {
        assert(terms[0] != t);
        assert(terms.drop_first()[i - 1] == terms[i]);
        assert(forall|j: int| 0 <= j < i - 1 ==> #[trigger] terms.drop_first()[j] == terms[j + 1]);
        lemma_find_term_at(terms.drop_first(), t, i - 1);
    }
}

/// `find_term` misses only unseen terms.
pub proof fn lemma_find_term_none(terms: Seq<Seq<u8>>, t: Seq<u8>)
    requires
        forall|j: int| 0 <= j < terms.len() ==> terms[j] != t,
    ensures
        find_term(terms, t) == -1,
    decreases terms.len(),
{
    if terms.len() > 0 {
        assert(forall|j: int| 0 <= j < terms.len() - 1 ==> #[trigger] terms.drop_first()[j]
            == terms[j + 1]);
        lemma_find_term_none(terms.drop_first(), t);
    }
}

/// The document-list table grown (with empty lists) to cover document `d`.
pub open spec fn pad_lists(lists: Seq<Seq<usize>>, d: int) -> Seq<Seq<usize>> {
    if lists.len() > d {
        lists
    } else {
        lists + Seq::new((d + 1 - lists.len()) as nat, |i: int| Seq::<usize>::empty())
    }
}

/// One ingested `(document, term)` pair: intern the term if unseen, append
/// its id to the document's list, count it once. An invalid term or one
/// repeated within a document is a fatal input-contract violation.
pub open spec fn ingest_step(m: BuildModel, doc: u32, term: Seq<u8>) -> Result<
    BuildModel,
    BuildError,
> {
    if !term_valid(term) {
        Err(BuildError::InvalidTerm)
    } else {
        let lists = pad_lists(m.lists, doc as int);
        let ti = find_term(m.terms, term);
        if ti >= 0 {
            if lists[doc as int].contains(ti as usize) {
                Err(BuildError::DuplicateTermInDocument)
            } else {
                Ok(
                    BuildModel {
                        terms: m.terms,
                        lists: lists.update(doc as int, lists[doc as int].push(ti as usize)),
                        freq: m.freq.update(ti, m.freq[ti] + 1),
                    },
                )
            }
        } else {
            Ok(
                BuildModel {
                    terms: m.terms.push(term),
                    lists: lists.update(
                        doc as int,
                        lists[doc as int].push(m.terms.len() as usize),
                    ),
                    freq: m.freq.push(1),
                },
            )
        }
    }
}

/// The whole stream, folded pair by pair; the first violation aborts.
pub open spec fn ingest_all(pairs: Seq<(u32, Seq<u8>)>) -> Result<BuildModel, BuildError>
    decreases pairs.len(),
{
    if pairs.len() == 0 {
        Ok(empty_model())
    } else {
        match ingest_all(pairs.drop_last()) {
            Err(e) => Err(e),
            Ok(m) => ingest_step(m, pairs.last().0, pairs.last().1),
        }
    }
}

/// The ascending ids of the documents whose list names term `t`: the
/// term's postings.
pub open spec fn docs_with_term(lists: Seq<Seq<usize>>, t: usize) -> Seq<u32>
    decreases lists.len(),
{
    if lists.len() == 0 {
        Seq::empty()
    } else {
        let prefix = docs_with_term(lists.drop_last(), t);
        if lists.last().contains(t) {
            prefix.push((lists.len() - 1) as u32)
        } else {
            prefix
        }
    }
}

/// A document is in a term's postings exactly when the term is in the
/// document's recorded term list; the postings are strictly ascending.
pub proof fn lemma_docs_with_term(lists: Seq<Seq<usize>>, t: usize)
    requires
        lists.len() <= 0x1_0000_0000,
    ensures
        forall|d: u32| #[trigger]
            docs_with_term(lists, t).contains(d) <==> (d < lists.len() && lists[d as int].contains(
                t,
            )),
        crate::postings::sorted_strict(docs_with_term(lists, t)),
        forall|i: int|
            0 <= i < docs_with_term(lists, t).len() ==> #[trigger] docs_with_term(lists, t)[i]
                < lists.len(),
    decreases lists.len(),
{
    if lists.len() > 0 {
        lemma_docs_with_term(lists.drop_last(), t);
        let s = docs_with_term(lists, t);
        let p = docs_with_term(lists.drop_last(), t);
        assert(forall|d: u32| (d < lists.len() - 1 && #[trigger] lists[d as int].contains(t))
            ==> lists.drop_last()[d as int].contains(t));
        assert forall|d: u32| #[trigger] s.contains(d) implies (d < lists.len()
            && lists[d as int].contains(t)) by {
            if p.contains(d) {
                assert(lists.drop_last()[d as int] == lists[d as int]);
            }
        }
        assert forall|d: u32| (d < lists.len() && #[trigger] lists[d as int].contains(t)) implies
            s.contains(d) by {
            if d < lists.len() - 1 {
                assert(lists.drop_last()[d as int] == lists[d as int]);
                assert(p.contains(d));
                let j = choose|j: int| 0 <= j < p.len() && p[j] == d;
                if lists.last().contains(t) {
                    assert(s[j] == d);
                } else {
                    assert(s[j] == d);
                }
            } else {
                assert(lists.last() == lists[d as int]);
                assert(s.last() == d);
            }
        }
    }
}

/// Builds the dictionary, per-document term lists and term frequencies
/// from the pair stream.
pub struct IndexBuilder {
    pub terms: Vec<Vec<u8>>,
    pub terms_by_document: Vec<Vec<usize>>,
    pub term_frequency: Vec<usize>,
    pub pair_count: usize,
}

impl IndexBuilder {
    pub open spec fn model(&self) -> BuildModel {
        BuildModel {
            terms: self.terms@.map_values(|t: Vec<u8>| t@),
            lists: self.terms_by_document@.map_values(|l: Vec<usize>| l@),
            freq: self.term_frequency@.map_values(|f: usize| f as nat),
        }
    }

    pub open spec fn wf(&self) -> bool {
        &&& self.term_frequency@.len() == self.terms@.len()
        &&& forall|t: int|
            0 <= t < self.model().terms.len() ==> term_valid(#[trigger] self.model().terms[t])
        &&& forall|a: int, b: int|
            0 <= a < b < self.model().terms.len() ==> self.model().terms[a]
                != self.model().terms[b]
        &&& forall|d: int, k: int|
            0 <= d < self.model().lists.len() && 0 <= k < self.model().lists[d].len()
                ==> (#[trigger] self.model().lists[d][k]) < self.model().terms.len()
        &&& forall|d: int, k1: int, k2: int|
            0 <= d < self.model().lists.len() && 0 <= k1 < k2 < self.model().lists[d].len()
                ==> (#[trigger] self.model().lists[d][k1]) != (#[trigger] self.model().lists[d][k2])
        &&& forall|t: int|
            0 <= t < self.term_frequency@.len() ==> (#[trigger] self.term_frequency@[t])
                <= self.pair_count
    }

    pub fn new() -> (r: IndexBuilder)
        ensures
            r.wf(),
            r.model() == empty_model(),
            r.pair_count == 0,
    {
        let r = IndexBuilder {
            terms: Vec::new(),
            terms_by_document: Vec::new(),
            term_frequency: Vec::new(),
            pair_count: 0,
        };
        proof {
            assert(r.model().terms =~= empty_model().terms);
            assert(r.model().lists =~= empty_model().lists);
            assert(r.model().freq =~= empty_model().freq);
        }
        r
    }

    /// Number of distinct terms interned so far.
    pub fn term_count(&self) -> (r: usize)
        requires
            self.wf(),
        ensures
            r == self.model().terms.len(),
    {
        self.terms.len()
    }

    /// Number of document slots occupied so far.
    pub fn document_count(&self) -> (r: usize)
        ensures
            r == self.model().lists.len(),
    {
        self.terms_by_document.len()
    }

    /// Ingests one `(document, term)` pair, exactly as `ingest_step` says;
    /// a violation of the input contract changes nothing and is fatal.
    #[verifier::loop_isolation(false)]
    pub fn add_pair(&mut self, document_id: u32, term: &Vec<u8>) -> (r: Result<(), BuildError>)
        requires
            old(self).wf(),
            old(self).pair_count < usize::MAX,
        ensures
            final(self).wf(),
            match r {
                Ok(()) => {
                    &&& ingest_step(old(self).model(), document_id, term@) == Ok::<
                        BuildModel,
                        BuildError,
                    >(final(self).model())
                    &&& final(self).pair_count == old(self).pair_count + 1
                },
                Err(e) => {
                    &&& ingest_step(old(self).model(), document_id, term@) == Err::<
                        BuildModel,
                        BuildError,
                    >(e)
                    &&& final(self).model() == old(self).model()
                    &&& final(self).pair_count == old(self).pair_count
                },
            },
    {
        // input-contract validation, before any mutation
        if term.len() == 0 || term.len() > STR_KEY_CAP {
            assert(!term_valid(term@));
            return Err(BuildError::InvalidTerm);
        }
        let tn = term.len();
        let mut i: usize = 0;
        while i < tn
            invariant
                tn == term@.len(),
                0 <= i <= tn,
                forall|j: int| 0 <= j < i ==> term@[j] != 0,
            decreases tn - i,
        {
            if term[i] == 0 {
                assert(!term_valid(term@));
                return Err(BuildError::InvalidTerm);
            }
            i += 1;
        }
        assert(term_valid(term@));

        // locate the term in the dictionary (first-seen order)
        let n = self.terms.len();
        let mut ti: usize = 0;
        let mut found = false;
        while ti < n && !found
            invariant
                n == self.terms@.len(),
                0 <= ti <= n,
                !found ==> forall|j: int| 0 <= j < ti ==> self.model().terms[j] != term@,
                found ==> ti < n && self.model().terms[ti as int] == term@ && forall|j: int|
                    0 <= j < ti ==> self.model().terms[j] != term@,
            decreases n - ti + if found { 0int } else { 1int },
        {
            if bytes_eq(&self.terms[ti], term) {
                found = true;
            } else {
                ti += 1;
            }
        }
        proof {
            if found {
                lemma_find_term_at(self.model().terms, term@, ti as int);
            } else {
                lemma_find_term_none(self.model().terms, term@);
            }
        }

        let did = document_id as usize;
        // duplicate check against the document's current list (an
        // unoccupied slot has an empty list)
        if found && did < self.terms_by_document.len() {
            let dl_len = self.terms_by_document[did].len();
            let mut k: usize = 0;
            while k < dl_len
                invariant
                    self == old(self),
                    found,
                    did < self.terms_by_document@.len(),
                    dl_len == self.model().lists[did as int].len(),
                    0 <= k <= dl_len,
                    forall|j: int| 0 <= j < k ==> self.model().lists[did as int][j] != ti as usize,
                decreases dl_len - k,
            {
                if self.terms_by_document[did][k] == ti {
                    assert(self.model().lists[did as int].contains(ti as usize));
                    assert(pad_lists(self.model().lists, document_id as int)[document_id as int]
                        == self.model().lists[did as int]);
                    return Err(BuildError::DuplicateTermInDocument);
                }
                k += 1;
            }
        }
        let ghost m0 = self.model();
        proof {
            let padded = pad_lists(m0.lists, document_id as int);
            if document_id < m0.lists.len() {
                assert(padded[document_id as int] == m0.lists[document_id as int]);
                if found {
                    assert(!padded[document_id as int].contains(ti as usize));
                }
            } else {
                assert(padded[document_id as int] =~= Seq::<usize>::empty());
            }
        }

        // grow the document table to cover this id
        while self.terms_by_document.len() <= did
            invariant
                m0 == old(self).model(),
                self.terms == old(self).terms,
                self.term_frequency == old(self).term_frequency,
                self.pair_count == old(self).pair_count,
                m0.lists.len() <= self.model().lists.len() <= if m0.lists.len() > did as int {
                    m0.lists.len() as int
                } else {
                    did as int + 1
                },
                forall|d: int|
                    0 <= d < self.model().lists.len() ==> #[trigger] self.model().lists[d] == (
                    if d < m0.lists.len() {
                        m0.lists[d]
                    } else {
                        Seq::<usize>::empty()
                    }),
            decreases did + 1 - self.terms_by_document@.len(),
        {
            let ghost before = self.model().lists;
            self.terms_by_document.push(Vec::new());
            proof {
                let m = self.model().lists;
                assert(m.len() == before.len() + 1);
                assert forall|d: int| 0 <= d < m.len() implies #[trigger] m[d] == (
                if d < m0.lists.len() {
                    m0.lists[d]
                } else {
                    Seq::<usize>::empty()
                }) by {
                    if d == m.len() - 1 {
                        assert(m[d] =~= Seq::<usize>::empty());
                    } else {
                        assert(m[d] == before[d]);
                    }
                }
            }
        }
        proof {
            assert(self.model().lists =~= pad_lists(m0.lists, document_id as int));
        }
        let ghost padded = self.model().lists;

        // record the pair
        let tid: usize = if found {
            ti
        } else {
            let mut copy = Vec::<u8>::new();
            copy.extend_from_slice(term.as_slice());
            self.terms.push(copy);
            self.term_frequency.push(0);
            n
        };
        let mut dl: Vec<usize> = Vec::new();
        self.terms_by_document.set_and_swap(did, &mut dl);
        dl.push(tid);
        self.terms_by_document.set(did, dl);
        let f = self.term_frequency[tid];
        self.term_frequency.set(tid, f + 1);
        self.pair_count = self.pair_count + 1;
        proof {
            let m1 = self.model();
            assert(m1.lists =~~= padded.update(
                document_id as int,
                padded[document_id as int].push(tid),
            ));
            if found {
                assert(m1.terms =~~= m0.terms);
                assert(m1.freq =~~= m0.freq.update(ti as int, m0.freq[ti as int] + 1));
            } else {
                assert(m1.terms =~~= m0.terms.push(term@));
                assert(m1.freq =~~= m0.freq.push(1));
            }
            assert(ingest_step(m0, document_id, term@) == Ok::<BuildModel, BuildError>(m1));
            // well-formedness of the new state
            if !found {
                assert forall|a: int, b: int| 0 <= a < b < m1.terms.len() implies m1.terms[a]
                    != m1.terms[b] by {
                    if b == m1.terms.len() - 1 {
                        assert(m1.terms[a] == m0.terms[a]);
                        assert(m0.terms[a] != term@);
                    }
                }
            }
            assert forall|d: int, k: int|
                0 <= d < m1.lists.len() && 0 <= k < (#[trigger] m1.lists[d]).len() implies (
            #[trigger] m1.lists[d][k]) < m1.terms.len() by {
                if d == document_id as int && k == m1.lists[d].len() - 1 {
                } else {
                    assert(m1.lists[d][k] == pad_lists(m0.lists, document_id as int)[d][k]);
                }
            }
            assert forall|d: int, k1: int, k2: int|
                0 <= d < m1.lists.len() && 0 <= k1 < k2 < (#[trigger] m1.lists[d]).len() implies (
            #[trigger] m1.lists[d][k1]) != (#[trigger] m1.lists[d][k2]) by {
                if d == document_id as int && k2 == m1.lists[d].len() - 1 {
                    assert(m1.lists[d][k1] == padded[d][k1]);
                }
            }
        }
        Ok(())
    }

    /// The second pass: every document's id is added to each of its terms'
    /// postings, in document order, so each postings list is strictly
    /// ascending.
    #[verifier::loop_isolation(false)]
    pub fn build_postings(&self) -> (r: Vec<Vec<u32>>)
        requires
            self.wf(),
            self.terms_by_document@.len() <= 0x1_0000_0000,
        ensures
            r@.len() == self.model().terms.len(),
            forall|t: int|
                0 <= t < r@.len() ==> (#[trigger] r@[t])@ == docs_with_term(
                    self.model().lists,
                    t as usize,
                ),
    {
        let n = self.terms.len();
        let mut r = Vec::<Vec<u32>>::new();
        let mut t: usize = 0;
        while t < n
            invariant
                0 <= t <= n,
                r@.len() == t,
                forall|u: int| 0 <= u < t ==> (#[trigger] r@[u])@ == Seq::<u32>::empty(),
            decreases n - t,
        {
            r.push(Vec::new());
            t += 1;
        }
        let dn = self.terms_by_document.len();
        let mut d: usize = 0;
        while d < dn
            invariant
                self.wf(),
                n == self.model().terms.len(),
                dn == self.model().lists.len(),
                dn <= 0x1_0000_0000,
                0 <= d <= dn,
                r@.len() == n,
                forall|t: int|
                    0 <= t < n ==> (#[trigger] r@[t])@ == docs_with_term(
                        self.model().lists.take(d as int),
                        t as usize,
                    ),
            decreases dn - d,
        {
            let ghost lists_d = self.model().lists.take(d as int);
            let kn = self.terms_by_document[d].len();
            let mut k: usize = 0;
            while k < kn
                invariant
                    self.wf(),
                    n == self.model().terms.len(),
                    dn == self.model().lists.len(),
                    dn <= 0x1_0000_0000,
                    0 <= d < dn,
                    kn == self.model().lists[d as int].len(),
                    0 <= k <= kn,
                    r@.len() == n,
                    lists_d == self.model().lists.take(d as int),
                    forall|t: int|
                        0 <= t < n ==> (#[trigger] r@[t])@ == (
                        if exists|j: int|
                            0 <= j < k && self.model().lists[d as int][j] == t as usize {
                            docs_with_term(lists_d, t as usize).push(d as u32)
                        } else {
                            docs_with_term(lists_d, t as usize)
                        }),
                decreases kn - k,
            {
                let tid = self.terms_by_document[d][k];
                assert(self.model().lists[d as int][k as int] == tid && tid < n);
                proof {
                    assert(!exists|j: int|
                        0 <= j < k && self.model().lists[d as int][j] == tid) by {
                        if exists|j: int| 0 <= j < k && self.model().lists[d as int][j] == tid {
                            let j = choose|j: int|
                                0 <= j < k && self.model().lists[d as int][j] == tid;
                            let dl = self.model().lists[d as int];
                            assert(dl[j] != dl[k as int]);
                        }
                    }
                }
                let ghost r0 = r@;
                let mut pl: Vec<u32> = Vec::new();
                r.set_and_swap(tid, &mut pl);
                pl.push(d as u32);
                r.set(tid, pl);
                proof {
                    assert(forall|u: int| 0 <= u < r@.len() && u != tid ==> r@[u] == r0[u]);
                    assert(r@[tid as int]@ == r0[tid as int]@.push(d as u32));
                    assert forall|t: int| 0 <= t < n implies (#[trigger] r@[t])@ == (
                    if exists|j: int|
                        0 <= j < k + 1 && self.model().lists[d as int][j] == t as usize {
                        docs_with_term(lists_d, t as usize).push(d as u32)
                    } else {
                        docs_with_term(lists_d, t as usize)
                    }) by {
                        if t == tid {
                            assert(self.model().lists[d as int][k as int] == t as usize);
                        } else {
                            assert(forall|j: int|
                                0 <= j < k + 1 && #[trigger] self.model().lists[d as int][j]
                                    == t as usize ==> j < k);
                        }
                    }
                }
                k += 1;
            }
            proof {
                let lists_d1 = self.model().lists.take(d + 1);
                assert(lists_d1.drop_last() =~= lists_d);
                assert(lists_d1.last() == self.model().lists[d as int]);
                assert forall|t: int| 0 <= t < n implies (#[trigger] r@[t])@ == docs_with_term(
                    lists_d1,
                    t as usize,
                ) by {
                    if self.model().lists[d as int].contains(t as usize) {
                        let j = choose|j: int|
                            0 <= j < kn && self.model().lists[d as int][j] == t as usize;
                        assert(exists|j: int|
                            0 <= j < kn && self.model().lists[d as int][j] == t as usize);
                    }
                }
            }
            d += 1;
        }
        proof {
            assert(self.model().lists.take(dn as int) =~= self.model().lists);
        }
        r
    }
}

} // verus!
