//! The whole build in one pass: ingest the term stream, enforce the
//! minimum corpus size, derive and compress postings, partition and pack
//! terms, pack documents. Failure at any stage aborts the build: no
//! partial artifact set is valid.

use vstd::prelude::*;
use crate::BuildError;
use crate::builder::IndexBuilder;
use crate::builder::BuildModel;
use crate::builder::ingest_all;
use crate::builder::docs_with_term;
use crate::builder::lemma_docs_with_term;
use crate::bst::BstStore;
use crate::bst::BstEntry;
use crate::bst::entries_sorted;
use crate::bst::bst_lookup_bytes;
use crate::bst::lemma_bst_layout_unique;
use crate::pack::loc_valid_in;
use crate::pack::bytes_at_in;
use crate::pack::pack_all;
use crate::pack::pack_step;
use crate::pack::pack_step_loc;
use crate::pack::pack_all_locs;
use crate::pack::lemma_pack_all_locs_len;
use crate::keys::PackedKey;
use crate::keys::KeyKind;
use crate::direct::lemma_direct_lookup_len;
use crate::bst::lemma_bst_lookup_len;
use crate::partition::partition_terms;
use crate::partition::TermPartition;
use crate::partition::rank_le;
use crate::partition::id_values;
use crate::partition::term_views;
use crate::partition::lemma_rank_sort_unique;
use crate::direct::direct_lookup_bytes;
use crate::direct::DIRECT_ROW_SIZE;
use crate::postings::postings_bytes;

verus! {

/// Minimum number of distinct terms for a corpus to be worth indexing;
/// fewer is a fatal precondition failure, reported before any packing.
pub const MIN_TERMS: usize = 1000;

/// Externally configurable size ceilings: the per-package value-container
/// maximum and the popular-terms lookup-table byte budget.
pub struct BuildParams {
    pub max_package_size: usize,
    pub popular_lookup_cap: usize,
}

/// The three named artifact sets: each a sequence of size-capped packages
/// plus one raw lookup-table blob.
pub struct IndexArtifacts {
    pub popular_lookup: Vec<u8>,
    pub popular_packages: Vec<Vec<u8>>,
    pub normal_lookup: Vec<u8>,
    pub normal_packages: Vec<Vec<u8>>,
    pub documents_lookup: Vec<u8>,
    pub documents_packages: Vec<Vec<u8>>,
}

/// The pair stream as plain values.
pub open spec fn pair_views(pairs: Seq<(u32, Vec<u8>)>) -> Seq<(u32, Seq<u8>)> {
    pairs.map_values(|p: (u32, Vec<u8>)| (p.0, p.1@))
}

/// A sequence of byte vectors as plain byte strings.
pub open spec fn byte_views(s: Seq<Vec<u8>>) -> Seq<Seq<u8>> {
    s.map_values(|v: Vec<u8>| v@)
}

/// The per-term frequency table as machine integers.
pub open spec fn freq_views(m: BuildModel) -> Seq<usize> {
    Seq::new(m.freq.len(), |i: int| m.freq[i] as usize)
}

/// The compressed postings of the `k` highest-ranked terms, in rank order.
pub open spec fn popular_values(m: BuildModel, ranked: Seq<usize>, k: int) -> Seq<Seq<u8>> {
    Seq::new(k as nat, |j: int| postings_bytes(docs_with_term(m.lists, ranked[j])))
}

/// The popular artifact is fully determined by the ingested model and the
/// two ceilings: the unique frequency ranking, cut exactly where the next
/// lookup row would overflow the byte budget, its compressed postings
/// packed greedily in rank order.
pub open spec fn popular_artifact_ok(
    m: BuildModel,
    lookup: Seq<u8>,
    packages: Seq<Seq<u8>>,
    cap: usize,
    lookup_cap: usize,
    ranked: Seq<usize>,
    k: int,
) -> bool {
    let n = m.terms.len() as int;
    &&& m.freq.len() == m.terms.len()
    &&& ranked.len() == n
    &&& ranked.to_multiset() == Seq::new(n as nat, |i: int| i as usize).to_multiset()
    &&& forall|a: int, b: int|
        0 <= a < b < n ==> rank_le(m.terms, freq_views(m), #[trigger] ranked[a], #[trigger] ranked[b])
    &&& forall|j: int| 0 <= j < n ==> (#[trigger] ranked[j]) < n
    &&& 0 <= k <= n
    &&& k * DIRECT_ROW_SIZE <= lookup_cap
    &&& (k == n || (k + 1) * DIRECT_ROW_SIZE > lookup_cap)
    &&& lookup == direct_lookup_bytes(pack_all_locs(popular_values(m, ranked, k), cap as nat))
    &&& packages == pack_all(popular_values(m, ranked, k), cap as nat)
}

/// Whether term `t` is in the admitted (popular) prefix of the ranking.
pub open spec fn in_popular_prefix(ranked: Seq<usize>, k: int, t: int) -> bool {
    exists|i: int| 0 <= i < k && ranked[i] == t
}

/// The normal artifact's value sequence: the compressed postings of the
/// given (non-popular) term ids, in insertion order.
pub open spec fn normal_values(m: BuildModel, nids: Seq<usize>) -> Seq<Seq<u8>> {
    Seq::new(nids.len(), |j: int| postings_bytes(docs_with_term(m.lists, nids[j])))
}

/// Both term artifacts at once: the popular artifact in full, and for the
/// normal artifact the exact member set (every term outside the popular
/// prefix, ascending by id), its packages as the pure greedy packing of
/// those members' compressed postings, and the lookup-table size.
pub open spec fn term_artifacts_ok(
    m: BuildModel,
    popular_lookup: Seq<u8>,
    popular_packages: Seq<Seq<u8>>,
    normal_lookup: Seq<u8>,
    normal_packages: Seq<Seq<u8>>,
    cap: usize,
    lookup_cap: usize,
    ranked: Seq<usize>,
    k: int,
    nids: Seq<usize>,
) -> bool {
    let n = m.terms.len() as int;
    &&& popular_artifact_ok(m, popular_lookup, popular_packages, cap, lookup_cap, ranked, k)
    &&& forall|x: int, y: int|
        0 <= x < y < nids.len() ==> (#[trigger] nids[x]) < (#[trigger] nids[y])
    &&& forall|j: int|
        0 <= j < nids.len() ==> (#[trigger] nids[j]) < n && !in_popular_prefix(
            ranked,
            k,
            nids[j] as int,
        )
    &&& forall|t: int| 0 <= t < n && !in_popular_prefix(ranked, k, t) ==> nids.contains(t as usize)
    &&& normal_packages == pack_all(normal_values(m, nids), cap as nat)
    &&& normal_lookup.len() == nids.len() * 280
}

/// Determinism of the popular artifact: any two lookup tables and package
/// sets that satisfy the artifact contract for the same ingested model and
/// the same ceilings are byte-identical.
pub proof fn lemma_popular_artifact_deterministic(
    m: BuildModel,
    cap: usize,
    lookup_cap: usize,
    l1: Seq<u8>,
    p1: Seq<Seq<u8>>,
    r1: Seq<usize>,
    k1: int,
    l2: Seq<u8>,
    p2: Seq<Seq<u8>>,
    r2: Seq<usize>,
    k2: int,
)
    requires
        popular_artifact_ok(m, l1, p1, cap, lookup_cap, r1, k1),
        popular_artifact_ok(m, l2, p2, cap, lookup_cap, r2, k2),
    ensures
        l1 == l2,
        p1 == p2,
{
    let n = m.terms.len() as int;
    lemma_rank_sort_unique(m.terms, freq_views(m), r1, r2);
    assert(k1 == k2) by {
        if k1 < k2 {
            assert((k1 + 1) * DIRECT_ROW_SIZE > lookup_cap);
            assert((k1 + 1) * DIRECT_ROW_SIZE <= k2 * DIRECT_ROW_SIZE) by (nonlinear_arith)
                requires
                    k1 + 1 <= k2,
            ;
            assert(false);
        }
        if k2 < k1 {
            assert((k2 + 1) * DIRECT_ROW_SIZE > lookup_cap);
            assert((k2 + 1) * DIRECT_ROW_SIZE <= k1 * DIRECT_ROW_SIZE) by (nonlinear_arith)
                requires
                    k2 + 1 <= k1,
            ;
            assert(false);
        }
    }
    assert(popular_values(m, r1, k1) =~= popular_values(m, r2, k2));
}

/// The documents artifact holds exactly the corpus: a sorted lookup table
/// keyed by document id, one row per document, whose row `d` locates
/// document `d`'s exact bytes inside the emitted packages — and no other
/// keys.
pub open spec fn documents_artifact_ok(
    docs: Seq<Seq<u8>>,
    lookup: Seq<u8>,
    packages: Seq<Seq<u8>>,
    cap: usize,
    es: Seq<BstEntry>,
) -> bool {
    &&& es.len() == docs.len()
    &&& entries_sorted(es)
    &&& lookup == bst_lookup_bytes(es)
    &&& packages == pack_all(docs, cap as nat)
    &&& forall|d: int|
        0 <= d < es.len() ==> {
            &&& (#[trigger] es[d]).key.spec_kind() == KeyKind::U32
            &&& es[d].key.u32_view() == d
            &&& es[d].loc == pack_all_locs(docs, cap as nat)[d]
            &&& loc_valid_in(packages, es[d].loc)
            &&& bytes_at_in(packages, es[d].loc) == docs[d]
        }
}

/// An ingest failure on a prefix decides the whole stream.
pub proof fn lemma_ingest_err(pairs: Seq<(u32, Seq<u8>)>, i: int)
    requires
        0 <= i <= pairs.len(),
        ingest_all(pairs.take(i)) is Err,
    ensures
        ingest_all(pairs) == ingest_all(pairs.take(i)),
    decreases pairs.len() - i,
{
    if i < pairs.len() {
        assert(pairs.take(i + 1).drop_last() =~= pairs.take(i));
        lemma_ingest_err(pairs, i + 1);
    } else {
        assert(pairs.take(i) =~= pairs);
    }
}

/// Determinism of the documents artifact: any two lookup tables and
/// package sets that satisfy the artifact contract for the same corpus and
/// the same ceiling are byte-identical.
pub proof fn lemma_documents_artifact_deterministic(
    docs: Seq<Seq<u8>>,
    cap: usize,
    l1: Seq<u8>,
    p1: Seq<Seq<u8>>,
    es1: Seq<BstEntry>,
    l2: Seq<u8>,
    p2: Seq<Seq<u8>>,
    es2: Seq<BstEntry>,
)
    requires
        documents_artifact_ok(docs, l1, p1, cap, es1),
        documents_artifact_ok(docs, l2, p2, cap, es2),
    ensures
        l1 == l2,
        p1 == p2,
{
    crate::bst::lemma_bst_lookup_bytes_by_model(es1, es2);
}

/// Runs the full build on materialized inputs: `pairs` is the ordered
/// document-term stream, `documents[d]` the raw bytes of document `d`.
/// Everything the error taxonomy names aborts the build with its error;
/// otherwise all six artifacts come back, every package within the size
/// ceiling, the popular and documents artifacts byte-for-byte pure
/// functions of the input (see `popular_artifact_ok` and
/// `documents_artifact_ok`), and the normal artifact holding exactly the
/// terms outside the popular prefix, its values packed as `pack_all` says.
#[verifier::rlimit(100)]
#[verifier::loop_isolation(false)]
pub fn build_index(
    pairs: &Vec<(u32, Vec<u8>)>,
    documents: &Vec<Vec<u8>>,
    params: &BuildParams,
) -> (r: Result<IndexArtifacts, BuildError>)
    requires
        params.max_package_size >= 1,
    ensures
        match r {
            Ok(a) => {
                &&& ingest_all(pair_views(pairs@)) is Ok
                &&& ingest_all(pair_views(pairs@))->Ok_0.terms.len() >= MIN_TERMS
                &&& documents@.len() <= 0xFFFF_FFFF
                &&& forall|i: int|
                    0 <= i < a.popular_packages@.len() ==> (#[trigger] a.popular_packages@[i])@.len()
                        <= params.max_package_size
                &&& forall|i: int|
                    0 <= i < a.normal_packages@.len() ==> (#[trigger] a.normal_packages@[i])@.len()
                        <= params.max_package_size
                &&& forall|i: int|
                    0 <= i < a.documents_packages@.len() ==> (
                    #[trigger] a.documents_packages@[i])@.len() <= params.max_package_size
                // every document fit inside one package
                &&& forall|d: int|
                    0 <= d < documents@.len() ==> (#[trigger] documents@[d])@.len()
                        <= params.max_package_size
                // the eagerly loaded popular lookup table respects its own
                // byte budget; the documents table has one row per document
                &&& a.popular_lookup@.len() <= params.popular_lookup_cap
                &&& a.popular_lookup@.len() % 24 == 0
                &&& a.documents_lookup@.len() == documents@.len() * 28
                // the popular artifact is the ranked budget-cut prefix,
                // packed greedily, and the normal artifact holds exactly
                // the remaining terms: pure functions of the ingested model
                &&& exists|ranked: Seq<usize>, k: int, nids: Seq<usize>| term_artifacts_ok(
                    ingest_all(pair_views(pairs@))->Ok_0,
                    a.popular_lookup@,
                    byte_views(a.popular_packages@),
                    a.normal_lookup@,
                    byte_views(a.normal_packages@),
                    params.max_package_size,
                    params.popular_lookup_cap,
                    ranked,
                    k,
                    nids,
                )
                // the documents artifact maps each document id to that
                // document's exact bytes, and holds no other keys
                &&& exists|es: Seq<BstEntry>| documents_artifact_ok(
                    byte_views(documents@),
                    a.documents_lookup@,
                    byte_views(a.documents_packages@),
                    params.max_package_size,
                    es,
                )
            },
            Err(e) => {
                ||| ingest_all(pair_views(pairs@)) == Err::<BuildModel, BuildError>(e)
                ||| (ingest_all(pair_views(pairs@)) is Ok && {
                    let m = ingest_all(pair_views(pairs@))->Ok_0;
                    ||| (e == BuildError::CorpusTooSmall && m.terms.len() < MIN_TERMS)
                    ||| (e == BuildError::TooManyDocuments && m.terms.len() >= MIN_TERMS
                        && documents@.len() > 0xFFFF_FFFF)
                    ||| (e == BuildError::OversizedValue && m.terms.len() >= MIN_TERMS
                        && documents@.len() <= 0xFFFF_FFFF && (
                        (exists|t: int|
                            0 <= t < m.terms.len() && postings_bytes(
                                #[trigger] docs_with_term(m.lists, t as usize),
                            ).len() > params.max_package_size) || (exists|d: int|
                            0 <= d < documents@.len() && (#[trigger] documents@[d])@.len()
                                > params.max_package_size)))
                })
            },
        },
{
    let ghost pv = pair_views(pairs@);

    // stage 1: ingest the term stream
    let mut b = IndexBuilder::new();
    let np = pairs.len();
    let mut i: usize = 0;
    proof {
        assert(pv.take(0) =~= Seq::<(u32, Seq<u8>)>::empty());
    }
    while i < np
        invariant
            b.wf(),
            b.pair_count <= i,
            0 <= i <= np,
            np == pairs@.len(),
            ingest_all(pv.take(i as int)) == Ok::<BuildModel, BuildError>(b.model()),
            b.model().lists.len() <= 0x1_0000_0000,
        decreases np - i,
    {
        let pr = &pairs[i];
        let ghost m0 = b.model();
        let res = b.add_pair(pr.0, &pr.1);
        proof {
            assert(pv.take(i + 1).drop_last() =~= pv.take(i as int));
            assert(pv.take(i + 1).last() == pv[i as int]);
            assert(pv[i as int] == (pairs@[i as int].0, pairs@[i as int].1@));
        }
        match res {
            Ok(()) => {},
            Err(e) => {
                proof {
                    assert(ingest_all(pv.take(i + 1)) == Err::<BuildModel, BuildError>(e));
                    lemma_ingest_err(pv, i as int + 1);
                    assert(ingest_all(pair_views(pairs@)) == Err::<BuildModel, BuildError>(e));
                }
                return Err(e);
            },
        }
        i += 1;
    }
    proof {
        assert(pv.take(np as int) =~= pv);
    }
    let ghost m = b.model();

    // stage 2: the corpus must be worth indexing
    proof {
        assert(ingest_all(pair_views(pairs@)) is Ok);
        assert(ingest_all(pair_views(pairs@))->Ok_0 == b.model());
    }
    let tc = b.term_count();
    if tc < MIN_TERMS {
        proof {
            assert(ingest_all(pair_views(pairs@))->Ok_0.terms.len() < MIN_TERMS);
        }
        return Err(BuildError::CorpusTooSmall);
    }
    if documents.len() > 0xFFFF_FFFF {
        proof {
            assert(ingest_all(pair_views(pairs@))->Ok_0.terms.len() >= MIN_TERMS);
            assert(documents@.len() > 0xFFFF_FFFF);
        }
        return Err(BuildError::TooManyDocuments);
    }

    // stage 3: second pass — derive each term's postings
    let postings = b.build_postings();
    proof {
        assert forall|t: int| 0 <= t < postings@.len() implies crate::postings::sorted_strict(
            (#[trigger] postings@[t])@,
        ) by {
            lemma_docs_with_term(m.lists, t as usize);
        }
    }

    // stage 4: rank, partition and pack the terms
    let part = match partition_terms(
        &b.terms,
        &b.term_frequency,
        &postings,
        params.max_package_size,
        params.popular_lookup_cap,
    ) {
        Ok(p) => p,
        Err(e) => {
            proof {
                let t = choose|t: int|
                    0 <= t < postings@.len() && postings_bytes(
                        (#[trigger] postings@[t])@,
                    ).len() > params.max_package_size;
                assert(postings@[t]@ == docs_with_term(m.lists, t as usize));
                assert(0 <= t < m.terms.len() && postings_bytes(
                    #[trigger] docs_with_term(m.lists, t as usize),
                ).len() > params.max_package_size);
            }
            return Err(e);
        },
    };
    let TermPartition { popular, mut normal, is_popular, popular_count, ranked, normal_ids } =
        part;
    let ghost gflags = is_popular@;
    let ghost gnids = normal_ids@;
    let popular_lookup = popular.get_raw_lookup();
    let ghost gpop = popular;
    let ghost granked = ranked@;
    proof {
        lemma_direct_lookup_len(popular.entries@);
        assert(popular_lookup@.len() == popular.lookup_used);
        assert(popular_lookup@.len() <= params.popular_lookup_cap);
        assert((popular.entries@.len() * 24) % 24 == 0) by (nonlinear_arith);
    }
    let normal_lookup = normal.serialise();
    let ghost gnorm = normal;

    // stage 5: pack the raw documents, keyed by document id
    let mut docs_store = BstStore::new(params.max_package_size, KeyKind::U32);
    let nd = documents.len();
    let mut d: usize = 0;
    while d < nd
        invariant
            docs_store.wf(),
            docs_store.kind == KeyKind::U32,
            docs_store.max_value_size() == params.max_package_size,
            docs_store.len() == d,
            0 <= d <= nd,
            nd == documents@.len(),
            nd <= 0xFFFF_FFFF,
            forall|j: int|
                0 <= j < d ==> (#[trigger] docs_store.key_at(j)).spec_kind() == KeyKind::U32
                    && docs_store.key_at(j).u32_view() == j,
            forall|j: int| 0 <= j < d ==> docs_store.val_at(j) == (#[trigger] documents@[j])@,
            forall|j: int|
                0 <= j < d ==> (#[trigger] documents@[j])@.len() <= params.max_package_size,
            docs_store.packages() == pack_all(
                byte_views(documents@).take(d as int),
                params.max_package_size as nat,
            ),
            forall|j: int|
                0 <= j < d ==> (#[trigger] docs_store.entries@[j]).loc == pack_all_locs(
                    byte_views(documents@).take(d as int),
                    params.max_package_size as nat,
                )[j],
        decreases nd - d,
    {
        let key = PackedKey::U32(d as u32);
        proof {
            assert forall|j: int| 0 <= j < docs_store.len() implies !(
            #[trigger] docs_store.key_at(j)).key_eq(&key) by {
                if docs_store.key_at(j).key_eq(&key) {
                    assert(docs_store.key_at(j).u32_view() == d as u32);
                }
            }
        }
        let ghost prior = docs_store;
        let ghost gkey = key;
        match docs_store.insert(key, &documents[d]) {
            Ok(()) => {
                proof {
                    assert forall|j: int| 0 <= j < d + 1 implies docs_store.val_at(j) == (
                    #[trigger] documents@[j])@ by {
                        if j < d {
                            assert(docs_store.entries@[j] == prior.entries@[j]);
                        }
                    }
                    assert forall|j: int| 0 <= j < d + 1 implies (
                    #[trigger] docs_store.key_at(j)).spec_kind() == KeyKind::U32
                        && docs_store.key_at(j).u32_view() == j by {
                        if j < d {
                            assert(docs_store.entries@[j] == prior.entries@[j]);
                            assert(docs_store.key_at(j) == prior.key_at(j));
                        } else {
                            assert(docs_store.key_at(j) == gkey);
                            assert(gkey.u32_view() == d as u32);
                        }
                    }
                    // the packing stays the greedy function of the values
                    let cap = params.max_package_size as nat;
                    let dv = byte_views(documents@);
                    assert(dv.take(d + 1).drop_last() =~= dv.take(d as int));
                    assert(dv.take(d + 1).last() == documents@[d as int]@);
                    assert(prior.packages() == pack_all(dv.take(d as int), cap));
                    assert(prior.packs.max_size == params.max_package_size);
                    assert(docs_store.packages() == pack_step(
                        prior.packages(),
                        documents@[d as int]@,
                        cap,
                    ));
                    assert(pack_all(dv.take(d + 1), cap) == pack_step(
                        pack_all(dv.take(d + 1).drop_last(), cap),
                        dv.take(d + 1).last(),
                        cap,
                    ));
                    assert(docs_store.packages() == pack_all(dv.take(d + 1), cap));
                    assert(pack_all_locs(dv.take(d + 1), cap) == pack_all_locs(
                        dv.take(d + 1).drop_last(),
                        cap,
                    ).push(
                        pack_step_loc(
                            pack_all(dv.take(d + 1).drop_last(), cap),
                            dv.take(d + 1).last(),
                            cap,
                        ),
                    ));
                    assert(docs_store.entries@[d as int].loc == pack_step_loc(
                        prior.packages(),
                        documents@[d as int]@,
                        cap,
                    ));
                    lemma_pack_all_locs_len(dv.take(d as int), cap);
                    lemma_pack_all_locs_len(dv.take(d + 1), cap);
                    assert forall|j: int| 0 <= j < d + 1 implies (
                    #[trigger] docs_store.entries@[j]).loc == pack_all_locs(
                        dv.take(d + 1),
                        cap,
                    )[j] by {
                        if j < d {
                            assert(docs_store.entries@[j] == prior.entries@[j]);
                            assert(pack_all_locs(dv.take(d + 1), cap)[j] == pack_all_locs(
                                dv.take(d as int),
                                cap,
                            )[j]);
                        }
                    }
                }
            },
            Err(e) => {
                proof {
                    assert(documents@[d as int]@.len() > params.max_package_size);
                    assert(exists|j: int|
                        0 <= j < documents@.len() && (#[trigger] documents@[j])@.len()
                            > params.max_package_size);
                }
                return Err(e);
            },
        }
        d += 1;
    }
    let ghost pre_entries = docs_store.entries@;
    let ghost pstore = docs_store;
    proof {
        assert(byte_views(documents@).take(nd as int) =~= byte_views(documents@));
        assert forall|x: int, y: int| 0 <= x < y < pre_entries.len() implies (
        #[trigger] pre_entries[x]).key.key_le(&(#[trigger] pre_entries[y]).key) by {
            assert(docs_store.key_at(x) == pre_entries[x].key);
            assert(docs_store.key_at(y) == pre_entries[y].key);
            assert(pre_entries[x].key.u32_view() == x && pre_entries[y].key.u32_view() == y);
        }
        assert(entries_sorted(pre_entries));
    }
    let documents_lookup = docs_store.serialise();
    proof {
        // the rows were already in key order, so sorting left them as they were
        lemma_bst_layout_unique(pre_entries, docs_store.entries@);
        assert(docs_store.entries@ == pre_entries);
        lemma_bst_lookup_len(docs_store.entries@, KeyKind::U32);
        assert(documents_lookup@.len() == documents@.len() * 28);
    }
    let ghost des = docs_store.entries@;
    let ghost dstore = docs_store;

    // stage 6: emit the three artifact sets
    let ghost ppk = popular.packages();
    let ghost npk = normal.packages();
    let ghost dpk = docs_store.packages();
    let popular_packages = popular.into_packages();
    let normal_packages = normal.into_packages();
    let documents_packages = docs_store.into_packages();
    let a = IndexArtifacts {
        popular_lookup,
        popular_packages,
        normal_lookup,
        normal_packages,
        documents_lookup,
        documents_packages,
    };
    proof {
        assert(forall|i: int|
            0 <= i < a.popular_packages@.len() ==> (#[trigger] a.popular_packages@[i])@ == ppk[i]);
        assert(forall|i: int|
            0 <= i < a.normal_packages@.len() ==> (#[trigger] a.normal_packages@[i])@ == npk[i]);
        assert(forall|i: int|
            0 <= i < a.documents_packages@.len() ==> (#[trigger] a.documents_packages@[i])@
                == dpk[i]);
        assert(byte_views(a.documents_packages@) =~= dpk);
        assert forall|d: int| 0 <= d < des.len() implies {
            &&& (#[trigger] des[d]).key.spec_kind() == KeyKind::U32
            &&& des[d].key.u32_view() == d
            &&& loc_valid_in(dpk, des[d].loc)
            &&& bytes_at_in(dpk, des[d].loc) == byte_views(documents@)[d]
        } by {
            assert(pstore.key_at(d) == des[d].key);
            assert(dstore.entries@[d] == des[d]);
            assert(dstore.packs == pstore.packs);
            assert(pstore.val_at(d) == documents@[d]@);
            assert(dstore.val_at(d) == pstore.val_at(d));
            assert(pstore.entries@[d].loc == pack_all_locs(
                byte_views(documents@),
                params.max_package_size as nat,
            )[d]);
        }
        assert(documents_artifact_ok(
            byte_views(documents@),
            a.documents_lookup@,
            byte_views(a.documents_packages@),
            params.max_package_size,
            des,
        ));
        // the popular artifact is the packed ranked prefix
        let cap = params.max_package_size as nat;
        let k = popular_count as int;
        assert(m.terms =~= term_views(b.terms@));
        assert(freq_views(m) =~= b.term_frequency@);
        let pvals = gpop.values();
        assert forall|j: int| 0 <= j < k implies pvals[j] == postings_bytes(
            docs_with_term(m.lists, #[trigger] granked[j]),
        ) by {
            assert(pvals[j] == postings_bytes(postings@[granked[j] as int]@));
            assert(postings@[granked[j] as int]@ == docs_with_term(m.lists, granked[j]));
        }
        assert(pvals =~= popular_values(m, granked, k));
        assert(a.popular_lookup@ == direct_lookup_bytes(
            pack_all_locs(popular_values(m, granked, k), cap),
        ));
        assert(byte_views(a.popular_packages@) =~= ppk);
        assert(byte_views(a.popular_packages@) == pack_all(popular_values(m, granked, k), cap));
        assert(popular_artifact_ok(
            m,
            a.popular_lookup@,
            byte_views(a.popular_packages@),
            params.max_package_size,
            params.popular_lookup_cap,
            granked,
            k,
        ));
        // the normal artifact holds exactly the rest
        assert forall|t: int| 0 <= t < m.terms.len() implies gflags[t] == in_popular_prefix(
            granked,
            k,
            t,
        ) by {
            if gflags[t] {
                let i = choose|i: int| 0 <= i < popular_count && granked[i] == t;
                assert(0 <= i < k && granked[i] == t);
            }
            if in_popular_prefix(granked, k, t) {
                let i = choose|i: int| 0 <= i < k && granked[i] == t;
                assert(exists|j: int| 0 <= j < popular_count && granked[j] == t);
            }
        }
        assert forall|j: int| 0 <= j < gnids.len() implies (#[trigger] gnids[j]) < m.terms.len()
            && !in_popular_prefix(granked, k, gnids[j] as int) by {
            assert(!gflags[gnids[j] as int]);
        }
        assert forall|t: int|
            0 <= t < m.terms.len() && !in_popular_prefix(granked, k, t) implies gnids.contains(
            t as usize,
        ) by {
            assert(!gflags[t]);
        }
        assert(id_values(postings@, gnids) =~= normal_values(m, gnids));
        assert(byte_views(a.normal_packages@) =~= npk);
        assert(byte_views(a.normal_packages@) == pack_all(
            normal_values(m, gnids),
            params.max_package_size as nat,
        ));
        crate::bst::lemma_bst_lookup_len(gnorm.entries@, KeyKind::Str);
        assert(a.normal_lookup@.len() == gnids.len() * 280);
        assert(term_artifacts_ok(
            m,
            a.popular_lookup@,
            byte_views(a.popular_packages@),
            a.normal_lookup@,
            byte_views(a.normal_packages@),
            params.max_package_size,
            params.popular_lookup_cap,
            granked,
            k,
            gnids,
        ));
    }
    Ok(a)
}

} // verus!
