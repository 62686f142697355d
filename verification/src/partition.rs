//! Frequency-based term partitioning: terms are ranked by descending
//! frequency (ties broken by descending term bytes, so the ranking is
//! deterministic whatever the dictionary insertion order) and admitted into
//! the popular (direct-lookup) store until its lookup-table byte budget is
//! exhausted; every term not admitted — including all lower-frequency ones
//! — becomes a normal term and goes to the binary-search store.

use vstd::prelude::*;
use crate::BuildError;
use crate::bytes::lex_lt;
use crate::bytes::bytes_lt;
use crate::bytes::bytes_eq;
use crate::bytes::clone_bytes;
use crate::bytes::lemma_lex_lt_trichotomy;
use crate::bytes::lemma_lex_lt_transitive;
use crate::builder::term_valid;
use crate::direct::DirectStore;
use crate::direct::DIRECT_ROW_SIZE;
use crate::bst::BstStore;
use crate::keys::PackedKey;
use crate::keys::KeyKind;
use crate::pack::pack_all;
use crate::pack::pack_all_locs;
use crate::pack::lemma_pack_all_locs_len;
use crate::postings::sorted_strict;
use crate::postings::postings_bytes;
use crate::postings::compress_postings;

verus! {

/// The compressed postings of the given term ids, in that order.
pub open spec fn id_values(postings: Seq<Vec<u32>>, ids: Seq<usize>) -> Seq<Seq<u8>> {
    Seq::new(ids.len(), |j: int| postings_bytes(postings[ids[j] as int]@))
}

/// The term dictionary as plain byte strings.
pub open spec fn term_views(terms: Seq<Vec<u8>>) -> Seq<Seq<u8>> {
    terms.map_values(|t: Vec<u8>| t@)
}

/// Ranking order on term ids: frequency descending, then term bytes
/// descending, then id — a total order, so the ranked list is unique.
pub open spec fn rank_le(terms: Seq<Seq<u8>>, freq: Seq<usize>, a: usize, b: usize) -> bool {
    let fa = freq[a as int];
    let fb = freq[b as int];
    ||| fa > fb
    ||| (fa == fb && lex_lt(terms[b as int], terms[a as int]))
    ||| (fa == fb && terms[a as int] == terms[b as int] && a <= b)
}

/// The ranking order is total.
pub proof fn lemma_rank_total(terms: Seq<Seq<u8>>, freq: Seq<usize>, a: usize, b: usize)
    requires
        a < terms.len(),
        b < terms.len(),
        terms.len() == freq.len(),
    ensures
        rank_le(terms, freq, a, b) || rank_le(terms, freq, b, a),
{
    lemma_lex_lt_trichotomy(terms[a as int], terms[b as int]);
}

/// The ranking order is transitive.
pub proof fn lemma_rank_trans(terms: Seq<Seq<u8>>, freq: Seq<usize>, a: usize, b: usize, c: usize)
    requires
        a < terms.len(),
        b < terms.len(),
        c < terms.len(),
        terms.len() == freq.len(),
        rank_le(terms, freq, a, b),
        rank_le(terms, freq, b, c),
    ensures
        rank_le(terms, freq, a, c),
{
    if freq[a as int] == freq[b as int] && freq[b as int] == freq[c as int] {
        if lex_lt(terms[b as int], terms[a as int]) && lex_lt(terms[c as int], terms[b as int]) {
            lemma_lex_lt_transitive(terms[c as int], terms[b as int], terms[a as int]);
        }
    }
}

/// Decides the ranking order.
fn rank_le_exec(terms: &Vec<Vec<u8>>, freq: &Vec<usize>, a: usize, b: usize) -> (r: bool)
    requires
        a < terms@.len(),
        b < terms@.len(),
        terms@.len() == freq@.len(),
    ensures
        r == rank_le(term_views(terms@), freq@, a, b),
{
    let fa = freq[a];
    let fb = freq[b];
    if fa > fb {
        true
    } else if fa < fb {
        false
    } else if bytes_lt(&terms[b], &terms[a]) {
        true
    } else if bytes_eq(&terms[a], &terms[b]) {
        a <= b
    } else {
        false
    }
}

/// Sorts term ids into ranking order (insertion sort: stable, in place).
#[verifier::loop_isolation(false)]
fn sort_ids_by_rank(ids: &mut Vec<usize>, terms: &Vec<Vec<u8>>, freq: &Vec<usize>)
    requires
        terms@.len() == freq@.len(),
        forall|k: int| 0 <= k < old(ids)@.len() ==> (#[trigger] old(ids)@[k]) < terms@.len(),
    ensures
        final(ids)@.len() == old(ids)@.len(),
        final(ids)@.to_multiset() == old(ids)@.to_multiset(),
        forall|t: usize| final(ids)@.contains(t) == old(ids)@.contains(t),
        forall|k: int| 0 <= k < final(ids)@.len() ==> (#[trigger] final(ids)@[k]) < terms@.len(),
        forall|a: int, b: int|
            0 <= a < b < final(ids)@.len() ==> rank_le(
                term_views(terms@),
                freq@,
                #[trigger] final(ids)@[a],
                #[trigger] final(ids)@[b],
            ),
{
    broadcast use vstd::seq_lib::group_to_multiset_ensures;
    broadcast use vstd::multiset::group_multiset_axioms;

    let ghost tv = term_views(terms@);
    let n = ids.len();
    let ghost orig = ids@;
    if n == 0 {
        return;
    }
    let mut i: usize = 1;
    while i < n
        invariant
            n == ids@.len(),
            1 <= i <= n,
            ids@.to_multiset() == orig.to_multiset(),
            forall|k: int| 0 <= k < n ==> (#[trigger] ids@[k]) < terms@.len(),
            forall|a: int, b: int|
                0 <= a < b < i ==> rank_le(tv, freq@, #[trigger] ids@[a], #[trigger] ids@[b]),
        decreases n - i,
    {
        let ghost pre = ids@;
        let e = ids.remove(i);
        let ghost v1 = ids@;
        proof {
            assert(e == pre[i as int]);
            vstd::seq_lib::to_multiset_remove(pre, i as int);
        }
        let mut j: usize = i;
        while j > 0 && !rank_le_exec(terms, freq, ids[j - 1], e)
            invariant
                ids@ == v1,
                v1.len() == n - 1,
                0 <= j <= i,
                i <= n - 1,
                forall|k: int| j <= k < i ==> !rank_le(tv, freq@, #[trigger] v1[k], e),
            decreases j,
        {
            proof {
                assert forall|k: int| j - 1 <= k < i implies !rank_le(
                    tv,
                    freq@,
                    #[trigger] v1[k],
                    e,
                ) by {
                    if k == j - 1 {
                        assert(!rank_le(tv, freq@, v1[j - 1], e));
                    }
                }
            }
            j -= 1;
        }
        ids.insert(j, e);
        proof {
            let w = ids@;
            assert(w == v1.insert(j as int, e));
            vstd::seq_lib::to_multiset_insert(v1, j as int, e);
            assert(w.to_multiset() =~= pre.to_multiset()) by {
                assert(pre[i as int] == e && pre.contains(e));
                vstd::seq_lib::to_multiset_contains(pre, e);
            }
            assert forall|a: int, b: int| 0 <= a < b < i + 1 implies rank_le(
                tv,
                freq@,
                #[trigger] w[a],
                #[trigger] w[b],
            ) by {
                if j > 0 {
                    assert(rank_le(tv, freq@, v1[j - 1], e));
                }
                if a < j && b == j {
                    if a < j - 1 {
                        lemma_rank_trans(tv, freq@, v1[a], v1[j - 1], e);
                    }
                } else if a == j && b > j {
                    assert(!rank_le(tv, freq@, v1[b - 1], e));
                    lemma_rank_total(tv, freq@, e, v1[b - 1]);
                } else if a < j && b > j {
                    assert(rank_le(tv, freq@, v1[a], v1[b - 1]));
                }
            }
        }
        i += 1;
    }
    proof {
        assert forall|t: usize| ids@.contains(t) == orig.contains(t) by {
            vstd::seq_lib::to_multiset_contains(ids@, t);
            vstd::seq_lib::to_multiset_contains(orig, t);
        }
    }
}

/// The ranking order is antisymmetric: the final id tie-break leaves no
/// two distinct ids equivalent.
pub proof fn lemma_rank_antisym(terms: Seq<Seq<u8>>, freq: Seq<usize>, a: usize, b: usize)
    requires
        a < terms.len(),
        b < terms.len(),
        terms.len() == freq.len(),
        rank_le(terms, freq, a, b),
        rank_le(terms, freq, b, a),
    ensures
        a == b,
{
    lemma_lex_lt_trichotomy(terms[a as int], terms[b as int]);
}

/// Determinism of ranking: the rank-sorted order of a set of term ids is
/// unique, so two builds over identical input rank — and therefore
/// partition and pack — their terms identically.
pub proof fn lemma_rank_sort_unique(
    terms: Seq<Seq<u8>>,
    freq: Seq<usize>,
    s1: Seq<usize>,
    s2: Seq<usize>,
)
    requires
        terms.len() == freq.len(),
        forall|k: int| 0 <= k < s1.len() ==> (#[trigger] s1[k]) < terms.len(),
        forall|k: int| 0 <= k < s2.len() ==> (#[trigger] s2[k]) < terms.len(),
        forall|a: int, b: int|
            0 <= a < b < s1.len() ==> rank_le(terms, freq, #[trigger] s1[a], #[trigger] s1[b]),
        forall|a: int, b: int|
            0 <= a < b < s2.len() ==> rank_le(terms, freq, #[trigger] s2[a], #[trigger] s2[b]),
        s1.to_multiset() == s2.to_multiset(),
    ensures
        s1 == s2,
    decreases s1.len(),
{
    broadcast use vstd::seq_lib::group_to_multiset_ensures;
    broadcast use vstd::multiset::group_multiset_axioms;

    vstd::seq_lib::to_multiset_len(s1);
    vstd::seq_lib::to_multiset_len(s2);
    if s1.len() == 0 {
        assert(s2.len() == 0);
        assert(s1 =~= s2);
    } else {
        assert(s2.len() == s1.len());
        let a = s1[0];
        let b = s2[0];
        assert(s1.contains(a) && s2.contains(b));
        vstd::seq_lib::to_multiset_contains(s1, a);
        vstd::seq_lib::to_multiset_contains(s2, a);
        vstd::seq_lib::to_multiset_contains(s1, b);
        vstd::seq_lib::to_multiset_contains(s2, b);
        assert(s2.contains(a) && s1.contains(b));
        let ja = choose|j: int| 0 <= j < s2.len() && s2[j] == a;
        let jb = choose|j: int| 0 <= j < s1.len() && s1[j] == b;
        assert(rank_le(terms, freq, b, a)) by {
            if ja > 0 {
                assert(rank_le(terms, freq, s2[0], s2[ja]));
            } else {
                lemma_rank_total(terms, freq, a, b);
                if !rank_le(terms, freq, b, a) {
                    assert(rank_le(terms, freq, a, b));
                    assert(a == b);
                }
            }
        }
        assert(rank_le(terms, freq, a, b)) by {
            if jb > 0 {
                assert(rank_le(terms, freq, s1[0], s1[jb]));
            } else {
                lemma_rank_total(terms, freq, a, b);
                if !rank_le(terms, freq, a, b) {
                    assert(rank_le(terms, freq, b, a));
                    assert(b == a);
                }
            }
        }
        lemma_rank_antisym(terms, freq, a, b);
        let t1 = s1.remove(0);
        let t2 = s2.remove(0);
        vstd::seq_lib::to_multiset_remove(s1, 0);
        vstd::seq_lib::to_multiset_remove(s2, 0);
        assert(t1.to_multiset() == t2.to_multiset());
        assert(forall|k: int| 0 <= k < t1.len() ==> #[trigger] t1[k] == s1[k + 1]);
        assert(forall|k: int| 0 <= k < t2.len() ==> #[trigger] t2[k] == s2[k + 1]);
        lemma_rank_sort_unique(terms, freq, t1, t2);
        assert(s1 =~= s2) by {
            assert(forall|k: int| 1 <= k < s1.len() ==> #[trigger] s1[k] == t1[k - 1]);
            assert(forall|k: int| 1 <= k < s2.len() ==> #[trigger] s2[k] == t2[k - 1]);
        }
    }
}

/// The outcome of partitioning: the two packed stores, the membership
/// flags, and (ghost) the ranked order, the admitted count and the normal
/// ids in insertion order.
pub struct TermPartition {
    pub popular: DirectStore,
    pub normal: BstStore,
    pub is_popular: Vec<bool>,
    pub popular_count: usize,
    pub ranked: Ghost<Seq<usize>>,
    pub normal_ids: Ghost<Seq<usize>>,
}

/// Ranks all terms by frequency, packs the highest-ranking ones into the
/// size-capped direct store until its lookup budget is exhausted, and
/// packs every remaining term into the binary-search store. Every term id
/// lands in exactly one of the two stores; a compressed postings list
/// larger than one whole package aborts the build.
///
/// Chosen packing order for the normal store: values are appended in term
/// id (first-seen) order. The store sorts its lookup table by key bytes at
/// serialization, so the table layout and all lookups are the same as
/// inserting in key order; only the byte order of values inside the normal
/// packages reflects first-seen order.
#[verifier::rlimit(100)]
#[verifier::spinoff_prover]
#[verifier::loop_isolation(false)]
pub fn partition_terms(
    terms: &Vec<Vec<u8>>,
    freq: &Vec<usize>,
    postings: &Vec<Vec<u32>>,
    max_package_size: usize,
    lookup_cap: usize,
) -> (r: Result<TermPartition, BuildError>)
    requires
        terms@.len() == freq@.len(),
        terms@.len() == postings@.len(),
        forall|t: int| 0 <= t < terms@.len() ==> term_valid(#[trigger] term_views(terms@)[t]),
        forall|a: int, b: int|
            0 <= a < b < terms@.len() ==> term_views(terms@)[a] != term_views(terms@)[b],
        forall|t: int| 0 <= t < postings@.len() ==> sorted_strict((#[trigger] postings@[t])@),
        max_package_size >= 1,
    ensures
        match r {
            Ok(p) => {
                let n = terms@.len();
                let tv = term_views(terms@);
                &&& p.is_popular@.len() == n
                &&& p.ranked@.len() == n
                &&& p.popular_count <= n
                // the ranked list is the frequency order, and the popular
                // set is exactly its admitted prefix
                &&& forall|a: int, b: int|
                    0 <= a < b < n ==> rank_le(tv, freq@, #[trigger] p.ranked@[a], #[trigger] p.ranked@[b])
                &&& forall|t: usize| t < n ==> p.ranked@.contains(t)
                &&& forall|k: int| 0 <= k < n ==> (#[trigger] p.ranked@[k]) < n
                &&& p.ranked@.to_multiset() == Seq::new(n, |i: int| i as usize).to_multiset()
                &&& forall|t: int|
                    0 <= t < n ==> ((#[trigger] p.is_popular@[t]) <==> exists|j: int|
                        0 <= j < p.popular_count && p.ranked@[j] == t)
                // frequency order is respected by the cutoff
                &&& forall|a: int, b: int|
                    0 <= a < n && 0 <= b < n && freq@[a] > freq@[b] && p.is_popular@[b]
                        ==> p.is_popular@[a]
                // the popular store holds the admitted prefix, in rank order,
                // cut exactly where the next lookup row would overflow the
                // byte budget
                &&& p.popular.wf()
                &&& p.popular.values().len() == p.popular_count
                &&& p.popular_count * DIRECT_ROW_SIZE <= lookup_cap
                &&& (p.popular_count == n || (p.popular_count + 1) * DIRECT_ROW_SIZE
                    > lookup_cap)
                &&& forall|j: int|
                    0 <= j < p.popular_count ==> (#[trigger] p.popular.values()[j])
                        == postings_bytes(postings@[p.ranked@[j] as int]@)
                &&& p.popular.max_value_size() == max_package_size
                &&& p.popular.lookup_cap == lookup_cap
                // the normal store holds exactly the terms not admitted,
                // keyed by term bytes
                &&& p.normal.wf()
                &&& p.normal.kind == KeyKind::Str
                &&& p.normal.max_value_size() == max_package_size
                &&& p.normal_ids@.len() == p.normal.len()
                &&& forall|x: int, y: int|
                    0 <= x < y < p.normal_ids@.len() ==> (#[trigger] p.normal_ids@[x]) < (
                    #[trigger] p.normal_ids@[y])
                &&& forall|j: int|
                    0 <= j < p.normal_ids@.len() ==> (#[trigger] p.normal_ids@[j]) < n
                        && !p.is_popular@[p.normal_ids@[j] as int]
                &&& forall|t: int| 0 <= t < n && !p.is_popular@[t] ==> p.normal_ids@.contains(t as usize)
                &&& forall|j: int|
                    0 <= j < p.normal_ids@.len() ==> {
                        &&& (#[trigger] p.normal.key_at(j)).spec_kind() == KeyKind::Str
                        &&& p.normal.key_at(j).str_view() == tv[p.normal_ids@[j] as int]
                        &&& p.normal.val_at(j) == postings_bytes(
                            postings@[p.normal_ids@[j] as int]@,
                        )
                    }
                // normal values are packed greedily, in insertion order
                &&& p.normal.packages() == pack_all(
                    id_values(postings@, p.normal_ids@),
                    max_package_size as nat,
                )
                &&& forall|j: int|
                    0 <= j < p.normal_ids@.len() ==> (#[trigger] p.normal.entries@[j]).loc
                        == pack_all_locs(
                        id_values(postings@, p.normal_ids@),
                        max_package_size as nat,
                    )[j]
            },
            Err(e) => {
                &&& e == BuildError::OversizedValue
                &&& exists|t: int|
                    0 <= t < postings@.len() && postings_bytes((#[trigger] postings@[t])@).len()
                        > max_package_size
            },
        },
{
    let ghost tv = term_views(terms@);
    let n = terms.len();
    let mut ranked: Vec<usize> = Vec::new();
    let mut t: usize = 0;
    while t < n
        invariant
            0 <= t <= n,
            ranked@.len() == t,
            forall|j: int| 0 <= j < t ==> (#[trigger] ranked@[j]) == j,
        decreases n - t,
    {
        ranked.push(t);
        t += 1;
    }
    proof {
        assert forall|u: usize| u < n implies ranked@.contains(u) by {
            assert(ranked@[u as int] == u);
        }
        assert(ranked@ =~= Seq::new(n as nat, |i: int| i as usize));
    }
    sort_ids_by_rank(&mut ranked, terms, freq);
    assert(ranked@.to_multiset() == Seq::new(n as nat, |i: int| i as usize).to_multiset());

    let mut popular = DirectStore::new(max_package_size, lookup_cap);
    let mut is_popular: Vec<bool> = Vec::new();
    let mut t2: usize = 0;
    while t2 < n
        invariant
            0 <= t2 <= n,
            is_popular@.len() == t2,
            forall|j: int| 0 <= j < t2 ==> !(#[trigger] is_popular@[j]),
        decreases n - t2,
    {
        is_popular.push(false);
        t2 += 1;
    }

    let mut i: usize = 0;
    let mut stop = false;
    while i < n && !stop
        invariant
            n == terms@.len(),
            0 <= i <= n,
            ranked@.len() == n,
            forall|k: int| 0 <= k < n ==> (#[trigger] ranked@[k]) < n,
            popular.wf(),
            popular.max_value_size() == max_package_size,
            popular.lookup_cap == lookup_cap,
            popular.values().len() == i,
            forall|j: int|
                0 <= j < i ==> (#[trigger] popular.values()[j]) == postings_bytes(
                    postings@[ranked@[j] as int]@,
                ),
            is_popular@.len() == n,
            forall|t: int|
                0 <= t < n ==> ((#[trigger] is_popular@[t]) <==> exists|j: int|
                    0 <= j < i && ranked@[j] == t),
            stop ==> i * DIRECT_ROW_SIZE + DIRECT_ROW_SIZE > lookup_cap,
        decreases n - i + if stop { 0int } else { 1int },
    {
        let tid = ranked[i];
        let bytes = compress_postings(&postings[tid]);
        let key = PackedKey::Str(clone_bytes(&terms[tid]));
        match popular.insert(&key, &bytes) {
            Err(e) => {
                proof {
                    assert(postings_bytes(postings@[tid as int]@).len() > max_package_size);
                }
                return Err(e);
            },
            Ok(true) => {
                let ghost ip0 = is_popular@;
                is_popular.set(tid, true);
                proof {
                    assert forall|t: int| 0 <= t < n implies ((#[trigger] is_popular@[t])
                        <==> exists|j: int| 0 <= j < i + 1 && ranked@[j] == t) by {
                        if t == tid as int {
                            assert(ranked@[i as int] == t);
                        } else {
                            assert(is_popular@[t] == ip0[t]);
                            assert(forall|j: int| 0 <= j < i + 1 && #[trigger] ranked@[j] == t
                                ==> j < i);
                        }
                    }
                }
                i += 1;
            },
            Ok(false) => {
                stop = true;
            },
        }
    }
    let k = i;

    let mut normal = BstStore::new(max_package_size, KeyKind::Str);
    let ghost normal_ids: Seq<usize> = Seq::empty();
    let mut t3: usize = 0;
    let ghost mut gnormal_ids = normal_ids;
    while t3 < n
        invariant
            n == terms@.len(),
            0 <= t3 <= n,
            is_popular@.len() == n,
            normal.wf(),
            normal.kind == KeyKind::Str,
            normal.max_value_size() == max_package_size,
            gnormal_ids.len() == normal.len(),
            forall|x: int, y: int|
                0 <= x < y < gnormal_ids.len() ==> (#[trigger] gnormal_ids[x]) < (
                #[trigger] gnormal_ids[y]),
            forall|j: int|
                0 <= j < gnormal_ids.len() ==> (#[trigger] gnormal_ids[j]) < t3
                    && !is_popular@[gnormal_ids[j] as int],
            forall|t: int| 0 <= t < t3 && !is_popular@[t] ==> gnormal_ids.contains(t as usize),
            forall|j: int|
                0 <= j < gnormal_ids.len() ==> {
                    &&& (#[trigger] normal.key_at(j)).spec_kind() == KeyKind::Str
                    &&& normal.key_at(j).str_view() == tv[gnormal_ids[j] as int]
                    &&& normal.val_at(j) == postings_bytes(postings@[gnormal_ids[j] as int]@)
                },
            normal.packages() == pack_all(
                id_values(postings@, gnormal_ids),
                max_package_size as nat,
            ),
            forall|j: int|
                0 <= j < gnormal_ids.len() ==> (#[trigger] normal.entries@[j]).loc
                    == pack_all_locs(id_values(postings@, gnormal_ids), max_package_size as nat)[j],
        decreases n - t3,
    {
        if !is_popular[t3] {
            let bytes = compress_postings(&postings[t3]);
            let key = PackedKey::Str(clone_bytes(&terms[t3]));
            proof {
                assert(term_valid(tv[t3 as int]));
                assert(key.wf());
            }
            proof {
                assert forall|j: int| 0 <= j < normal.len() implies !(#[trigger] normal.key_at(
                    j,
                )).key_eq(&key) by {
                    if normal.key_at(j).key_eq(&key) {
                        assert(normal.key_at(j).str_view() == tv[t3 as int]);
                        assert(tv[gnormal_ids[j] as int] == tv[t3 as int]);
                        assert(gnormal_ids[j] < t3);
                    }
                }
            }
            let ghost pre_ids = gnormal_ids;
            let ghost prior = normal;
            match normal.insert(key, &bytes) {
                Err(e) => {
                    proof {
                        assert(postings_bytes(postings@[t3 as int]@).len() > max_package_size);
                    }
                    return Err(e);
                },
                Ok(()) => {
                    proof {
                        gnormal_ids = pre_ids.push(t3);
                        assert forall|j: int| 0 <= j < pre_ids.len() implies (
                        #[trigger] normal.key_at(j)) == prior.key_at(j) && normal.val_at(j)
                            == prior.val_at(j) by {
                            assert(normal.entries@[j] == prior.entries@[j]);
                        }
                        let cap2 = max_package_size as nat;
                        let nv0 = id_values(postings@, pre_ids);
                        let nv1 = id_values(postings@, gnormal_ids);
                        assert(nv1.drop_last() =~= nv0);
                        assert(nv1.last() == postings_bytes(postings@[t3 as int]@));
                        assert(prior.packages() == pack_all(nv0, cap2));
                        assert(normal.packages() == pack_all(nv1, cap2));
                        lemma_pack_all_locs_len(nv0, cap2);
                        lemma_pack_all_locs_len(nv1, cap2);
                        assert forall|j: int| 0 <= j < gnormal_ids.len() implies (
                        #[trigger] normal.entries@[j]).loc == pack_all_locs(nv1, cap2)[j] by {
                            if j < pre_ids.len() {
                                assert(normal.entries@[j] == prior.entries@[j]);
                                assert(pack_all_locs(nv1, cap2)[j] == pack_all_locs(nv0, cap2)[j]);
                            } else {
                                assert(normal.entries@[j].loc == crate::pack::pack_step_loc(
                                    prior.packages(),
                                    nv1.last(),
                                    cap2,
                                ));
                            }
                        }
                        assert forall|t: int| 0 <= t < t3 + 1 && !is_popular@[t] implies gnormal_ids
                            .contains(t as usize) by {
                            if t < t3 {
                                let j = choose|j: int|
                                    0 <= j < pre_ids.len() && pre_ids[j] == t as usize;
                                assert(gnormal_ids[j] == t as usize);
                            } else {
                                assert(gnormal_ids.last() == t3);
                            }
                        }
                    }
                },
            }
        }
        t3 += 1;
    }

    // frequency order is respected by the cutoff
    proof {
        assert forall|a: int, b: int|
            0 <= a < n && 0 <= b < n && freq@[a] > freq@[b] && is_popular@[b] implies is_popular@[
        a] by {
            let jb = choose|j: int| 0 <= j < k && ranked@[j] == b;
            assert(ranked@.contains(a as usize));
            let ja = choose|j: int| 0 <= j < n && ranked@[j] == a as usize;
            if ja > jb {
                assert(rank_le(tv, freq@, ranked@[jb], ranked@[ja]));
                assert(false);
            }
            assert(ja != jb);
            assert(0 <= ja < k && ranked@[ja] == a as usize);
        }
    }
    let p = TermPartition {
        popular,
        normal,
        is_popular,
        popular_count: k,
        ranked: Ghost(ranked@),
        normal_ids: Ghost(gnormal_ids),
    };
    proof {
        let n_ = terms@.len();
        assert(p.is_popular@.len() == n_);
        assert(p.ranked@.len() == n_);
        assert(p.popular_count <= n_);
        assert(forall|a: int, b: int|
            0 <= a < b < n_ ==> rank_le(tv, freq@, #[trigger] p.ranked@[a], #[trigger] p.ranked@[b]));
        assert(forall|t: usize| t < n_ ==> p.ranked@.contains(t));
        assert(forall|k2: int| 0 <= k2 < n_ ==> (#[trigger] p.ranked@[k2]) < n_);
        assert(forall|t: int|
            0 <= t < n_ ==> ((#[trigger] p.is_popular@[t]) <==> exists|j: int|
                0 <= j < p.popular_count && p.ranked@[j] == t));
        assert(forall|a: int, b: int|
            0 <= a < n_ && 0 <= b < n_ && freq@[a] > freq@[b] && p.is_popular@[b]
                ==> p.is_popular@[a]);
        assert(p.popular.wf());
        assert(p.popular.values().len() == p.popular_count);
        assert(p.popular.lookup_cap == lookup_cap);
        assert(p.popular_count * DIRECT_ROW_SIZE <= lookup_cap);
        assert(p.popular_count == n_ || (p.popular_count + 1) * DIRECT_ROW_SIZE > lookup_cap);
        assert(p.ranked@.to_multiset() == Seq::new(n_, |i: int| i as usize).to_multiset());
        assert(forall|j: int|
            0 <= j < p.popular_count ==> (#[trigger] p.popular.values()[j]) == postings_bytes(
                postings@[p.ranked@[j] as int]@,
            ));
        assert(p.normal.wf());
        assert(p.normal_ids@.len() == p.normal.len());
        assert(forall|x: int, y: int|
            0 <= x < y < p.normal_ids@.len() ==> (#[trigger] p.normal_ids@[x]) < (
            #[trigger] p.normal_ids@[y]));
        assert(forall|j: int|
            0 <= j < p.normal_ids@.len() ==> (#[trigger] p.normal_ids@[j]) < n_
                && !p.is_popular@[p.normal_ids@[j] as int]);
        assert(forall|t: int|
            0 <= t < n_ && !p.is_popular@[t] ==> p.normal_ids@.contains(t as usize));
        assert(forall|j: int|
            0 <= j < p.normal_ids@.len() ==> {
                &&& (#[trigger] p.normal.key_at(j)).spec_kind() == KeyKind::Str
                &&& p.normal.key_at(j).str_view() == tv[p.normal_ids@[j] as int]
                &&& p.normal.val_at(j) == postings_bytes(postings@[p.normal_ids@[j] as int]@)
            });
        assert(p.normal.packages() == pack_all(
            id_values(postings@, p.normal_ids@),
            max_package_size as nat,
        ));
        assert(forall|j: int|
            0 <= j < p.normal_ids@.len() ==> (#[trigger] p.normal.entries@[j]).loc
                == pack_all_locs(id_values(postings@, p.normal_ids@), max_package_size as nat)[j]);
    }
    Ok(p)
}

} // verus!
