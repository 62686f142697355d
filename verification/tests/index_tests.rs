use edgesearch::builder::IndexBuilder;
use edgesearch::direct::DirectStore;
use edgesearch::bst::BstStore;
use edgesearch::keys::KeyKind;
use edgesearch::keys::PackedKey;
use edgesearch::partition::partition_terms;
use edgesearch::pipeline::build_index;
use edgesearch::pipeline::BuildParams;
use edgesearch::postings::postings_contains;
use edgesearch::BuildError;

fn add(b: &mut IndexBuilder, doc: u32, term: &str) {
    b.add_pair(doc, &term.as_bytes().to_vec()).unwrap();
}

#[test]
fn example_scenario_two_documents() {
    // doc 0 = {"cat","dog"}, doc 1 = {"dog"}
    let mut b = IndexBuilder::new();
    add(&mut b, 0, "cat");
    add(&mut b, 0, "dog");
    add(&mut b, 1, "dog");

    // dictionary in first-seen order
    assert_eq!(b.terms, vec![b"cat".to_vec(), b"dog".to_vec()]);
    // frequency: dog = 2, cat = 1
    assert_eq!(b.term_frequency, vec![1, 2]);

    // postings: cat -> {0}, dog -> {0, 1}
    let postings = b.build_postings();
    assert_eq!(postings[0], vec![0u32]);
    assert_eq!(postings[1], vec![0u32, 1u32]);

    // a budget of exactly one lookup row admits only the top-ranked term:
    // ranking is [dog, cat], so Popular = {dog}, Normal = {cat}
    let part = partition_terms(&b.terms, &b.term_frequency, &postings, 1 << 20, 24).unwrap();
    assert_eq!(part.is_popular, vec![false, true]);
    assert_eq!(part.popular_count, 1);
    assert_eq!(part.popular.len(), 1);

    // the one popular entry is dog's compressed postings: {0, 1}
    let dog_bytes = part.popular.get(0);
    assert_eq!(postings_contains(&dog_bytes, 0), Some(true));
    assert_eq!(postings_contains(&dog_bytes, 1), Some(true));
    assert_eq!(postings_contains(&dog_bytes, 2), Some(false));

    // the normal store holds cat, binary-searchable by its bytes
    let mut normal = part.normal;
    let _lookup = normal.serialise();
    let cat_bytes = normal.lookup(&PackedKey::Str(b"cat".to_vec())).unwrap();
    assert_eq!(postings_contains(&cat_bytes, 0), Some(true));
    assert_eq!(postings_contains(&cat_bytes, 1), Some(false));
    assert!(normal.lookup(&PackedKey::Str(b"dog".to_vec())).is_none());
}

#[test]
fn postings_round_trip_through_bitmap_library() {
    let mut b = IndexBuilder::new();
    add(&mut b, 0, "alpha");
    add(&mut b, 2, "alpha");
    add(&mut b, 5, "alpha");
    let postings = b.build_postings();
    assert_eq!(postings[0], vec![0u32, 2, 5]);

    let part = partition_terms(&b.terms, &b.term_frequency, &postings, 1 << 20, 1 << 20).unwrap();
    let bytes = part.popular.get(0);
    // decode with the bitmap library itself: the wrapper must emit real
    // compressed-bitmap bytes, not its input
    let bitmap = croaring::Bitmap::try_deserialize::<croaring::Portable>(&bytes).unwrap();
    assert_eq!(bitmap.cardinality(), 3);
    assert!(bitmap.contains(0) && bitmap.contains(2) && bitmap.contains(5));
    assert!(!bitmap.contains(1) && !bitmap.contains(3));
}

#[test]
fn document_gaps_are_filled_not_skipped() {
    let mut b = IndexBuilder::new();
    add(&mut b, 0, "x");
    add(&mut b, 2, "x");
    assert_eq!(b.document_count(), 3);
    assert_eq!(b.terms_by_document[1], Vec::<usize>::new());
    let postings = b.build_postings();
    assert_eq!(postings[0], vec![0u32, 2]);
}

#[test]
fn direct_store_returns_exact_bytes() {
    let mut s = DirectStore::new(10, 1 << 10);
    let a = vec![1u8, 2, 3];
    let b = vec![4u8, 5];
    let c = vec![6u8; 7];
    let key = PackedKey::Str(b"k".to_vec());
    assert_eq!(s.insert(&key, &a), Ok(true));
    assert_eq!(s.insert(&key, &b), Ok(true));
    // 3 + 2 + 7 > 10: c opens a second package
    assert_eq!(s.insert(&key, &c), Ok(true));
    assert_eq!(s.get(0), a);
    assert_eq!(s.get(1), b);
    assert_eq!(s.get(2), c);
    let packages = s.into_packages();
    assert_eq!(packages.len(), 2);
    assert!(packages.iter().all(|p| p.len() <= 10));
    assert_eq!(packages[0], vec![1u8, 2, 3, 4, 5]);
    assert_eq!(packages[1], vec![6u8; 7]);
}

#[test]
fn direct_store_stops_at_lookup_budget() {
    // 48 bytes of lookup budget = exactly two rows
    let mut s = DirectStore::new(1 << 10, 48);
    let key = PackedKey::Str(b"k".to_vec());
    assert_eq!(s.insert(&key, &vec![1u8]), Ok(true));
    assert_eq!(s.insert(&key, &vec![2u8]), Ok(true));
    // the third row would overflow the budget: refused, nothing written
    assert_eq!(s.insert(&key, &vec![3u8]), Ok(false));
    assert_eq!(s.len(), 2);
    assert_eq!(s.get_raw_lookup().len(), 48);
    assert_eq!(s.get(0), vec![1u8]);
    assert_eq!(s.get(1), vec![2u8]);
}

#[test]
fn direct_lookup_row_format() {
    let mut s = DirectStore::new(1 << 10, 1 << 10);
    let key = PackedKey::Str(b"k".to_vec());
    s.insert(&key, &vec![9u8, 9, 9]).unwrap();
    let lookup = s.get_raw_lookup();
    // one row: package 0, offset 0, length 3, little-endian u64 each
    let mut expected = vec![0u8; 24];
    expected[16] = 3;
    assert_eq!(lookup, expected);
}

#[test]
fn oversized_value_is_fatal_and_mutates_nothing() {
    let mut s = DirectStore::new(4, 1 << 10);
    let key = PackedKey::Str(b"k".to_vec());
    assert_eq!(s.insert(&key, &vec![1u8, 2]), Ok(true));
    assert_eq!(s.insert(&key, &vec![0u8; 5]), Err(BuildError::OversizedValue));
    assert_eq!(s.len(), 1);
    assert_eq!(s.get(0), vec![1u8, 2]);

    let mut t = BstStore::new(4, KeyKind::U32);
    assert_eq!(t.insert(PackedKey::U32(1), &vec![0u8; 5]), Err(BuildError::OversizedValue));
    assert_eq!(t.insert(PackedKey::U32(1), &vec![0u8; 4]), Ok(()));
}

#[test]
fn bst_store_lookup_str_keys() {
    let mut s = BstStore::new(1 << 10, KeyKind::Str);
    // inserted in arbitrary (non-sorted) order
    for (k, v) in [("mango", 10u8), ("apple", 20), ("zebra", 30), ("cherry", 40)] {
        s.insert(PackedKey::Str(k.as_bytes().to_vec()), &vec![v]).unwrap();
    }
    let lookup = s.serialise();
    // one row per key: 256 bytes of key, 24 of location
    assert_eq!(lookup.len(), 4 * 280);
    // rows are sorted ascending by key: "apple" comes first
    assert_eq!(lookup[0], 5); // length prefix of "apple"
    assert_eq!(&lookup[1..6], b"apple");
    for (k, v) in [("apple", 20u8), ("cherry", 40), ("mango", 10), ("zebra", 30)] {
        let got = s.lookup(&PackedKey::Str(k.as_bytes().to_vec())).unwrap();
        assert_eq!(got, vec![v]);
    }
    for absent in ["a", "banana", "zz", "mang", "mangoo"] {
        assert!(s.lookup(&PackedKey::Str(absent.as_bytes().to_vec())).is_none());
    }
}

#[test]
fn bst_store_lookup_u32_keys() {
    let mut s = BstStore::new(1 << 10, KeyKind::U32);
    for k in [5u32, 1, 9, 7, 0] {
        s.insert(PackedKey::U32(k), &k.to_le_bytes().to_vec()).unwrap();
    }
    let lookup = s.serialise();
    // one row per key: 4 bytes of key, 24 of location; keys ascending
    assert_eq!(lookup.len(), 5 * 28);
    assert_eq!(&lookup[0..4], &[0, 0, 0, 0]); // big-endian 0 first
    assert_eq!(&lookup[28..32], &[0, 0, 0, 1]);
    for k in [0u32, 1, 5, 7, 9] {
        assert_eq!(s.lookup(&PackedKey::U32(k)).unwrap(), k.to_le_bytes().to_vec());
    }
    for absent in [2u32, 6, 10, u32::MAX] {
        assert!(s.lookup(&PackedKey::U32(absent)).is_none());
    }
}

fn corpus() -> (Vec<(u32, Vec<u8>)>, Vec<Vec<u8>>) {
    let mut pairs = Vec::new();
    let mut documents = Vec::new();
    for d in 0..1100u32 {
        pairs.push((d, format!("term{:04}", d).into_bytes()));
        if d % 2 == 0 {
            pairs.push((d, b"even".to_vec()));
        }
        documents.push(format!("document body {}", d).into_bytes());
    }
    (pairs, documents)
}

#[test]
fn build_produces_size_capped_artifacts() {
    let (pairs, documents) = corpus();
    let params = BuildParams { max_package_size: 4096, popular_lookup_cap: 24 * 8 };
    let a = build_index(&pairs, &documents, &params).unwrap();
    assert!(!a.popular_lookup.is_empty());
    assert!(!a.normal_lookup.is_empty());
    assert!(!a.documents_lookup.is_empty());
    for pkgs in [&a.popular_packages, &a.normal_packages, &a.documents_packages] {
        assert!(!pkgs.is_empty());
        for p in pkgs.iter() {
            assert!(p.len() <= 4096);
        }
    }
    // the documents artifact splits into many packages, none oversized
    assert!(a.documents_packages.len() > 1);
}

#[test]
fn build_is_deterministic() {
    let (pairs, documents) = corpus();
    let params = BuildParams { max_package_size: 4096, popular_lookup_cap: 24 * 8 };
    let a1 = build_index(&pairs, &documents, &params).unwrap();
    let a2 = build_index(&pairs, &documents, &params).unwrap();
    assert_eq!(a1.popular_lookup, a2.popular_lookup);
    assert_eq!(a1.normal_lookup, a2.normal_lookup);
    assert_eq!(a1.documents_lookup, a2.documents_lookup);
    assert_eq!(a1.popular_packages, a2.popular_packages);
    assert_eq!(a1.normal_packages, a2.normal_packages);
    assert_eq!(a1.documents_packages, a2.documents_packages);
}

#[test]
fn corpus_too_small_aborts_before_packing() {
    let pairs = vec![(0u32, b"cat".to_vec()), (1, b"dog".to_vec())];
    let documents = vec![b"one".to_vec(), b"two".to_vec()];
    let params = BuildParams { max_package_size: 4096, popular_lookup_cap: 1024 };
    assert!(matches!(build_index(&pairs, &documents, &params), Err(BuildError::CorpusTooSmall)));
}

#[test]
fn input_contract_violations_are_fatal() {
    let mut b = IndexBuilder::new();
    // empty term
    assert_eq!(b.add_pair(0, &Vec::new()), Err(BuildError::InvalidTerm));
    // terminator byte inside a term
    assert_eq!(b.add_pair(0, &vec![b'a', 0, b'b']), Err(BuildError::InvalidTerm));
    // longer than the fixed key width
    assert_eq!(b.add_pair(0, &vec![b'a'; 256]), Err(BuildError::InvalidTerm));
    // exactly the fixed key width is accepted
    assert_eq!(b.add_pair(0, &vec![b'a'; 255]), Ok(()));
    // duplicate within one document
    assert_eq!(b.add_pair(0, &b"dup".to_vec()), Ok(()));
    assert_eq!(b.add_pair(0, &b"dup".to_vec()), Err(BuildError::DuplicateTermInDocument));
    // the same term in another document is fine
    assert_eq!(b.add_pair(1, &b"dup".to_vec()), Ok(()));
    // nothing of the rejected pairs was recorded
    assert_eq!(b.terms.len(), 2);
    assert_eq!(b.term_frequency, vec![1, 2]);
}

#[test]
fn oversized_document_aborts_build() {
    let (pairs, mut documents) = corpus();
    documents[3] = vec![0u8; 5000];
    let params = BuildParams { max_package_size: 4096, popular_lookup_cap: 1024 };
    assert!(matches!(build_index(&pairs, &documents, &params), Err(BuildError::OversizedValue)));
}

#[test]
fn oversized_postings_abort_build() {
    // a package ceiling smaller than any compressed bitmap: the first
    // term's postings already cannot be packed
    let (pairs, documents) = corpus();
    let params = BuildParams { max_package_size: 2, popular_lookup_cap: 1024 };
    assert!(matches!(build_index(&pairs, &documents, &params), Err(BuildError::OversizedValue)));
}

#[test]
fn partition_respects_frequency_order() {
    let mut b = IndexBuilder::new();
    // frequencies: high = 3, mid = 2, low1/low2 = 1
    for d in 0..3u32 {
        add(&mut b, d, "high");
    }
    for d in 0..2u32 {
        add(&mut b, d, "mid");
    }
    add(&mut b, 0, "low1");
    add(&mut b, 1, "low2");
    let postings = b.build_postings();
    // two lookup rows of budget: Popular = {high, mid}
    let part = partition_terms(&b.terms, &b.term_frequency, &postings, 1 << 20, 48).unwrap();
    let pop: Vec<&[u8]> = b
        .terms
        .iter()
        .zip(part.is_popular.iter())
        .filter(|(_, p)| **p)
        .map(|(t, _)| t.as_slice())
        .collect();
    assert_eq!(pop, vec![b"high".as_slice(), b"mid".as_slice()]);
    // every term is in exactly one partition
    assert_eq!(part.is_popular.iter().filter(|p| **p).count(), part.popular_count);
    assert_eq!(part.is_popular.len(), b.terms.len());
    assert_eq!(part.normal.package_count() > 0, true);
}

#[test]
fn lookup_budget_edges() {
    let mut b = IndexBuilder::new();
    add(&mut b, 0, "one");
    add(&mut b, 1, "two");
    add(&mut b, 1, "three");
    let postings = b.build_postings();
    // no budget at all: every term is normal
    let none = partition_terms(&b.terms, &b.term_frequency, &postings, 1 << 20, 0).unwrap();
    assert_eq!(none.popular_count, 0);
    assert_eq!(none.is_popular, vec![false, false, false]);
    assert_eq!(none.popular.get_raw_lookup().len(), 0);
    // ample budget: every term is popular, the cut never triggers
    let all = partition_terms(&b.terms, &b.term_frequency, &postings, 1 << 20, 1 << 20).unwrap();
    assert_eq!(all.popular_count, 3);
    assert_eq!(all.is_popular, vec![true, true, true]);
    assert_eq!(all.popular.get_raw_lookup().len(), 72);
    assert_eq!(all.normal.package_count(), 0);
}

#[test]
fn tie_break_is_deterministic() {
    // equal frequencies: ranked by descending term bytes
    let mut b = IndexBuilder::new();
    add(&mut b, 0, "aa");
    add(&mut b, 0, "zz");
    add(&mut b, 0, "mm");
    let postings = b.build_postings();
    let part = partition_terms(&b.terms, &b.term_frequency, &postings, 1 << 20, 24).unwrap();
    // one popular slot: the lexicographically greatest of the tie wins
    assert_eq!(part.is_popular, vec![false, true, false]);
}
