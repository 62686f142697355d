use edgesearch::bytes::bytes_eq;
use edgesearch::bytes::bytes_lt;
use edgesearch::bytes::push_u64_le;
use edgesearch::keys::KeyKind;
use edgesearch::keys::PackedKey;
use edgesearch::wasm_args::WasmOptimisationLevel;
use edgesearch::wasm_args::WasmStandard;

#[test]
fn lexicographic_byte_order() {
    let cases: [(&[u8], &[u8], bool); 7] = [
        (b"", b"", false),
        (b"", b"a", true),
        (b"a", b"", false),
        (b"abc", b"abd", true),
        (b"ab", b"abc", true),
        (b"abc", b"ab", false),
        (b"abc", b"abc", false),
    ];
    for (a, b, expected) in cases {
        assert_eq!(bytes_lt(&a.to_vec(), &b.to_vec()), expected);
    }
    assert!(bytes_eq(&b"same".to_vec(), &b"same".to_vec()));
    assert!(!bytes_eq(&b"same".to_vec(), &b"sam".to_vec()));
}

#[test]
fn u64_rows_are_little_endian() {
    let mut out = Vec::new();
    push_u64_le(&mut out, 0x0102030405060708);
    assert_eq!(out, vec![8, 7, 6, 5, 4, 3, 2, 1]);
}

#[test]
fn string_keys_encode_with_length_prefix_and_padding() {
    let key = PackedKey::Str(b"ab".to_vec());
    let mut out = Vec::new();
    key.encode_into(&mut out);
    assert_eq!(out.len(), 256);
    assert_eq!(out[0], 2);
    assert_eq!(&out[1..3], b"ab");
    assert!(out[3..].iter().all(|&b| b == 0));
    assert_eq!(key.kind(), KeyKind::Str);
    assert_eq!(KeyKind::Str.stride(), 256);
}

#[test]
fn integer_keys_encode_big_endian() {
    let key = PackedKey::U32(0x01020304);
    let mut out = Vec::new();
    key.encode_into(&mut out);
    assert_eq!(out, vec![1, 2, 3, 4]);
    assert_eq!(KeyKind::U32.stride(), 4);
}

#[test]
fn key_order_matches_kind() {
    assert!(PackedKey::U32(3).lt(&PackedKey::U32(4)));
    assert!(!PackedKey::U32(4).lt(&PackedKey::U32(4)));
    assert!(PackedKey::Str(b"ant".to_vec()).lt(&PackedKey::Str(b"bee".to_vec())));
    assert!(PackedKey::U32(9).eq_key(&PackedKey::U32(9)));
    assert!(!PackedKey::U32(9).eq_key(&PackedKey::Str(b"9".to_vec())));
}

#[test]
fn wasm_flag_values() {
    assert_eq!(WasmStandard::C89.flag(), "c89");
    assert_eq!(WasmStandard::C11.flag(), "c11");
    assert_eq!(WasmOptimisationLevel::Level(0).flag(), "0");
    assert_eq!(WasmOptimisationLevel::Level(3).flag(), "3");
    assert_eq!(WasmOptimisationLevel::Fast.flag(), "fast");
    assert_eq!(WasmOptimisationLevel::S.flag(), "s");
    assert_eq!(WasmOptimisationLevel::Z.flag(), "z");
    assert_eq!(WasmOptimisationLevel::G.flag(), "g");
}
