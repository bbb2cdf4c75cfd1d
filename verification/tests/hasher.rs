use blockchain::hasher::{
    digest, hash_json, leading_zero_bits, meets_difficulty, DIFFICULTY_BITS, DIFFICULTY_PREFIX,
};

#[test]
fn digest_of_known_inputs() {
    assert_eq!(
        digest(b"abc"),
        "ba7816bf8f01cfea414140de5dae2223b00361a396177a9cb410ff61f20015ad"
    );
    assert_eq!(
        digest(b""),
        "e3b0c44298fc1c149afbf4c8996fb92427ae41e4649b934ca495991b7852b855"
    );
}

#[test]
fn digest_has_64_lower_case_hex_digits() {
    let inputs: Vec<&[u8]> = vec![b"", b"a", b"tx1\ntx2", &[0u8, 255u8, 16u8]];
    for input in inputs {
        let text = digest(input);
        assert_eq!(text.len(), 64);
        assert!(text.chars().all(|c| matches!(c, '0'..='9' | 'a'..='f')));
    }
}

#[test]
fn digest_is_deterministic() {
    let bytes = b"the same serialized bytes";
    assert_eq!(digest(bytes), digest(bytes));
    assert_eq!(hash_json(String::from("{}")), hash_json(String::from("{}")));
}

#[test]
fn digest_changes_with_one_bit() {
    assert_ne!(digest(b"tx0"), digest(b"tx1"));
}

#[test]
fn leading_zero_bits_of_nothing_is_zero() {
    assert_eq!(leading_zero_bits(&[]), 0);
}

#[test]
fn leading_zero_bits_counts_whole_and_partial_bytes() {
    assert_eq!(leading_zero_bits(&[0x80]), 0);
    assert_eq!(leading_zero_bits(&[0xff, 0x00]), 0);
    assert_eq!(leading_zero_bits(&[0x40]), 1);
    assert_eq!(leading_zero_bits(&[0x01]), 7);
    assert_eq!(leading_zero_bits(&[0x00]), 8);
    assert_eq!(leading_zero_bits(&[0x00, 0x1f]), 11);
    assert_eq!(leading_zero_bits(&[0x00, 0x00]), 16);
    assert_eq!(leading_zero_bits(&[0x00, 0x00, 0x01, 0x00]), 23);
    assert_eq!(leading_zero_bits(&[0u8; 32]), 256);
}

#[test]
fn hash_json_gives_digest_and_zero_bits_of_the_same_bytes() {
    let (hash, zero_bits) = hash_json(String::from("abc"));
    assert_eq!(hash, "ba7816bf8f01cfea414140de5dae2223b00361a396177a9cb410ff61f20015ad");
    assert_eq!(zero_bits, 0);

    let (hash, zero_bits) = hash_json(String::from("hello"));
    assert_eq!(hash, "2cf24dba5fb0a30e26e83b2ac5b9e29e1b161e5c1fa7425e73043362938b9824");
    assert_eq!(zero_bits, 2);

    let (hash, zero_bits) = hash_json(String::from("286"));
    assert_eq!(hash, "00328ce57bbc14b33bd6695bc8eb32cdf2fb5f3a7d89ec14a42825e15d39df60");
    assert_eq!(zero_bits, 10);
}

#[test]
fn hash_json_agrees_with_digest() {
    let json = String::from("{\"data\":\"\",\"id\":7}");
    let (hash, _) = hash_json(json.clone());
    assert_eq!(hash, digest(json.as_bytes()));
}

#[test]
fn difficulty_is_two_zero_digits() {
    assert_eq!(DIFFICULTY_PREFIX, "00");
    assert_eq!(DIFFICULTY_BITS, 4 * DIFFICULTY_PREFIX.len());
}

#[test]
fn meets_difficulty_at_the_threshold() {
    assert!(!meets_difficulty(0));
    assert!(!meets_difficulty(7));
    assert!(meets_difficulty(8));
    assert!(meets_difficulty(9));
    assert!(meets_difficulty(256));
}

#[test]
fn zero_bits_meet_difficulty_exactly_when_hash_has_the_prefix() {
    for seed in 0..2000u32 {
        let (hash, zero_bits) = hash_json(format!("{}", seed));
        assert_eq!(meets_difficulty(zero_bits), hash.starts_with(DIFFICULTY_PREFIX));
    }
}
