use merkle_tree::digest::{combine, digest_eq, digest_hex, hash};

fn filled(byte: u8) -> [u8; 32] {
    [byte; 32]
}

#[test]
fn hash_of_abc_is_its_sha256() {
    assert_eq!(
        digest_hex(&hash(b"abc")),
        "ba7816bf8f01cfea414140de5dae2223b00361a396177a9cb410ff61f20015ad"
    );
}

#[test]
fn hash_of_nothing_is_the_sha256_of_the_empty_string() {
    assert_eq!(
        digest_hex(&hash(&[])),
        "e3b0c44298fc1c149afbf4c8996fb92427ae41e4649b934ca495991b7852b855"
    );
}

#[test]
fn hash_does_not_return_its_input() {
    let input = filled(7);
    assert_ne!(hash(&input), input);
}

#[test]
fn combine_of_two_zero_digests() {
    assert_eq!(
        digest_hex(&combine(&filled(0), &filled(0))),
        "f5a5fd42d16a20302798ef6ed309979b43003d2320d9f0e8ea9831a92759fb4b"
    );
}

#[test]
fn combine_is_the_hash_of_left_then_right() {
    let left = filled(0xa1);
    let right = filled(0x5c);
    let mut both = Vec::new();
    both.extend_from_slice(&left);
    both.extend_from_slice(&right);
    assert_eq!(combine(&left, &right), hash(&both));
}

#[test]
fn combine_depends_on_the_order() {
    let a = filled(1);
    let b = filled(2);
    assert_ne!(combine(&a, &b), combine(&b, &a));
    let mut c = filled(0);
    c[31] = 1;
    assert_ne!(combine(&filled(0), &c), combine(&c, &filled(0)));
}

#[test]
fn combine_of_equal_digests_ignores_the_order() {
    let a = filled(9);
    assert_eq!(combine(&a, &a.clone()), combine(&a.clone(), &a));
}

#[test]
fn digest_hex_writes_two_lower_case_digits_per_byte() {
    let mut digest = [0u8; 32];
    for i in 0..32 {
        digest[i] = i as u8;
    }
    assert_eq!(
        digest_hex(&digest),
        "000102030405060708090a0b0c0d0e0f101112131415161718191a1b1c1d1e1f"
    );
    let mut high = [0xffu8; 32];
    high[0] = 0xab;
    high[1] = 0x0c;
    high[2] = 0xd0;
    let text = digest_hex(&high);
    assert_eq!(text.len(), 64);
    assert_eq!(&text[..8], "ab0cd0ff");
    assert_eq!(&text[8..], "f".repeat(56));
}

#[test]
fn digest_eq_compares_every_byte() {
    let a = filled(3);
    let mut b = filled(3);
    assert!(digest_eq(&a, &b));
    b[31] = 4;
    assert!(!digest_eq(&a, &b));
    b[31] = 3;
    b[0] = 0;
    assert!(!digest_eq(&a, &b));
}
