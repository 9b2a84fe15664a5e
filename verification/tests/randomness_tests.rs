use dico_pallets::randomness::{generate_random_number, number_from_hash, PalletId, Randomness};

/// Gives back the subject as the hash, padded with zeros.
struct Echo;

impl Randomness for Echo {
    fn random(&self, subject: &[u8]) -> ([u8; 32], u64) {
        let mut h = [0u8; 32];
        h[..subject.len()].copy_from_slice(subject);
        (h, 0)
    }
}

/// Gives back the subject from its ninth byte on.
struct SkipId;

impl Randomness for SkipId {
    fn random(&self, subject: &[u8]) -> ([u8; 32], u64) {
        let mut h = [0u8; 32];
        h[..subject.len() - 8].copy_from_slice(&subject[8..]);
        (h, 0)
    }
}

#[test]
fn random_number_reads_first_eight_bytes_little_endian() {
    let id = PalletId([1, 2, 3, 4, 5, 6, 7, 8]);
    assert_eq!(generate_random_number(&Echo, &id, 99), 0x0807_0605_0403_0201);
}

#[test]
fn subject_ends_with_seed_little_endian() {
    let id = PalletId(*b"dico/kyc");
    assert_eq!(generate_random_number(&SkipId, &id, 0x1122_3344_5566_7788), 0x1122_3344_5566_7788);
    assert_eq!(generate_random_number(&SkipId, &id, 5), 5);
}

#[test]
fn number_from_hash_ignores_the_tail() {
    let mut h = [0xffu8; 32];
    h[..8].copy_from_slice(&[0x10, 0, 0, 0, 0, 0, 0, 0x80]);
    assert_eq!(number_from_hash(&h), 0x8000_0000_0000_0010);
    assert_eq!(number_from_hash(&[0u8; 32]), 0);
}
