//! Random numbers drawn from the runtime's randomness source, with the subject
//! and the output in the SCALE encoding.

use parity_scale_codec::Decode;
use parity_scale_codec::Encode;
use vstd::prelude::*;

verus! {

/// The identifier of a pallet, eight bytes.
#[derive(Clone, Copy, Debug, PartialEq, Eq)]
pub struct PalletId(pub [u8; 8]);

/// `256^i`.
pub open spec fn pow256(i: nat) -> nat
    decreases i,
{
    if i == 0 { 1 } else { 256 * pow256((i - 1) as nat) }
}

/// The little-endian bytes of `x`.
pub open spec fn le_bytes(x: u64) -> Seq<u8> {
    Seq::new(8, |i: int| ((x as nat / pow256(i as nat)) % 256) as u8)
}

/// The number whose little-endian bytes are `s`.
pub open spec fn le_value(s: Seq<u8>) -> nat
    decreases s.len(),
{
    if s.len() == 0 { 0 } else { (s[0] + 256 * le_value(s.drop_first())) as nat }
}

/// A source of randomness: a hash of `subject` and of what the runtime has seen,
/// and the block from which it is taken.
pub trait Randomness {
    fn random(&self, subject: &[u8]) -> ([u8; 32], u64);
}

/// `Encode::encode` of parity-scale-codec on the pair `(pallet_id, seed)`.
/// Claims that the encoding is the eight bytes of the id followed by the eight
/// little-endian bytes of the seed, as the codec's source writes arrays of bytes
/// raw and integers little-endian, and tuples field after field.
#[verifier::external_body]
fn encode_subject(pallet_id: &PalletId, seed: u64) -> (r: Vec<u8>)
    ensures
        r@ == pallet_id.0@ + le_bytes(seed),
{
    (pallet_id.0, seed).encode()
}

/// `<u64 as Decode>::decode` of parity-scale-codec on a byte slice. Claims that
/// it succeeds exactly when there are eight bytes to read, and that it reads the
/// first eight bytes as a little-endian number, as the codec's source does.
#[verifier::external_body]
fn decode_u64(input: &[u8]) -> (r: Option<u64>)
    ensures
        r is Some <==> input@.len() >= 8,
        r matches Some(v) ==> v == le_value(input@.take(8)),
{
    <u64 as Decode>::decode(&mut &input[..]).ok()
}

/// The number that a random hash stands for: its first eight bytes, read as a
/// little-endian number.
pub fn number_from_hash(hash: &[u8; 32]) -> (r: u64)
    ensures
        r == le_value(hash@.take(8)),
{
    // A hash is 32 bytes long, always long enough for a u64.
    decode_u64(hash.as_slice()).unwrap()
}

/// The bytes of the subject that a random number for `seed` is asked for: the
/// eight bytes of the pallet id followed by the little-endian bytes of the seed.
pub open spec fn random_subject(pallet_id: PalletId, seed: u64) -> Seq<u8> {
    pallet_id.0@ + le_bytes(seed)
}

/// Whether `hash` is a random hash that `randomness` answers with when asked for
/// a subject with the bytes `subject`.
pub open spec fn random_answer<R: Randomness>(randomness: &R, subject: Seq<u8>, hash: [u8; 32]) -> bool {
    exists|s: &[u8], block: u64| s@ == subject && #[trigger] call_ensures(R::random, (randomness, s), (hash, block))
}

/// A random number for `seed`: the first eight bytes of the random hash of the
/// encoded `(pallet_id, seed)`, read as a little-endian number.
pub fn generate_random_number<R: Randomness>(randomness: &R, pallet_id: &PalletId, seed: u64) -> (r: u64)
    ensures
        exists|hash: [u8; 32]|
            #[trigger] random_answer(randomness, random_subject(*pallet_id, seed), hash) && r == le_value(hash@.take(8)),
{
    let subject = encode_subject(pallet_id, seed);
    let s = subject.as_slice();
    let (random_seed, _block_number) = randomness.random(s);
    let r = number_from_hash(&random_seed);
    assert(random_answer(randomness, random_subject(*pallet_id, seed), random_seed));
    r
}

} // verus!
