//! Content hashing: the SHA-256 digest of a byte sequence, its hexadecimal
//! text, and the run of zero bits at its front that the proof of work counts.

use sha2::{Digest, Sha256};
use vstd::prelude::*;
use vstd::std_specs::bits::{axiom_u8_leading_zeros, u8_leading_zeros};
use vstd::utf8::encode_utf8;

verus! {

/// The hexadecimal prefix that the digest of a mined block must begin with.
pub const DIFFICULTY_PREFIX: &'static str = "00";

/// The number of zero bits that `DIFFICULTY_PREFIX` stands for: four for each
/// of its digits.
pub const DIFFICULTY_BITS: usize = 8;

/// The SHA-256 digest of `bytes`.
///
/// The function is not defined here: the `sha2` crate computes it.
pub uninterp spec fn sha256_digest(bytes: Seq<u8>) -> Seq<u8>;

/// The lower-case hexadecimal digit of a value below sixteen.
pub open spec fn hex_digit(nibble: u8) -> char {
    seq!['0', '1', '2', '3', '4', '5', '6', '7', '8', '9', 'a', 'b', 'c', 'd', 'e', 'f'][nibble as int]
}

/// The nibble at position `i` of `bytes`, high half of each byte first.
pub open spec fn nibble_at(bytes: Seq<u8>, i: int) -> u8 {
    if i % 2 == 0 {
        bytes[i / 2] >> 4
    } else {
        bytes[i / 2] & 0x0f
    }
}

/// The lower-case hexadecimal text of `bytes`: two digits for each byte.
pub open spec fn hex_lower(bytes: Seq<u8>) -> Seq<char> {
    Seq::new(2 * bytes.len(), |i: int| hex_digit(nibble_at(bytes, i)))
}

/// The hexadecimal text of the SHA-256 digest of `bytes`.
pub open spec fn digest_text(bytes: Seq<u8>) -> Seq<char> {
    hex_lower(sha256_digest(bytes))
}

/// Whether bit `p` of `byte` is set, counting from the most significant bit.
pub open spec fn byte_bit(byte: u8, p: int) -> bool {
    (byte >> ((7 - p) as u8)) & 1u8 == 1u8
}

/// Whether bit `i` of `bytes` is set: the bytes in order, each from its most
/// significant bit down.
pub open spec fn bit_at(bytes: Seq<u8>, i: int) -> bool {
    byte_bit(bytes[i / 8], i % 8)
}

/// The first `k` bits of `bytes` exist and are all zero.
pub open spec fn zero_prefix(bytes: Seq<u8>, k: nat) -> bool {
    &&& k <= 8 * bytes.len()
    &&& forall|i: int| 0 <= i < k ==> !bit_at(bytes, i)
}

/// `k` is the length of the run of zero bits at the front of `bytes`: the
/// first `k` bits are zero, and the next one, if there is one, is set.
pub open spec fn is_leading_zero_count(bytes: Seq<u8>, k: nat) -> bool {
    &&& zero_prefix(bytes, k)
    &&& k < 8 * bytes.len() ==> bit_at(bytes, k as int)
}

/// A digest satisfies the difficulty when its first `DIFFICULTY_BITS` bits
/// are zero.
pub open spec fn satisfies_difficulty(digest: Seq<u8>) -> bool {
    zero_prefix(digest, DIFFICULTY_BITS as nat)
}

/// Calls `sha2::Sha256::digest`.
///
/// Trusted: the result is the SHA-256 digest of `bytes`, a function of the
/// bytes alone, and it is 32 bytes long.
#[verifier::external_body]
fn sha256(bytes: &[u8]) -> (digest: Vec<u8>)
    ensures
        digest@ == sha256_digest(bytes@),
        digest@.len() == 32,
{
    Sha256::digest(bytes).to_vec()
}

/// Calls `hex::encode`.
///
/// Trusted: the result holds two lower-case hexadecimal digits for each byte
/// of `bytes`, in order, the high half of a byte before its low half.
#[verifier::external_body]
fn hex_encode(bytes: &[u8]) -> (text: String)
    ensures
        text@ == hex_lower(bytes@),
{
    hex::encode(bytes)
}

/// The hexadecimal SHA-256 digest of `bytes`: always 64 characters.
pub fn digest(bytes: &[u8]) -> (text: String)
    ensures
        text@ == digest_text(bytes@),
        text@.len() == 64,
{
    let raw = sha256(bytes);
    hex_encode(raw.as_slice())
}

/// The number of zero bits at the front of `bytes`.
pub fn leading_zero_bits(bytes: &[u8]) -> (count: usize)
    requires
        8 * bytes@.len() <= usize::MAX,
    ensures
        is_leading_zero_count(bytes@, count as nat),
{
    let mut index: usize = 0;
    while index < bytes.len() && bytes[index] == 0
        invariant
            index <= bytes@.len(),
            8 * bytes@.len() <= usize::MAX,
            forall|j: int| 0 <= j < index ==> bytes@[j] == 0,
        decreases bytes@.len() - index,
    {
        index += 1;
    }
    let mut count: usize = 8 * index;
    if index < bytes.len() {
        let tail: u32 = bytes[index].leading_zeros();
        proof {
            lemma_byte_leading_zeros(bytes@[index as int]);
        }
        count = count + tail as usize;
    }
    proof {
        assert forall|i: int| 0 <= i < count implies !bit_at(bytes@, i) by {
            lemma_byte_leading_zeros(bytes@[i / 8]);
        }
    }
    count
}

/// The hexadecimal SHA-256 digest of the UTF-8 bytes of `json`, and the
/// number of zero bits at the front of that same digest.
pub fn hash_json(json: String) -> (hashed: (String, usize))
    ensures
        hashed.0@ == digest_text(encode_utf8(json@)),
        hashed.0@.len() == 64,
        is_leading_zero_count(sha256_digest(encode_utf8(json@)), hashed.1 as nat),
        hashed.1 <= 256,
{
    let raw = sha256(json.as_str().as_bytes());
    let zero_bits = leading_zero_bits(raw.as_slice());
    let text = hex_encode(raw.as_slice());
    (text, zero_bits)
}

/// Whether a digest with `zero_bits` zero bits at its front satisfies the
/// difficulty.
pub fn meets_difficulty(zero_bits: usize) -> (ok: bool)
    ensures
        ok == (zero_bits >= DIFFICULTY_BITS),
{
    zero_bits >= DIFFICULTY_BITS
}

/// Hashing the same bytes twice gives the same text.
pub proof fn lemma_digest_deterministic(first: Seq<u8>, second: Seq<u8>)
    requires
        first == second,
    ensures
        digest_text(first) == digest_text(second),
{
}

/// A byte sequence has one leading zero count.
pub proof fn lemma_leading_zero_count_unique(bytes: Seq<u8>, first: nat, second: nat)
    requires
        is_leading_zero_count(bytes, first),
        is_leading_zero_count(bytes, second),
    ensures
        first == second,
{
    if first < second {
        assert(!bit_at(bytes, first as int));
    }
    if second < first {
        assert(!bit_at(bytes, second as int));
    }
}

/// A digest satisfies the difficulty exactly when its leading zero count
/// reaches `DIFFICULTY_BITS`.
pub proof fn lemma_difficulty_by_count(digest: Seq<u8>, count: nat)
    requires
        is_leading_zero_count(digest, count),
    ensures
        satisfies_difficulty(digest) <==> count >= DIFFICULTY_BITS,
{
    if satisfies_difficulty(digest) && count < DIFFICULTY_BITS {
        assert(!bit_at(digest, count as int));
    }
}

/// Two byte sequences with the same hexadecimal text are the same.
pub proof fn lemma_hex_lower_injective(first: Seq<u8>, second: Seq<u8>)
    requires
        hex_lower(first) == hex_lower(second),
    ensures
        first == second,
{
    assert(2 * first.len() == hex_lower(first).len());
    assert(2 * second.len() == hex_lower(second).len());
    assert(first.len() == second.len());
    assert forall|i: int| 0 <= i < first.len() implies first[i] == second[i] by {
        let a = first[i];
        let b = second[i];
        assert(nibble_at(first, 2 * i) == a >> 4 && nibble_at(first, 2 * i + 1) == a & 0x0f);
        assert(nibble_at(second, 2 * i) == b >> 4 && nibble_at(second, 2 * i + 1) == b & 0x0f);
        assert(hex_lower(first)[2 * i] == hex_digit(a >> 4));
        assert(hex_lower(second)[2 * i] == hex_digit(b >> 4));
        assert(hex_lower(first)[2 * i + 1] == hex_digit(a & 0x0f));
        assert(hex_lower(second)[2 * i + 1] == hex_digit(b & 0x0f));
        assert(a >> 4 < 16 && a & 0x0f < 16) by (bit_vector);
        assert(b >> 4 < 16 && b & 0x0f < 16) by (bit_vector);
        lemma_hex_digit_injective(a >> 4, b >> 4);
        lemma_hex_digit_injective(a & 0x0f, b & 0x0f);
        assert(a == b) by (bit_vector)
            requires
                a >> 4 == b >> 4,
                a & 0x0f == b & 0x0f,
        ;
    }
    assert(first =~= second);
}

/// A run of zero bits at the front of `bytes`, four for each digit, is the
/// same as a run of `0` digits at the front of its hexadecimal text.
pub proof fn lemma_zero_bits_are_zero_digits(bytes: Seq<u8>, digits: nat)
    requires
        digits <= 2 * bytes.len(),
    ensures
        zero_prefix(bytes, 4 * digits) <==> (forall|j: int|
            0 <= j < digits ==> hex_lower(bytes)[j] == '0'),
{
    let text = hex_lower(bytes);
    if zero_prefix(bytes, 4 * digits) {
        assert forall|j: int| 0 <= j < digits implies text[j] == '0' by {
            lemma_nibble_zero(bytes, j);
        }
    }
    if forall|j: int| 0 <= j < digits ==> text[j] == '0' {
        assert forall|i: int| 0 <= i < 4 * digits implies !bit_at(bytes, i) by {
            let j = i / 4;
            lemma_nibble_zero(bytes, j);
            assert(text[j] == '0');
        }
    }
}

/// The digests that satisfy the difficulty are those whose hexadecimal text
/// begins with `DIFFICULTY_PREFIX`.
pub proof fn lemma_difficulty_is_hex_prefix(digest: Seq<u8>)
    requires
        digest.len() >= 1,
    ensures
        satisfies_difficulty(digest) <==> DIFFICULTY_PREFIX@.is_prefix_of(hex_lower(digest)),
{
    reveal_strlit("00");
    lemma_zero_bits_are_zero_digits(digest, 2);
    let text = hex_lower(digest);
    let prefix = DIFFICULTY_PREFIX@;
    assert(prefix.len() == 2 && prefix[0] == '0' && prefix[1] == '0');
    if prefix.is_prefix_of(text) {
        assert(text.subrange(0, 2)[0] == prefix[0]);
        assert(text.subrange(0, 2)[1] == prefix[1]);
    }
    if forall|j: int| 0 <= j < 2 ==> text[j] == '0' {
        assert(text.subrange(0, 2) =~= prefix);
    }
}

/// What `u8::leading_zeros` counts, said over the bits of the byte.
proof fn lemma_byte_leading_zeros(byte: u8)
    ensures
        u8_leading_zeros(byte) <= 8,
        byte == 0 <==> u8_leading_zeros(byte) == 8,
        forall|p: int| 0 <= p < u8_leading_zeros(byte) ==> !byte_bit(byte, p),
        u8_leading_zeros(byte) < 8 ==> byte_bit(byte, u8_leading_zeros(byte) as int),
{
    axiom_u8_leading_zeros(byte);
    let run = u8_leading_zeros(byte);
    assert forall|p: int| 0 <= p < run implies !byte_bit(byte, p) by {
        let shift = (7 - p) as u8;
        assert((byte >> shift) & 1u8 == 0u8);
    }
    if run < 8 {
        let shift = (7 - run) as u8;
        let low = (byte >> shift) & 1u8;
        assert(low != 0u8);
        assert(low == 1u8) by (bit_vector)
            requires
                low == (byte >> shift) & 1u8,
                low != 0u8,
        ;
    }
}

/// The high and the low half of a byte are zero exactly when their four bits
/// are.
proof fn lemma_nibble_bits(byte: u8)
    ensures
        byte >> 4 < 16,
        byte & 0x0f < 16,
        byte >> 4 == 0 <==> !byte_bit(byte, 0) && !byte_bit(byte, 1) && !byte_bit(byte, 2)
            && !byte_bit(byte, 3),
        byte & 0x0f == 0 <==> !byte_bit(byte, 4) && !byte_bit(byte, 5) && !byte_bit(byte, 6)
            && !byte_bit(byte, 7),
{
    assert(byte >> 4 < 16) by (bit_vector);
    assert(byte & 0x0f < 16) by (bit_vector);
    assert(byte >> 4 == 0 <==> (byte >> 7u8) & 1u8 != 1u8 && (byte >> 6u8) & 1u8 != 1u8 && (byte
        >> 5u8) & 1u8 != 1u8 && (byte >> 4u8) & 1u8 != 1u8) by (bit_vector);
    assert(byte & 0x0f == 0 <==> (byte >> 3u8) & 1u8 != 1u8 && (byte >> 2u8) & 1u8 != 1u8 && (byte
        >> 1u8) & 1u8 != 1u8 && (byte >> 0u8) & 1u8 != 1u8) by (bit_vector);
}

/// A nibble of `bytes` is zero exactly when its four bits are.
proof fn lemma_nibble_zero(bytes: Seq<u8>, j: int)
    requires
        0 <= j < 2 * bytes.len(),
    ensures
        nibble_at(bytes, j) < 16,
        nibble_at(bytes, j) == 0 <==> !bit_at(bytes, 4 * j) && !bit_at(bytes, 4 * j + 1) && !bit_at(
            bytes,
            4 * j + 2,
        ) && !bit_at(bytes, 4 * j + 3),
{
    lemma_nibble_bits(bytes[j / 2]);
}

/// Two nibbles with the same digit are the same.
proof fn lemma_hex_digit_injective(first: u8, second: u8)
    requires
        first < 16,
        second < 16,
        hex_digit(first) == hex_digit(second),
    ensures
        first == second,
{
}

} // verus!
