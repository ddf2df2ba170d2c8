//! Perceptual hashes as bits: words, 16-bit blocks, and their distance.

use base64::Engine;
use vstd::prelude::*;

verus! {

/// The bytes that the standard base64 alphabet, with padding, decodes
/// `text` to; none where `text` is not such an encoding.
pub uninterp spec fn base64_decoded(text: Seq<char>) -> Option<Seq<u8>>;

/// The text that the standard base64 alphabet, with padding, encodes
/// `bytes` to.
pub uninterp spec fn base64_encoded(bytes: Seq<u8>) -> Seq<char>;

/// Trusted: `Engine::decode` of the `STANDARD` engine. The outcome depends
/// on the text alone and is named `base64_decoded`.
#[verifier::external_body]
pub(crate) fn decode_base64(text: &str) -> (r: Option<Vec<u8>>)
    ensures
        match r {
            Some(bytes) => base64_decoded(text@) == Some(bytes@),
            None => base64_decoded(text@) is None,
        },
{
    match base64::engine::general_purpose::STANDARD.decode(text) {
        Ok(bytes) => Some(bytes),
        Err(_) => None,
    }
}

/// Trusted: `Engine::encode` of the `STANDARD` engine. The outcome depends
/// on the bytes alone and is named `base64_encoded`; decoding it with the
/// same engine gives the bytes back. The call computes the length of its
/// output, which has to fit in a `usize`.
#[verifier::external_body]
pub(crate) fn encode_base64(bytes: &Vec<u8>) -> (text: String)
    requires
        bytes@.len() <= usize::MAX / 2,
    ensures
        text@ == base64_encoded(bytes@),
        base64_decoded(text@) == Some(bytes@),
{
    base64::engine::general_purpose::STANDARD.encode(bytes)
}

/// The number of ones in the binary form of `x`.
pub open spec fn ones(x: u64) -> nat
    decreases x,
{
    if x == 0 {
        0
    } else {
        (x % 2) as nat + ones(x / 2)
    }
}

/// Trusted: `u64::count_ones` counts the ones in the binary form of its
/// argument, of which a 64-bit number has at most 64.
#[verifier::external_body]
pub(crate) fn count_ones(x: u64) -> (r: u32)
    ensures
        r == ones(x),
        r <= 64,
{
    x.count_ones()
}

/// The word made of the eight bytes from `at` on, the first byte lowest.
pub open spec fn word_at(bytes: Seq<u8>, at: int) -> u64 {
    (bytes[at] as u64) | ((bytes[at + 1] as u64) << 8) | ((bytes[at + 2] as u64) << 16) | ((bytes[at
        + 3] as u64) << 24) | ((bytes[at + 4] as u64) << 32) | ((bytes[at + 5] as u64) << 40) | ((
    bytes[at + 6] as u64) << 48) | ((bytes[at + 7] as u64) << 56)
}

/// The words of a run of bytes whose length is a multiple of eight.
pub open spec fn words_of(bytes: Seq<u8>) -> Seq<u64> {
    Seq::new(bytes.len() / 8, |k: int| word_at(bytes, 8 * k))
}

/// The words of hash bytes, where they come in whole words.
pub open spec fn chunks_of(bytes: Seq<u8>) -> Option<Seq<u64>> {
    if bytes.len() % 8 == 0 {
        Some(words_of(bytes))
    } else {
        None
    }
}

/// The words of a decoded hash, where it has exactly the expected number of
/// bits and comes in whole words.
pub open spec fn bits_of_decoded(decoded: Option<Seq<u8>>, expected_bits: u32) -> Option<Seq<u64>> {
    match decoded {
        Some(bytes) => if bytes.len() * 8 == expected_bits && bytes.len() % 8 == 0 {
            Some(words_of(bytes))
        } else {
            None
        },
        None => None,
    }
}

/// The words of a run of bytes: one for each full group of eight.
pub fn words_from_bytes(bytes: &Vec<u8>) -> (out: Vec<u64>)
    ensures
        out@ == words_of(bytes@),
{
    let count: usize = bytes.len() / 8;
    let mut out: Vec<u64> = Vec::new();
    let mut k: usize = 0;
    while k < count
        invariant
            k <= count,
            count == bytes.len() / 8,
            out@.len() == k,
            forall|j: int| 0 <= j < k ==> out@[j] == word_at(bytes@, 8 * j),
        decreases count - k,
    {
        let at: usize = 8 * k;
        let word: u64 = (bytes[at] as u64) | ((bytes[at + 1] as u64) << 8) | ((bytes[at + 2] as u64)
            << 16) | ((bytes[at + 3] as u64) << 24) | ((bytes[at + 4] as u64) << 32) | ((bytes[at
            + 5] as u64) << 40) | ((bytes[at + 6] as u64) << 48) | ((bytes[at + 7] as u64) << 56);
        out.push(word);
        k += 1;
    }
    assert(out@ =~= words_of(bytes@));
    out
}

/// The words of hash bytes, where they come in whole words.
pub fn hash_to_chunks(bytes: &Vec<u8>) -> (r: Option<Vec<u64>>)
    ensures
        match r {
            Some(words) => chunks_of(bytes@) == Some(words@),
            None => chunks_of(bytes@) is None,
        },
{
    if bytes.len() % 8 != 0 {
        return None;
    }
    Some(words_from_bytes(bytes))
}

/// The words of a decoded hash, where it has exactly the expected number
/// of bits and comes in whole words.
pub fn bits_from_decoded(decoded: Option<Vec<u8>>, expected_bits: u32) -> (r: Option<Vec<u64>>)
    ensures
        match r {
            Some(words) => bits_of_decoded(
                match decoded {
                    Some(b) => Some(b@),
                    None => None,
                },
                expected_bits,
            ) == Some(words@),
            None => bits_of_decoded(
                match decoded {
                    Some(b) => Some(b@),
                    None => None,
                },
                expected_bits,
            ) is None,
        },
{
    match decoded {
        Some(bytes) => {
            if bytes.len() % 8 != 0 {
                return None;
            }
            if bytes.len() / 8 != (expected_bits / 64) as usize || expected_bits % 64 != 0 {
                return None;
            }
            Some(words_from_bytes(&bytes))
        },
        None => None,
    }
}

/// The words that a base64 text holds, where it decodes to exactly
/// `expected_bits` bits in whole words.
pub fn decode_hash_bits_base64(s: &str, expected_bits: u32) -> (r: Option<Vec<u64>>)
    ensures
        match r {
            Some(words) => bits_of_decoded(base64_decoded(s@), expected_bits) == Some(words@),
            None => bits_of_decoded(base64_decoded(s@), expected_bits) is None,
        },
{
    bits_from_decoded(decode_base64(s), expected_bits)
}

/// One of the four 16-bit blocks of a word, the lowest first.
pub open spec fn block_of(word: u64, part: int) -> u16 {
    ((word >> ((16 * part) as u64)) & 0xffff) as u16
}

/// The 16-bit blocks of the words of a hash, four to a word.
pub open spec fn blocks_of(bits: Seq<u64>) -> Seq<u16> {
    Seq::new(4 * bits.len(), |k: int| block_of(bits[k / 4], k % 4))
}

/// The 16-bit blocks of the words of a hash.
pub fn blocks_from_bits(bits: &Vec<u64>) -> (out: Vec<u16>)
    ensures
        out@ == blocks_of(bits@),
{
    let mut out: Vec<u16> = Vec::new();
    let mut i: usize = 0;
    while i < bits.len()
        invariant
            i <= bits.len(),
            out@.len() == 4 * i,
            forall|k: int| 0 <= k < 4 * i ==> out@[k] == block_of(bits@[k / 4], k % 4),
        decreases bits.len() - i,
    {
        let word: u64 = bits[i];
        out.push((word & 0xffff) as u16);
        out.push(((word >> 16) & 0xffff) as u16);
        out.push(((word >> 32) & 0xffff) as u16);
        out.push(((word >> 48) & 0xffff) as u16);
        proof {
            assert(word >> 0u64 == word) by (bit_vector);
            assert(block_of(word, 0) == (word & 0xffff) as u16);
            assert(block_of(word, 1) == ((word >> 16) & 0xffff) as u16);
            assert(block_of(word, 2) == ((word >> 32) & 0xffff) as u16);
            assert(block_of(word, 3) == ((word >> 48) & 0xffff) as u16);
        }
        i += 1;
    }
    assert(out@ =~= blocks_of(bits@));
    out
}

/// The Hamming distance of the first `n` words of two hashes.
pub open spec fn hamming_upto(a: Seq<u64>, b: Seq<u64>, n: int) -> nat
    decreases n,
{
    if n <= 0 {
        0
    } else {
        hamming_upto(a, b, n - 1) + ones(a[n - 1] ^ b[n - 1])
    }
}

/// The number of words that two hashes have in common.
pub open spec fn common_len(a: Seq<u64>, b: Seq<u64>) -> int {
    if a.len() <= b.len() {
        a.len() as int
    } else {
        b.len() as int
    }
}

/// The Hamming distance of two hashes: the number of bits in which they
/// differ, over the words that both have.
pub open spec fn hamming(a: Seq<u64>, b: Seq<u64>) -> nat {
    hamming_upto(a, b, common_len(a, b))
}

/// The distance over more words is no smaller.
proof fn lemma_hamming_grows(a: Seq<u64>, b: Seq<u64>, i: int, n: int)
    requires
        0 <= i <= n,
    ensures
        hamming_upto(a, b, i) <= hamming_upto(a, b, n),
    decreases n - i,
{
    if i < n {
        lemma_hamming_grows(a, b, i, n - 1);
    }
}

/// Whether two hashes differ in at most `threshold` bits.
pub fn within_threshold(a: &Vec<u64>, b: &Vec<u64>, threshold: u32) -> (r: bool)
    ensures
        r == (hamming(a@, b@) <= threshold),
{
    let n: usize = if a.len() <= b.len() {
        a.len()
    } else {
        b.len()
    };
    let mut d: u64 = 0;
    let mut i: usize = 0;
    while i < n
        invariant
            i <= n,
            n == common_len(a@, b@),
            d == hamming_upto(a@, b@, i as int),
            d <= threshold,
        decreases n - i,
    {
        d = d + count_ones(a[i] ^ b[i]) as u64;
        i += 1;
        if d > threshold as u64 {
            proof {
                lemma_hamming_grows(a@, b@, i as int, n as int);
            }
            return false;
        }
    }
    true
}

/// The key under which a block is indexed: its position, counted modulo
/// 65536, in the upper 16 bits, its value in the lower 16.
pub open spec fn block_key_of(block_index: int, value: u16) -> u32 {
    ((block_index % 65536) * 65536 + value) as u32
}

/// The key under which a block is indexed.
pub fn block_key(block_index: usize, value: u16) -> (key: u32)
    ensures
        key == block_key_of(block_index as int, value),
{
    let high: u32 = (block_index % 65536) as u32;
    let low: u32 = value as u32;
    assert((high << 16) | low == high * 65536 + low) by (bit_vector)
        requires
            high < 65536,
            low < 65536,
    ;
    (high << 16) | low
}

} // verus!
