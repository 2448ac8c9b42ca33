//! The wire format: 64-bit words laid out as little-endian bytes, back to
//! back, and the reserved word that ends a message.
//!
//! A word stands for the bit pattern of a double; the conversion between
//! the two is bit for bit, so every NaN payload and the sign of zero survive.

use vstd::prelude::*;

verus! {

/// The reserved word that ends a message: a quiet NaN when read as a double.
pub const SENTINEL: u64 = 0x7ff8_0010_0400_a05b;

/// The byte a receiver answers a complete message with.
pub const ACK: u8 = 0x0a;

/// The eight bytes of `word`, least significant first.
pub open spec fn word_bytes(word: u64) -> Seq<u8> {
    seq![
        (word % 0x100) as u8,
        (word / 0x100 % 0x100) as u8,
        (word / 0x1_0000 % 0x100) as u8,
        (word / 0x100_0000 % 0x100) as u8,
        (word / 0x1_0000_0000 % 0x100) as u8,
        (word / 0x100_0000_0000 % 0x100) as u8,
        (word / 0x1_0000_0000_0000 % 0x100) as u8,
        (word / 0x100_0000_0000_0000 % 0x100) as u8,
    ]
}

/// The word that the first eight of `bytes` spell, least significant first.
pub open spec fn word_of(bytes: Seq<u8>) -> u64
    recommends
        bytes.len() >= 8,
{
    (bytes[0] + bytes[1] * 0x100 + bytes[2] * 0x1_0000 + bytes[3] * 0x100_0000 + bytes[4]
        * 0x1_0000_0000 + bytes[5] * 0x100_0000_0000 + bytes[6] * 0x1_0000_0000_0000 + bytes[7]
        * 0x100_0000_0000_0000) as u64
}

/// The bytes of a sequence of words: eight per word, in order, nothing
/// between them and nothing around them.
pub open spec fn encode(words: Seq<u64>) -> Seq<u8> {
    Seq::new(8 * words.len(), |i: int| word_bytes(words[i / 8])[i % 8])
}

/// The `k`-th group of eight bytes in `bytes`.
pub open spec fn group(bytes: Seq<u8>, k: int) -> Seq<u8>
    recommends
        0 <= k < bytes.len() / 8,
{
    bytes.subrange(8 * k, 8 * k + 8)
}

/// The words that `bytes` spell: one per complete group of eight bytes; an
/// incomplete group at the end is left out.
pub open spec fn decode(bytes: Seq<u8>) -> Seq<u64> {
    Seq::new(bytes.len() / 8, |k: int| word_of(group(bytes, k)))
}

/// The terminator as it travels.
pub open spec fn sentinel_bytes() -> Seq<u8> {
    word_bytes(SENTINEL)
}

/// Whether the last eight bytes of `bytes` are the terminator.
pub open spec fn terminated(bytes: Seq<u8>) -> bool {
    bytes.len() >= 8 && bytes.skip(bytes.len() - 8) == sentinel_bytes()
}

/// Reading the bytes of a word gives the word back.
pub proof fn lemma_word_of_bytes(word: u64)
    ensures
        word_bytes(word).len() == 8,
        word_of(word_bytes(word)) == word,
{
    assert(word == (word % 0x100) + (word / 0x100 % 0x100) * 0x100 + (word / 0x1_0000 % 0x100)
        * 0x1_0000 + (word / 0x100_0000 % 0x100) * 0x100_0000 + (word / 0x1_0000_0000 % 0x100)
        * 0x1_0000_0000 + (word / 0x100_0000_0000 % 0x100) * 0x100_0000_0000 + (word
        / 0x1_0000_0000_0000 % 0x100) * 0x1_0000_0000_0000 + (word / 0x100_0000_0000_0000 % 0x100)
        * 0x100_0000_0000_0000) by (bit_vector);
}

/// Eight bytes are the bytes of the word they spell.
pub proof fn lemma_bytes_of_word(bytes: Seq<u8>)
    requires
        bytes.len() == 8,
    ensures
        word_bytes(word_of(bytes)) == bytes,
{
    let (b0, b1, b2, b3) = (bytes[0], bytes[1], bytes[2], bytes[3]);
    let (b4, b5, b6, b7) = (bytes[4], bytes[5], bytes[6], bytes[7]);
    let word = word_of(bytes);
    assert(word == (b0 + b1 * 0x100 + b2 * 0x1_0000 + b3 * 0x100_0000 + b4 * 0x1_0000_0000 + b5
        * 0x100_0000_0000 + b6 * 0x1_0000_0000_0000 + b7 * 0x100_0000_0000_0000) as u64 ==> word
        % 0x100 == b0 && word / 0x100 % 0x100 == b1 && word / 0x1_0000 % 0x100 == b2 && word
        / 0x100_0000 % 0x100 == b3 && word / 0x1_0000_0000 % 0x100 == b4 && word / 0x100_0000_0000
        % 0x100 == b5 && word / 0x1_0000_0000_0000 % 0x100 == b6 && word / 0x100_0000_0000_0000
        % 0x100 == b7) by (bit_vector);
    assert(word_bytes(word) =~= bytes);
}

/// The terminator travels as `5b a0 00 04 10 00 f8 7f`.
pub proof fn lemma_sentinel_bytes()
    ensures
        sentinel_bytes() == seq![0x5bu8, 0xa0u8, 0x00u8, 0x04u8, 0x10u8, 0x00u8, 0xf8u8, 0x7fu8],
{
    assert(sentinel_bytes() =~= seq![
        0x5bu8,
        0xa0u8,
        0x00u8,
        0x04u8,
        0x10u8,
        0x00u8,
        0xf8u8,
        0x7fu8,
    ]);
}

/// Eight bytes are the terminator exactly when they spell the reserved word.
pub proof fn lemma_sentinel_word(bytes: Seq<u8>)
    requires
        bytes.len() == 8,
    ensures
        bytes == sentinel_bytes() <==> word_of(bytes) == SENTINEL,
{
    lemma_word_of_bytes(SENTINEL);
    lemma_bytes_of_word(bytes);
}

/// Group `k` of an encoding holds the bytes of word `k`.
pub proof fn lemma_encode_group(words: Seq<u64>, k: int)
    requires
        0 <= k < words.len(),
    ensures
        group(encode(words), k) == word_bytes(words[k]),
{
    assert(group(encode(words), k) =~= word_bytes(words[k]));
}

/// Decoding an encoding gives the words back, bit for bit.
pub proof fn lemma_decode_encode(words: Seq<u64>)
    ensures
        encode(words).len() == 8 * words.len(),
        decode(encode(words)) == words,
{
    assert forall|k: int| 0 <= k < words.len() implies decode(encode(words))[k] == words[k] by {
        lemma_encode_group(words, k);
        lemma_word_of_bytes(words[k]);
    }
    assert(decode(encode(words)) =~= words);
}

/// Encoding what whole groups of eight bytes decode to gives the bytes back.
pub proof fn lemma_encode_decode(bytes: Seq<u8>)
    requires
        bytes.len() % 8 == 0,
    ensures
        encode(decode(bytes)) == bytes,
{
    assert forall|i: int| 0 <= i < bytes.len() implies encode(decode(bytes))[i] == bytes[i] by {
        let k = i / 8;
        lemma_bytes_of_word(group(bytes, k));
        assert(group(bytes, k)[i % 8] == bytes[i]);
    }
    assert(encode(decode(bytes)) =~= bytes);
}

/// The encoding of two sequences laid end to end is their encodings laid
/// end to end.
pub proof fn lemma_encode_concat(front: Seq<u64>, back: Seq<u64>)
    ensures
        encode(front + back) == encode(front) + encode(back),
{
    assert(encode(front + back) =~= encode(front) + encode(back));
}

/// Extending an encoding by one word appends that word's bytes.
pub proof fn lemma_encode_push(words: Seq<u64>, word: u64)
    ensures
        encode(words.push(word)) == encode(words) + word_bytes(word),
{
    assert(encode(words.push(word)) =~= encode(words) + word_bytes(word));
}

/// Appends the eight bytes of `word` to `out`.
pub fn push_word(out: &mut Vec<u8>, word: u64)
    ensures
        final(out)@ == old(out)@ + word_bytes(word),
{
    assert(word & 0xff == word % 0x100 && (word >> 8) & 0xff == word / 0x100 % 0x100 && (word >> 16)
        & 0xff == word / 0x1_0000 % 0x100 && (word >> 24) & 0xff == word / 0x100_0000 % 0x100 && (
    word >> 32) & 0xff == word / 0x1_0000_0000 % 0x100 && (word >> 40) & 0xff == word
        / 0x100_0000_0000 % 0x100 && (word >> 48) & 0xff == word / 0x1_0000_0000_0000 % 0x100 && (
    word >> 56) & 0xff == word / 0x100_0000_0000_0000 % 0x100) by (bit_vector);
    out.push((word & 0xff) as u8);
    out.push(((word >> 8) & 0xff) as u8);
    out.push(((word >> 16) & 0xff) as u8);
    out.push(((word >> 24) & 0xff) as u8);
    out.push(((word >> 32) & 0xff) as u8);
    out.push(((word >> 40) & 0xff) as u8);
    out.push(((word >> 48) & 0xff) as u8);
    out.push(((word >> 56) & 0xff) as u8);
    assert(out@ =~= old(out)@ + word_bytes(word));
}

/// The bytes of `words` as they travel.
pub fn encode_words(words: &[u64]) -> (bytes: Vec<u8>)
    ensures
        bytes@ == encode(words@),
{
    let mut bytes: Vec<u8> = match words.len().checked_mul(8) {
        Some(size) => Vec::with_capacity(size),
        None => Vec::new(),
    };
    let mut k: usize = 0;
    assert(encode(words@.take(0)) =~= Seq::<u8>::empty());
    while k < words.len()
        invariant
            k <= words.len(),
            bytes@ == encode(words@.take(k as int)),
        decreases words.len() - k,
    {
        proof {
            lemma_encode_push(words@.take(k as int), words@[k as int]);
            assert(words@.take(k as int).push(words@[k as int]) =~= words@.take(k + 1));
        }
        push_word(&mut bytes, words[k]);
        k += 1;
    }
    assert(words@.take(k as int) =~= words@);
    bytes
}

/// The word spelled by the eight bytes of `bytes` that start at `at`.
pub fn word_at(bytes: &[u8], at: usize) -> (word: u64)
    requires
        at + 8 <= bytes.len(),
    ensures
        word == word_of(bytes@.subrange(at as int, at + 8)),
{
    let b0 = bytes[at] as u64;
    let b1 = bytes[at + 1] as u64;
    let b2 = bytes[at + 2] as u64;
    let b3 = bytes[at + 3] as u64;
    let b4 = bytes[at + 4] as u64;
    let b5 = bytes[at + 5] as u64;
    let b6 = bytes[at + 6] as u64;
    let b7 = bytes[at + 7] as u64;
    assert(b0 < 0x100 && b1 < 0x100 && b2 < 0x100 && b3 < 0x100 && b4 < 0x100 && b5 < 0x100 && b6
        < 0x100 && b7 < 0x100 ==> (b0 | b1 << 8 | b2 << 16 | b3 << 24 | b4 << 32 | b5 << 40 | b6
        << 48 | b7 << 56) == (b0 + b1 * 0x100 + b2 * 0x1_0000 + b3 * 0x100_0000 + b4
        * 0x1_0000_0000 + b5 * 0x100_0000_0000 + b6 * 0x1_0000_0000_0000 + b7
        * 0x100_0000_0000_0000) as u64) by (bit_vector);
    b0 | b1 << 8 | b2 << 16 | b3 << 24 | b4 << 32 | b5 << 40 | b6 << 48 | b7 << 56
}

/// The words that `bytes` spell; bytes after the last complete group of
/// eight are left out.
pub fn decode_words(bytes: &[u8]) -> (words: Vec<u64>)
    ensures
        words@ == decode(bytes@),
{
    let count = bytes.len() / 8;
    let mut words: Vec<u64> = Vec::with_capacity(count);
    let mut k: usize = 0;
    while k < count
        invariant
            k <= count,
            count == bytes.len() / 8,
            words@ == decode(bytes@).take(k as int),
        decreases count - k,
    {
        let word = word_at(bytes, 8 * k);
        assert(bytes@.subrange(8 * k as int, 8 * k + 8) == group(bytes@, k as int));
        words.push(word);
        assert(words@ =~= decode(bytes@).take(k + 1));
        k += 1;
    }
    assert(decode(bytes@).take(k as int) =~= decode(bytes@));
    words
}

/// Whether `bytes` ends with the terminator.
pub fn is_terminated(bytes: &[u8]) -> (found: bool)
    ensures
        found == terminated(bytes@),
{
    if bytes.len() < 8 {
        return false;
    }
    let at = bytes.len() - 8;
    proof {
        assert(bytes@.subrange(at as int, at + 8) =~= bytes@.skip(bytes@.len() - 8));
        lemma_sentinel_word(bytes@.skip(bytes@.len() - 8));
    }
    word_at(bytes, at) == SENTINEL
}

} // verus!
