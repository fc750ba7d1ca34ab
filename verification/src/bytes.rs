use vstd::prelude::*;

verus! {

/// Byte `k` of `word`, counted from the least significant.
pub open spec fn byte_of(word: u32, k: int) -> u8 {
    if k == 0 {
        (word % 256) as u8
    } else if k == 1 {
        ((word / 256) % 256) as u8
    } else if k == 2 {
        ((word / 65536) % 256) as u8
    } else {
        (word / 16777216) as u8
    }
}

/// The bytes of `words`, each word with its least significant byte first.
pub open spec fn little_endian(words: Seq<u32>) -> Seq<u8> {
    Seq::new(4 * words.len(), |i: int| byte_of(words[i / 4], i % 4))
}

/// The bytes of `words`, each word with its most significant byte first.
pub open spec fn big_endian(words: Seq<u32>) -> Seq<u8> {
    Seq::new(4 * words.len(), |i: int| byte_of(words[i / 4], 3 - i % 4))
}

/// Whether `bytes` is `words` as the machine lays them out in memory: four bytes per word,
/// in one of the two byte orders.
pub open spec fn is_memory_of(bytes: Seq<u8>, words: Seq<u32>) -> bool {
    bytes == little_endian(words) || bytes == big_endian(words)
}

/// The size in bytes of the memory of `words`.
pub proof fn lemma_memory_len(bytes: Seq<u8>, words: Seq<u32>)
    requires
        is_memory_of(bytes, words),
    ensures
        bytes.len() == 4 * words.len(),
{
}

/// Calls `bytemuck::cast_slice` from `u32` to `u8` and copies what it returns.
///
/// Trusted: the cast reinterprets the words' memory, so the result has four bytes per word,
/// in the byte order of the machine.
#[verifier::external_body]
fn cast_words(words: &Vec<u32>) -> (bytes: Vec<u8>)
    ensures
        is_memory_of(bytes@, words@),
{
    let cast: &[u8] = bytemuck::cast_slice(words.as_slice());
    cast.to_vec()
}

/// The memory of `words` as bytes, ready for upload.
pub fn words_to_bytes(words: &Vec<u32>) -> (bytes: Vec<u8>)
    ensures
        is_memory_of(bytes@, words@),
        bytes@.len() == 4 * words@.len(),
{
    cast_words(words)
}

} // verus!
