//! Selection of the checksum word.
//!
//! The checksum word is one of the words of the phrase itself, picked by a
//! 32-bit cyclic redundancy check over the leading bytes of every word. The
//! same phrase always gets the same checksum word, and a changed word is
//! likely to move the pick.

use crate::error::ChecksumError;
use vstd::prelude::*;
use vstd::utf8::{encode_utf8, is_char_boundary};

verus! {

/// How many leading bytes of each word enter the checksum.
pub const PREFIX_LEN: usize = 3;

/// The CRC-32 of `bytes` with the IEEE polynomial, as the `crc` crate
/// computes it.
pub uninterp spec fn crc32_ieee(bytes: Seq<u8>) -> u32;

/// Calls `crc::crc32::checksum_ieee`. Trusted, not proved: the sum that
/// comes back depends on the bytes alone, and `crc32_ieee` is the name of
/// that dependence.
#[verifier::external_body]
fn checksum_ieee(bytes: &[u8]) -> (sum: u32)
    ensures
        sum == crc32_ieee(bytes@),
{
    crc::crc32::checksum_ieee(bytes)
}

/// The bytes that the checksum is taken over: the prefixes of the words at
/// `indices`, in the order of the phrase, where `prefixes[i]` holds the
/// leading bytes of the dictionary word `i`.
pub open spec fn phrase_bytes(indices: Seq<usize>, prefixes: Seq<[u8; 3]>) -> Seq<u8>
    decreases indices.len(),
{
    if indices.len() == 0 {
        Seq::empty()
    } else {
        phrase_bytes(indices.drop_last(), prefixes) + prefixes[indices.last() as int]@
    }
}

/// The place in a phrase of `len` words that `checksum` points at.
pub open spec fn checksum_position(checksum: u32, len: nat) -> int {
    checksum as int % len as int
}

/// What selecting with a given checksum yields: the word at the place that
/// the checksum points at, and a failure for a phrase without words.
pub open spec fn selected_word(indices: Seq<usize>, checksum: u32) -> Result<
    usize,
    ChecksumError,
> {
    if indices.len() == 0 {
        Err(ChecksumError::EmptyPhrase)
    } else {
        Ok(indices[checksum_position(checksum, indices.len())])
    }
}

/// Whether every word of the phrase has its prefix in a table of that many
/// dictionary words.
pub open spec fn indices_in_table(indices: Seq<usize>, table_len: nat) -> bool {
    forall|k: int| 0 <= k < indices.len() ==> #[trigger] indices[k] < table_len
}

/// Each word of the phrase adds `PREFIX_LEN` bytes, so the bytes of the
/// phrase are `PREFIX_LEN` times as many as its words.
pub proof fn lemma_phrase_bytes_len(indices: Seq<usize>, prefixes: Seq<[u8; 3]>)
    ensures
        phrase_bytes(indices, prefixes).len() == PREFIX_LEN * indices.len(),
    decreases indices.len(),
{
    if indices.len() > 0 {
        lemma_phrase_bytes_len(indices.drop_last(), prefixes);
    }
}

/// The word of the phrase that `checksum` selects.
pub fn checksum_word(indices: &[usize], checksum: u32) -> (result: Result<usize, ChecksumError>)
    ensures
        result == selected_word(indices@, checksum),
        indices@.len() == 0 <==> result == Err::<usize, ChecksumError>(ChecksumError::EmptyPhrase),
        result matches Ok(word) ==> indices@.contains(word),
{
    if indices.len() == 0 {
        return Err(ChecksumError::EmptyPhrase);
    }
    let position: usize = checksum as usize % indices.len();
    Ok(indices[position])
}

/// Gathers the bytes that the checksum of a phrase is taken over.
pub fn gather_prefixes(indices: &[usize], prefixes: &[[u8; 3]]) -> (bytes: Vec<u8>)
    requires
        indices_in_table(indices@, prefixes@.len()),
    ensures
        bytes@ == phrase_bytes(indices@, prefixes@),
{
    let mut bytes: Vec<u8> = Vec::new();
    let mut done: usize = 0;
    while done < indices.len()
        invariant
            done <= indices.len(),
            indices_in_table(indices@, prefixes@.len()),
            bytes@ == phrase_bytes(indices@.take(done as int), prefixes@),
        decreases indices.len() - done,
    {
        let word: usize = indices[done];
        let prefix: &[u8; 3] = &prefixes[word];
        let ghost before = bytes@;
        bytes.push(prefix[0]);
        bytes.push(prefix[1]);
        bytes.push(prefix[2]);
        proof {
            let next = indices@.take(done + 1);
            assert(next.drop_last() =~= indices@.take(done as int));
            assert(bytes@ =~= before + prefixes@[word as int]@);
        }
        done = done + 1;
    }
    assert(indices@.take(done as int) =~= indices@);
    bytes
}

/// Selects the checksum word of a phrase: the CRC-32 of the words' prefixes,
/// reduced modulo the number of words, is the place of the word to repeat.
pub fn select_checksum(indices: &[usize], prefixes: &[[u8; 3]]) -> (result: Result<
    usize,
    ChecksumError,
>)
    requires
        indices_in_table(indices@, prefixes@.len()),
    ensures
        result == selected_word(indices@, crc32_ieee(phrase_bytes(indices@, prefixes@))),
        indices@.len() == 0 <==> result == Err::<usize, ChecksumError>(ChecksumError::EmptyPhrase),
        result matches Ok(word) ==> indices@.contains(word),
{
    let bytes = gather_prefixes(indices, prefixes);
    let checksum = checksum_ieee(bytes.as_slice());
    checksum_word(indices, checksum)
}

/// Whether a word has a prefix to take: its UTF-8 bytes are at least
/// `PREFIX_LEN`, and the leading `PREFIX_LEN` of them are whole characters.
pub open spec fn has_prefix(word: Seq<char>) -> bool {
    encode_utf8(word).len() >= PREFIX_LEN && is_char_boundary(encode_utf8(word), PREFIX_LEN as int)
}

/// The prefix of a word: the leading `PREFIX_LEN` of its UTF-8 bytes.
pub open spec fn prefix_of(word: Seq<char>) -> Seq<u8> {
    encode_utf8(word).take(PREFIX_LEN as int)
}

/// Whether `table` holds, word for word, the prefixes of `words`.
pub open spec fn is_prefix_table(table: Seq<[u8; 3]>, words: Seq<String>) -> bool {
    &&& table.len() == words.len()
    &&& forall|i: int| 0 <= i < words.len() ==> (#[trigger] table[i])@ == prefix_of(words[i]@)
}

/// The prefix of a dictionary word, or nothing for a word that has none.
pub fn word_prefix(word: &str) -> (prefix: Option<[u8; 3]>)
    ensures
        prefix is Some <==> has_prefix(word@),
        prefix matches Some(bytes) ==> bytes@ == prefix_of(word@),
{
    let bytes = word.as_bytes();
    if bytes.len() >= PREFIX_LEN && word.is_char_boundary(PREFIX_LEN) {
        let prefix: [u8; 3] = [bytes[0], bytes[1], bytes[2]];
        Some(prefix)
    } else {
        None
    }
}

/// The prefixes of all words of a dictionary, in its order, or nothing if
/// one of the words has no prefix.
pub fn prefix_table(words: &[String]) -> (table: Option<Vec<[u8; 3]>>)
    ensures
        table is Some <==> forall|i: int| 0 <= i < words@.len() ==> has_prefix(#[trigger] words@[i]@),
        table matches Some(prefixes) ==> is_prefix_table(prefixes@, words@),
{
    let mut prefixes: Vec<[u8; 3]> = Vec::new();
    let mut done: usize = 0;
    while done < words.len()
        invariant
            done <= words.len(),
            forall|i: int| 0 <= i < done ==> has_prefix(#[trigger] words@[i]@),
            is_prefix_table(prefixes@, words@.take(done as int)),
        decreases words.len() - done,
    {
        match word_prefix(words[done].as_str()) {
            Some(prefix) => {
                prefixes.push(prefix);
            },
            None => {
                return None;
            },
        }
        done = done + 1;
    }
    assert(words@.take(done as int) =~= words@);
    Some(prefixes)
}

/// Selection is repeatable: one phrase over one table of prefixes has one
/// checksum word, whatever the checksum of its bytes is.
pub proof fn lemma_select_checksum_repeatable(
    indices: Seq<usize>,
    prefixes: Seq<[u8; 3]>,
    again_indices: Seq<usize>,
    again_prefixes: Seq<[u8; 3]>,
)
    requires
        indices =~= again_indices,
        prefixes =~= again_prefixes,
    ensures
        selected_word(indices, crc32_ieee(phrase_bytes(indices, prefixes))) == selected_word(
            again_indices,
            crc32_ieee(phrase_bytes(again_indices, again_prefixes)),
        ),
{
}

/// The checksum reaches the selection only through the bytes of the phrase:
/// words may change, but while the prefixes gathered stay the same, so does
/// the place that is selected.
pub proof fn lemma_same_bytes_same_place(
    indices: Seq<usize>,
    prefixes: Seq<[u8; 3]>,
    other_indices: Seq<usize>,
    other_prefixes: Seq<[u8; 3]>,
)
    requires
        indices.len() == other_indices.len(),
        phrase_bytes(indices, prefixes) == phrase_bytes(other_indices, other_prefixes),
    ensures
        checksum_position(crc32_ieee(phrase_bytes(indices, prefixes)), indices.len())
            == checksum_position(
            crc32_ieee(phrase_bytes(other_indices, other_prefixes)),
            other_indices.len(),
        ),
{
}

/// The selected place is a place of the phrase, and in a phrase whose words
/// all differ two checksums select the same word exactly if they leave the
/// same remainder modulo the number of words.
pub proof fn lemma_selection_tells_remainders_apart(
    indices: Seq<usize>,
    checksum: u32,
    other: u32,
)
    requires
        indices.len() > 0,
        forall|i: int, j: int|
            0 <= i < j < indices.len() ==> #[trigger] indices[i] != #[trigger] indices[j],
    ensures
        0 <= checksum_position(checksum, indices.len()) < indices.len(),
        selected_word(indices, checksum) == selected_word(indices, other) <==> checksum_position(
            checksum,
            indices.len(),
        ) == checksum_position(other, indices.len()),
{
    let here = checksum_position(checksum, indices.len());
    let there = checksum_position(other, indices.len());
    if here < there {
        assert(indices[here] != indices[there]);
    } else if there < here {
        assert(indices[there] != indices[here]);
    }
}

} // verus!
