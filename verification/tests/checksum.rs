use dicephrase::checksum::{
    checksum_word, gather_prefixes, prefix_table, select_checksum, word_prefix, PREFIX_LEN,
};
use dicephrase::ChecksumError;

/// A table of three-letter prefixes, one for each of 1626 words.
fn letters(words: usize) -> Vec<[u8; 3]> {
    let mut table = Vec::new();
    for i in 0..words {
        table.push([
            b'a' + (i / 676 % 26) as u8,
            b'a' + (i / 26 % 26) as u8,
            b'a' + (i % 26) as u8,
        ]);
    }
    table
}

/// A phrase of 24 words.
fn phrase() -> Vec<usize> {
    (0..24).map(|k| 13 + 67 * k).collect()
}

#[test]
fn empty_phrase_has_no_checksum_word() {
    assert_eq!(
        select_checksum(&[], &letters(1626)),
        Err(ChecksumError::EmptyPhrase)
    );
    assert_eq!(select_checksum(&[], &[]), Err(ChecksumError::EmptyPhrase));
    assert_eq!(checksum_word(&[], 7), Err(ChecksumError::EmptyPhrase));
}

#[test]
fn checksum_word_is_picked_by_the_remainder() {
    let words = [40usize, 50, 60];
    assert_eq!(checksum_word(&words, 0), Ok(40));
    assert_eq!(checksum_word(&words, 1), Ok(50));
    assert_eq!(checksum_word(&words, 2), Ok(60));
    assert_eq!(checksum_word(&words, 3), Ok(40));
    assert_eq!(checksum_word(&words, 4), Ok(50));
    assert_eq!(checksum_word(&words, u32::MAX), Ok(40));
    assert_eq!(checksum_word(&[9], 123_456), Ok(9));
    let full = phrase();
    assert_eq!(checksum_word(&full, 1_382_723_121), Ok(full[9]));
    assert_eq!(checksum_word(&full, 24), Ok(full[0]));
    assert_eq!(checksum_word(&full, 47), Ok(full[23]));
}

#[test]
fn prefixes_are_gathered_in_phrase_order() {
    let table = [*b"456", *b"789", *b"123"];
    assert_eq!(gather_prefixes(&[2, 0, 1], &table), b"123456789".to_vec());
    assert_eq!(gather_prefixes(&[1, 1], &table), b"789789".to_vec());
    assert_eq!(gather_prefixes(&[], &table), Vec::<u8>::new());
    assert_eq!(
        gather_prefixes(&phrase(), &letters(1626)).len(),
        PREFIX_LEN * 24
    );
}

#[test]
fn checksum_is_the_ieee_crc_of_the_prefixes() {
    // The CRC-32 of "123456789" is 0xcbf43926, which leaves 2 modulo 3.
    let table = [*b"456", *b"789", *b"123"];
    assert_eq!(0xcbf4_3926u32 % 3, 2);
    assert_eq!(select_checksum(&[2, 0, 1], &table), Ok(1));
    // The CRC-32 of "abcabd" is 3960081647, of "abdabc" 4021920245: both odd.
    let pair = [*b"abc", *b"abd"];
    assert_eq!(select_checksum(&[0, 1], &pair), Ok(1));
    assert_eq!(select_checksum(&[1, 0], &pair), Ok(0));
}

#[test]
fn checksum_of_a_full_phrase() {
    // The CRC-32 of the 72 prefix bytes is 1382723121, which leaves 9
    // modulo 24.
    let words = phrase();
    assert_eq!(words.len(), 24);
    assert_eq!(select_checksum(&words, &letters(1626)), Ok(616));
    assert_eq!(words[9], 616);
}

#[test]
fn checksum_is_the_same_on_every_computation() {
    let words = phrase();
    let table = letters(1626);
    let first = select_checksum(&words, &table);
    for _ in 0..10 {
        assert_eq!(select_checksum(&words, &table), first);
    }
}

#[test]
fn checksum_word_is_one_of_the_phrase() {
    let table = letters(1626);
    for shift in 0..40usize {
        let words: Vec<usize> = (0..24).map(|k| (shift * 31 + 67 * k) % 1626).collect();
        let word = select_checksum(&words, &table).unwrap();
        assert!(words.contains(&word));
    }
}

#[test]
fn changed_prefix_moves_the_checksum_word() {
    let words = phrase();
    let mut table = letters(1626);
    assert_eq!(select_checksum(&words, &table), Ok(words[9]));
    // With "zzz" for the sixth word the CRC-32 is 4106262274, which leaves
    // 10 modulo 24.
    table[words[5]] = *b"zzz";
    assert_eq!(select_checksum(&words, &table), Ok(words[10]));
    assert_eq!(words[10], 683);
}

#[test]
fn changed_word_moves_the_checksum_word() {
    let table = letters(1626);
    let words = phrase();
    let mut changed = phrase();
    // Word 1625 has the prefix "ckn" where word 348 has "ank".
    changed[5] = 1625;
    let before = select_checksum(&words, &table).unwrap();
    let after = select_checksum(&changed, &table).unwrap();
    assert_eq!(before, 616);
    assert_eq!(after, 1219);
    assert_ne!(before, after);
}

#[test]
fn prefix_is_the_first_three_bytes() {
    assert_eq!(word_prefix("abbey"), Some(*b"abb"));
    assert_eq!(word_prefix("zoo"), Some(*b"zoo"));
    assert_eq!(word_prefix("h\u{e9}llo"), Some([b'h', 0xc3, 0xa9]));
}

#[test]
fn word_without_three_whole_bytes_has_no_prefix() {
    assert_eq!(word_prefix(""), None);
    assert_eq!(word_prefix("ab"), None);
    // The third byte is the first half of a two-byte character.
    assert_eq!(word_prefix("ab\u{e9}"), None);
    assert_eq!(word_prefix("a\u{20ac}"), None);
    assert_eq!(word_prefix("\u{20ac}"), Some([0xe2, 0x82, 0xac]));
}

#[test]
fn prefix_table_holds_one_prefix_for_each_word() {
    let words = vec![
        String::from("abbey"),
        String::from("abducts"),
        String::from("zoo"),
    ];
    assert_eq!(
        prefix_table(&words),
        Some(vec![*b"abb", *b"abd", *b"zoo"])
    );
    assert_eq!(prefix_table(&[]), Some(Vec::new()));
}

#[test]
fn prefix_table_needs_a_prefix_for_every_word() {
    let words = vec![
        String::from("abbey"),
        String::from("ab"),
        String::from("zoo"),
    ];
    assert_eq!(prefix_table(&words), None);
}
