//! One run of phrase generation: the scheme it follows, the words accepted
//! so far, and what to do with each line that the user types.
//!
//! The session decides; whoever drives it prompts, reads and prints.

use crate::checksum::{crc32_ieee, indices_in_table, phrase_bytes, select_checksum, selected_word};
use crate::error::{ChecksumError, DecodeError};
use crate::input::{all_digits, asks_to_quit, is_quit, parse_rolls, rolls_of};
use crate::radix::{decode, decode_outcome};
use vstd::prelude::*;

verus! {

/// The numbers that fix a mnemonic scheme.
#[derive(Clone, Copy, Debug, PartialEq, Eq, Structural)]
pub struct Scheme {
    /// Number of words in the dictionary.
    pub dict_size: usize,
    /// Number of die rolls that give one word.
    pub num_rolls: usize,
    /// Shift added to every decoded index.
    pub offset: usize,
    /// Number of words in a phrase, not counting the checksum word.
    pub phrase_len: usize,
}

/// Why a line was not taken as a word.
#[derive(Clone, Copy, Debug, PartialEq, Eq, Structural)]
pub enum Rejection {
    /// The line holds a character that is no decimal digit.
    NotDigits,
    /// The line holds digits that do not decode to a word.
    Rolls(DecodeError),
}

/// What a session answers to a line.
#[derive(Clone, Copy, Debug, PartialEq, Eq, Structural)]
pub enum Reply {
    /// The phrase already has all its words; the line was not looked at.
    Full,
    /// The line asks to stop.
    Quit,
    /// The line was not taken; the same word is to be asked for again.
    Rejected(Rejection),
    /// The line gave the word with this index, now the last of the phrase.
    Accepted(usize),
}

impl Scheme {
    /// Whether the scheme can be followed on this machine: every index
    /// with the offset added fits a machine word.
    pub open spec fn usable(&self) -> bool {
        self.dict_size + self.offset <= usize::MAX
    }

    /// The scheme of Monero-style phrases: a dictionary of 1626 words,
    /// four rolls a word, indices shifted by 13, and 24 words a phrase.
    pub fn monero() -> (scheme: Scheme)
        ensures
            scheme == (Scheme { dict_size: 1626, num_rolls: 4, offset: 13, phrase_len: 24 }),
            scheme.usable(),
    {
        Scheme { dict_size: 1626, num_rolls: 4, offset: 13, phrase_len: 24 }
    }

    /// Tells whether the scheme can be followed on this machine.
    pub fn is_usable(&self) -> (usable: bool)
        ensures
            usable == self.usable(),
    {
        self.offset <= usize::MAX - self.dict_size
    }
}

/// What a session that still lacks words answers to `line` under `scheme`.
pub open spec fn reply_to(scheme: Scheme, line: Seq<char>) -> Reply {
    if asks_to_quit(line) {
        Reply::Quit
    } else if !all_digits(line) {
        Reply::Rejected(Rejection::NotDigits)
    } else {
        match decode_outcome(
            rolls_of(line),
            scheme.dict_size as nat,
            scheme.num_rolls as nat,
            scheme.offset as nat,
        ) {
            Ok(index) => Reply::Accepted(index),
            Err(error) => Reply::Rejected(Rejection::Rolls(error)),
        }
    }
}

/// The words accepted so far in one run, under one scheme.
pub struct Session {
    scheme: Scheme,
    words: Vec<usize>,
}

impl View for Session {
    type V = Seq<usize>;

    /// The indices of the words accepted so far, in order.
    closed spec fn view(&self) -> Seq<usize> {
        self.words@
    }
}

impl Session {
    /// The scheme that the session follows.
    pub closed spec fn scheme(&self) -> Scheme {
        self.scheme
    }

    #[verifier::type_invariant]
    spec fn well_formed(&self) -> bool {
        &&& self.scheme.usable()
        &&& self.words@.len() <= self.scheme.phrase_len
        &&& forall|i: int| 0 <= i < self.words@.len() ==> #[trigger] self.words@[i] < self.scheme.dict_size
    }

    /// Whether the phrase has all its words.
    pub open spec fn is_full(&self) -> bool {
        self@.len() == self.scheme().phrase_len
    }

    /// Starts a session without words, or nothing if the scheme cannot be
    /// followed on this machine.
    pub fn new(scheme: Scheme) -> (session: Option<Session>)
        ensures
            session is Some <==> scheme.usable(),
            session matches Some(s) ==> s.scheme() == scheme && s@ == Seq::<usize>::empty(),
    {
        if scheme.is_usable() {
            Some(Session { scheme, words: Vec::new() })
        } else {
            None
        }
    }

    /// The words accepted so far: never more than the phrase takes, and
    /// each of them the index of a dictionary word.
    pub fn words(&self) -> (words: &[usize])
        ensures
            words@ == self@,
            words@.len() <= self.scheme().phrase_len,
            indices_in_table(words@, self.scheme().dict_size as nat),
    {
        proof {
            use_type_invariant(self);
        }
        self.words.as_slice()
    }

    /// Tells whether the phrase has all its words.
    pub fn full(&self) -> (full: bool)
        ensures
            full == self.is_full(),
    {
        proof {
            use_type_invariant(self);
        }
        self.words.len() >= self.scheme.phrase_len
    }

    /// Takes one line that the user typed, without its line ending. A word
    /// is added exactly when the answer is `Accepted`; a full phrase does
    /// not change any more.
    pub fn feed(&mut self, line: &str) -> (reply: Reply)
        ensures
            final(self).scheme() == old(self).scheme(),
            reply == if old(self).is_full() {
                Reply::Full
            } else {
                reply_to(old(self).scheme(), line@)
            },
            final(self)@ == match reply {
                Reply::Accepted(index) => old(self)@.push(index),
                _ => old(self)@,
            },
    {
        proof {
            use_type_invariant(&*self);
        }
        if self.words.len() >= self.scheme.phrase_len {
            return Reply::Full;
        }
        if is_quit(line) {
            return Reply::Quit;
        }
        match parse_rolls(line) {
            None => Reply::Rejected(Rejection::NotDigits),
            Some(rolls) => match decode(
                rolls.as_slice(),
                self.scheme.dict_size,
                self.scheme.num_rolls,
                self.scheme.offset,
            ) {
                Ok(index) => {
                    let mut words: Vec<usize> = Vec::new();
                    std::mem::swap(&mut words, &mut self.words);
                    words.push(index);
                    std::mem::swap(&mut words, &mut self.words);
                    Reply::Accepted(index)
                },
                Err(error) => Reply::Rejected(Rejection::Rolls(error)),
            },
        }
    }

    /// The phrase with its checksum word at the end, where `prefixes` holds
    /// the prefix of every word of the dictionary; a failure for a session
    /// without words.
    pub fn finish(&self, prefixes: &[[u8; 3]]) -> (phrase: Result<Vec<usize>, ChecksumError>)
        requires
            prefixes@.len() == self.scheme().dict_size,
        ensures
            match selected_word(self@, crc32_ieee(phrase_bytes(self@, prefixes@))) {
                Ok(word) => phrase matches Ok(all) && all@ == self@.push(word),
                Err(error) => phrase == Err::<Vec<usize>, ChecksumError>(error),
            },
    {
        proof {
            use_type_invariant(self);
        }
        match select_checksum(self.words.as_slice(), prefixes) {
            Ok(word) => {
                let mut all = self.words.clone();
                all.push(word);
                Ok(all)
            },
            Err(error) => Err(error),
        }
    }
}

} // verus!
