//! Mnemonic seed phrases from physical dice.
//!
//! A fixed number of six-sided die rolls is decoded into one dictionary
//! index; after the phrase is complete, one of its words is repeated as a
//! checksum word so that a transcription error can be noticed later.

pub mod checksum;
pub mod error;
pub mod input;
pub mod radix;
pub mod session;

pub use checksum::{select_checksum, PREFIX_LEN};
pub use error::{ChecksumError, DecodeError};
pub use radix::{decode, entropy_floor, DIE_SIDES};
pub use session::{Rejection, Reply, Scheme, Session};
