//! A lazy, allocation-free string splitter.
//!
//! The splitter walks a borrowed input text and yields the sub-spans that
//! stand between consecutive occurrences of a delimiter. A delimiter is
//! either a literal text span or a single character; both are unified by the
//! [`Delimiter`] trait. All positions are character positions, never raw
//! byte offsets, so splitting is correct on multi-byte text.

pub mod laws;
pub mod model;
pub mod split;
pub mod vecs;

pub use vecs::avec;
pub use model::{first_match, join_with, match_at, occurs_in, split_elems};
pub use split::{Delimiter, StrSplit, until_char};
