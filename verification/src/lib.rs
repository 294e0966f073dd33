//! Verified core of a profile-based note keeper.
//!
//! Notes are grouped into named profiles, each persisted as a single file,
//! optionally encrypted with a key derived from a password.  This crate holds
//! the parts of that design that carry real risk and proves them correct:
//! the note model (id allocation, edits, deletion), the document codec that
//! turns a profile into bytes and back, the encryption pipeline around it,
//! and the fingerprint rules that detect a concurrent writer at save time.
//! Terminal handling, prompts, and file access stay with the caller, which
//! hands this crate plain values and writes the bytes it gets back.

pub mod args;
pub mod crypt;
pub mod doc;
pub mod errors;
pub mod lineformat;
pub mod note;
pub mod store;
pub mod text;
pub mod timestamp;
