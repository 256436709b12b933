//! A small birthday-greeting library.
//!
//! It keeps username / date-of-birth records, validates writes, and, on a
//! read, computes whether today is the stored birthday and otherwise how many
//! days remain until the next one, together with the human-facing message.

pub mod birthday;
pub mod clock;
pub mod date;
pub mod store;
pub mod text;
