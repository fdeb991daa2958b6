//! A reference-counted substring: a window of byte offsets into a shared,
//! immutable `String`, which keeps the text alive for as long as the view lives.

mod substring;

pub use substring::{InvalidRange, RangeFault, RcSubstring};
