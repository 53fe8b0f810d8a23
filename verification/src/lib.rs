//! Word-to-IPA lookup library.
//!
//! The library parses two bundled JSON resources — a per-locale word
//! dictionary shaped as `{ "entries": [ { "<word>": "<ipa>", ... }, ... ] }`
//! and a symbol catalog shaped as a JSON array of symbol descriptions — and
//! resolves user queries against the dictionary's first entry block.
//! A presentation layer supplies the raw resource bytes and renders the
//! results; everything here is pure computation on those bytes.

pub mod catalog;
pub mod dictionary;
pub mod json;
pub mod session;
pub mod text;
