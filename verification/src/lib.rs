//! Verified parsing of SRT subtitle text and a character-level cleaning
//! pipeline for the extracted lines.
//!
//! The library has three layers:
//! - the leaf parsers for timestamps (`HH:MM:SS,mmm`), timing ranges
//!   (`A --> B`) and block indices, each with an exact contract over a
//!   spec-level classification of its input;
//! - the block assembler and the whole-file unit stream, which split
//!   normalized file text into blocks and turn each block into a validated
//!   [`subtitle_set_builder::SubtitleUnit`] or a typed error, with the
//!   fail-fast versus collect-all policy left to the consumer;
//! - the cleaning pipeline: parenthetical stripping, blacklist filtering and
//!   small-kana normalization, composed strictly in that order.
//!
//! All parsing is pure: reading files, loading the cleaning tables and every
//! other effect belong to the caller.

pub mod cleaning;
pub mod ingestion;
pub mod parser;
pub mod srt_index;
pub mod subtitle_set_builder;
pub mod text;
pub mod timestamp;
pub mod timing;
