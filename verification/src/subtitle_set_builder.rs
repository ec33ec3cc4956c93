//! The grouped form of a subtitle file: one unit per block, in file order.

use crate::srt_index::SrtIndex;
use crate::timing::Timing;
use vstd::prelude::*;

verus! {

/// One subtitle block in an SRT file:
///
/// ```text
/// 12
/// 00:01:02,510 --> 00:01:04,120
/// Hello world!
/// Potential second line
/// ```
///
/// `lines` keeps the text lines in their original order, uncleaned; a parsed
/// unit always has at least one of them.
#[derive(Debug, Clone, PartialEq, Eq)]
pub struct SubtitleUnit {
    pub index: SrtIndex,
    pub timing: Timing,
    pub lines: Vec<String>,
}

/// A full subtitle file, in its logical grouped form.
#[derive(Debug, Clone, PartialEq, Eq)]
pub struct SubtitleSet {
    pub units: Vec<SubtitleUnit>,
}

} // verus!
