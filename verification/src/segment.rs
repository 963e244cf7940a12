//! A named segment shape kept for callers that want to carry a segment's
//! human-readable name alongside its tag and elements.

use vstd::prelude::*;

verus! {

/// A segment together with the human-readable name of its tag.
#[derive(Debug, PartialEq)]
pub struct Segment {
    /// The abbreviation that tags the segment, e.g. "BGN".
    pub segment_abbreviation: String,
    /// The human-readable name of the segment type.
    pub segment_name: String,
    /// The ordered list of the segment's elements.
    pub elements: Vec<String>,
}

} // verus!
