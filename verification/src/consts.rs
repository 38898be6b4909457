//! Shared constants: reaction symbols used in navigation footers and the
//! fixed scoring thresholds.

use vstd::prelude::*;

verus! {

/// Version string reported by the surrounding application.
pub const PAXBOT_VERSION: &'static str = "0.1.0";

/// Reaction symbol that requests the next page of a response.
pub const REACT_RESULTS_FORWARD: &'static str = "\u{27A1}\u{FE0F}";

/// Reaction symbol that requests the previous page of a response.
pub const REACT_RESULTS_BACKWARD: &'static str = "\u{2B05}\u{FE0F}";

/// Reaction symbol for positive feedback on a result.
pub const REACT_FEEDBACK_GOOD: &'static str = "\u{2764}\u{FE0F}";

/// Reaction symbol for negative feedback on a result.
pub const REACT_FEEDBACK_BAD: &'static str = "\u{1F4A2}";

/// A candidate whose similarity score (in thousandths) exceeds this
/// threshold is a strong match and is included in the results.
pub const SEARCH_SCORE_THRESHOLD: u32 = 600;

/// Lower bound reserved for "did you mean" suggestions; kept for future
/// use, the scoring path itself does not consult it.
pub const SEARCH_SUGGEST_THRESHOLD: u32 = 200;

} // verus!
