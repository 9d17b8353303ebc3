//! The single error kind of the iteration core.

use vstd::prelude::*;

verus! {

/// Why an iterator terminated early. Any of these ends the iteration; the
/// consumer must discard the iterator.
#[derive(Clone, Copy, PartialEq, Eq, Structural, Debug)]
pub enum RRuleIterError {
    /// Date arithmetic left the supported year range.
    InvalidDate,
    /// Sub-daily advancement covered more than ten years without reaching a
    /// time admitted by the BY-sets; the rule is effectively empty.
    InfeasibleRule,
    /// A field of the counter could not be reset.
    BadCounterField,
}

} // verus!
