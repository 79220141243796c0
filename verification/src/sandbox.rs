//! The write sandbox: what a semantic review's answer amounts to, and the
//! order of the forbidden-term test and the review before a write.

use vstd::prelude::*;
use crate::character::ConstraintViolation;
use crate::text::str_eq;

verus! {

broadcast use vstd::string::group_string_axioms;

/// What a review decides (the quarantine's risk score travels beside it).
#[derive(Debug, Clone, PartialEq, Eq)]
pub enum ReviewVerdict {
    /// The content may be written.
    Pass,
    /// The content is refused, with the reason and the violated rule.
    Reject { reason: String, rule: String },
    /// The content is held back for a human, with the reason.
    Quarantine { reason: String },
}

/// The verdict of a parsed review answer: `reject` refuses with the reason
/// and rule, `quarantine` holds back with the reason, anything else (and an
/// answer that did not parse) passes.
pub fn review_verdict(answer: Option<(&str, &str, &str)>) -> (r: ReviewVerdict)
    ensures
        match answer {
            Some((v, reason, rule)) => if v@ == "reject"@ {
                r matches ReviewVerdict::Reject { reason: x, rule: y } && x@ == reason@ && y@ == rule@
            } else if v@ == "quarantine"@ {
                r matches ReviewVerdict::Quarantine { reason: x } && x@ == reason@
            } else {
                r is Pass
            },
            None => r is Pass,
        },
{
    match answer {
        Some((v, reason, rule)) => {
            if str_eq(v, "reject") {
                ReviewVerdict::Reject { reason: reason.to_string(), rule: rule.to_string() }
            } else if str_eq(v, "quarantine") {
                ReviewVerdict::Quarantine { reason: reason.to_string() }
            } else {
                ReviewVerdict::Pass
            }
        },
        None => ReviewVerdict::Pass,
    }
}

/// The next step of a write after the forbidden-term test.
#[derive(Debug, Clone)]
pub enum GateStep {
    /// Refused by the keyword check.
    Refused(ConstraintViolation),
    /// Ask the semantic review and return its verdict (a failed review
    /// passes).
    Review,
    /// Passed without a review.
    Pass,
}

/// The next step of a write: a refusal by the forbidden terms stands;
/// otherwise the semantic review runs when it is enabled, and the write
/// passes when it is not.
pub fn gate_step(keyword_check: Result<(), ConstraintViolation>, review_enabled: bool) -> (r: GateStep)
    ensures
        match keyword_check {
            Err(v) => r == GateStep::Refused(v),
            Ok(()) => if review_enabled {
                r is Review
            } else {
                r is Pass
            },
        },
{
    match keyword_check {
        Err(v) => GateStep::Refused(v),
        Ok(()) => if review_enabled {
            GateStep::Review
        } else {
            GateStep::Pass
        },
    }
}

/// The verdict after the review: its own, or a pass when it failed.
pub fn reviewed(review: Option<ReviewVerdict>) -> (r: ReviewVerdict)
    ensures
        match review {
            Some(v) => r == v,
            None => r is Pass,
        },
{
    match review {
        Some(v) => v,
        None => ReviewVerdict::Pass,
    }
}

} // verus!
