//! The statistic selector, its parser, and the library's error type.

use vstd::prelude::*;

use crate::sample::NumOps;
use crate::stats::{
    contrast_of, find_contrast, find_gradient, find_max, find_mean, find_min, gradient_of,
    max_of, mean_of, min_of,
};

verus! {

/// Which statistic a window is reduced to.
#[derive(Copy, Clone, Debug, PartialEq, Eq, Structural, PartialOrd)]
pub enum StatisticOperations {
    Contrast,
    Maximum,
    Gradient,
    Minimum,
    Mean,
}

/// The names that the parser accepts, as listed in its error.
pub const ACCEPTED_STATISTIC_NAMES: &'static str = "contrast, maximum|max, gradient, minimum|min, mean|avg";

/// Errors of this library.
#[derive(Debug, PartialEq, Eq)]
pub enum SpatialOpsError {
    /// The name given to the parser is none of the accepted ones.
    InvalidStatisticName { name: String, accepted: String },
    /// The input or the output does not hold `width * height` samples.
    DimensionMismatch,
    /// The grid padded by the radius on every side would hold more samples
    /// than a `usize` can count.
    RadiusTooLarge,
}

/// The statistic that a name selects, if any.
pub open spec fn statistic_named(name: Seq<char>) -> Option<StatisticOperations> {
    if name == "contrast"@ {
        Some(StatisticOperations::Contrast)
    } else if name == "maximum"@ || name == "max"@ {
        Some(StatisticOperations::Maximum)
    } else if name == "gradient"@ {
        Some(StatisticOperations::Gradient)
    } else if name == "minimum"@ || name == "min"@ {
        Some(StatisticOperations::Minimum)
    } else if name == "mean"@ || name == "avg"@ {
        Some(StatisticOperations::Mean)
    } else {
        None
    }
}

/// The value that a statistic reduces a window to.
pub open spec fn statistic_of<T: NumOps>(op: StatisticOperations, s: Seq<T>) -> int {
    match op {
        StatisticOperations::Contrast => contrast_of(s),
        StatisticOperations::Maximum => max_of(s),
        StatisticOperations::Gradient => gradient_of(s),
        StatisticOperations::Minimum => min_of(s),
        StatisticOperations::Mean => mean_of(s),
    }
}

fn bytes_equal(a: &[u8], b: &[u8]) -> (r: bool)
    ensures
        r == (a@ == b@),
{
    if a.len() != b.len() {
        return false;
    }
    let mut i: usize = 0;
    while i < a.len()
        invariant
            a.len() == b.len(),
            i <= a.len(),
            forall|k: int| 0 <= k < i ==> a@[k] == b@[k],
        decreases a.len() - i,
    {
        if a[i] != b[i] {
            return false;
        }
        i += 1;
    }
    assert(a@ =~= b@);
    true
}

fn str_equal(a: &str, b: &str) -> (r: bool)
    ensures
        r == (a@ == b@),
{
    let r = bytes_equal(a.as_bytes(), b.as_bytes());
    proof {
        vstd::utf8::encode_utf8_decode_utf8(a@);
        vstd::utf8::encode_utf8_decode_utf8(b@);
    }
    r
}

impl StatisticOperations {
    /// Parses a lower-case statistic name. Accepted: `contrast`,
    /// `maximum` or `max`, `gradient`, `minimum` or `min`, `mean` or `avg`.
    pub fn from_string_result(input: &str) -> (r: Result<Self, SpatialOpsError>)
        ensures
            match r {
                Ok(op) => statistic_named(input@) == Some(op),
                Err(e) => statistic_named(input@) is None && (e matches SpatialOpsError::InvalidStatisticName { name, accepted } && name@ == input@ && accepted@ == ACCEPTED_STATISTIC_NAMES@),
            },
    {
        if str_equal(input, "contrast") {
            Ok(StatisticOperations::Contrast)
        } else if str_equal(input, "maximum") || str_equal(input, "max") {
            Ok(StatisticOperations::Maximum)
        } else if str_equal(input, "gradient") {
            Ok(StatisticOperations::Gradient)
        } else if str_equal(input, "minimum") || str_equal(input, "min") {
            Ok(StatisticOperations::Minimum)
        } else if str_equal(input, "mean") || str_equal(input, "avg") {
            Ok(StatisticOperations::Mean)
        } else {
            Err(
                SpatialOpsError::InvalidStatisticName {
                    name: input.to_owned(),
                    accepted: ACCEPTED_STATISTIC_NAMES.to_owned(),
                },
            )
        }
    }

    /// Reduces a non-empty window to this statistic.
    pub fn reduce<T: NumOps>(self, data: &[T]) -> (r: T)
        requires
            data.len() > 0,
        ensures
            r.as_int() == statistic_of(self, data@),
    {
        match self {
            StatisticOperations::Contrast => find_contrast(data),
            StatisticOperations::Maximum => find_max(data),
            StatisticOperations::Gradient => find_gradient(data),
            StatisticOperations::Minimum => find_min(data),
            StatisticOperations::Mean => find_mean(data),
        }
    }
}

} // verus!
