use vstd::prelude::*;

verus! {

/// Validation failures. Each is raised before any classification work, and
/// maps to a different user fix.
#[derive(Clone, Copy, Debug, PartialEq, Eq, Structural)]
pub enum Error {
    /// `min_delta_time` was zero or negative.
    InvalidMinDeltaTime,
    /// The analysis target was not `species` or `individual`.
    InvalidTarget,
    /// A non-null timestamp did not parse as `yyyy-MM-dd HH:mm:ss`.
    BadTimeFormat,
    /// No records were left to analyse after filtering.
    NoData,
}

impl Error {
    /// A user-facing description of the failure.
    pub fn message(&self) -> (r: &'static str)
        ensures
            *self == Error::InvalidMinDeltaTime ==> r@
                == "the minimum time difference must be a positive number of minutes"@,
            *self == Error::InvalidTarget ==> r@
                == "the analysis target must be species or individual"@,
            *self == Error::BadTimeFormat ==> r@
                == "a time value did not match the expected format yyyy-MM-dd HH:mm:ss"@,
            *self == Error::NoData ==> r@ == "no records to analyze after filtering"@,
    {
        match self {
            Error::InvalidMinDeltaTime => {
                "the minimum time difference must be a positive number of minutes"
            },
            Error::InvalidTarget => "the analysis target must be species or individual",
            Error::BadTimeFormat => {
                "a time value did not match the expected format yyyy-MM-dd HH:mm:ss"
            },
            Error::NoData => "no records to analyze after filtering",
        }
    }
}

} // verus!
