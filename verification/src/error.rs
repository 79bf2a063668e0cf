//! What can go wrong when an estimator is made or two are combined.

use vstd::prelude::*;

use crate::{MAX_PRECISION, MIN_PRECISION};

verus! {

/// Errors that can occur when constructing or combining
/// [`HyperLogLog`](crate::HyperLogLog) estimators.
#[derive(Debug, Clone, Copy, PartialEq, Eq, Structural)]
pub enum HyperLogLogError {
    /// The requested precision `p` was outside the supported range
    /// `[MIN_PRECISION, MAX_PRECISION]`.
    PrecisionOutOfRange {
        /// The value of `p` that was requested.
        requested: u8,
    },
    /// [`HyperLogLog::merge`](crate::HyperLogLog::merge) was called with an
    /// estimator built with a different precision `p`. Only estimators sharing
    /// the same register layout can be merged.
    PrecisionMismatch {
        /// Precision of the estimator that was to be changed.
        self_p: u8,
        /// Precision of the estimator that was passed in.
        other_p: u8,
    },
}

/// The character of one decimal digit.
pub open spec fn digit(d: nat) -> char {
    (('0' as nat) + d) as char
}

/// A number in decimal, without leading zeros.
pub open spec fn decimal(n: nat) -> Seq<char>
    decreases n,
{
    if n < 10 {
        seq![digit(n)]
    } else {
        decimal(n / 10).push(digit(n % 10))
    }
}

/// Appends one decimal digit to `out`.
fn push_digit(out: &mut String, d: u8)
    requires
        d < 10,
    ensures
        final(out)@ == old(out)@.push(digit(d as nat)),
{
    proof {
        reveal_strlit("0");
        reveal_strlit("1");
        reveal_strlit("2");
        reveal_strlit("3");
        reveal_strlit("4");
        reveal_strlit("5");
        reveal_strlit("6");
        reveal_strlit("7");
        reveal_strlit("8");
        reveal_strlit("9");
    }
    let text: &str = match d {
        0 => "0",
        1 => "1",
        2 => "2",
        3 => "3",
        4 => "4",
        5 => "5",
        6 => "6",
        7 => "7",
        8 => "8",
        _ => "9",
    };
    assert(text@ =~= seq![digit(d as nat)]);
    out.append(text);
}

/// Appends `n` in decimal to `out`.
fn push_decimal(out: &mut String, n: u8)
    ensures
        final(out)@ == old(out)@ + decimal(n as nat),
    decreases n,
{
    if n >= 10 {
        push_decimal(out, n / 10);
    }
    push_digit(out, n % 10);
}

impl HyperLogLogError {
    /// The words of [`message`](Self::message).
    pub open spec fn spec_message(self) -> Seq<char> {
        match self {
            HyperLogLogError::PrecisionOutOfRange { requested } => "precision p = "@ + decimal(
                requested as nat,
            ) + " is out of range; must be between "@ + decimal(MIN_PRECISION as nat) + " and "@
                + decimal(MAX_PRECISION as nat) + " inclusive"@,
            HyperLogLogError::PrecisionMismatch { self_p, other_p } =>
                "cannot merge HyperLogLog with p = "@ + decimal(other_p as nat)
                    + " into one with p = "@ + decimal(self_p as nat)
                    + "; precisions must match"@,
        }
    }

    /// Says in words what went wrong.
    pub fn message(&self) -> (text: String)
        ensures
            text@ == self.spec_message(),
    {
        match self {
            HyperLogLogError::PrecisionOutOfRange { requested } => {
                let mut text: String = String::from_str("precision p = ");
                push_decimal(&mut text, *requested);
                text.append(" is out of range; must be between ");
                push_decimal(&mut text, MIN_PRECISION);
                text.append(" and ");
                push_decimal(&mut text, MAX_PRECISION);
                text.append(" inclusive");
                text
            },
            HyperLogLogError::PrecisionMismatch { self_p, other_p } => {
                let mut text: String = String::from_str("cannot merge HyperLogLog with p = ");
                push_decimal(&mut text, *other_p);
                text.append(" into one with p = ");
                push_decimal(&mut text, *self_p);
                text.append("; precisions must match");
                text
            },
        }
    }
}

}
