//! Shared error taxonomy of the engine.
//!
//! Every invalid input surfaces as a `TakeoffError` variant; no operation
//! silently coerces a malformed input to zero or to an absent value, and no
//! verified function panics.

use vstd::prelude::*;
use vstd::string::StringExecFns;

verus! {

/// Error type for the take-off engine.
#[derive(Debug, Clone, PartialEq)]
pub enum TakeoffError {
    /// Empty or invalid geometry: a polygon with fewer than 3 points, a
    /// polyline with fewer than 2, or a rectangle with identical corners.
    EmptyGeometry { message: String },
    /// Invalid scale: a pixel or real distance that is not strictly positive.
    InvalidScale { message: String },
    /// A unit string that is not recognized or not supported.
    UnknownUnit { unit: String },
    /// Too few points for triangulation (need at least 3).
    SurfaceMeshTooFewPoints { count: usize },
    /// All points are collinear; triangulation produces no triangles.
    SurfaceMeshCollinearPoints,
    /// A lock was poisoned: a prior holder terminated abnormally while
    /// holding it. Recoverable; never propagated as a crash.
    PoisonError { resource: String },
    /// Catch-all for unexpected failures crossing a boundary, such as a
    /// value outside the exact representation's bounds.
    UnknownError { message: String },
}

pub type TakeoffResult<T> = Result<T, TakeoffError>;

impl TakeoffError {
    /// Create an `EmptyGeometry` error with a message.
    pub fn empty_geometry(message: &str) -> (r: TakeoffError)
        ensures
            r matches TakeoffError::EmptyGeometry { message: m } && m@ == message@,
    {
        TakeoffError::EmptyGeometry { message: message.to_owned() }
    }

    /// Create an `InvalidScale` error with a message.
    pub fn invalid_scale(message: &str) -> (r: TakeoffError)
        ensures
            r matches TakeoffError::InvalidScale { message: m } && m@ == message@,
    {
        TakeoffError::InvalidScale { message: message.to_owned() }
    }

    /// Create an `UnknownUnit` error with the unit string.
    pub fn unknown_unit(unit: &str) -> (r: TakeoffError)
        ensures
            r matches TakeoffError::UnknownUnit { unit: u } && u@ == unit@,
    {
        TakeoffError::UnknownUnit { unit: unit.to_owned() }
    }

    /// Create a `PoisonError` for a poisoned lock on the named resource.
    pub fn poison_error(resource: &str) -> (r: TakeoffError)
        ensures
            r matches TakeoffError::PoisonError { resource: s } && s@ == resource@,
    {
        TakeoffError::PoisonError { resource: resource.to_owned() }
    }

    /// Human-readable description, one line per variant.
    pub fn display_string(&self) -> (r: String)
        ensures
            r@ == display_spec(self),
    {
        match self {
            TakeoffError::EmptyGeometry { message } => {
                "empty or invalid geometry: ".to_owned().concat(message.as_str())
            },
            TakeoffError::InvalidScale { message } => {
                "invalid scale: ".to_owned().concat(message.as_str())
            },
            TakeoffError::UnknownUnit { unit } => {
                "unknown or unsupported unit: ".to_owned().concat(unit.as_str())
            },
            TakeoffError::SurfaceMeshTooFewPoints { count } => {
                let mut s = "too few points for triangulation: ".to_owned();
                let digits = usize_to_string(*count);
                s.append(digits.as_str());
                s.append(" (need at least 3)");
                s
            },
            TakeoffError::SurfaceMeshCollinearPoints => {
                "all points are collinear; cannot create triangulated surface".to_owned()
            },
            TakeoffError::PoisonError { resource } => {
                "mutex lock poisoned: ".to_owned().concat(resource.as_str())
            },
            TakeoffError::UnknownError { message } => {
                "an unknown error occurred: ".to_owned().concat(message.as_str())
            },
        }
    }

}

/// The exact text of `display_string`.
pub open spec fn display_spec(e: &TakeoffError) -> Seq<char> {
    match e {
        TakeoffError::EmptyGeometry { message } => "empty or invalid geometry: "@
            + message@,
        TakeoffError::InvalidScale { message } => "invalid scale: "@ + message@,
        TakeoffError::UnknownUnit { unit } => "unknown or unsupported unit: "@ + unit@,
        TakeoffError::SurfaceMeshTooFewPoints { count } => "too few points for triangulation: "@
            + dec_digits(*count as nat) + " (need at least 3)"@,
        TakeoffError::SurfaceMeshCollinearPoints => {
            "all points are collinear; cannot create triangulated surface"@
        },
        TakeoffError::PoisonError { resource } => "mutex lock poisoned: "@ + resource@,
        TakeoffError::UnknownError { message } => "an unknown error occurred: "@ + message@,
    }
}

/// The character for a single decimal digit.
pub open spec fn digit_char(d: nat) -> char {
    if d == 0 {
        '0'
    } else if d == 1 {
        '1'
    } else if d == 2 {
        '2'
    } else if d == 3 {
        '3'
    } else if d == 4 {
        '4'
    } else if d == 5 {
        '5'
    } else if d == 6 {
        '6'
    } else if d == 7 {
        '7'
    } else if d == 8 {
        '8'
    } else {
        '9'
    }
}

/// The decimal rendering of a natural number, most significant digit first.
pub open spec fn dec_digits(n: nat) -> Seq<char>
    decreases n,
{
    if n < 10 {
        seq![digit_char(n)]
    } else {
        dec_digits(n / 10).push(digit_char(n % 10))
    }
}

/// A one-character string for a single decimal digit.
fn digit_str(d: u64) -> (r: &'static str)
    requires
        d < 10,
    ensures
        r@ == seq![digit_char(d as nat)],
{
    proof {
        reveal_strlit("0");
        reveal_strlit("1");
        reveal_strlit("2");
        reveal_strlit("3");
        reveal_strlit("4");
        reveal_strlit("5");
        reveal_strlit("6");
        reveal_strlit("7");
        reveal_strlit("8");
        reveal_strlit("9");
    }
    if d == 0 {
        "0"
    } else if d == 1 {
        "1"
    } else if d == 2 {
        "2"
    } else if d == 3 {
        "3"
    } else if d == 4 {
        "4"
    } else if d == 5 {
        "5"
    } else if d == 6 {
        "6"
    } else if d == 7 {
        "7"
    } else if d == 8 {
        "8"
    } else {
        "9"
    }
}

/// Render a number in decimal.
pub fn u64_to_string(n: u64) -> (r: String)
    ensures
        r@ == dec_digits(n as nat),
    decreases n,
{
    if n < 10 {
        digit_str(n).to_owned()
    } else {
        let mut s = u64_to_string(n / 10);
        s.append(digit_str(n % 10));
        s
    }
}

/// Render a count in decimal.
pub fn usize_to_string(n: usize) -> (r: String)
    ensures
        r@ == dec_digits(n as nat),
{
    u64_to_string(n as u64)
}

} // verus!
