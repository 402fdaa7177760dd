//! The failure values shared by every fallible operation of the library.

use vstd::prelude::*;
use vstd::string::StringExecFns;

verus! {

/// The character that stands for the digit `d`.
pub open spec fn digit(d: nat) -> Seq<char> {
    if d == 0 {
        "0"@
    } else if d == 1 {
        "1"@
    } else if d == 2 {
        "2"@
    } else if d == 3 {
        "3"@
    } else if d == 4 {
        "4"@
    } else if d == 5 {
        "5"@
    } else if d == 6 {
        "6"@
    } else if d == 7 {
        "7"@
    } else if d == 8 {
        "8"@
    } else {
        "9"@
    }
}

/// The decimal numeral of `n`, without leading zeros.
pub open spec fn decimal(n: nat) -> Seq<char>
    decreases n,
{
    if n < 10 {
        digit(n)
    } else {
        decimal(n / 10) + digit(n % 10)
    }
}

/// The text that says how many elements of a kind a part of a matrix must
/// have: "`what` must have `expected` `unit`".
pub open spec fn length_text(what: Seq<char>, expected: nat, unit: Seq<char>) -> Seq<char> {
    what + " must have "@ + decimal(expected) + " "@ + unit
}

/// Returns the character that stands for the digit `d`.
fn digit_text(d: u64) -> (text: &'static str)
    requires
        d < 10,
    ensures
        text@ == digit(d as nat),
{
    if d == 0 {
        "0"
    } else if d == 1 {
        "1"
    } else if d == 2 {
        "2"
    } else if d == 3 {
        "3"
    } else if d == 4 {
        "4"
    } else if d == 5 {
        "5"
    } else if d == 6 {
        "6"
    } else if d == 7 {
        "7"
    } else if d == 8 {
        "8"
    } else {
        "9"
    }
}

/// The decimal numeral of the integer `x`, with a minus sign in front of a
/// negative one.
pub open spec fn signed_decimal(x: int) -> Seq<char> {
    if x < 0 {
        "-"@ + decimal((-x) as nat)
    } else {
        decimal(x as nat)
    }
}

/// Returns the decimal numeral of `x`, with a minus sign in front of a
/// negative one.
pub fn signed_decimal_text(x: i64) -> (text: String)
    ensures
        text@ == signed_decimal(x as int),
{
    if x < 0 {
        let magnitude: u64 = (-(x + 1)) as u64 + 1;
        let mut text = String::from_str("-");
        text.append(decimal_text(magnitude).as_str());
        text
    } else {
        decimal_text(x as u64)
    }
}

/// Returns the decimal numeral of `n`.
pub fn decimal_text(n: u64) -> (text: String)
    ensures
        text@ == decimal(n as nat),
    decreases n,
{
    if n < 10 {
        String::from_str(digit_text(n))
    } else {
        let mut text = decimal_text(n / 10);
        text.append(digit_text(n % 10));
        text
    }
}

/// A negative value was supplied where none is allowed.
#[derive(Debug, Clone, PartialEq)]
pub struct NegativeValueError {
    pub message: String,
}

impl NegativeValueError {
    /// The message of the failure.
    pub fn description(&self) -> (text: &str)
        ensures
            text@ == self.message@,
    {
        self.message.as_str()
    }
}

/// An empty vector was supplied where at least one element is needed.
#[derive(Debug, Clone, PartialEq)]
pub struct EmptyVectorError {
    pub message: String,
}

impl EmptyVectorError {
    /// The message of the failure.
    pub fn description(&self) -> (text: &str)
        ensures
            text@ == self.message@,
    {
        self.message.as_str()
    }
}

/// A set of parts does not add up to the expected total.
#[derive(Debug, Clone, PartialEq)]
pub struct SummationError {
    pub message: String,
}

impl SummationError {
    /// The message of the failure.
    pub fn description(&self) -> (text: &str)
        ensures
            text@ == self.message@,
    {
        self.message.as_str()
    }
}

/// A part is larger than the whole it is taken from.
#[derive(Debug, Clone, PartialEq)]
pub struct OutgrowError {
    pub message: String,
}

impl OutgrowError {
    /// The message of the failure.
    pub fn description(&self) -> (text: &str)
        ensures
            text@ == self.message@,
    {
        self.message.as_str()
    }
}

/// A value lies outside the interval it must belong to.
#[derive(Debug, Clone, PartialEq)]
pub struct RangeError {
    pub message: String,
}

impl RangeError {
    /// The message of the failure.
    pub fn description(&self) -> (text: &str)
        ensures
            text@ == self.message@,
    {
        self.message.as_str()
    }
}

/// Two values are not ordered as the operation needs them to be.
#[derive(Debug, Clone, PartialEq)]
pub struct ComparisonError {
    pub message: String,
}

impl ComparisonError {
    /// The message of the failure.
    pub fn description(&self) -> (text: &str)
        ensures
            text@ == self.message@,
    {
        self.message.as_str()
    }
}

/// A zero occurs among values that must all be nonzero.
#[derive(Debug, Clone, PartialEq)]
pub struct ContainsZeroError {
    pub message: String,
}

impl ContainsZeroError {
    /// The message of the failure.
    pub fn description(&self) -> (text: &str)
        ensures
            text@ == self.message@,
    {
        self.message.as_str()
    }
}

/// A vector operation was applied to unsuitable operands.
#[derive(Debug, Clone, PartialEq)]
pub struct VectorError {
    pub message: String,
}

impl VectorError {
    /// The message of the failure.
    pub fn description(&self) -> (text: &str)
        ensures
            text@ == self.message@,
    {
        self.message.as_str()
    }
}

/// A matrix operation was applied to a matrix of unsuitable shape or content.
#[derive(Debug, Clone, PartialEq)]
pub struct MatriceError {
    pub message: String,
}

impl MatriceError {
    /// The message of the failure.
    pub fn description(&self) -> (text: &str)
        ensures
            text@ == self.message@,
    {
        self.message.as_str()
    }
}

/// A row or column index lies outside the matrix.
#[derive(Debug, Clone, PartialEq)]
pub struct OutOfBoundsError {
    pub message: String,
}

impl OutOfBoundsError {
    /// The message of the failure.
    pub fn description(&self) -> (text: &str)
        ensures
            text@ == self.message@,
    {
        self.message.as_str()
    }
}

/// A row or column to be appended has the wrong number of elements.
#[derive(Debug, Clone, PartialEq)]
pub struct LengthError {
    pub message: String,
}

impl LengthError {
    /// The message of the failure.
    pub fn description(&self) -> (text: &str)
        ensures
            text@ == self.message@,
    {
        self.message.as_str()
    }
}

/// Every failure the library can report, one variant per kind, each carrying
/// a human-readable message.
#[derive(Debug, Clone, PartialEq)]
pub enum MatholError {
    NegativeValueCause(NegativeValueError),
    EmptyVecCause(EmptyVectorError),
    SummationCause(SummationError),
    OutgrowCause(OutgrowError),
    RangeCause(RangeError),
    ComparisonCause(ComparisonError),
    ContainsZeroCause(ContainsZeroError),
    VectorCause(VectorError),
    MatriceCause(MatriceError),
    OutOfBoundsCause(OutOfBoundsError),
    LengthCause(LengthError),
}

impl MatholError {
    /// The text carried by the failure, whatever its kind.
    pub open spec fn text(self) -> Seq<char> {
        match self {
            MatholError::NegativeValueCause(e) => e.message@,
            MatholError::EmptyVecCause(e) => e.message@,
            MatholError::SummationCause(e) => e.message@,
            MatholError::OutgrowCause(e) => e.message@,
            MatholError::RangeCause(e) => e.message@,
            MatholError::ComparisonCause(e) => e.message@,
            MatholError::ContainsZeroCause(e) => e.message@,
            MatholError::VectorCause(e) => e.message@,
            MatholError::MatriceCause(e) => e.message@,
            MatholError::OutOfBoundsCause(e) => e.message@,
            MatholError::LengthCause(e) => e.message@,
        }
    }

    /// Whether this is a matrix failure carrying exactly `text`.
    pub open spec fn is_matrice(self, text: Seq<char>) -> bool {
        self is MatriceCause && self.text() == text
    }

    /// Whether this is an index failure carrying exactly `text`.
    pub open spec fn is_out_of_bounds(self, text: Seq<char>) -> bool {
        self is OutOfBoundsCause && self.text() == text
    }

    /// The message of the failure as an owned string.
    pub fn message(&self) -> (text: String)
        ensures
            text@ == self.text(),
    {
        match self {
            MatholError::NegativeValueCause(e) => e.message.clone(),
            MatholError::EmptyVecCause(e) => e.message.clone(),
            MatholError::SummationCause(e) => e.message.clone(),
            MatholError::OutgrowCause(e) => e.message.clone(),
            MatholError::RangeCause(e) => e.message.clone(),
            MatholError::ComparisonCause(e) => e.message.clone(),
            MatholError::ContainsZeroCause(e) => e.message.clone(),
            MatholError::VectorCause(e) => e.message.clone(),
            MatholError::MatriceCause(e) => e.message.clone(),
            MatholError::OutOfBoundsCause(e) => e.message.clone(),
            MatholError::LengthCause(e) => e.message.clone(),
        }
    }

    /// Whether this is a failure over a negative value carrying exactly
    /// `text`.
    pub open spec fn is_negative_value(self, text: Seq<char>) -> bool {
        self is NegativeValueCause && self.text() == text
    }

    /// Whether this is a failure over an empty vector carrying exactly
    /// `text`.
    pub open spec fn is_empty_vec(self, text: Seq<char>) -> bool {
        self is EmptyVecCause && self.text() == text
    }

    /// Whether this is a failure over a sum carrying exactly `text`.
    pub open spec fn is_summation(self, text: Seq<char>) -> bool {
        self is SummationCause && self.text() == text
    }

    /// Whether this is a failure over a part that outgrows the whole,
    /// carrying exactly `text`.
    pub open spec fn is_outgrow(self, text: Seq<char>) -> bool {
        self is OutgrowCause && self.text() == text
    }

    /// A failure over a negative value, with the given message.
    pub fn negative_value(message: &str) -> (e: MatholError)
        ensures
            e.is_negative_value(message@),
    {
        MatholError::NegativeValueCause(NegativeValueError { message: message.to_string() })
    }

    /// A failure over an empty vector, with the given message.
    pub fn empty_vec(message: &str) -> (e: MatholError)
        ensures
            e.is_empty_vec(message@),
    {
        MatholError::EmptyVecCause(EmptyVectorError { message: message.to_string() })
    }

    /// A failure over a sum, with the given message.
    pub fn summation(message: String) -> (e: MatholError)
        ensures
            e.is_summation(message@),
    {
        MatholError::SummationCause(SummationError { message })
    }

    /// A failure over a part that outgrows the whole, with the given
    /// message.
    pub fn outgrow(message: &str) -> (e: MatholError)
        ensures
            e.is_outgrow(message@),
    {
        MatholError::OutgrowCause(OutgrowError { message: message.to_string() })
    }

    /// A matrix failure with the given message.
    pub fn matrice(message: &str) -> (e: MatholError)
        ensures
            e.is_matrice(message@),
    {
        MatholError::MatriceCause(MatriceError { message: message.to_string() })
    }

    /// An index failure with the given message.
    pub fn out_of_bounds(message: &str) -> (e: MatholError)
        ensures
            e.is_out_of_bounds(message@),
    {
        MatholError::OutOfBoundsCause(OutOfBoundsError { message: message.to_string() })
    }

    /// Whether this is a length failure carrying exactly `text`.
    pub open spec fn is_length(self, text: Seq<char>) -> bool {
        self is LengthCause && self.text() == text
    }

    /// A length failure with the given message.
    pub fn length(message: String) -> (e: MatholError)
        ensures
            e.is_length(message@),
    {
        MatholError::LengthCause(LengthError { message })
    }

    /// The length failure that says "`what` must have `expected` `unit`".
    pub fn wrong_length(what: &str, expected: usize, unit: &str) -> (e: MatholError)
        ensures
            e.is_length(length_text(what@, expected as nat, unit@)),
    {
        let mut message = String::from_str(what);
        message.append(" must have ");
        message.append(decimal_text(expected as u64).as_str());
        message.append(" ");
        message.append(unit);
        MatholError::length(message)
    }
}

} // verus!
