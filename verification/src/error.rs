//! Structured parse failures.

use vstd::prelude::*;

verus! {

/// The mathematical model of a [`FilterError`].
pub enum ErrV {
    /// No grammar alternative matched at this input position.
    Syntax(int),
    /// The named attribute is unknown or not enabled for filtering.
    AttributeNotFilterable(Seq<char>),
    /// A numeric literal was required; holds the first character of the
    /// offending token, if the token was not empty.
    InvalidNumber(Option<char>),
    /// A geo-radius clause without exactly three arguments.
    GeoArgumentCount,
    /// A latitude outside `[-90, 90]`.
    GeoLatitudeOutOfRange,
    /// A longitude outside `[-180, 180]`.
    GeoLongitudeOutOfRange,
}

/// A failure produced while parsing a filter expression. Every variant is
/// fatal for the parse that produced it: there is no partial tree.
#[derive(Debug, PartialEq)]
pub enum FilterError {
    /// No grammar alternative matched at this byte-in-characters position.
    SyntaxError(usize),
    /// The named attribute is unknown or not enabled for filtering.
    AttributeNotFilterable(String),
    /// A numeric literal was required; holds the first character of the
    /// offending token, if the token was not empty.
    InvalidNumber(Option<char>),
    /// A geo-radius clause without exactly three arguments.
    GeoArgumentCount,
    /// A latitude outside `[-90, 90]`.
    GeoLatitudeOutOfRange,
    /// A longitude outside `[-180, 180]`.
    GeoLongitudeOutOfRange,
}

impl View for FilterError {
    type V = ErrV;

    open spec fn view(&self) -> ErrV {
        match self {
            FilterError::SyntaxError(p) => ErrV::Syntax(*p as int),
            FilterError::AttributeNotFilterable(name) => ErrV::AttributeNotFilterable(name@),
            FilterError::InvalidNumber(c) => ErrV::InvalidNumber(*c),
            FilterError::GeoArgumentCount => ErrV::GeoArgumentCount,
            FilterError::GeoLatitudeOutOfRange => ErrV::GeoLatitudeOutOfRange,
            FilterError::GeoLongitudeOutOfRange => ErrV::GeoLongitudeOutOfRange,
        }
    }
}

impl FilterError {
    /// A fixed human-readable message for this kind of failure.
    pub fn message(&self) -> (r: &'static str)
        ensures
            match self {
                FilterError::SyntaxError(_) => r@ == "Invalid syntax for the filter parameter"@,
                FilterError::AttributeNotFilterable(_) => r@ == "Attribute is not filterable"@,
                FilterError::InvalidNumber(_) => r@
                    == "Invalid number in filter expression"@,
                FilterError::GeoArgumentCount => r@
                    == "The `_geoRadius` filter expect three arguments: `_geoRadius(latitude, longitude, radius)`"@,
                FilterError::GeoLatitudeOutOfRange => r@
                    == "Latitude must be contained between -90 and 90 degrees."@,
                FilterError::GeoLongitudeOutOfRange => r@
                    == "Longitude must be contained between -180 and 180 degrees."@,
            },
    {
        match self {
            FilterError::SyntaxError(_) => "Invalid syntax for the filter parameter",
            FilterError::AttributeNotFilterable(_) => "Attribute is not filterable",
            FilterError::InvalidNumber(_) => "Invalid number in filter expression",
            FilterError::GeoArgumentCount => "The `_geoRadius` filter expect three arguments: `_geoRadius(latitude, longitude, radius)`",
            FilterError::GeoLatitudeOutOfRange => "Latitude must be contained between -90 and 90 degrees.",
            FilterError::GeoLongitudeOutOfRange => "Longitude must be contained between -180 and 180 degrees.",
        }
    }
}

} // verus!
