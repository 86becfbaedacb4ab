//! What can go wrong.

use std::time::SystemTimeError;
use url::ParseError;
use vstd::prelude::*;

verus! {

/// What the system clock reports of an instant that lies before another.
#[verifier::external_type_specification]
#[verifier::external_body]
pub struct ExSystemTimeError(std::time::SystemTimeError);

/// Why a text is not a URL.
#[verifier::external_type_specification]
#[verifier::external_body]
pub struct ExParseError(url::ParseError);

/// Why a measurement or an endpoint could not be made.
#[derive(Debug)]
pub enum Error {
    /// A text is not a URL, or the endpoint's path cannot be joined to it.
    URLParseError(ParseError),
    /// An instant lies before the Unix epoch.
    SystemTimeError(SystemTimeError),
    /// No field was set, or the fields that were set are empty.
    AtLeastOneMeasurementFieldRequired,
}

} // verus!
