//! The plain values exchanged with the track backend: load and create
//! results, the backend's error alphabet, and the embed address built for
//! a track's backing video. The transport itself stays outside the
//! library; only the values and the rules for building them live here.

use vstd::prelude::*;
use vstd::string::StringExecFns;
use crate::text::ParseError;
use crate::track::Track;
use crate::track::TrackData;

verus! {

/// What loading a stored track can yield.
pub enum TrackLoadResult {
    Loaded(TrackData),
    Error,
}

/// What creating a track can yield: the new identifier and the stored
/// track.
pub enum TrackCreateResult {
    Created(String, Track),
    Error,
}

/// The backend's failure alphabet: storage trouble, or input it refuses.
#[derive(Clone, Copy, PartialEq, Eq, Structural, Debug)]
pub enum ApiError {
    DatabaseError,
    InvalidFormatError,
}

impl From<ParseError> for ApiError {
    /// A text-format parse failure surfaces as invalid input, never as a
    /// storage error.
    fn from(e: ParseError) -> (r: ApiError) {
        match e {
            ParseError::InvalidFormat => ApiError::InvalidFormatError,
        }
    }
}

impl vstd::std_specs::convert::FromSpecImpl<ParseError> for ApiError {
    open spec fn obeys_from_spec() -> bool {
        true
    }

    open spec fn from_spec(e: ParseError) -> ApiError {
        ApiError::InvalidFormatError
    }
}

/// The embed address of a track's backing video.
pub fn make_youtube_url(id: &str) -> (r: String)
    ensures
        r@ == "https://www.youtube.com/embed/"@ + id@ + "?autoplay=1&loop=1"@,
{
    String::from_str("https://www.youtube.com/embed/").concat(id).concat("?autoplay=1&loop=1")
}

} // verus!
