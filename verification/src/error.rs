//! The ways in which a rendering fails before or while it is prepared.

use vstd::prelude::*;

verus! {

/// An error of `serde_json`. Nothing is known of what it holds.
#[verifier::external_type_specification]
#[verifier::external_body]
pub struct ExJsonError(serde_json::Error);

/// The error of `String::from_utf8`. Nothing is known of what it holds.
#[verifier::external_type_specification]
#[verifier::external_body]
pub struct ExFromUtf8Error(std::string::FromUtf8Error);

/// Why a rendering cannot go on.
#[derive(Debug)]
pub enum RenderError {
    /// Neither an installed nor a bundled ffmpeg runs.
    FfmpegNotFound,
    /// Hardware acceleration was asked for and no fitting encoder is listed.
    NoHardwareEncoder,
    /// The line that names the output file is not a JSON string.
    OutputPath(serde_json::Error),
    /// ffmpeg's list of codecs is not UTF-8.
    CodecListing(std::string::FromUtf8Error),
}

impl RenderError {
    /// The key of the translated message for this error, where it has one.
    pub fn key(&self) -> (r: Option<&'static str>)
        ensures
            match self {
                RenderError::NoHardwareEncoder => r matches Some(k) && k@ == "no-hwacc"@,
                _ => r is None,
            },
    {
        match self {
            RenderError::NoHardwareEncoder => Some("no-hwacc"),
            _ => None,
        }
    }
}

/// A missing hardware encoder is the one error that has a translated message.
pub proof fn lemma_which_errors_have_a_message(e: RenderError, r: Option<&'static str>)
    requires
        call_ensures(RenderError::key, (&e,), r),
    ensures
        r is Some <==> e is NoHardwareEncoder,
        r matches Some(key) ==> key@ == "no-hwacc"@,
{
}

} // verus!
