//! What can go wrong around the local speech model: finding it, loading it,
//! fetching it, and feeding it.

use vstd::prelude::*;
use vstd::string::StringExecFns;
use vstd::std_specs::convert::FromSpecImpl;
use crate::text::{decimal, push_decimal};

verus! {

/// An error of the HTTP client, carried through unopened.
#[verifier::external_type_specification]
#[verifier::external_body]
pub struct ExHttpError(reqwest::Error);

/// An error of input or output, carried through unopened.
#[verifier::external_type_specification]
#[verifier::external_body]
pub struct ExIoError(std::io::Error);

/// Why the speech model could not be found, loaded, fetched or fed.
#[derive(Debug)]
pub enum HAWhisperError {
    ModelNotFound(String),
    InvalidModelName(String),
    ModelInitFailed(String),
    TranscriptionFailed(String),
    MissingDependency(String),
    DecodeFailed(String),
    HttpRequestFailed(reqwest::Error),
    /// The server answered with this status, which is no success.
    HttpStatus(u16),
    IOError(std::io::Error),
}

/// The text that `reqwest::Error` has for display. Nothing is claimed of it.
#[verifier::external_body]
fn http_error_text(error: &reqwest::Error) -> (text: String) {
    format!("{}", error)
}

/// The text that `std::io::Error` has for display. Nothing is claimed of it.
#[verifier::external_body]
fn io_error_text(error: &std::io::Error) -> (text: String) {
    format!("{}", error)
}

/// What follows the path in the line for a model that is not there.
pub open spec fn model_not_found_advice() -> Seq<char> {
    "\nUse `hudagents-tools sysinfo` to get the recommended model for your system, or\nUse `hudagents-tools download --model <model> --path <path>` to download the model"@
}

impl HAWhisperError {
    /// The error as a line for the user, as far as it is made of the
    /// error's own text; the two kinds that wrap an error from outside are
    /// not covered.
    pub open spec fn spec_message(&self) -> Option<Seq<char>> {
        match self {
            HAWhisperError::ModelNotFound(path) => Some(
                "Model not found at: "@ + path@ + model_not_found_advice(),
            ),
            HAWhisperError::InvalidModelName(model) => Some("Invalid model name: "@ + model@),
            HAWhisperError::ModelInitFailed(text) => Some(
                "Failed to initialize Whisper context: "@ + text@,
            ),
            HAWhisperError::TranscriptionFailed(text) => Some("Transcription failed: "@ + text@),
            HAWhisperError::MissingDependency(dep) => Some(
                "Missing dependency: "@ + dep@ + ". Please install it."@,
            ),
            HAWhisperError::DecodeFailed(text) => Some("ffmpeg failed to decode input: "@ + text@),
            HAWhisperError::HttpStatus(status) => Some(
                "HTTP status: "@ + decimal(*status as nat),
            ),
            HAWhisperError::HttpRequestFailed(_) => None,
            HAWhisperError::IOError(_) => None,
        }
    }

    /// The error as a line for the user. An error from outside is given
    /// with the text it has for itself, behind `HTTP request failed: ` or
    /// `IO error: `.
    pub fn message(&self) -> (line: String)
        ensures
            self.spec_message() matches Some(text) ==> line@ == text,
            self is HttpRequestFailed ==> "HTTP request failed: "@.is_prefix_of(line@),
            self is IOError ==> "IO error: "@.is_prefix_of(line@),
    {
        match self {
            HAWhisperError::ModelNotFound(path) => {
                let mut line = String::from_str("Model not found at: ");
                line.append(path.as_str());
                line.append(
                    "\nUse `hudagents-tools sysinfo` to get the recommended model for your system, or\nUse `hudagents-tools download --model <model> --path <path>` to download the model",
                );
                line
            },
            HAWhisperError::InvalidModelName(model) => {
                let mut line = String::from_str("Invalid model name: ");
                line.append(model.as_str());
                line
            },
            HAWhisperError::ModelInitFailed(text) => {
                let mut line = String::from_str("Failed to initialize Whisper context: ");
                line.append(text.as_str());
                line
            },
            HAWhisperError::TranscriptionFailed(text) => {
                let mut line = String::from_str("Transcription failed: ");
                line.append(text.as_str());
                line
            },
            HAWhisperError::MissingDependency(dep) => {
                let mut line = String::from_str("Missing dependency: ");
                line.append(dep.as_str());
                line.append(". Please install it.");
                line
            },
            HAWhisperError::DecodeFailed(text) => {
                let mut line = String::from_str("ffmpeg failed to decode input: ");
                line.append(text.as_str());
                line
            },
            HAWhisperError::HttpRequestFailed(error) => {
                let mut line = String::from_str("HTTP request failed: ");
                let text = http_error_text(error);
                line.append(text.as_str());
                assert(line@.subrange(0, "HTTP request failed: "@.len() as int)
                    =~= "HTTP request failed: "@);
                line
            },
            HAWhisperError::HttpStatus(status) => {
                let mut line = String::from_str("HTTP status: ");
                push_decimal(&mut line, *status as u64);
                line
            },
            HAWhisperError::IOError(error) => {
                let mut line = String::from_str("IO error: ");
                let text = io_error_text(error);
                line.append(text.as_str());
                assert(line@.subrange(0, "IO error: "@.len() as int) =~= "IO error: "@);
                line
            },
        }
    }
}

impl From<std::io::Error> for HAWhisperError {
    fn from(e: std::io::Error) -> (error: HAWhisperError) {
        HAWhisperError::IOError(e)
    }
}

impl FromSpecImpl<std::io::Error> for HAWhisperError {
    open spec fn obeys_from_spec() -> bool {
        true
    }

    open spec fn from_spec(e: std::io::Error) -> HAWhisperError {
        HAWhisperError::IOError(e)
    }
}

} // verus!
