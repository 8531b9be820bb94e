//! Agents: workers that turn an input into an output.

use vstd::prelude::*;
use vstd::string::StringExecFns;
use vstd::std_specs::convert::FromSpecImpl;
use crate::whisper::HAWhisperError;

pub mod speech_to_text;

verus! {

/// Why an agent could not do its work.
#[derive(Debug)]
pub enum HAAgentError {
    InvalidInput(String),
    Whisper(HAWhisperError),
}

impl HAAgentError {
    /// The error as a line for the user: what kind it is, then its text.
    pub fn message(&self) -> (line: String)
        ensures
            self matches HAAgentError::InvalidInput(text) ==> line@ == "agent Input Error: "@
                + text@,
            self matches HAAgentError::Whisper(error) ==> "audio transcription failed: "@.is_prefix_of(
                line@,
            ) && (error.spec_message() matches Some(text) ==> line@
                == "audio transcription failed: "@ + text),
    {
        match self {
            HAAgentError::InvalidInput(text) => {
                let mut line = String::from_str("agent Input Error: ");
                line.append(text.as_str());
                line
            },
            HAAgentError::Whisper(error) => {
                let mut line = String::from_str("audio transcription failed: ");
                let text = error.message();
                line.append(text.as_str());
                assert(line@.subrange(0, "audio transcription failed: "@.len() as int)
                    =~= "audio transcription failed: "@);
                line
            },
        }
    }
}

impl From<HAWhisperError> for HAAgentError {
    fn from(e: HAWhisperError) -> (error: HAAgentError) {
        HAAgentError::Whisper(e)
    }
}

impl FromSpecImpl<HAWhisperError> for HAAgentError {
    open spec fn obeys_from_spec() -> bool {
        true
    }

    open spec fn from_spec(e: HAWhisperError) -> HAAgentError {
        HAAgentError::Whisper(e)
    }
}

/// What an agent is given.
#[derive(Debug)]
pub enum AgentInput {
    Audio(Vec<u8>),
    Image(Vec<u8>),
    Text(String),
}

/// What an agent gives back.
#[derive(Debug)]
pub enum AgentOutput {
    AudioTranscription(String),
    ImageInterpretation(String),
    FinalAnswer(String),
}

/// A worker of a graph.
pub trait Agent {
    fn id(&self) -> &str;

    fn call(&self, agent_input: AgentInput) -> Result<AgentOutput, HAAgentError>;

    /// A word on the agent for the user. An agent that says nothing of its
    /// own is described by its identifier: the words are what `id` gives.
    fn describe(&self) -> (words: String)
        default_ensures
            exists|id: &str| call_ensures(Self::id, (self,), id) && words@ == id@,
    {
        String::from_str(self.id())
    }
}

} // verus!
