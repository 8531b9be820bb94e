//! The messages that agents and users exchange during a run.

use vstd::prelude::*;
use crate::context::blob::BlobRef;
use crate::context::ids::RunId;
use crate::context::runtime::Control;
use crate::graph::NodeId;

verus! {

/// Who sent a message.
#[derive(Clone, Debug)]
pub enum Sender {
    User,
    Node(NodeId),
}

/// What a message carries.
#[derive(Clone, Debug)]
pub enum MessagePayload {
    Text(String),
    Audio(BlobRef),
    Image(BlobRef),
    Transcription(String),
    VisionCaption(String),
    FinalAnswer(String),
    Control(Control),
    Error(String),
}

#[derive(Clone, Debug)]
pub struct AgentMessage {
    pub run: RunId,
    pub from: Sender,
    pub payload: MessagePayload,
}

} // verus!
