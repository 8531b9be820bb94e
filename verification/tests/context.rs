use hudagents::context::blob::{Blob, BlobRef};
use hudagents::context::ids::{AgentId, DeviceId, RunId, UserId};
use hudagents::context::message::{AgentMessage, MessagePayload, Sender};
use hudagents::context::runtime;
use hudagents::context::session::{
    SessionKey, SessionState, SESSION_IDLE_TIMEOUT_SECS, SESSION_MAX_MESSAGES,
};
use hudagents::context::{AgentContext, Control};
use hudagents::graph::NodeId;
use std::sync::Arc;

fn text(words: &str) -> AgentMessage {
    AgentMessage { run: RunId(1), from: Sender::User, payload: MessagePayload::Text(words.into()) }
}

fn words_of(message: &AgentMessage) -> &str {
    match &message.payload {
        MessagePayload::Text(words) => words,
        _ => panic!("no text"),
    }
}

#[test]
fn a_new_context_is_empty() {
    let context = AgentContext::new(RunId(3), UserId(4), 5);
    assert_eq!(context.run_id, RunId(3));
    assert_eq!(context.user_id, UserId(4));
    assert_eq!(context.cap(), 5);
    assert_eq!(context.len(), 0);
    assert!(context.is_empty());
    assert!(context.last().is_none());
    assert_eq!(context.iter().count(), 0);
    assert!(context.messages().is_empty());
}

#[test]
fn a_full_context_gives_up_its_oldest_message() {
    let mut context = AgentContext::new(RunId(1), UserId(1), 2);
    context.push(text("one"));
    assert_eq!(context.len(), 1);
    assert!(!context.is_empty());
    context.push(text("two"));
    context.push(text("three"));
    assert_eq!(context.len(), 2);
    assert_eq!(context.cap(), 2);
    let kept: Vec<&str> = context.iter().map(words_of).collect();
    assert_eq!(kept, vec!["two", "three"]);
    assert_eq!(context.last().map(words_of), Some("three"));
    assert_eq!(context.messages().front().map(words_of), Some("two"));
}

#[test]
fn a_context_without_capacity_keeps_everything() {
    let mut context = AgentContext::new(RunId(1), UserId(1), 0);
    for words in ["a", "b", "c"] {
        context.push(text(words));
    }
    assert_eq!(context.len(), 3);
    assert_eq!(context.iter().map(words_of).collect::<Vec<_>>(), vec!["a", "b", "c"]);
}

#[test]
fn the_bare_window_slides_too() {
    let mut window = runtime::AgentContext::new(1);
    assert_eq!(window.capacity, 1);
    assert_eq!(window.iter().count(), 0);
    window.push(text("one"));
    window.push(text("two"));
    assert_eq!(window.iter().map(words_of).collect::<Vec<_>>(), vec!["two"]);
    assert_eq!(window.que.len(), 1);
}

#[test]
fn a_new_session_has_no_messages() {
    let session = SessionState::new();
    assert!(session.messages.is_empty());
    assert!(session.last_activity.elapsed().as_secs() < SESSION_IDLE_TIMEOUT_SECS);
    assert_eq!(SESSION_MAX_MESSAGES, 128);
    assert_eq!(SESSION_IDLE_TIMEOUT_SECS, 15);
}

#[test]
fn identifiers_and_messages_hold_what_they_are_given() {
    let key = SessionKey { device_id: DeviceId("glasses".into()), user_id: UserId(7) };
    assert_eq!(key.clone(), key);
    assert_eq!(AgentId("stt".into()), AgentId("stt".into()));
    assert_ne!(BlobRef(1), BlobRef(2));
    let blob = Blob { bytes: Arc::from(vec![1u8, 2, 3]), mime: Some("audio/mp4") };
    assert_eq!(blob.clone().bytes.len(), 3);
    let control = AgentMessage {
        run: RunId(9),
        from: Sender::Node(NodeId(2)),
        payload: MessagePayload::Control(runtime::Control::RetryNode(NodeId(2))),
    };
    assert!(matches!(control.from, Sender::Node(NodeId(2))));
    assert!(matches!(Control::SkipNode(NodeId(1)).clone(), Control::SkipNode(NodeId(1))));
    assert!(matches!(Control::Continue, Control::Continue));
    for payload in [
        MessagePayload::Audio(BlobRef(1)),
        MessagePayload::Image(BlobRef(2)),
        MessagePayload::Transcription("t".into()),
        MessagePayload::VisionCaption("v".into()),
        MessagePayload::FinalAnswer("f".into()),
        MessagePayload::Error("e".into()),
    ] {
        assert!(!format!("{:?}", payload).is_empty());
    }
}
