use rgpt::completion::{
    Content, ContentBlock, ContentDelta, MessageStartData, Response, StopReason, TextEvent, Usage,
};
use rgpt::config::Mode;

fn start(stop_reason: Option<StopReason>) -> TextEvent {
    TextEvent::MessageStart {
        message: MessageStartData {
            id: "m".to_string(),
            type_: "message".to_string(),
            role: "assistant".to_string(),
            model: "model".to_string(),
            content: vec![],
            stop_reason,
            stop_sequence: None,
            usage: Usage { input_tokens: 1, output_tokens: 2 },
        },
    }
}

#[test]
fn event_text_and_stops() {
    let block = TextEvent::ContentBlockStart { index: 0, content_block: ContentBlock::Text { text: "hé".to_string() } };
    assert_eq!(block.text(), Some("hé".to_string()));
    let delta = TextEvent::ContentBlockDelta { index: 0, delta: ContentDelta::TextDelta { text: "x".to_string() } };
    assert_eq!(delta.text(), Some("x".to_string()));
    assert_eq!(TextEvent::ContentBlockStop { index: 0 }.text(), Some("\n".to_string()));
    assert_eq!(TextEvent::MessageStop.text(), None);
    assert!(TextEvent::MessageStop.is_stop());
    assert!(TextEvent::ContentBlockStop { index: 0 }.is_stop());
    assert!(!block.is_stop());
    assert!(start(Some(StopReason::MaxTokens)).is_stop());
    assert!(!start(None).is_stop());
    assert!(start(Some(StopReason::EndTurn)).is_complete());
    assert!(!start(Some(StopReason::MaxTokens)).is_complete());
    assert!(TextEvent::MessageStop.is_complete());
    assert!(!TextEvent::Null.is_complete());
}

#[test]
fn bytes_and_updates() {
    let c = Content::Text { text: "é!".to_string() };
    assert_eq!(c.bytes(), vec![0xc3, 0xa9, b'!']);
    assert_eq!(c.text(), Some("é!".to_string()));
    assert!(Content::Other.bytes().is_empty());
    assert_eq!(ContentDelta::TextDelta { text: "ab".to_string() }.bytes(), b"ab".to_vec());
    let mut block = ContentBlock::Text { text: "Hello".to_string() };
    block.update(&ContentDelta::TextDelta { text: ", world".to_string() });
    assert_eq!(block.text(), Some("Hello, world".to_string()));
    assert_eq!(block.bytes(), b"Hello, world".to_vec());
    let mut other = ContentBlock::Other;
    other.update(&ContentDelta::TextDelta { text: "x".to_string() });
    assert_eq!(other.text(), None);
    assert_eq!(ContentDelta::Other.text(), None);
}

#[test]
fn response_becomes_start_and_stop() {
    let response = Response {
        stop_reason: Some(StopReason::EndTurn),
        stop_sequence: None,
        content: vec![Content::Text { text: "hi".to_string() }],
        model: "model".to_string(),
        id: "id".to_string(),
        type_: "message".to_string(),
        role: "user".to_string(),
        usage: Usage { input_tokens: 3, output_tokens: 4 },
    };
    let events = response.into_events();
    assert_eq!(events.len(), 2);
    match &events[0] {
        TextEvent::MessageStart { message } => {
            assert_eq!(message.role, "assistant");
            assert_eq!(message.id, "id");
            assert_eq!(message.usage.output_tokens, 4);
        }
        _ => panic!("expected a message start"),
    }
    assert!(matches!(events[1], TextEvent::MessageStop));
}

#[test]
fn modes_by_name() {
    assert_eq!(Mode::from_name("dev"), Mode::Dev);
    assert_eq!(Mode::from_name("bash"), Mode::Bash);
    assert_eq!(Mode::from_name("general"), Mode::General);
    assert_eq!(Mode::from_name(""), Mode::General);
    assert!(Mode::Bash.executes());
    assert!(!Mode::Dev.executes());
}
