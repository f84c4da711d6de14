use rgpt::completion::{ContentBlock, ContentDelta, TextEvent};
use rgpt::message::{Message, Role};
use rgpt::state::{StateInner, StateRequest};

#[test]
fn messages_fill_buffers_by_role() {
    let mut state = StateInner::new();
    state.handle_messages(vec![
        Message { role: Role::System, content: "sys".to_string() },
        Message { role: Role::User, content: "a\r\nb\n".to_string() },
        Message { role: Role::Assistant, content: "reply".to_string() },
    ]);
    assert_eq!(state.user_buffers.len(), 2);
    assert_eq!(state.user_buffers[1].len(), 2);
    assert_eq!(state.user_buffers[1][0].text(), Some("a".to_string()));
    let all = state.get_user_message();
    let got: Vec<(Role, String)> = all.into_iter().map(|m| (m.role, m.content)).collect();
    assert_eq!(
        got,
        vec![(Role::System, "sys".to_string()), (Role::User, "".to_string()), (Role::Assistant, "reply".to_string())]
    );
}

#[test]
fn reply_events_build_the_last_buffer() {
    let mut state = StateInner::new();
    assert!(state.get_assistant_buffer().is_empty());
    state.push_user_event("hi\nthere".to_string());
    assert_eq!(state.user_buffers.len(), 2);
    assert_eq!(state.user_buffers[1][1].text(), Some("there".to_string()));
    state.push_assistant_event(TextEvent::ContentBlockStart {
        index: 0,
        content_block: ContentBlock::Text { text: "Hel".to_string() },
    });
    state.push_assistant_event(TextEvent::ContentBlockDelta {
        index: 0,
        delta: ContentDelta::TextDelta { text: "lo".to_string() },
    });
    state.push_assistant_event(TextEvent::ContentBlockDelta {
        index: 3,
        delta: ContentDelta::TextDelta { text: "ignored".to_string() },
    });
    state.push_assistant_event(TextEvent::MessageStop);
    let buffer = state.get_assistant_buffer();
    assert_eq!(buffer.len(), 1);
    assert_eq!(buffer[0].text(), Some("Hello".to_string()));
    let all = state.get_user_message();
    assert_eq!(all.len(), 2);
    assert_eq!(all[1].content, "Hello");
}

#[test]
fn requests_are_served() {
    let mut state = StateInner::new();
    assert!(state
        .handle_request(StateRequest::MessageEvent(vec![Message { role: Role::User, content: "q".to_string() }]))
        .is_none());
    assert!(state.handle_request(StateRequest::PushAssistantEvent(TextEvent::ContentBlockStart {
        index: 0,
        content_block: ContentBlock::Text { text: "a".to_string() },
    }))
    .is_none());
    let answer = state.handle_request(StateRequest::GetPromptMessages).unwrap();
    let got: Vec<(Role, String)> = answer.into_iter().map(|m| (m.role, m.content)).collect();
    assert_eq!(got, vec![(Role::User, "".to_string()), (Role::Assistant, "a".to_string())]);
}
