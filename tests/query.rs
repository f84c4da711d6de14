use rgpt::completion::{Content, ContentBlock, ContentDelta, MessageStartData, TextEvent, Usage};
use rgpt::query::QueryState;

#[test]
fn test_get_code_block() {
    let mut state = QueryState::new();
    state.add_message(0, b"echo 'Hello, World!'\n".to_vec());
    state.add_message(1, b"echo 'Goodbye, World!'\n".to_vec());
    state.add_message(2, b"echo 'Hello, World!'\n".to_vec());
    state.add_message(3, b"echo 'Goodbye, World!'\n".to_vec());
    state.add_message(4, b"echo 'Hello, World!'/\necho 'Goodbye, World!'\n".to_vec());

    let blocks = state.get_code_blocks();
    assert_eq!(blocks.len(), 5);
}

#[test]
fn code_blocks_join_continued_lines_and_skip_blank_ones() {
    let mut state = QueryState::new();
    state.add_message(1, b"ls -l\n\ncd a/".to_vec());
    state.add_message(1, b"\npwd".to_vec());
    assert_eq!(state.messages.len(), 2);
    assert!(state.messages[0].is_empty());
    assert_eq!(state.line_no, 3);
    let blocks = state.get_code_blocks();
    assert_eq!(blocks, vec![b"ls -l\n".to_vec(), b"cd a/\npwd\n".to_vec()]);
}

#[test]
fn unfinished_continuation_is_kept() {
    let mut state = QueryState::new();
    state.add_message(0, b"make/".to_vec());
    assert_eq!(state.get_code_blocks(), vec![b"make/\n".to_vec()]);
    assert!(QueryState::new().get_code_blocks().is_empty());
}

#[test]
fn reply_events_are_recorded_and_echoed() {
    let mut state = QueryState::new();
    let start = TextEvent::MessageStart {
        message: MessageStartData {
            id: "m".to_string(),
            type_: "message".to_string(),
            role: "assistant".to_string(),
            model: "model".to_string(),
            content: vec![Content::Text { text: "ls\n".to_string() }, Content::Other],
            stop_reason: None,
            stop_sequence: None,
            usage: Usage { input_tokens: 0, output_tokens: 0 },
        },
    };
    assert_eq!(state.handle_event(start), b"ls\n".to_vec());
    let open = TextEvent::ContentBlockStart { index: 2, content_block: ContentBlock::Text { text: "pw".to_string() } };
    assert_eq!(state.handle_event(open), b"pw".to_vec());
    let more = TextEvent::ContentBlockDelta { index: 2, delta: ContentDelta::TextDelta { text: "d\n".to_string() } };
    assert_eq!(state.handle_event(more), b"d\n".to_vec());
    assert!(state.handle_event(TextEvent::MessageStop).is_empty());
    assert_eq!(state.line_no, 2);
    assert_eq!(state.get_code_blocks(), vec![b"ls\n".to_vec(), b"pwd\n".to_vec()]);
}
