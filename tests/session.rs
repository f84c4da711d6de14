use rgpt::completion::{ContentBlock, ContentDelta, TextEvent};
use rgpt::message::{Message, Role};
use rgpt::pagetree::NodeId;
use rgpt::session::{command_for, Command, Key, Outcome, SessionLayout};
use rgpt::textarea::{Input, SessionAreaId};

fn layout() -> SessionLayout {
    SessionLayout::new(vec![Message { role: Role::System, content: "Be brief.".to_string() }], 70)
}

#[test]
fn new_session_starts_on_a_fresh_turn() {
    let s = layout();
    assert_eq!(s.current_node, NodeId::Node(0));
    assert_eq!(s.active, SessionAreaId::User);
    assert_eq!(s.page_tree.active, NodeId::Node(0));
    assert_eq!(s.page_tree.system_area.text(), "Be brief.");
    let bad = SessionLayout::new(vec![Message { role: Role::Assistant, content: "x".to_string() }], 70);
    assert_eq!(bad.page_tree.nodes.len(), 1);
}

#[test]
fn submit_locks_and_streams_into_the_submitted_node() {
    let mut s = layout();
    for c in "hi".chars() {
        s.apply(command_for(Key::Char(c), false));
    }
    let sent = match s.apply(command_for(Key::Char('j'), true)) {
        Outcome::Submit(ms) => ms,
        _ => panic!("expected a submission"),
    };
    let got: Vec<(Role, String)> = sent.into_iter().map(|m| (m.role, m.content)).collect();
    assert_eq!(got, vec![(Role::System, "Be brief.".to_string()), (Role::User, "hi".to_string())]);
    assert_eq!(s.assistant_stream_node, Some(NodeId::Node(0)));
    assert_eq!(s.current_node, NodeId::Node(1));
    s.handle_assistant_event(TextEvent::MessageStart { message: start() });
    s.handle_assistant_event(TextEvent::ContentBlockStart {
        index: 0,
        content_block: ContentBlock::Text { text: "Hel".to_string() },
    });
    s.handle_assistant_event(TextEvent::ContentBlockDelta {
        index: 0,
        delta: ContentDelta::TextDelta { text: "lo".to_string() },
    });
    s.handle_assistant_event(TextEvent::MessageStop);
    assert_eq!(s.assistant_stream_node, None);
    assert_eq!(s.page_tree.get(NodeId::Node(0)).unwrap().assistant_area.text(), "Hello");
    assert!(s.page_tree.get(NodeId::Node(1)).unwrap().assistant_area.is_empty());
    // Typing into the locked node forks it.
    s.apply(Command::Down);
    assert_eq!(s.current_node, NodeId::Node(0));
    s.input(Input::Char('!'));
    assert_eq!(s.current_node, NodeId::Node(2));
    assert_eq!(s.page_tree.get(NodeId::Node(2)).unwrap().user_area.text(), "hi!");
    assert_eq!(s.page_tree.get(NodeId::Node(0)).unwrap().user_area.text(), "hi");
}

fn start() -> rgpt::completion::MessageStartData {
    rgpt::completion::MessageStartData {
        id: "m".to_string(),
        type_: "message".to_string(),
        role: "assistant".to_string(),
        model: "model".to_string(),
        content: vec![],
        stop_reason: None,
        stop_sequence: None,
        usage: rgpt::completion::Usage { input_tokens: 0, output_tokens: 0 },
    }
}

#[test]
fn navigation_commands() {
    let mut s = layout();
    assert!(matches!(s.apply(Command::NewBranch), Outcome::Continue));
    assert_eq!(s.current_node, NodeId::Node(1));
    assert_eq!(s.next_branch(), Some(NodeId::Node(0)));
    assert_eq!(s.previous_branch(), Some(NodeId::Node(1)));
    s.new_child_at_current();
    assert_eq!(s.current_node, NodeId::Node(2));
    assert_eq!(s.down_one(), Some(NodeId::Node(1)));
    assert_eq!(s.down_one(), None);
    assert_eq!(s.up_one(), Some(NodeId::Node(2)));
    assert_eq!(s.up_one(), None);
    s.switch_pane();
    assert_eq!(s.active, SessionAreaId::Assistant);
    s.switch_pane();
    assert_eq!(s.active, SessionAreaId::System);
    assert!(s.page_tree.system_area.active);
    s.switch_pane();
    assert_eq!(s.active, SessionAreaId::User);
    assert!(matches!(s.apply(Command::Quit), Outcome::Quit));
}

#[test]
fn key_bindings() {
    assert_eq!(command_for(Key::Esc, false), Command::Quit);
    assert_eq!(command_for(Key::Char('c'), true), Command::Quit);
    assert_eq!(command_for(Key::Tab, false), Command::SwitchPane);
    assert_eq!(command_for(Key::Char('b'), true), Command::NewBranch);
    assert_eq!(command_for(Key::Char('n'), true), Command::NextBranch);
    assert_eq!(command_for(Key::Char('p'), true), Command::PreviousBranch);
    assert_eq!(command_for(Key::Char('u'), true), Command::Up);
    assert_eq!(command_for(Key::Char('d'), true), Command::Down);
    assert_eq!(command_for(Key::Char('j'), true), Command::Submit);
    assert_eq!(command_for(Key::Char('x'), true), Command::Edit(Input::Other));
    assert_eq!(command_for(Key::Char('x'), false), Command::Edit(Input::Char('x')));
    assert_eq!(command_for(Key::Enter, false), Command::Edit(Input::Enter));
}

#[test]
fn update_adds_a_branch_or_refuses() {
    let mut s = layout();
    let ok = s.update(
        vec![
            Message { role: Role::User, content: "q".to_string() },
            Message { role: Role::Assistant, content: "a".to_string() },
        ],
        None,
    );
    assert!(ok.is_ok());
    assert_eq!(s.current_node, NodeId::Node(1));
    let before = s.page_tree.nodes.len();
    let err = s.update(vec![Message { role: Role::Assistant, content: "a".to_string() }], None);
    assert!(err.is_err());
    assert_eq!(s.page_tree.nodes.len(), before);
    assert_eq!(s.messages().len(), 2);
}
