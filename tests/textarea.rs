use rgpt::message::{Message, Role};
use rgpt::textarea::{Input, SessionAreaId, SessionTextArea};

#[test]
fn locked_buffer_refuses_edits_but_takes_forced_input() {
    let mut area = SessionTextArea::new(SessionAreaId::Assistant, &[], 70);
    area.force_text("ab");
    area.lock();
    for input in [Input::Char('x'), Input::Backspace, Input::Enter, Input::Tab, Input::Delete] {
        assert!(!area.input(input));
        assert_eq!(area.text(), "ab");
    }
    assert!(area.input(Input::Other));
    area.force_input(Input::Char('c'));
    area.force_input(Input::Enter);
    area.force_input(Input::Char('d'));
    area.force_input(Input::Backspace);
    area.force_input(Input::Tab);
    assert_eq!(area.text(), "abc\n    ");
    assert!(area.is_locked());
    area.unlock();
    area.force_input(Input::Char('e'));
    assert!(!area.is_locked());
}

#[test]
fn fresh_and_cleared_buffers_are_empty() {
    let area = SessionTextArea::new(SessionAreaId::User, &[], 70);
    assert!(area.is_empty());
    assert!(area.message().is_none());
    let mut area = SessionTextArea::new(SessionAreaId::User, &["hello"], 70);
    assert!(!area.is_empty());
    area.clear();
    assert!(area.is_empty());
    let mut area = SessionTextArea::new(SessionAreaId::User, &[], 70);
    area.lines = vec!["\n".to_string()];
    assert!(area.is_empty());
    area.lines = vec![];
    assert!(area.is_empty());
}

#[test]
fn seeded_buffer_ends_with_newline() {
    let area = SessionTextArea::new(SessionAreaId::User, &["one", "two"], 70);
    assert_eq!(area.lines, vec!["one", "two", ""]);
    let m = area.message().unwrap();
    assert_eq!(m.role, Role::User);
    assert_eq!(m.content, "one\ntwo\n");
    assert!(!area.active);
    assert_eq!(area.title, "user");
}

#[test]
fn long_lines_wrap_before_the_limit() {
    let mut area = SessionTextArea::new(SessionAreaId::User, &[], 5);
    for c in "abcdefghij".chars() {
        assert!(area.input(Input::Char(c)));
    }
    assert_eq!(area.lines, vec!["abcd", "efgh", "ij"]);
    let mut area = SessionTextArea::new(SessionAreaId::User, &[], 5);
    area.set_message(Message { role: Role::User, content: "abcdef".to_string() });
    assert_eq!(area.text(), "abcd\nef");
}

#[test]
fn backspace_joins_lines_and_tab_reaches_next_stop() {
    let mut area = SessionTextArea::new(SessionAreaId::User, &[], 70);
    area.input(Input::Char('a'));
    area.input(Input::Enter);
    assert_eq!(area.lines, vec!["a", ""]);
    area.input(Input::Backspace);
    assert_eq!(area.lines, vec!["a"]);
    area.input(Input::Tab);
    assert_eq!(area.text(), "a   ");
    area.input(Input::Backspace);
    area.input(Input::Backspace);
    area.input(Input::Backspace);
    area.input(Input::Backspace);
    area.input(Input::Backspace);
    assert_eq!(area.text(), "");
    area.input(Input::Delete);
    assert_eq!(area.text(), "");
}

#[test]
fn activation_toggles_focus_only() {
    let mut area = SessionTextArea::new(SessionAreaId::System, &["x"], 70);
    area.activate();
    assert!(area.active);
    area.inactivate();
    assert!(!area.active);
    assert_eq!(area.text(), "x\n");
    area.set_title("t".to_string());
    assert_eq!(area.title, "t");
    assert_eq!(SessionAreaId::from_role(Role::System), SessionAreaId::System);
    assert_eq!(SessionAreaId::Assistant.role(), Role::Assistant);
    assert_eq!(SessionAreaId::Assistant.name(), "assistant");
}

#[test]
fn names_pick_roles() {
    assert_eq!(Role::from_name("assistant"), Role::Assistant);
    assert_eq!(Role::from_name("system"), Role::System);
    assert_eq!(Role::from_name("user"), Role::User);
    assert_eq!(Role::from_name("bogus"), Role::User);
    let m = Message::from("hi".to_string());
    assert_eq!(m.role, Role::User);
    assert_eq!(m.content, "hi");
}

#[test]
fn areas_by_name() {
    assert_eq!(SessionAreaId::from_name("assistant"), SessionAreaId::Assistant);
    assert_eq!(SessionAreaId::from_name("system"), SessionAreaId::System);
    assert_eq!(SessionAreaId::from_name("other"), SessionAreaId::User);
}
