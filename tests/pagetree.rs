use rgpt::message::{Message, Role};
use rgpt::pagetree::{NodeId, Root};
use rgpt::textarea::SessionAreaId;

fn msg(role: Role, content: &str) -> Message {
    Message { role, content: content.to_string() }
}

#[test]
fn test_new_page_tree() {
    let tree = Root::new(70);
    // The root is a sentinel with no arena entry.
    assert_eq!(tree.nodes.len(), 0);
    assert_eq!(tree.active, NodeId::Root);
}

#[test]
fn test_insert_child() {
    let mut tree = Root::new(70);
    let child_id = tree.insert_child(NodeId::Root);
    assert_eq!(child_id, NodeId::Node(0));
    assert_eq!(tree.nodes.len(), 1);
    assert_eq!(tree.nodes[0].parent, NodeId::Root);
}

#[test]
fn test_activate() {
    let mut tree = Root::new(70);
    let child_id = tree.insert_child(NodeId::Root);
    tree.activate(child_id, SessionAreaId::User);
    assert_eq!(tree.active, child_id);
    assert_eq!(tree.get(child_id).unwrap().active, Some(SessionAreaId::User));
}

#[test]
fn test_insert_text_areas() {
    let mut tree = Root::new(70);
    let messages = vec![msg(Role::User, ""), msg(Role::Assistant, ""), msg(Role::User, "")];
    let result = tree.insert_messages(None, messages);
    assert!(result.is_ok());
    // One node per user message: (user, assistant) and (user).
    assert_eq!(tree.nodes.len(), 2);
}

#[test]
fn test_collect_messages() {
    let messages = [
        msg(Role::User, "User message\n"),
        msg(Role::Assistant, "Assistant message\n"),
        msg(Role::User, "Another User message\n"),
        msg(Role::Assistant, "Another Assistant message\n"),
        msg(Role::User, "A last User message\n"),
    ];
    let mut tree = Root::new(100);
    tree.insert_messages(None, messages.to_vec()).unwrap();
    let collected = tree.collect_messages(NodeId::Node(1), None);
    assert_eq!(collected.len(), 3);
    for (left, right) in messages.iter().zip(collected.iter()) {
        assert_eq!(left.role, right.role);
        assert_eq!(left.content, right.content);
    }
}

#[test]
fn heights_follow_parents_and_children_are_listed_once() {
    let mut tree = Root::new(70);
    let a = tree.insert_child(NodeId::Root);
    let b = tree.insert_child(a);
    let c = tree.insert_child(b);
    let d = tree.insert_child(a);
    let e = tree.insert_child(NodeId::Root);
    assert_eq!(tree.height(a), 1);
    assert_eq!(tree.height(b), 2);
    assert_eq!(tree.height(c), 3);
    assert_eq!(tree.height(d), 2);
    assert_eq!(tree.height(e), 1);
    for (i, node) in tree.nodes.iter().enumerate() {
        let id = NodeId::Node(i as u16);
        assert_eq!(node.height, tree.height(node.parent) + 1);
        let mut lists: Vec<&Vec<NodeId>> = vec![&tree.children];
        for n in tree.nodes.iter() {
            lists.push(&n.children);
        }
        let count: usize = lists.iter().map(|l| l.iter().filter(|&&x| x == id).count()).sum();
        assert_eq!(count, 1);
    }
    assert_eq!(tree.children, vec![a, e]);
    assert_eq!(tree.get(a).unwrap().children, vec![b, d]);
}

#[test]
fn insert_messages_round_trip_ends_with_user() {
    let messages = vec![
        msg(Role::System, "Be brief."),
        msg(Role::User, "one"),
        msg(Role::Assistant, "two"),
        msg(Role::User, "three"),
        msg(Role::Assistant, "four"),
        msg(Role::User, "five"),
    ];
    let mut tree = Root::new(70);
    let last = tree.insert_messages(None, messages.clone()).unwrap();
    assert_eq!(last, NodeId::Node(2));
    assert_eq!(tree.system_area.text(), "Be brief.");
    let collected = tree.collect_messages(last, None);
    assert_eq!(collected.len(), 5);
    for (left, right) in messages[1..].iter().zip(collected.iter()) {
        assert_eq!(left.role, right.role);
        assert_eq!(left.content, right.content);
    }
}

#[test]
fn insert_messages_round_trip_drops_trailing_reply() {
    let messages = vec![
        msg(Role::User, "one"),
        msg(Role::Assistant, "two"),
        msg(Role::User, "three"),
        msg(Role::Assistant, "four"),
    ];
    let mut tree = Root::new(70);
    let last = tree.insert_messages(None, messages.clone()).unwrap();
    let collected = tree.collect_messages(last, None);
    assert_eq!(collected.len(), 3);
    for (left, right) in messages.iter().zip(collected.iter()) {
        assert_eq!(left.role, right.role);
        assert_eq!(left.content, right.content);
    }
}

#[test]
fn insert_messages_refuses_broken_alternation() {
    let mut tree = Root::new(70);
    let result = tree.insert_messages(None, vec![msg(Role::User, "a"), msg(Role::User, "b")]);
    assert!(matches!(result, Err(rgpt::error::Error::Generic(_))));
    assert_eq!(tree.nodes.len(), 0);
    let result = tree.insert_messages(None, vec![msg(Role::Assistant, "a")]);
    assert!(result.is_err());
    let result = tree.insert_messages(None, vec![msg(Role::System, "s")]);
    assert_eq!(result.unwrap(), NodeId::Root);
    assert_eq!(tree.nodes.len(), 0);
}

#[test]
fn siblings_wrap_around() {
    let mut tree = Root::new(70);
    let p = tree.insert_child(NodeId::Root);
    let a = tree.insert_child(p);
    let b = tree.insert_child(p);
    let c = tree.insert_child(p);
    assert_eq!(tree.next_sibling(c).unwrap().id, a);
    assert_eq!(tree.previous_sibling(a).unwrap().id, c);
    assert_eq!(tree.next_sibling(a).unwrap().id, b);
    assert_eq!(tree.previous_sibling(c).unwrap().id, b);
    assert_eq!(tree.next_sibling(p).unwrap().id, p);
    assert_eq!(tree.siblings(b), &[a, b, c]);
}

#[test]
fn empty_reply_hands_focus_to_parent() {
    let mut tree = Root::new(70);
    let parent = tree
        .insert_messages(None, vec![msg(Role::User, "hi"), msg(Role::Assistant, "hello")])
        .unwrap();
    let child = tree.insert_child(parent);
    tree.activate(child, SessionAreaId::Assistant);
    assert_eq!(tree.active, parent);
    assert!(tree.get(parent).unwrap().assistant_area.active);
    assert!(!tree.get(child).unwrap().assistant_area.active);
    tree.activate(parent, SessionAreaId::Assistant);
    assert_eq!(tree.active, parent);
    tree.activate(child, SessionAreaId::System);
    assert_eq!(tree.active, NodeId::Root);
    assert!(tree.system_area.active);
    assert!(!tree.get(parent).unwrap().assistant_area.active);
}

#[test]
fn three_pairs_collect_six_messages() {
    let mut tree = Root::new(70);
    let n0 = tree.insert_messages(None, vec![msg(Role::User, "u0"), msg(Role::Assistant, "a0")]).unwrap();
    let n1 = tree
        .insert_messages(Some(n0), vec![msg(Role::User, "u1"), msg(Role::Assistant, "a1\nsecond line")])
        .unwrap();
    let n2 = tree.insert_messages(Some(n1), vec![msg(Role::User, "u2"), msg(Role::Assistant, "a2")]).unwrap();
    let mut all = tree.system_area.message().into_iter().collect::<Vec<_>>();
    assert!(all.is_empty());
    all.extend(tree.get_node_messages(n2));
    assert_eq!(all.len(), 2);
    // collect_messages drops the grandchild's trailing reply.
    let collected = tree.collect_messages(n2, None);
    let expected = [
        (Role::User, "u0"),
        (Role::Assistant, "a0"),
        (Role::User, "u1"),
        (Role::Assistant, "a1\nsecond line"),
        (Role::User, "u2"),
    ];
    assert_eq!(collected.len(), 5);
    for (m, (role, content)) in collected.iter().zip(expected.iter()) {
        assert_eq!(m.role, *role);
        assert_eq!(m.content, *content);
    }
    // With the grandchild's reply empty the result is the same five.
    let n3 = tree.insert_messages(Some(n1), vec![msg(Role::User, "u2")]).unwrap();
    assert_eq!(tree.collect_messages(n3, None).len(), 5);
    // Down to height one leaves out the first pair.
    assert_eq!(tree.collect_messages(n2, Some(1)).len(), 3);
}

#[test]
fn parent_at_height_walks_up() {
    let mut tree = Root::new(70);
    let a = tree.insert_child(NodeId::Root);
    let b = tree.insert_child(a);
    let c = tree.insert_child(b);
    assert_eq!(tree.parent_at_height(c, 1).unwrap().id, a);
    assert_eq!(tree.parent_at_height(c, 2).unwrap().id, b);
    assert_eq!(tree.parent_at_height(c, 5).unwrap().id, c);
    assert!(tree.parent_at_height(c, 0).is_none());
    assert!(tree.parent_at_height(NodeId::Root, 1).is_none());
    assert_eq!(tree.parent(c).unwrap().id, b);
    assert!(tree.parent(a).is_none());
    let kids: Vec<NodeId> = tree.children(a).iter().map(|n| n.id).collect();
    assert_eq!(kids, vec![b]);
    assert!(tree.children(NodeId::Root).is_empty());
}

#[test]
fn titles_are_breadcrumbs() {
    let mut tree = Root::new(70);
    let a = tree.insert_child(NodeId::Root);
    let b = tree.insert_child(a);
    let _ = tree.insert_child(NodeId::Root);
    let c = tree.insert_child(b);
    assert_eq!(tree.get(a).unwrap().user_area.title, "0 > user");
    assert_eq!(tree.get(c).unwrap().user_area.title, "0 > 1 > 3 > user");
    assert_eq!(tree.get(c).unwrap().assistant_area.title, "0 > 1 > 3 > assistant");
}

#[test]
fn fork_copies_user_text() {
    let mut tree = Root::new(70);
    let a = tree.insert_messages(None, vec![msg(Role::User, "question")]).unwrap();
    let f = tree.fork_node(a);
    assert_eq!(tree.get(f).unwrap().parent, NodeId::Root);
    assert_eq!(tree.get(f).unwrap().user_area.text(), "question");
    assert!(tree.get(f).unwrap().assistant_area.is_empty());
    assert_eq!(tree.children, vec![a, f]);
}

#[test]
fn reply_under_empty_user_buffer_is_collected() {
    let mut tree = Root::new(70);
    let n0 = tree.insert_child(NodeId::Root);
    tree.stream_text(n0, "reply");
    assert_eq!(tree.get_node_messages(n0).len(), 1);
    let n1 = tree.insert_messages(Some(n0), vec![msg(Role::User, "u")]).unwrap();
    let collected = tree.collect_messages(n1, None);
    let got: Vec<(Role, String)> = collected.into_iter().map(|m| (m.role, m.content)).collect();
    assert_eq!(got, vec![(Role::Assistant, "reply".to_string()), (Role::User, "u".to_string())]);
}
