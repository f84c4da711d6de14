use vstd::prelude::*;

use crate::completion::{ContentBlock, ContentDelta, TextEvent};
use crate::error::Error;
use crate::message::{Message, Role};
use crate::pagetree::{
    drop_trailing_assistant, expected_role, lemma_chain_ok_refocus, pair_count, next_in, previous_in, turns, turns_ok, typed_lines, views, NodeId, Root,
    MAX_NODES,
};
use crate::textarea::{apply_input, type_str, Input, SessionAreaId, SessionTextArea};

verus! {

/// `ms` followed by an empty user message and an empty reply: the fresh turn a session opens on.
pub open spec fn opening(ms: Seq<(Role, Seq<char>)>) -> Seq<(Role, Seq<char>)> {
    ms.push((Role::User, Seq::<char>::empty())).push((Role::Assistant, Seq::<char>::empty()))
}

/// The focus cycle of the Tab key: user, assistant, system, user.
pub open spec fn next_area(a: SessionAreaId) -> SessionAreaId {
    match a {
        SessionAreaId::User => SessionAreaId::Assistant,
        SessionAreaId::Assistant => SessionAreaId::System,
        SessionAreaId::System => SessionAreaId::User,
    }
}

/// The state of an interactive session: the conversation tree, the node being
/// edited, which buffer has focus, and the node that a reply is streaming into.
#[derive(Debug)]
pub struct SessionLayout {
    pub page_tree: Root,
    pub current_node: NodeId,
    pub active: SessionAreaId,
    pub assistant_stream_node: Option<NodeId>,
    pub max_line_length: usize,
}

impl SessionLayout {
    pub open spec fn wf(&self) -> bool {
        &&& self.page_tree.wf()
        &&& self.page_tree.valid(self.current_node)
        &&& (self.assistant_stream_node matches Some(n) ==> self.page_tree.valid(n))
        &&& self.page_tree.max_line_length == self.max_line_length
    }

    /// The buffer that edits go to: the system buffer, or the focused buffer of the current node.
    pub open spec fn edit_area(&self) -> SessionTextArea {
        if self.active == SessionAreaId::System {
            self.page_tree.system_area
        } else {
            self.page_tree.area_of_node(self.current_node, self.active)
        }
    }

    /// The messages a submission sends: the system message, if any, then the
    /// conversation down to the current node without a trailing reply.
    pub open spec fn prompt(&self) -> Seq<(Role, Seq<char>)> {
        let sys = self.page_tree.system_area;
        (if sys.spec_is_empty() {
            seq![]
        } else {
            seq![(Role::System, sys.content())]
        }) + drop_trailing_assistant(self.page_tree.collected(self.current_node, 0))
    }

    /// The node whose reply streamed text goes to.
    pub open spec fn stream_target(&self) -> NodeId {
        match self.assistant_stream_node {
            Some(n) => n,
            None => self.current_node,
        }
    }

    /// Only the focus and the current node may differ from `before`.
    pub open spec fn same_tree(&self, before: &SessionLayout) -> bool {
        &&& self.page_tree.nodes.len() == before.page_tree.nodes.len()
        &&& self.assistant_stream_node == before.assistant_stream_node
        &&& self.max_line_length == before.max_line_length
    }
}

impl SessionLayout {
    /// A session seeded with `messages`, followed by a fresh turn to type
    /// into, with the user's buffer of that turn focused. Messages that do
    /// not alternate are set aside and the session starts with the fresh turn alone.
    pub fn new(messages: Vec<Message>, max_line_length: usize) -> (r: SessionLayout)
        requires
            pair_count(turns(opening(views(messages@))).len()) < MAX_NODES,
        ensures
            r.wf(),
            r.active == SessionAreaId::User,
            r.assistant_stream_node is None,
            r.max_line_length == max_line_length,
            r.page_tree.active == r.current_node,
            r.page_tree.node(r.current_node).active == Some(SessionAreaId::User),
            r.page_tree.node(r.current_node).user_area.text_lines() == seq![Seq::<char>::empty()],
            r.page_tree.node(r.current_node).assistant_area.text_lines() == seq![Seq::<char>::empty()],
            ({
                let ms = opening(views(messages@));
                &&& turns_ok(ms) ==> r.page_tree.nodes.len() == pair_count(turns(ms).len())
                    && r.page_tree.chain_ok(0, NodeId::Root, turns(ms), r.current_node)
                &&& turns_ok(ms) && ms[0].0 == Role::System ==> r.page_tree.system_area.text_lines()
                    == typed_lines(ms[0].1, max_line_length as nat)
                &&& turns_ok(ms) && ms[0].0 != Role::System ==> r.page_tree.system_area.spec_is_empty()
                &&& !turns_ok(ms) ==> r.page_tree.nodes.len() == 1 && r.page_tree.chain_ok(
                    0,
                    NodeId::Root,
                    opening(seq![]),
                    r.current_node,
                ) && r.page_tree.system_area.spec_is_empty()
            }),
    {
        let mut msgs = messages;
        msgs.push(Message { role: Role::User, content: String::new() });
        msgs.push(Message { role: Role::Assistant, content: String::new() });
        let mut page_tree = Root::new(max_line_length);
        let ghost ms = views(msgs@);
        assert(ms =~= opening(views(messages@)));
        let ghost blank: Seq<Seq<char>> = seq![Seq::<char>::empty()];
        assert(typed_lines(Seq::<char>::empty(), max_line_length as nat) == blank);
        let current = match page_tree.insert_messages(None, msgs) {
            Ok(id) => {
                proof {
                    let t = turns(ms);
                    let l = t.len() as int;
                    assert(t[l - 1] == ms[ms.len() - 1]);
                    assert(t[l - 2] == ms[ms.len() - 2]);
                    assert(t[l - 1].0 == expected_role(l - 1));
                    assert(l % 2 == 0);
                    let m = pair_count(t.len()) as int;
                    assert(2 * (m - 1) == l - 2);
                    assert(page_tree.pair_node_ok(0, NodeId::Root, t, m - 1));
                    assert(page_tree.chain_ok(0, NodeId::Root, t, id));
                }
                id
            },
            Err(_) => {
                let fresh = vec![
                    Message { role: Role::User, content: String::new() },
                    Message { role: Role::Assistant, content: String::new() },
                ];
                proof {
                    let fs = views(fresh@);
                    assert(turns(fs) == fs);
                    assert(turns_ok(fs));
                    assert(fs =~= opening(seq![]));
                }
                match page_tree.insert_messages(None, fresh) {
                    Ok(id) => {
                        proof {
                            let t = turns(views(fresh@));
                            assert(page_tree.pair_node_ok(0, NodeId::Root, t, 0));
                            assert(page_tree.chain_ok(0, NodeId::Root, opening(seq![]), id));
                        }
                        id
                    },
                    Err(_) => NodeId::Root,
                }
            },
        };
        proof {
            assert(page_tree.valid(current));
        }
        let mut layout = SessionLayout {
            page_tree,
            current_node: current,
            active: SessionAreaId::User,
            assistant_stream_node: None,
            max_line_length,
        };
        let ghost tree0 = layout.page_tree;
        layout.activate(SessionAreaId::User);
        proof {
            let o = opening(views(messages@));
            if turns_ok(o) {
                lemma_chain_ok_refocus(tree0, layout.page_tree, current, SessionAreaId::User, 0, NodeId::Root, turns(o), current);
            } else {
                lemma_chain_ok_refocus(tree0, layout.page_tree, current, SessionAreaId::User, 0, NodeId::Root, opening(seq![]), current);
            }
            let i = Root::index(current);
            assert(layout.page_tree.focus_target(current, SessionAreaId::User) == Some(current));
            assert(layout.page_tree.nodes@[i] == page_tree.nodes@[i].with_focus(Some(SessionAreaId::User)));
        }
        layout
    }
}


impl SessionLayout {
    /// Focuses buffer `id` of the current node (or the system buffer).
    pub fn activate(&mut self, id: SessionAreaId)
        requires
            old(self).page_tree.wf(),
            old(self).page_tree.valid(old(self).current_node),
        ensures
            final(self).page_tree.wf(),
            final(self).page_tree.activated(old(self).page_tree, old(self).current_node, id),
            final(self).active == id,
            final(self).current_node == old(self).current_node,
            final(self).assistant_stream_node == old(self).assistant_stream_node,
            final(self).max_line_length == old(self).max_line_length,
    {
        self.page_tree.activate(self.current_node, id);
        self.active = id;
    }

    /// Moves the focus on: user, assistant, system, user.
    pub fn switch_pane(&mut self)
        requires
            old(self).wf(),
        ensures
            final(self).wf(),
            final(self).active == next_area(old(self).active),
            final(self).page_tree.activated(old(self).page_tree, old(self).current_node, next_area(old(self).active)),
            final(self).current_node == old(self).current_node,
            final(self).same_tree(old(self)),
    {
        let next = match self.active {
            SessionAreaId::User => SessionAreaId::Assistant,
            SessionAreaId::Assistant => SessionAreaId::System,
            SessionAreaId::System => SessionAreaId::User,
        };
        self.activate(next);
    }

    /// Makes `node` the current node, keeping the focused kind of buffer.
    pub fn switch_node(&mut self, node: NodeId) -> (r: Option<NodeId>)
        requires
            old(self).wf(),
            old(self).page_tree.valid(node),
        ensures
            final(self).wf(),
            r == Some(node),
            final(self).current_node == node,
            final(self).active == old(self).active,
            final(self).page_tree.activated(old(self).page_tree, node, old(self).active),
            final(self).same_tree(old(self)),
    {
        self.current_node = node;
        self.activate(self.active);
        Some(node)
    }

    /// Moves to the first child of the current node, if it has one.
    pub fn up_one(&mut self) -> (r: Option<NodeId>)
        requires
            old(self).wf(),
        ensures
            final(self).wf(),
            final(self).same_tree(old(self)),
            ({
                let c = old(self).page_tree.children_of(old(self).current_node);
                &&& c.len() > 0 ==> r == Some(c[0]) && final(self).current_node == c[0]
                &&& c.len() == 0 ==> r is None && *final(self) == *old(self)
            }),
    {
        let i = match self.current_node {
            NodeId::Node(i) => i as usize,
            NodeId::Root => 0,
        };
        assert(self.page_tree.node_wf(i as int));
        if self.page_tree.nodes[i].children.len() == 0 {
            return None;
        }
        let first = self.page_tree.nodes[i].children[0];
        self.switch_node(first)
    }

    /// Moves to the parent of the current node, unless it is top-level.
    pub fn down_one(&mut self) -> (r: Option<NodeId>)
        requires
            old(self).wf(),
        ensures
            final(self).wf(),
            final(self).same_tree(old(self)),
            ({
                let p = old(self).page_tree.node(old(self).current_node).parent;
                &&& p is Node ==> r == Some(p) && final(self).current_node == p
                &&& p is Root ==> r is None && *final(self) == *old(self)
            }),
    {
        let i = match self.current_node {
            NodeId::Node(i) => i as usize,
            NodeId::Root => 0,
        };
        assert(self.page_tree.node_wf(i as int));
        let p = self.page_tree.nodes[i].parent;
        match p {
            NodeId::Root => None,
            NodeId::Node(_) => self.switch_node(p),
        }
    }

    /// Moves to the next sibling of the current node, wrapping around.
    pub fn next_branch(&mut self) -> (r: Option<NodeId>)
        requires
            old(self).wf(),
        ensures
            final(self).wf(),
            final(self).same_tree(old(self)),
            r == next_in(old(self).page_tree.siblings_of(old(self).current_node), old(self).current_node),
            r matches Some(n) ==> final(self).current_node == n,
    {
        let ghost s = self.page_tree.siblings_of(self.current_node);
        proof {
            self.page_tree.lemma_siblings_valid(self.current_node);
        }
        let id = match self.page_tree.next_sibling(self.current_node) {
            Some(n) => n.id,
            None => return None,
        };
        proof {
            let x = next_in(s, self.current_node)->0;
            let k = crate::pagetree::position(s, self.current_node);
            crate::pagetree::lemma_position(s, self.current_node);
            assert(s.contains(x));
            assert(self.page_tree.node_wf(Root::index(x)));
        }
        self.switch_node(id)
    }

    /// Moves to the previous sibling of the current node, wrapping around.
    pub fn previous_branch(&mut self) -> (r: Option<NodeId>)
        requires
            old(self).wf(),
        ensures
            final(self).wf(),
            final(self).same_tree(old(self)),
            r == previous_in(old(self).page_tree.siblings_of(old(self).current_node), old(self).current_node),
            r matches Some(n) ==> final(self).current_node == n,
    {
        let ghost s = self.page_tree.siblings_of(self.current_node);
        proof {
            self.page_tree.lemma_siblings_valid(self.current_node);
        }
        let id = match self.page_tree.previous_sibling(self.current_node) {
            Some(n) => n.id,
            None => return None,
        };
        proof {
            let x = previous_in(s, self.current_node)->0;
            crate::pagetree::lemma_position(s, self.current_node);
            assert(s.contains(x));
            assert(self.page_tree.node_wf(Root::index(x)));
        }
        self.switch_node(id)
    }
}


impl SessionLayout {
    /// Applies `input` to the focused buffer. When that buffer is locked and
    /// the input is an edit, the current node is forked first (a sibling that
    /// starts with its user text) and the input goes to the fork.
    pub fn input(&mut self, input: Input)
        requires
            old(self).wf(),
        ensures
            final(self).wf(),
            final(self).active == old(self).active,
            final(self).assistant_stream_node == old(self).assistant_stream_node,
            !(old(self).edit_area().locked && input.edits()) ==> {
                &&& final(self).current_node == old(self).current_node
                &&& final(self).page_tree.nodes.len() == old(self).page_tree.nodes.len()
                &&& final(self).edit_area().text_lines() == apply_input(
                    old(self).edit_area().text_lines(),
                    input,
                    old(self).edit_area().max(),
                )
            },
            old(self).edit_area().locked && input.edits() && old(self).page_tree.nodes.len() < MAX_NODES ==> {
                &&& final(self).current_node == NodeId::Node(old(self).page_tree.nodes.len() as u16)
                &&& final(self).page_tree.node(final(self).current_node).parent == old(self).page_tree.node(
                    old(self).current_node,
                ).parent
                &&& old(self).active != SessionAreaId::System ==> final(self).edit_area().text_lines() == apply_input(
                    if old(self).active == SessionAreaId::User {
                        typed_lines(
                            old(self).page_tree.node(old(self).current_node).user_area.content(),
                            old(self).max_line_length as nat,
                        )
                    } else {
                        seq![Seq::<char>::empty()]
                    },
                    input,
                    old(self).max_line_length as nat,
                )
            },
    {
        let ok = self.page_tree.input_at(self.current_node, self.active, input);
        if !ok && self.page_tree.nodes.len() < MAX_NODES {
            self.fork_current_node();
            self.page_tree.input_at(self.current_node, self.active, input);
        }
    }

    /// Replaces the current node by a fork of it: a sibling that starts with its user text.
    pub fn fork_current_node(&mut self)
        requires
            old(self).wf(),
            old(self).page_tree.nodes.len() < MAX_NODES,
        ensures
            final(self).wf(),
            final(self).current_node == NodeId::Node(old(self).page_tree.nodes.len() as u16),
            final(self).page_tree.nodes.len() == old(self).page_tree.nodes.len() + 1,
            final(self).page_tree.node(final(self).current_node).parent == old(self).page_tree.node(
                old(self).current_node,
            ).parent,
            final(self).page_tree.node(final(self).current_node).user_area.content() == typed_content(
                old(self).page_tree.node(old(self).current_node).user_area.content(),
                old(self).max_line_length as nat,
            ),
            final(self).page_tree.node(final(self).current_node).user_area.text_lines() == typed_lines(
                old(self).page_tree.node(old(self).current_node).user_area.content(),
                old(self).max_line_length as nat,
            ),
            final(self).page_tree.node(final(self).current_node).assistant_area.text_lines() == seq![
                Seq::<char>::empty(),
            ],
            !final(self).page_tree.node(final(self).current_node).user_area.locked,
            !final(self).page_tree.node(final(self).current_node).assistant_area.locked,
            final(self).page_tree.node(final(self).current_node).user_area.max_line_length == old(self).max_line_length,
            final(self).page_tree.node(final(self).current_node).assistant_area.max_line_length
                == old(self).max_line_length,
            final(self).active == old(self).active,
            final(self).assistant_stream_node == old(self).assistant_stream_node,
    {
        let fork_id = self.page_tree.fork_node(self.current_node);
        let ghost forked = self.page_tree.node(fork_id);
        self.switch_node(fork_id);
        proof {
            let i = Root::index(fork_id);
            assert(self.page_tree.nodes@[i].user_area.text_lines() == forked.user_area.text_lines());
            assert(self.page_tree.nodes@[i].assistant_area.text_lines() == forked.assistant_area.text_lines());
            assert(self.page_tree.nodes@[i].user_area.locked == forked.user_area.locked);
            assert(self.page_tree.nodes@[i].assistant_area.locked == forked.assistant_area.locked);
        }
    }

    /// The messages to submit: the system message, if any, then the
    /// conversation down to the current node without a trailing reply.
    pub fn messages(&self) -> (r: Vec<Message>)
        requires
            self.wf(),
        ensures
            views(r@) == self.prompt(),
    {
        let mut r: Vec<Message> = Vec::new();
        match self.page_tree.system_area.message() {
            Some(m) => r.push(m),
            None => {},
        }
        let ghost head = views(r@);
        let mut rest = self.page_tree.collect_messages(self.current_node, None);
        let ghost tail = views(rest@);
        r.append(&mut rest);
        assert(views(r@) =~= head + tail);
        r
    }

    /// Starts a new branch beside `node_id`: a new child of its parent, made current.
    pub fn new_branch(&mut self, node_id: NodeId)
        requires
            old(self).wf(),
            old(self).page_tree.valid(node_id),
        ensures
            final(self).wf(),
            old(self).page_tree.nodes.len() < MAX_NODES ==> {
                &&& final(self).current_node == NodeId::Node(old(self).page_tree.nodes.len() as u16)
                &&& final(self).page_tree.node(final(self).current_node).parent == old(self).page_tree.node(
                    node_id,
                ).parent
            },
            old(self).page_tree.nodes.len() >= MAX_NODES ==> *final(self) == *old(self),
            final(self).active == old(self).active,
            final(self).assistant_stream_node == old(self).assistant_stream_node,
    {
        if self.page_tree.nodes.len() >= MAX_NODES {
            return;
        }
        let parent = match self.page_tree.parent(node_id) {
            Some(n) => n.id,
            None => NodeId::Root,
        };
        proof {
            let i = Root::index(node_id);
            assert(self.page_tree.node_wf(i));
            if let NodeId::Node(p) = self.page_tree.nodes@[i].parent {
                assert(self.page_tree.node_wf(p as int));
            }
        }
        let id = self.page_tree.insert_child(parent);
        self.switch_node(id);
    }

    pub fn new_branch_at_current(&mut self)
        requires
            old(self).wf(),
        ensures
            final(self).wf(),
            old(self).page_tree.nodes.len() < MAX_NODES ==> {
                &&& final(self).current_node == NodeId::Node(old(self).page_tree.nodes.len() as u16)
                &&& final(self).page_tree.node(final(self).current_node).parent == old(self).page_tree.node(
                    old(self).current_node,
                ).parent
            },
            final(self).active == old(self).active,
    {
        self.new_branch(self.current_node);
    }

    /// Adds a child below `node` and makes it current.
    pub fn new_child(&mut self, node: NodeId)
        requires
            old(self).wf(),
            old(self).page_tree.valid(node),
        ensures
            final(self).wf(),
            old(self).page_tree.nodes.len() < MAX_NODES ==> {
                &&& final(self).current_node == NodeId::Node(old(self).page_tree.nodes.len() as u16)
                &&& final(self).page_tree.node(final(self).current_node).parent == node
                &&& final(self).page_tree.children_of(node) == old(self).page_tree.children_of(node).push(
                    final(self).current_node,
                )
            },
            old(self).page_tree.nodes.len() >= MAX_NODES ==> *final(self) == *old(self),
            final(self).active == old(self).active,
            final(self).assistant_stream_node == old(self).assistant_stream_node,
            forall|i: int|
                0 <= i < old(self).page_tree.nodes.len() ==> (#[trigger] final(self).page_tree.nodes@[i]).assistant_area.locked
                    == old(self).page_tree.nodes@[i].assistant_area.locked,
    {
        if self.page_tree.nodes.len() >= MAX_NODES {
            return;
        }
        let ghost before = self.page_tree;
        let id = self.page_tree.insert_child(node);
        let ghost mid = self.page_tree;
        self.switch_node(id);
        if let NodeId::Node(p) = node {
            assert(self.page_tree.nodes@[p as int] == mid.nodes@[p as int].with_focus(self.page_tree.nodes@[p as int].active));
        }
        assert(self.page_tree.children_of(node) == mid.children_of(node));
        assert forall|i: int| 0 <= i < before.nodes.len() implies (#[trigger] self.page_tree.nodes@[i]).assistant_area.locked
            == before.nodes@[i].assistant_area.locked by {
            assert(self.page_tree.nodes@[i].assistant_area.locked == mid.nodes@[i].assistant_area.locked);
        }
    }

    pub fn new_child_at_current(&mut self)
        requires
            old(self).wf(),
        ensures
            final(self).wf(),
            old(self).page_tree.nodes.len() < MAX_NODES ==> {
                &&& final(self).current_node == NodeId::Node(old(self).page_tree.nodes.len() as u16)
                &&& final(self).page_tree.node(final(self).current_node).parent == old(self).current_node
                &&& final(self).page_tree.children_of(old(self).current_node) == old(self).page_tree.children_of(
                    old(self).current_node,
                ).push(final(self).current_node)
            },
            final(self).active == old(self).active,
            final(self).assistant_stream_node == old(self).assistant_stream_node,
            forall|i: int|
                0 <= i < old(self).page_tree.nodes.len() ==> (#[trigger] final(self).page_tree.nodes@[i]).assistant_area.locked
                    == old(self).page_tree.nodes@[i].assistant_area.locked,
    {
        self.new_child(self.current_node);
    }

    /// Adds `messages` as a branch below `node` (the root when none) and moves
    /// to its last node; refused, with the tree as it was, when the messages
    /// do not alternate.
    pub fn update(&mut self, messages: Vec<Message>, node: Option<NodeId>) -> (r: Result<(), Error>)
        requires
            old(self).wf(),
            node matches Some(n) ==> old(self).page_tree.known(n),
            old(self).page_tree.nodes.len() + pair_count(turns(views(messages@)).len()) < MAX_NODES,
        ensures
            final(self).wf(),
            r is Ok <==> turns_ok(views(messages@)),
            r is Err ==> *final(self) == *old(self),
            r is Ok ==> {
                let ms = views(messages@);
                let t = turns(ms);
                let m = pair_count(t.len()) as int;
                let base = old(self).page_tree.nodes.len() as int;
                let start = match node {
                    Some(n) => n,
                    None => NodeId::Root,
                };
                &&& final(self).page_tree.nodes.len() == base + m
                &&& m > 0 ==> final(self).current_node == NodeId::Node((base + m - 1) as u16)
                &&& m == 0 && start is Node ==> final(self).current_node == start
                &&& m == 0 && start is Root ==> final(self).current_node == old(self).current_node
                &&& final(self).page_tree.chain_ok(base, start, t, if m > 0 {
                    final(self).current_node
                } else {
                    start
                })
                &&& (ms.len() > 0 && ms[0].0 == Role::System ==> final(self).page_tree.system_area.text_lines()
                    == typed_lines(ms[0].1, old(self).max_line_length as nat))
                &&& (!(ms.len() > 0 && ms[0].0 == Role::System) ==> final(self).page_tree.system_area.spec_is_empty()
                    == old(self).page_tree.system_area.spec_is_empty())
            },
    {
        let ghost base = self.page_tree.nodes.len() as int;
        match self.page_tree.insert_messages(node, messages) {
            Ok(id) => {
                let ghost tree0 = self.page_tree;
                let ghost start = match node {
                    Some(n) => n,
                    None => NodeId::Root,
                };
                let ghost t = turns(views(messages@));
                assert(tree0.chain_ok(base, start, t, id));
                match id {
                    NodeId::Node(i) => {
                        if (i as usize) < self.page_tree.nodes.len() {
                            self.switch_node(id);
                            proof {
                                lemma_chain_ok_refocus(tree0, self.page_tree, id, self.active, base, start, t, id);
                            }
                        }
                    },
                    NodeId::Root => {},
                }
                Ok(())
            },
            Err(e) => Err(e),
        }
    }

    /// Locks the current node against direct edits and streams the coming reply into it.
    pub fn lock_current_node(&mut self)
        requires
            old(self).wf(),
        ensures
            final(self).wf(),
            final(self).assistant_stream_node == Some(old(self).current_node),
            final(self).page_tree.node(old(self).current_node).user_area.locked,
            final(self).page_tree.node(old(self).current_node).assistant_area.locked,
            final(self).page_tree.nodes.len() == old(self).page_tree.nodes.len(),
            final(self).page_tree.children_of(old(self).current_node) == old(self).page_tree.children_of(
                old(self).current_node,
            ),
            final(self).current_node == old(self).current_node,
            final(self).active == old(self).active,
    {
        self.page_tree.lock_node(self.current_node);
        self.assistant_stream_node = Some(self.current_node);
    }

    pub fn get_assistant_stream_node(&self) -> (r: Option<NodeId>)
        ensures
            r == self.assistant_stream_node,
    {
        self.assistant_stream_node
    }

    pub fn reset_assistant_stream_node(&mut self)
        ensures
            *final(self) == (SessionLayout { assistant_stream_node: None, ..*old(self) }),
    {
        self.assistant_stream_node = None;
    }

    /// Applies one event of a reply to the reply buffer of the streaming node
    /// (or of the current node when none streams): a new message clears it,
    /// text of a block is typed into it past its lock, and the end of the
    /// message ends the stream.
    pub fn handle_assistant_event(&mut self, event: TextEvent)
        requires
            old(self).wf(),
        ensures
            final(self).wf(),
            final(self).current_node == old(self).current_node,
            final(self).active == old(self).active,
            final(self).page_tree.nodes.len() == old(self).page_tree.nodes.len(),
            forall|i: int|
                0 <= i < old(self).page_tree.nodes.len() && NodeId::Node(i as u16) != old(self).stream_target()
                    ==> #[trigger] final(self).page_tree.nodes@[i] == old(self).page_tree.nodes@[i],
            final(self).page_tree.node(old(self).stream_target()).user_area == old(self).page_tree.node(
                old(self).stream_target(),
            ).user_area,
            final(self).page_tree.node(old(self).stream_target()).parent == old(self).page_tree.node(
                old(self).stream_target(),
            ).parent,
            final(self).page_tree.node(old(self).stream_target()).children == old(self).page_tree.node(
                old(self).stream_target(),
            ).children,
            final(self).page_tree.system_area == old(self).page_tree.system_area,
            final(self).page_tree.children == old(self).page_tree.children,
            final(self).page_tree.active == old(self).page_tree.active,
            ({
                let t = old(self).stream_target();
                let before = old(self).page_tree.node(t).assistant_area;
                let after = final(self).page_tree.node(t).assistant_area;
                match event {
                    TextEvent::MessageStart { .. } => after.text_lines() == seq![Seq::<char>::empty()]
                        && final(self).assistant_stream_node == old(self).assistant_stream_node,
                    TextEvent::ContentBlockStart { content_block: ContentBlock::Text { text }, .. } =>
                        after.text_lines() == type_str(before.text_lines(), text@, before.max())
                        && final(self).assistant_stream_node == old(self).assistant_stream_node,
                    TextEvent::ContentBlockDelta { delta: ContentDelta::TextDelta { text }, .. } =>
                        after.text_lines() == type_str(before.text_lines(), text@, before.max())
                        && final(self).assistant_stream_node == old(self).assistant_stream_node,
                    TextEvent::MessageStop => final(self).assistant_stream_node is None
                        && final(self).page_tree == old(self).page_tree,
                    _ => *final(self) == *old(self),
                }
            }),
    {
        let target = match self.assistant_stream_node {
            Some(n) => n,
            None => self.current_node,
        };
        match event {
            TextEvent::MessageStart { .. } => {
                self.page_tree.clear_reply(target);
            },
            TextEvent::ContentBlockStart { content_block, .. } => match content_block {
                ContentBlock::Text { text } => self.page_tree.stream_text(target, text.as_str()),
                ContentBlock::Other => {},
            },
            TextEvent::ContentBlockDelta { delta, .. } => match delta {
                ContentDelta::TextDelta { text } => self.page_tree.stream_text(target, text.as_str()),
                ContentDelta::Other => {},
            },
            TextEvent::MessageStop => {
                self.reset_assistant_stream_node();
            },
            _ => {},
        }
    }
}

/// The content of a buffer into which `s` was typed.
pub open spec fn typed_content(s: Seq<char>, max: nat) -> Seq<char> {
    crate::textarea::join_lines(typed_lines(s, max))
}


/// A key as the session reads it.
#[derive(Debug, Clone, Copy, PartialEq, Eq, Structural)]
pub enum Key {
    Char(char),
    Backspace,
    Delete,
    Enter,
    Tab,
    Esc,
    Other,
}

/// What a key asks the session to do.
#[derive(Debug, Clone, Copy, PartialEq, Eq, Structural)]
pub enum Command {
    Quit,
    SwitchPane,
    NewBranch,
    NextBranch,
    PreviousBranch,
    Up,
    Down,
    Submit,
    Edit(Input),
}

/// The session's key bindings: Esc and Ctrl-C quit, Tab moves the focus,
/// Ctrl-B branches, Ctrl-N and Ctrl-P step through branches, Ctrl-U and
/// Ctrl-D move to the first child and to the parent, Ctrl-J submits, and
/// every other key edits (a control chord that is not bound edits nothing).
pub open spec fn key_command(key: Key, ctrl: bool) -> Command {
    match key {
        Key::Esc => Command::Quit,
        Key::Tab => Command::SwitchPane,
        Key::Char(c) => if ctrl {
            if c == 'c' {
                Command::Quit
            } else if c == 'b' {
                Command::NewBranch
            } else if c == 'n' {
                Command::NextBranch
            } else if c == 'p' {
                Command::PreviousBranch
            } else if c == 'u' {
                Command::Up
            } else if c == 'd' {
                Command::Down
            } else if c == 'j' {
                Command::Submit
            } else {
                Command::Edit(Input::Other)
            }
        } else {
            Command::Edit(Input::Char(c))
        },
        Key::Backspace => Command::Edit(Input::Backspace),
        Key::Delete => Command::Edit(Input::Delete),
        Key::Enter => Command::Edit(Input::Enter),
        Key::Other => Command::Edit(Input::Other),
    }
}

pub fn command_for(key: Key, ctrl: bool) -> (r: Command)
    ensures
        r == key_command(key, ctrl),
{
    match key {
        Key::Esc => Command::Quit,
        Key::Tab => Command::SwitchPane,
        Key::Char(c) => {
            if ctrl {
                if c == 'c' {
                    Command::Quit
                } else if c == 'b' {
                    Command::NewBranch
                } else if c == 'n' {
                    Command::NextBranch
                } else if c == 'p' {
                    Command::PreviousBranch
                } else if c == 'u' {
                    Command::Up
                } else if c == 'd' {
                    Command::Down
                } else if c == 'j' {
                    Command::Submit
                } else {
                    Command::Edit(Input::Other)
                }
            } else {
                Command::Edit(Input::Char(c))
            }
        },
        Key::Backspace => Command::Edit(Input::Backspace),
        Key::Delete => Command::Edit(Input::Delete),
        Key::Enter => Command::Edit(Input::Enter),
        Key::Other => Command::Edit(Input::Other),
    }
}

/// What the event loop does after a command.
#[derive(Debug)]
pub enum Outcome {
    Continue,
    Quit,
    /// Send these messages to the assistant; the reply streams into `assistant_stream_node`.
    Submit(Vec<Message>),
}

impl SessionLayout {
    /// Carries out one command. A submission takes the prompt of the current
    /// node, locks that node to receive the reply, and moves on to a new child
    /// of it for the next turn.
    pub fn apply(&mut self, command: Command) -> (r: Outcome)
        requires
            old(self).wf(),
        ensures
            final(self).wf(),
            command == Command::Quit <==> r is Quit,
            command == Command::Quit ==> *final(self) == *old(self),
            command == Command::Submit <==> r is Submit,
            r matches Outcome::Submit(ms) ==> {
                &&& views(ms@) == old(self).prompt()
                &&& final(self).assistant_stream_node == Some(old(self).current_node)
                &&& final(self).page_tree.node(old(self).current_node).assistant_area.locked
                &&& (old(self).page_tree.nodes.len() < MAX_NODES ==> {
                    &&& final(self).current_node == NodeId::Node(old(self).page_tree.nodes.len() as u16)
                    &&& final(self).page_tree.node(final(self).current_node).parent == old(self).current_node
                    &&& final(self).page_tree.children_of(old(self).current_node) == old(
                        self,
                    ).page_tree.children_of(old(self).current_node).push(final(self).current_node)
                })
            },
            command == Command::SwitchPane ==> {
                &&& final(self).active == next_area(old(self).active)
                &&& final(self).current_node == old(self).current_node
                &&& final(self).page_tree.activated(old(self).page_tree, old(self).current_node, next_area(old(self).active))
            },
            command == Command::NewBranch && old(self).page_tree.nodes.len() < MAX_NODES ==> {
                &&& final(self).current_node == NodeId::Node(old(self).page_tree.nodes.len() as u16)
                &&& final(self).page_tree.node(final(self).current_node).parent == old(self).page_tree.node(
                    old(self).current_node,
                ).parent
            },
            command == Command::NextBranch ==> (next_in(
                old(self).page_tree.siblings_of(old(self).current_node),
                old(self).current_node,
            ) matches Some(n) ==> final(self).current_node == n),
            command == Command::PreviousBranch ==> (previous_in(
                old(self).page_tree.siblings_of(old(self).current_node),
                old(self).current_node,
            ) matches Some(n) ==> final(self).current_node == n),
            command == Command::Up ==> {
                let c = old(self).page_tree.children_of(old(self).current_node);
                &&& c.len() > 0 ==> final(self).current_node == c[0]
                &&& c.len() == 0 ==> *final(self) == *old(self)
            },
            command == Command::Down ==> {
                let p = old(self).page_tree.node(old(self).current_node).parent;
                &&& p is Node ==> final(self).current_node == p
                &&& p is Root ==> *final(self) == *old(self)
            },
            command matches Command::Edit(input) ==> {
                &&& final(self).active == old(self).active
                &&& !(old(self).edit_area().locked && input.edits()) ==> {
                    &&& final(self).current_node == old(self).current_node
                    &&& final(self).edit_area().text_lines() == apply_input(
                        old(self).edit_area().text_lines(),
                        input,
                        old(self).edit_area().max(),
                    )
                }
            },
    {
        match command {
            Command::Quit => Outcome::Quit,
            Command::SwitchPane => {
                self.switch_pane();
                Outcome::Continue
            },
            Command::NewBranch => {
                self.new_branch_at_current();
                Outcome::Continue
            },
            Command::NextBranch => {
                self.next_branch();
                Outcome::Continue
            },
            Command::PreviousBranch => {
                self.previous_branch();
                Outcome::Continue
            },
            Command::Up => {
                self.up_one();
                Outcome::Continue
            },
            Command::Down => {
                self.down_one();
                Outcome::Continue
            },
            Command::Submit => {
                let messages = self.messages();
                let ghost locked = self.current_node;
                self.lock_current_node();
                self.new_child_at_current();
                assert(self.page_tree.nodes@[Root::index(locked)].assistant_area.locked);
                Outcome::Submit(messages)
            },
            Command::Edit(input) => {
                self.input(input);
                Outcome::Continue
            },
        }
    }
}


impl SessionLayout {
    /// The user's buffer of the current node.
    pub fn user_area_to_draw(&self) -> (r: &SessionTextArea)
        requires
            self.wf(),
        ensures
            *r == self.page_tree.node(self.current_node).user_area,
    {
        let i = match self.current_node {
            NodeId::Node(i) => i as usize,
            NodeId::Root => 0,
        };
        &self.page_tree.nodes[i].user_area
    }

    /// The reply to show: the current node's, or its parent's while the
    /// current node's is empty.
    pub fn assistant_area_to_draw(&self) -> (r: &SessionTextArea)
        requires
            self.wf(),
        ensures
            ({
                let n = self.page_tree.node(self.current_node);
                if !n.assistant_area.spec_is_empty() || n.parent is Root {
                    *r == n.assistant_area
                } else {
                    *r == self.page_tree.node(n.parent).assistant_area
                }
            }),
    {
        let i = match self.current_node {
            NodeId::Node(i) => i as usize,
            NodeId::Root => 0,
        };
        assert(self.page_tree.node_wf(i as int));
        let node = &self.page_tree.nodes[i];
        if !node.assistant_area.is_empty() {
            return &node.assistant_area;
        }
        match node.parent {
            NodeId::Node(p) => &self.page_tree.nodes[p as usize].assistant_area,
            NodeId::Root => &node.assistant_area,
        }
    }

    pub fn system_area_to_draw(&self) -> (r: &SessionTextArea)
        ensures
            *r == self.page_tree.system_area,
    {
        &self.page_tree.system_area
    }
}

} // verus!
