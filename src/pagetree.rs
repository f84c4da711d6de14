use vstd::prelude::*;
use vstd::string::*;

use crate::error::Error;
use crate::message::{Message, Role};
use crate::message::string_push;
use crate::textarea::{
    area_name,     apply_input, fits, join_lines, lemma_type_fits, lines_empty, no_newlines, lemma_type_str_no_newlines, type_str, SessionAreaId,
    Input, SessionTextArea,
};

verus! {

/// The largest number of nodes a tree holds: node indices are 16-bit.
pub const MAX_NODES: usize = 65535;

/// A place in the tree: the root (which holds the system message and no
/// turn of its own) or the node at an index of the arena.
#[derive(Debug, Clone, Copy, PartialEq, Eq, Structural, Default)]
pub enum NodeId {
    #[default]
    Root,
    Node(u16),
}

/// One turn of the conversation: the user's message and the assistant's reply.
#[derive(Debug, Clone)]
pub struct Node {
    pub id: NodeId,
    pub user_area: SessionTextArea,
    pub assistant_area: SessionTextArea,
    /// In order of insertion.
    pub children: Vec<NodeId>,
    pub parent: NodeId,
    /// Distance from the root; a child of the root has height 1.
    pub height: u16,
    /// Which of the node's two buffers has focus, if any.
    pub active: Option<SessionAreaId>,
}

/// The conversation tree: an append-only arena of nodes, the shared system
/// buffer, and the place that has focus.
#[derive(Debug)]
pub struct Root {
    pub nodes: Vec<Node>,
    pub active: NodeId,
    pub system_area: SessionTextArea,
    /// The top-level branches, in order of insertion.
    pub children: Vec<NodeId>,
    pub max_line_length: usize,
}

/// The message a buffer holds: none when it is empty.
pub open spec fn area_message(a: SessionTextArea, role: Role) -> Seq<(Role, Seq<char>)> {
    if a.spec_is_empty() {
        seq![]
    } else {
        seq![(role, a.content())]
    }
}

/// The turn's non-empty messages in the order they were written: the
/// user's, then the assistant's.
pub open spec fn node_chrono(n: Node) -> Seq<(Role, Seq<char>)> {
    area_message(n.user_area, Role::User) + area_message(n.assistant_area, Role::Assistant)
}

/// `msgs` without its last message when that one is the assistant's.
pub open spec fn drop_trailing_assistant(msgs: Seq<(Role, Seq<char>)>) -> Seq<(Role, Seq<char>)> {
    if msgs.len() > 0 && msgs.last().0 == Role::Assistant {
        msgs.drop_last()
    } else {
        msgs
    }
}

/// The first index of `x` in `s`, or `s.len()` when it is not there.
pub open spec fn position(s: Seq<NodeId>, x: NodeId) -> int
    decreases s.len(),
{
    if s.len() == 0 {
        0
    } else if s[0] == x {
        0
    } else {
        1 + position(s.drop_first(), x)
    }
}

/// The sibling after `x` in `s`, wrapping to the first.
pub open spec fn next_in(s: Seq<NodeId>, x: NodeId) -> Option<NodeId> {
    let k = position(s, x);
    if s.len() == 0 {
        None
    } else if k + 1 < s.len() {
        Some(s[k + 1])
    } else {
        Some(s[0])
    }
}

/// The sibling before `x` in `s`, wrapping to the last.
pub open spec fn previous_in(s: Seq<NodeId>, x: NodeId) -> Option<NodeId> {
    let k = position(s, x);
    if s.len() == 0 {
        None
    } else if 0 < k < s.len() {
        Some(s[k - 1])
    } else {
        Some(s.last())
    }
}

pub proof fn lemma_position(s: Seq<NodeId>, x: NodeId)
    ensures
        0 <= position(s, x) <= s.len(),
        position(s, x) < s.len() ==> s[position(s, x)] == x,
        position(s, x) == s.len() ==> !s.contains(x),
        forall|j: int| 0 <= j < position(s, x) ==> s[j] != x,
    decreases s.len(),
{
    if s.len() > 0 && s[0] != x {
        lemma_position(s.drop_first(), x);
        assert forall|j: int| 0 <= j < position(s, x) implies s[j] != x by {
            if j > 0 {
                assert(s[j] == s.drop_first()[j - 1]);
            }
        }
        if position(s, x) == s.len() {
            assert forall|j: int| 0 <= j < s.len() implies s[j] != x by {
                if j > 0 {
                    assert(s[j] == s.drop_first()[j - 1]);
                }
            }
        }
    }
}

/// In a list without repeats, the position of the element at `k` is `k`.
pub proof fn lemma_position_unique(s: Seq<NodeId>, k: int)
    requires
        s.no_duplicates(),
        0 <= k < s.len(),
    ensures
        position(s, s[k]) == k,
{
    lemma_position(s, s[k]);
    let p = position(s, s[k]);
    if p < k {
        assert(s[p] == s[k]);
    }
}

impl Node {
    pub open spec fn wf(&self) -> bool {
        &&& self.user_area.wf()
        &&& self.assistant_area.wf()
        &&& self.user_area.id == SessionAreaId::User
        &&& self.assistant_area.id == SessionAreaId::Assistant
    }

    /// The focus marks of the node agree with its buffers.
    pub open spec fn focus_ok(&self) -> bool {
        match self.active {
            None => !self.user_area.active && !self.assistant_area.active,
            Some(SessionAreaId::User) => self.user_area.active && !self.assistant_area.active,
            Some(SessionAreaId::Assistant) => !self.user_area.active && self.assistant_area.active,
            Some(SessionAreaId::System) => false,
        }
    }

    pub open spec fn unfocused(&self) -> bool {
        &&& self.active is None
        &&& !self.user_area.active
        &&& !self.assistant_area.active
    }
}

impl Root {
    pub open spec fn valid(&self, id: NodeId) -> bool {
        id matches NodeId::Node(i) && (i as int) < self.nodes.len()
    }

    /// `id` is the root or a node of the arena.
    pub open spec fn known(&self, id: NodeId) -> bool {
        id is Root || self.valid(id)
    }

    pub open spec fn index(id: NodeId) -> int {
        match id {
            NodeId::Root => -1,
            NodeId::Node(i) => i as int,
        }
    }

    pub open spec fn node(&self, id: NodeId) -> Node {
        self.nodes@[Self::index(id)]
    }

    pub open spec fn spec_height(&self, id: NodeId) -> int {
        match id {
            NodeId::Root => 0,
            NodeId::Node(i) => self.nodes@[i as int].height as int,
        }
    }

    pub open spec fn children_of(&self, id: NodeId) -> Seq<NodeId> {
        match id {
            NodeId::Root => self.children@,
            NodeId::Node(i) => self.nodes@[i as int].children@,
        }
    }

    /// The list that `id` is one of: its parent's children, or the top-level
    /// branches for a top-level node, the root or an unknown id.
    pub open spec fn siblings_of(&self, id: NodeId) -> Seq<NodeId> {
        if self.valid(id) && self.valid(self.node(id).parent) {
            self.node(self.node(id).parent).children@
        } else {
            self.children@
        }
    }

    pub open spec fn node_wf(&self, i: int) -> bool {
        let n = self.nodes@[i];
        &&& n.wf()
        &&& n.id == NodeId::Node(i as u16)
        &&& (n.parent is Root || (n.parent matches NodeId::Node(p) && (p as int) < i))
        &&& n.height as int == self.spec_height(n.parent) + 1
        &&& n.height as int <= i + 1
        &&& self.children_of(n.parent).contains(NodeId::Node(i as u16))
        &&& n.children@.no_duplicates()
        &&& forall|k: int| 0 <= k < n.children@.len() ==> {
            let c = #[trigger] n.children@[k];
            self.valid(c) && self.node(c).parent == NodeId::Node(i as u16)
        }
    }

    /// The tree's invariant.
    pub open spec fn wf(&self) -> bool {
        &&& self.shape_wf()
        &&& self.known(self.active)
        &&& self.focus_wf()
    }

    /// The invariant of the arena, the links and the buffers, focus aside.
    pub open spec fn shape_wf(&self) -> bool {
        &&& self.nodes.len() <= MAX_NODES
        &&& forall|i: int| 0 <= i < self.nodes.len() ==> #[trigger] self.node_wf(i)
        &&& self.children@.no_duplicates()
        &&& forall|k: int| 0 <= k < self.children@.len() ==> {
            let c = #[trigger] self.children@[k];
            self.valid(c) && self.node(c).parent is Root
        }
        &&& self.system_area.wf()
        &&& self.system_area.id == SessionAreaId::System
        &&& self.system_area.max_line_length == self.max_line_length
    }

    /// At most one buffer of the tree has focus, and the focused node is `active`.
    pub open spec fn focus_wf(&self) -> bool {
        &&& forall|i: int|
            0 <= i < self.nodes.len() && NodeId::Node(i as u16) != self.active ==> (#[trigger] self.nodes@[i]).unfocused()
        &&& forall|i: int| 0 <= i < self.nodes.len() ==> (#[trigger] self.nodes@[i]).focus_ok()
        &&& self.system_area.active ==> self.active is Root
    }
}

impl Root {
    /// An empty tree: no nodes, an empty system buffer, focus on the root.
    pub fn new(max_line_length: usize) -> (r: Root)
        ensures
            r.wf(),
            r.nodes.len() == 0,
            r.children@.len() == 0,
            r.active == NodeId::Root,
            r.system_area.spec_is_empty(),
            r.max_line_length == max_line_length,
    {
        let system_area = SessionTextArea::new(SessionAreaId::System, &[], max_line_length);
        Root { nodes: Vec::new(), active: NodeId::Root, system_area, children: Vec::new(), max_line_length }
    }

    /// The id the next inserted node gets.
    pub fn next_id(&self) -> (r: NodeId)
        requires
            self.nodes.len() <= MAX_NODES,
        ensures
            r == NodeId::Node(self.nodes.len() as u16),
    {
        NodeId::Node(self.nodes.len() as u16)
    }

    pub fn height(&self, id: NodeId) -> (r: u16)
        requires
            self.known(id),
        ensures
            r == self.spec_height(id),
    {
        match id {
            NodeId::Root => 0,
            NodeId::Node(i) => self.nodes[i as usize].height,
        }
    }

    pub fn get_system_area(&self) -> (r: &SessionTextArea)
        ensures
            *r == self.system_area,
    {
        &self.system_area
    }

    /// The node `id`; none for the root or an id that is not in the tree.
    pub fn get(&self, id: NodeId) -> (r: Option<&Node>)
        ensures
            r is Some <==> self.valid(id),
            r matches Some(n) ==> *n == self.node(id),
    {
        match id {
            NodeId::Root => None,
            NodeId::Node(i) => {
                if (i as usize) < self.nodes.len() {
                    Some(&self.nodes[i as usize])
                } else {
                    None
                }
            },
        }
    }

    /// The parent node of `id`; none when `id` is top-level, the root or unknown.
    pub fn parent(&self, id: NodeId) -> (r: Option<&Node>)
        requires
            self.wf(),
        ensures
            r is Some <==> self.valid(id) && self.valid(self.node(id).parent),
            r matches Some(n) ==> *n == self.node(self.node(id).parent),
    {
        match self.get(id) {
            Some(node) => self.get(node.parent),
            None => None,
        }
    }
}


impl Node {
    /// A node with empty, unlocked, unfocused buffers and no children.
    pub fn new(id: NodeId, parent: NodeId, height: u16, max_line_length: usize) -> (r: Node)
        ensures
            r.wf(),
            r.unfocused(),
            r.id == id,
            r.parent == parent,
            r.height == height,
            r.children@.len() == 0,
            r.user_area.text_lines() == seq![Seq::<char>::empty()],
            r.assistant_area.text_lines() == seq![Seq::<char>::empty()],
            !r.user_area.locked,
            !r.assistant_area.locked,
            r.user_area.max_line_length == max_line_length,
            r.assistant_area.max_line_length == max_line_length,
    {
        Node {
            id,
            user_area: SessionTextArea::new(SessionAreaId::User, &[], max_line_length),
            assistant_area: SessionTextArea::new(SessionAreaId::Assistant, &[], max_line_length),
            children: Vec::new(),
            parent,
            height,
            active: None,
        }
    }
}

impl Root {
    /// Appends an untitled node under `parent`.
    fn push_child(&mut self, parent: NodeId) -> (r: NodeId)
        requires
            old(self).wf(),
            old(self).known(parent),
            old(self).nodes.len() < MAX_NODES,
        ensures
            final(self).wf(),
            r == NodeId::Node(old(self).nodes.len() as u16),
            final(self).nodes.len() == old(self).nodes.len() + 1,
            forall|i: int|
                0 <= i < old(self).nodes.len() && NodeId::Node(i as u16) != parent ==> final(self).nodes@[i]
                    == old(self).nodes@[i],
            parent matches NodeId::Node(p) ==> final(self).nodes@[p as int] == (Node {
                children: final(self).nodes@[p as int].children,
                ..old(self).nodes@[p as int]
            }),
            final(self).children_of(parent) == old(self).children_of(parent).push(r),
            parent is Node ==> final(self).children == old(self).children,
            final(self).node(r).parent == parent,
            final(self).node(r).height == old(self).spec_height(parent) + 1,
            final(self).node(r).children@.len() == 0,
            final(self).node(r).unfocused(),
            final(self).node(r).user_area.text_lines() == seq![Seq::<char>::empty()],
            final(self).node(r).assistant_area.text_lines() == seq![Seq::<char>::empty()],
            !final(self).node(r).user_area.locked,
            !final(self).node(r).assistant_area.locked,
            final(self).node(r).user_area.max_line_length == old(self).max_line_length,
            final(self).node(r).assistant_area.max_line_length == old(self).max_line_length,
            final(self).active == old(self).active,
            final(self).system_area == old(self).system_area,
            final(self).max_line_length == old(self).max_line_length,
    {
        let ghost old_self = *self;
        let id = self.next_id();
        let n = self.nodes.len();
        let h = self.height(parent);
        proof {
            if let NodeId::Node(p) = parent {
                assert(self.node_wf(p as int));
            }
        }
        let node = Node::new(id, parent, h + 1, self.max_line_length);
        self.nodes.push(node);
        match parent {
            NodeId::Root => self.children.push(id),
            NodeId::Node(p) => self.nodes[p as usize].children.push(id),
        }
        proof {
            assert(self.nodes@[n as int] == node);
            assert forall|i: int| 0 <= i < self.nodes.len() implies #[trigger] self.node_wf(i) by {
                if i < n {
                    assert(old_self.node_wf(i));
                    let c = self.nodes@[i];
                    assert(self.spec_height(c.parent) == old_self.spec_height(c.parent));
                    if c.parent == parent {
                        let oc = old_self.children_of(c.parent);
                        assert(self.children_of(c.parent) == oc.push(id));
                        let j = choose|j: int| 0 <= j < oc.len() && oc[j] == NodeId::Node(i as u16);
                        assert(oc.push(id)[j] == NodeId::Node(i as u16));
                    } else {
                        assert(self.children_of(c.parent) == old_self.children_of(c.parent));
                    }
                    assert(self.children_of(c.parent).contains(NodeId::Node(i as u16)));
                    if NodeId::Node(i as u16) == parent {
                        let ch = c.children@;
                        let och = old_self.nodes@[i].children@;
                        assert(ch == och.push(id));
                        assert forall|k: int| 0 <= k < och.len() implies och[k] != id by {
                            assert(old_self.valid(och[k]));
                        }
                        assert forall|k: int| 0 <= k < ch.len() implies ({
                            let x = #[trigger] ch[k];
                            self.valid(x) && self.node(x).parent == NodeId::Node(i as u16)
                        }) by {
                            if k < och.len() {
                                assert(ch[k] == och[k]);
                            }
                        }
                    } else {
                        assert forall|k: int| 0 <= k < c.children@.len() implies ({
                            let x = #[trigger] c.children@[k];
                            self.valid(x) && self.node(x).parent == NodeId::Node(i as u16)
                        }) by {
                            assert(c.children@[k] == old_self.nodes@[i].children@[k]);
                        }
                    }
                } else {
                    assert(i == n);
                    assert(self.children_of(parent).last() == id);
                }
            }
            if parent is Root {
                let och = old_self.children@;
                assert forall|k: int| 0 <= k < och.len() implies och[k] != id by {
                    assert(old_self.valid(och[k]));
                }
            }
            assert forall|k: int| 0 <= k < self.children@.len() implies ({
                let c = #[trigger] self.children@[k];
                self.valid(c) && self.node(c).parent is Root
            }) by {
                if k < old_self.children@.len() {
                    assert(self.children@[k] == old_self.children@[k]);
                }
            }
        }
        id
    }
}

impl Root {
    /// The list that `id` belongs to: its parent's children, or the top-level branches.
    pub fn siblings(&self, id: NodeId) -> (r: &[NodeId])
        requires
            self.wf(),
        ensures
            r@ == self.siblings_of(id),
    {
        match self.parent(id) {
            Some(parent) => parent.children.as_slice(),
            None => self.children.as_slice(),
        }
    }

    /// The sibling after `id`, wrapping from the last to the first; the first
    /// sibling when `id` is not among them; none when there are no siblings.
    pub fn next_sibling(&self, id: NodeId) -> (r: Option<&Node>)
        requires
            self.wf(),
        ensures
            next_in(self.siblings_of(id), id) matches Some(x) ==> (r matches Some(n) && *n == self.node(x)),
            next_in(self.siblings_of(id), id) is None ==> r is None,
    {
        let siblings = self.siblings(id);
        let n = siblings.len();
        let mut k: usize = 0;
        while k < n && siblings[k] != id
            invariant
                n == siblings@.len(),
                k <= n,
                forall|j: int| 0 <= j < k ==> siblings@[j] != id,
            decreases n - k,
        {
            k = k + 1;
        }
        proof {
            self.lemma_siblings_valid(id);
            lemma_position(siblings@, id);
            if k < n {
                lemma_position_unique(siblings@, k as int);
            } else if position(siblings@, id) < n {
                assert(siblings@[position(siblings@, id)] == id);
            }
        }
        if n == 0 {
            None
        } else if k < n - 1 {
            self.get(siblings[k + 1])
        } else {
            self.get(siblings[0])
        }
    }

    /// The sibling before `id`, wrapping from the first to the last; the last
    /// sibling when `id` is not among them; none when there are no siblings.
    pub fn previous_sibling(&self, id: NodeId) -> (r: Option<&Node>)
        requires
            self.wf(),
        ensures
            previous_in(self.siblings_of(id), id) matches Some(x) ==> (r matches Some(n) && *n == self.node(x)),
            previous_in(self.siblings_of(id), id) is None ==> r is None,
    {
        let siblings = self.siblings(id);
        let n = siblings.len();
        let mut k: usize = 0;
        while k < n && siblings[k] != id
            invariant
                n == siblings@.len(),
                k <= n,
                forall|j: int| 0 <= j < k ==> siblings@[j] != id,
            decreases n - k,
        {
            k = k + 1;
        }
        proof {
            self.lemma_siblings_valid(id);
            lemma_position(siblings@, id);
            if k < n {
                lemma_position_unique(siblings@, k as int);
            } else if position(siblings@, id) < n {
                assert(siblings@[position(siblings@, id)] == id);
            }
        }
        if n == 0 {
            None
        } else if 0 < k && k < n {
            self.get(siblings[k - 1])
        } else {
            self.get(siblings[n - 1])
        }
    }

    /// Every member of a sibling list is a node of the tree.
    pub proof fn lemma_siblings_valid(&self, id: NodeId)
        requires
            self.wf(),
        ensures
            forall|k: int| 0 <= k < self.siblings_of(id).len() ==> self.valid(#[trigger] self.siblings_of(id)[k]),
            self.siblings_of(id).no_duplicates(),
    {
        if self.valid(id) && self.valid(self.node(id).parent) {
            let p = self.node(id).parent;
            assert(self.node_wf(Self::index(p)));
            assert forall|k: int| 0 <= k < self.siblings_of(id).len() implies self.valid(#[trigger] self.siblings_of(id)[k]) by {
                assert(self.siblings_of(id)[k] == self.nodes@[Self::index(p)].children@[k]);
            }
        }
    }

    /// The child nodes of `id` in order of insertion; none for the root or an unknown id.
    pub fn children(&self, id: NodeId) -> (r: Vec<&Node>)
        requires
            self.wf(),
        ensures
            !self.valid(id) ==> r@.len() == 0,
            self.valid(id) ==> r@.len() == self.children_of(id).len() && forall|k: int|
                0 <= k < r@.len() ==> *r@[k] == self.node(#[trigger] self.children_of(id)[k]),
    {
        let mut r: Vec<&Node> = Vec::new();
        match self.get(id) {
            None => {},
            Some(node) => {
                proof {
                    assert(self.node_wf(Self::index(id)));
                }
                let mut k: usize = 0;
                while k < node.children.len()
                    invariant
                        self.wf(),
                        self.valid(id),
                        *node == self.node(id),
                        self.node_wf(Self::index(id)),
                        k <= node.children@.len(),
                        r@.len() == k,
                        forall|j: int| 0 <= j < k ==> *r@[j] == self.node(#[trigger] node.children@[j]),
                    decreases node.children@.len() - k,
                {
                    let c = node.children[k];
                    assert(self.valid(node.children@[k as int]));
                    match self.get(c) {
                        Some(child) => r.push(child),
                        None => {},
                    }
                    k = k + 1;
                }
            },
        }
        r
    }

    /// Walks up from `id` to the first node whose height is at most `height`;
    /// none when `id` is the root or unknown, or when the walk reaches the root.
    pub fn parent_at_height(&self, id: NodeId, height: u16) -> (r: Option<&Node>)
        requires
            self.wf(),
        ensures
            !self.valid(id) ==> r is None,
            self.valid(id) ==> match self.ancestor_at(Self::index(id), height as int) {
                Some(a) => r matches Some(n) && *n == self.nodes@[a],
                None => r is None,
            },
    {
        let mut node = match self.get(id) {
            Some(n) => n,
            None => return None,
        };
        let ghost mut i = Self::index(id);
        while node.height > height
            invariant
                self.wf(),
                0 <= i < self.nodes.len(),
                *node == self.nodes@[i],
                self.ancestor_at(i, height as int) == self.ancestor_at(Self::index(id), height as int),
            decreases i,
        {
            assert(self.node_wf(i));
            let p = node.parent;
            proof {
                i = Self::index(p);
            }
            node = match self.get(p) {
                Some(n) => n,
                None => return None,
            };
        }
        Some(node)
    }

    /// The index of the first node at or below `height` on the way from node
    /// `i` up to the root; none when the way reaches the root first.
    pub open spec fn ancestor_at(&self, i: int, height: int) -> Option<int>
        decreases i,
    {
        if 0 <= i < self.nodes.len() && self.nodes@[i].height > height {
            match self.nodes@[i].parent {
                NodeId::Node(p) => if (p as int) < i {
                    self.ancestor_at(p as int, height)
                } else {
                    None
                },
                NodeId::Root => None,
            }
        } else {
            Some(i)
        }
    }
}


/// The role and content of each message.
pub open spec fn views(ms: Seq<Message>) -> Seq<(Role, Seq<char>)> {
    ms.map_values(|m: Message| m@)
}

impl Node {
    /// The node's non-empty messages, newest first: the assistant's reply,
    /// then the user's message.
    pub fn messages(&self) -> (r: Vec<Message>)
        requires
            self.wf(),
        ensures
            views(r@) == node_chrono(*self).reverse(),
    {
        let mut r: Vec<Message> = Vec::new();
        match self.assistant_area.message() {
            Some(assistant) => r.push(assistant),
            None => {},
        }
        match self.user_area.message() {
            Some(user) => r.push(user),
            None => {},
        }
        assert(views(r@) =~= node_chrono(*self).reverse());
        r
    }

    /// Appends the node's messages in the order they were written.
    fn push_messages(&self, out: &mut Vec<Message>)
        requires
            self.wf(),
        ensures
            views(final(out)@) == views(old(out)@) + node_chrono(*self),
    {
        let ghost start = views(out@);
        match self.user_area.message() {
            Some(user) => out.push(user),
            None => {},
        }
        match self.assistant_area.message() {
            Some(assistant) => out.push(assistant),
            None => {},
        }
        assert(views(out@) =~= start + node_chrono(*self));
    }
}

impl Root {
    /// The messages on the way from the root down to `id`, oldest first, of the
    /// nodes whose height is above `down`.
    pub open spec fn collected(&self, id: NodeId, down: int) -> Seq<(Role, Seq<char>)>
        decreases Self::index(id) + 1,
    {
        match id {
            NodeId::Root => seq![],
            NodeId::Node(i) => if self.valid(id) && self.spec_height(id) > down {
                let p = self.node(id).parent;
                if Self::index(p) < i {
                    self.collected(p, down) + node_chrono(self.node(id))
                } else {
                    node_chrono(self.node(id))
                }
            } else {
                seq![]
            },
        }
    }

    /// The messages of the nodes at `path`, taken from its end to its start.
    pub open spec fn chain(&self, path: Seq<u16>) -> Seq<(Role, Seq<char>)>
        decreases path.len(),
    {
        if path.len() == 0 {
            seq![]
        } else {
            node_chrono(self.nodes@[path.last() as int]) + self.chain(path.drop_last())
        }
    }

    /// The system message for the root; the node's messages (newest first) for a node.
    pub fn get_node_messages(&self, id: NodeId) -> (r: Vec<Message>)
        requires
            self.wf(),
        ensures
            id is Root ==> views(r@) == (if self.system_area.spec_is_empty() {
                seq![]
            } else {
                seq![(Role::System, self.system_area.content())]
            }),
            self.valid(id) ==> views(r@) == node_chrono(self.node(id)).reverse(),
            !self.known(id) ==> r@.len() == 0,
    {
        match id {
            NodeId::Root => {
                let mut r: Vec<Message> = Vec::new();
                match self.system_area.message() {
                    Some(m) => r.push(m),
                    None => {},
                }
                assert(views(r@) =~= (if self.system_area.spec_is_empty() {
                    seq![]
                } else {
                    seq![(Role::System, self.system_area.content())]
                }));
                r
            },
            NodeId::Node(_) => match self.get(id) {
                Some(node) => {
                    assert(self.node_wf(Self::index(id)));
                    node.messages()
                },
                None => Vec::new(),
            },
        }
    }

    /// The conversation from the root down to `id` (or, with `down_to`, from
    /// the first node above that height), oldest first, without a last
    /// message from the assistant.
    pub fn collect_messages(&self, id: NodeId, down_to: Option<u16>) -> (r: Vec<Message>)
        requires
            self.wf(),
        ensures
            views(r@) == drop_trailing_assistant(
                self.collected(
                    id,
                    match down_to {
                        Some(d) => d as int,
                        None => 0,
                    },
                ),
            ),
    {
        let down: u16 = match down_to {
            Some(d) => d,
            None => 0,
        };
        let ghost target = self.collected(id, down as int);
        let mut path: Vec<u16> = Vec::new();
        let mut cur = id;
        loop
            invariant
                self.wf(),
                target == self.collected(cur, down as int) + self.chain(path@),
                forall|k: int| 0 <= k < path@.len() ==> (#[trigger] path@[k] as int) < self.nodes.len(),
            ensures
                target == self.chain(path@),
                forall|k: int| 0 <= k < path@.len() ==> (#[trigger] path@[k] as int) < self.nodes.len(),
            decreases Self::index(cur) + 1,
        {
            let node = match self.get(cur) {
                Some(n) => n,
                None => {
                    assert(self.collected(cur, down as int) =~= seq![]);
                    assert(target =~= self.chain(path@));
                    break;
                },
            };
            if node.height <= down {
                assert(self.collected(cur, down as int) =~= seq![]);
                assert(target =~= self.chain(path@));
                break;
            }
            let i = match cur {
                NodeId::Node(i) => i,
                NodeId::Root => break,
            };
            proof {
                assert(self.node_wf(i as int));
                let np = path@.push(i);
                assert(np.drop_last() =~= path@);
                assert(self.chain(np) == node_chrono(self.nodes@[i as int]) + self.chain(path@));
                assert(target =~= self.collected(node.parent, down as int) + self.chain(np));
            }
            path.push(i);
            cur = node.parent;
        }
        let mut r: Vec<Message> = Vec::new();
        let mut j = path.len();
        assert(path@.take(j as int) =~= path@);
        while j > 0
            invariant
                self.wf(),
                j <= path@.len(),
                forall|k: int| 0 <= k < path@.len() ==> (#[trigger] path@[k] as int) < self.nodes.len(),
                views(r@) + self.chain(path@.take(j as int)) == target,
            decreases j,
        {
            j = j - 1;
            let ghost before = views(r@);
            let k = path[j] as usize;
            assert(self.node_wf(k as int));
            self.nodes[k].push_messages(&mut r);
            proof {
                let t = path@.take(j as int + 1);
                assert(t.drop_last() =~= path@.take(j as int));
                assert(self.chain(t) == node_chrono(self.nodes@[k as int]) + self.chain(path@.take(j as int)));
                assert(views(r@) + self.chain(path@.take(j as int)) =~= before + self.chain(t));
            }
        }
        assert(views(r@) =~= target);
        let n = r.len();
        if n > 0 {
            if let Role::Assistant = r[n - 1].role {
                r.pop();
                assert(views(r@) =~= target.drop_last());
            }
        }
        r
    }
}


impl Node {
    /// The node with focus on `f` (one of its two buffers, or neither).
    pub open spec fn with_focus(self, f: Option<SessionAreaId>) -> Node {
        Node {
            user_area: SessionTextArea { active: f == Some(SessionAreaId::User), ..self.user_area },
            assistant_area: SessionTextArea {
                active: f == Some(SessionAreaId::Assistant),
                ..self.assistant_area
            },
            active: f,
            ..self
        }
    }

    /// Focuses the buffer `area`, after dimming the one that had focus;
    /// `System` leaves neither buffer of the node focused.
    pub fn activate(&mut self, area: SessionAreaId)
        requires
            old(self).focus_ok(),
        ensures
            *final(self) == old(self).with_focus(
                if area == SessionAreaId::System {
                    None
                } else {
                    Some(area)
                },
            ),
    {
        match self.active {
            Some(SessionAreaId::User) => self.user_area.inactivate(),
            Some(SessionAreaId::Assistant) => self.assistant_area.inactivate(),
            _ => {},
        }
        match area {
            SessionAreaId::User => {
                self.user_area.activate();
                self.active = Some(SessionAreaId::User);
            },
            SessionAreaId::Assistant => {
                self.assistant_area.activate();
                self.active = Some(SessionAreaId::Assistant);
            },
            SessionAreaId::System => {
                self.active = None;
            },
        }
    }

    /// Dims both buffers.
    pub fn inactivate(&mut self)
        ensures
            *final(self) == old(self).with_focus(None),
    {
        self.assistant_area.inactivate();
        self.user_area.inactivate();
        self.active = None;
    }

    /// The buffer `id` of the node.
    pub fn area(&self, id: SessionAreaId) -> (r: &SessionTextArea)
        requires
            id != SessionAreaId::System,
        ensures
            id == SessionAreaId::User ==> *r == self.user_area,
            id == SessionAreaId::Assistant ==> *r == self.assistant_area,
    {
        match id {
            SessionAreaId::Assistant => &self.assistant_area,
            _ => &self.user_area,
        }
    }

    /// Locks both buffers against direct edits.
    pub fn lock(&mut self)
        ensures
            *final(self) == (Node {
                user_area: SessionTextArea { locked: true, ..old(self).user_area },
                assistant_area: SessionTextArea { locked: true, ..old(self).assistant_area },
                ..*old(self)
            }),
    {
        self.user_area.lock();
        self.assistant_area.lock();
    }
}

impl Root {
    /// The node that gets focus when `area` of `id` is activated: for the
    /// user's buffer the node itself; for the assistant's, the node when its
    /// reply is not empty, else its parent; none for the system buffer.
    pub open spec fn focus_target(&self, id: NodeId, area: SessionAreaId) -> Option<NodeId> {
        match area {
            SessionAreaId::System => None,
            SessionAreaId::User => if self.valid(id) {
                Some(id)
            } else {
                None
            },
            SessionAreaId::Assistant => if self.valid(id) && !self.node(id).assistant_area.spec_is_empty() {
                Some(id)
            } else if self.valid(id) && self.valid(self.node(id).parent) {
                Some(self.node(id).parent)
            } else {
                None
            },
        }
    }

    /// `self` is `before` with the focus moved to `area` of `id`: the node that
    /// `focus_target` names has that buffer focused, every other buffer is dimmed.
    pub open spec fn activated(&self, before: Root, id: NodeId, area: SessionAreaId) -> bool {
        let t = before.focus_target(id, area);
        &&& self.nodes.len() == before.nodes.len()
        &&& forall|i: int|
            0 <= i < before.nodes.len() ==> #[trigger] self.nodes@[i] == before.nodes@[i].with_focus(
                if t == Some(NodeId::Node(i as u16)) {
                    Some(area)
                } else {
                    None
                },
            )
        &&& self.active == (match t {
            Some(x) => x,
            None => NodeId::Root,
        })
        &&& self.system_area == (SessionTextArea { active: area == SessionAreaId::System, ..before.system_area })
        &&& self.children == before.children
        &&& self.max_line_length == before.max_line_length
    }

    /// Moves the focus to buffer `area` of node `id`, after dimming whatever had it.
    /// An empty assistant buffer hands the focus to its parent's assistant buffer.
    pub fn activate(&mut self, id: NodeId, area: SessionAreaId)
        requires
            old(self).wf(),
        ensures
            final(self).wf(),
            final(self).activated(*old(self), id, area),
    {
        let ghost old_self = *self;
        let ghost target = self.focus_target(id, area);
        let target_index = self.focus_index(id, area);
        if let NodeId::Node(a) = self.active {
            assert(self.node_wf(a as int));
            self.nodes[a as usize].inactivate();
            self.active = NodeId::Root;
        }
        self.system_area.inactivate();
        assert forall|i: int| 0 <= i < self.nodes.len() implies #[trigger] self.nodes@[i] == old_self.nodes@[i].with_focus(None) by {
            assert(old_self.nodes@[i].focus_ok());
        }
        if let SessionAreaId::System = area {
            self.system_area.activate();
        }
        if let Some(i) = target_index {
            assert(self.nodes@[i as int].focus_ok());
            self.nodes[i as usize].activate(area);
            self.active = NodeId::Node(i);
        }
        proof {
            assert forall|i: int| 0 <= i < self.nodes.len() implies #[trigger] self.nodes@[i] == old_self.nodes@[i].with_focus(
                if target == Some(NodeId::Node(i as u16)) {
                    Some(area)
                } else {
                    None
                },
            ) by {
                assert(old_self.nodes@[i].focus_ok());
                assert(old_self.node_wf(i));
            }
            assert forall|i: int| 0 <= i < self.nodes.len() implies #[trigger] same_links(self.nodes@[i], old_self.nodes@[i]) by {
                assert(old_self.node_wf(i));
            }
            lemma_same_links_shape(old_self, *self);
        }
    }
}


/// Changing what the nodes' buffers hold or show keeps the shape of the tree.
proof fn lemma_same_links_shape(before: Root, after: Root)
    requires
        before.shape_wf(),
        after.nodes.len() == before.nodes.len(),
        forall|i: int|
            0 <= i < before.nodes.len() ==> #[trigger] same_links(after.nodes@[i], before.nodes@[i]),
        after.children == before.children,
        after.system_area.wf(),
        after.system_area.id == SessionAreaId::System,
        after.system_area.max_line_length == after.max_line_length,
    ensures
        after.shape_wf(),
{
    assert forall|i: int| 0 <= i < after.nodes.len() implies #[trigger] after.node_wf(i) by {
        assert(before.node_wf(i));
        assert(same_links(after.nodes@[i], before.nodes@[i]));
        let n = after.nodes@[i];
        if let NodeId::Node(p) = n.parent {
            assert(same_links(after.nodes@[p as int], before.nodes@[p as int]));
        }
        assert(after.spec_height(n.parent) == before.spec_height(n.parent));
        assert(after.children_of(n.parent) == before.children_of(n.parent));
        assert forall|k: int| 0 <= k < n.children@.len() implies ({
            let c = #[trigger] n.children@[k];
            after.valid(c) && after.node(c).parent == NodeId::Node(i as u16)
        }) by {
            let c = n.children@[k];
            assert(c == before.nodes@[i].children@[k]);
            assert(before.valid(c));
            assert(same_links(after.nodes@[Root::index(c)], before.nodes@[Root::index(c)]));
        }
    }
    assert forall|k: int| 0 <= k < after.children@.len() implies ({
        let c = #[trigger] after.children@[k];
        after.valid(c) && after.node(c).parent is Root
    }) by {
        let c = after.children@[k];
        assert(before.valid(c));
        assert(same_links(after.nodes@[Root::index(c)], before.nodes@[Root::index(c)]));
    }
}

/// `a` is a well-formed node that sits where `b` sat, with the same links.
pub open spec fn same_links(a: Node, b: Node) -> bool {
    &&& a.wf()
    &&& a.id == b.id
    &&& a.children == b.children
    &&& a.parent == b.parent
    &&& a.height == b.height
}


/// The messages after a leading system message.
pub open spec fn turns(ms: Seq<(Role, Seq<char>)>) -> Seq<(Role, Seq<char>)> {
    if ms.len() > 0 && ms[0].0 == Role::System {
        ms.drop_first()
    } else {
        ms
    }
}

/// The role that the message at `k` of the turns must have: user and assistant in turn.
pub open spec fn expected_role(k: int) -> Role {
    if k % 2 == 0 {
        Role::User
    } else {
        Role::Assistant
    }
}

/// An optional system message, then user and assistant messages in turn, starting with the user.
pub open spec fn turns_ok(ms: Seq<(Role, Seq<char>)>) -> bool {
    forall|k: int| 0 <= k < turns(ms).len() ==> (#[trigger] turns(ms)[k]).0 == expected_role(k)
}

/// The number of nodes that `n` turn messages fill: one per user message.
pub open spec fn pair_count(n: nat) -> nat {
    (n + 1) / 2
}

/// The lines of an empty buffer after `s` is typed into it.
pub open spec fn typed_lines(s: Seq<char>, max: nat) -> Seq<Seq<char>> {
    type_str(seq![seq![]], s, max)
}

impl Root {
    /// Node `base + j` holds pair `j` of `t` and hangs under the node of pair `j - 1`
    /// (under `start` for the first pair).
    pub open spec fn pair_node_ok(&self, base: int, start: NodeId, t: Seq<(Role, Seq<char>)>, j: int) -> bool {
        let n = self.nodes@[base + j];
        let max = self.max_line_length as nat;
        &&& n.parent == (if j == 0 {
            start
        } else {
            NodeId::Node((base + j - 1) as u16)
        })
        &&& n.user_area.text_lines() == typed_lines(t[2 * j].1, max)
        &&& n.assistant_area.text_lines() == (if 2 * j + 1 < t.len() {
            typed_lines(t[2 * j + 1].1, max)
        } else {
            seq![Seq::<char>::empty()]
        })
    }

    /// Nodes `base`, `base + 1`, ... hold the pairs of `t`, each below the one
    /// before (the first below `start`), and `r` is the last of them (or
    /// `start` when there are none).
    pub open spec fn chain_ok(&self, base: int, start: NodeId, t: Seq<(Role, Seq<char>)>, r: NodeId) -> bool {
        let m = pair_count(t.len()) as int;
        &&& base + m <= self.nodes.len()
        &&& forall|j: int| 0 <= j < m ==> #[trigger] self.pair_node_ok(base, start, t, j)
        &&& r == (if m == 0 {
            start
        } else {
            NodeId::Node((base + m - 1) as u16)
        })
    }

    /// `self` is `before` with one node per pair of `t` chained below `start`,
    /// and `r` is the last of them (or `start` when there are none).
    pub open spec fn chained(&self, before: Root, start: NodeId, t: Seq<(Role, Seq<char>)>, r: NodeId) -> bool {
        let base = before.nodes.len() as int;
        let m = pair_count(t.len()) as int;
        &&& self.nodes.len() == base + m
        &&& forall|j: int| 0 <= j < m ==> #[trigger] self.pair_node_ok(base, start, t, j)
        &&& r == (if m == 0 {
            start
        } else {
            NodeId::Node((base + m - 1) as u16)
        })
        &&& forall|i: int|
            0 <= i < base && NodeId::Node(i as u16) != start ==> self.nodes@[i] == before.nodes@[i]
        &&& (start matches NodeId::Node(p) ==> self.nodes@[p as int] == (Node {
            children: self.nodes@[p as int].children,
            ..before.nodes@[p as int]
        }))
        &&& (start is Node ==> self.children == before.children)
        &&& self.active == before.active
        &&& self.max_line_length == before.max_line_length
    }

    /// Builds a branch from a message list: a leading system message goes to
    /// the system buffer, and each user message (with the assistant's reply
    /// after it, if any) becomes a node below the previous one, the first
    /// below `parent` (the root when none). Returns the last node made, or
    /// the starting point when there are no turns. Messages that do not
    /// alternate user, assistant, user, ... are refused and the tree is left
    /// as it was.
    pub fn insert_messages(&mut self, parent: Option<NodeId>, messages: Vec<Message>) -> (r: Result<NodeId, Error>)
        requires
            old(self).wf(),
            parent matches Some(p) ==> old(self).known(p),
            old(self).nodes.len() + pair_count(turns(views(messages@)).len()) < MAX_NODES,
        ensures
            r is Ok <==> turns_ok(views(messages@)),
            r is Err ==> *final(self) == *old(self),
            r is Err ==> r matches Err(Error::Generic(_)),
            r matches Ok(id) ==> {
                let ms = views(messages@);
                let start = match parent {
                    Some(p) => p,
                    None => NodeId::Root,
                };
                &&& final(self).wf()
                &&& final(self).chained(*old(self), start, turns(ms), id)
                &&& (ms.len() > 0 && ms[0].0 == Role::System ==> final(self).system_area.text_lines()
                    == typed_lines(ms[0].1, old(self).max_line_length as nat))
                &&& (!(ms.len() > 0 && ms[0].0 == Role::System) ==> final(self).system_area
                    == old(self).system_area)
            },
    {
        let ghost ms = views(messages@);
        let n = messages.len();
        let offset: usize = if n > 0 && messages[0].role == Role::System {
            1
        } else {
            0
        };
        assert(turns(ms) =~= ms.subrange(offset as int, n as int));
        let mut k: usize = offset;
        while k < n
            invariant
                offset <= k <= n,
                n == messages@.len(),
                ms == views(messages@),
                turns(ms) == ms.subrange(offset as int, n as int),
                forall|j: int| 0 <= j < k - offset ==> (#[trigger] turns(ms)[j]).0 == expected_role(j),
            decreases n - k,
        {
            let expected = if (k - offset) % 2 == 0 {
                Role::User
            } else {
                Role::Assistant
            };
            assert(turns(ms)[k - offset] == ms[k as int]);
            if messages[k].role != expected {
                assert(!turns_ok(ms)) by {
                    assert(turns(ms)[k - offset].0 != expected_role(k - offset));
                }
                return Err(Error::Generic(String::from_str("messages must alternate user and assistant")));
            }
            k = k + 1;
        }
        assert(turns_ok(ms));
        let ghost old_self = *self;
        let start = match parent {
            Some(p) => p,
            None => NodeId::Root,
        };
        if offset == 1 {
            self.system_area.load(messages[0].content.as_str());
            proof {
                assert forall|i: int| 0 <= i < self.nodes.len() implies #[trigger] same_links(self.nodes@[i], old_self.nodes@[i]) by {
                    assert(old_self.node_wf(i));
                }
                lemma_same_links_shape(old_self, *self);
            }
        }
        let ghost mid = *self;
        let cur = self.insert_turns(start, &messages, offset);
        assert(mid.nodes == old_self.nodes);
        assert(mid.children == old_self.children);
        Ok(cur)
    }
}

impl Root {
    /// Appends under `parent` a node holding `user` and, if given, `reply`.
    fn insert_pair(&mut self, parent: NodeId, user: &str, reply: Option<&str>) -> (r: NodeId)
        requires
            old(self).wf(),
            old(self).known(parent),
            old(self).nodes.len() < MAX_NODES,
        ensures
            final(self).wf(),
            r == NodeId::Node(old(self).nodes.len() as u16),
            final(self).nodes.len() == old(self).nodes.len() + 1,
            forall|i: int|
                0 <= i < old(self).nodes.len() && NodeId::Node(i as u16) != parent ==> final(self).nodes@[i]
                    == old(self).nodes@[i],
            parent matches NodeId::Node(p) ==> final(self).nodes@[p as int] == (Node {
                children: final(self).nodes@[p as int].children,
                ..old(self).nodes@[p as int]
            }),
            parent is Node ==> final(self).children == old(self).children,
            final(self).children_of(parent) == old(self).children_of(parent).push(r),
            final(self).node(r).parent == parent,
            final(self).node(r).user_area.text_lines() == typed_lines(user@, old(self).max_line_length as nat),
            final(self).node(r).assistant_area.text_lines() == match reply {
                Some(a) => typed_lines(a@, old(self).max_line_length as nat),
                None => seq![Seq::<char>::empty()],
            },
            !final(self).node(r).user_area.locked,
            !final(self).node(r).assistant_area.locked,
            final(self).node(r).user_area.max_line_length == old(self).max_line_length,
            final(self).node(r).assistant_area.max_line_length == old(self).max_line_length,
            final(self).active == old(self).active,
            final(self).system_area == old(self).system_area,
            final(self).max_line_length == old(self).max_line_length,
    {
        let c = self.insert_child(parent);
        let ci = self.nodes.len() - 1;
        let ghost before = *self;
        assert(self.node_wf(ci as int));
        self.nodes[ci].user_area.load(user);
        match reply {
            Some(a) => self.nodes[ci].assistant_area.load(a),
            None => {},
        }
        proof {
            assert forall|i: int| 0 <= i < self.nodes.len() implies #[trigger] same_links(self.nodes@[i], before.nodes@[i]) by {
                assert(before.node_wf(i));
            }
            lemma_same_links_shape(before, *self);
            assert forall|i: int| 0 <= i < self.nodes.len() && NodeId::Node(i as u16) != self.active implies (#[trigger] self.nodes@[i]).unfocused() by {
                assert(before.nodes@[i].unfocused() || i == ci);
            }
            assert forall|i: int| 0 <= i < self.nodes.len() implies (#[trigger] self.nodes@[i]).focus_ok() by {
                assert(before.nodes@[i].focus_ok());
            }
        }
        c
    }
}

impl Root {
    /// The index of the node that `focus_target` names.
    fn focus_index(&self, id: NodeId, area: SessionAreaId) -> (r: Option<u16>)
        requires
            self.wf(),
        ensures
            self.focus_target(id, area) == match r {
                Some(i) => Some(NodeId::Node(i)),
                None => None::<NodeId>,
            },
    {
        let ghost target = self.focus_target(id, area);
        match area {
            SessionAreaId::System => None,
            SessionAreaId::Assistant => {
                let own = match self.get(id) {
                    Some(node) => !node.assistant_area.is_empty(),
                    None => false,
                };
                if own {
                    assert(target == Some(id));
                    match id {
                        NodeId::Node(i) => Some(i),
                        NodeId::Root => None,
                    }
                } else {
                    match self.parent(id) {
                        Some(p) => match p.id {
                            NodeId::Node(i) => {
                                proof {
                                    assert(self.node_wf(Self::index(id)));
                                    assert(self.node_wf(Self::index(self.node(id).parent)));
                                }
                                Some(i)
                            },
                            NodeId::Root => {
                                proof {
                                    assert(self.node_wf(Self::index(id)));
                                    assert(self.node_wf(Self::index(self.node(id).parent)));
                                }
                                None
                            },
                        },
                        None => None,
                    }
                }
            },
            SessionAreaId::User => match self.get(id) {
                Some(_) => match id {
                    NodeId::Node(i) => Some(i),
                    NodeId::Root => None,
                },
                None => None,
            },
        }
    }
}

impl Root {
    /// Chains one node per user message of `messages[offset..]` below `start`.
    #[verifier::rlimit(40)]
    fn insert_turns(&mut self, start: NodeId, messages: &Vec<Message>, offset: usize) -> (r: NodeId)
        requires
            old(self).wf(),
            old(self).known(start),
            offset <= messages@.len(),
            old(self).nodes.len() + pair_count((messages@.len() - offset) as nat) < MAX_NODES,
        ensures
            final(self).wf(),
            final(self).chained(*old(self), start, views(messages@).subrange(offset as int, messages@.len() as int), r),
            final(self).system_area == old(self).system_area,
    {
        let ghost ms = views(messages@);
        let ghost t = ms.subrange(offset as int, messages@.len() as int);
        let ghost mid = *self;
        let n = messages.len();
        let base = self.nodes.len();
        let mut cur = start;
        let mut k: usize = offset;
        let ghost mut m: int = 0;
        while k < n
            invariant
                offset <= k <= n,
                n == messages@.len(),
                ms == views(messages@),
                t == ms.subrange(offset as int, n as int),
                k < n ==> k - offset == 2 * m,
                m == pair_count((k - offset) as nat),
                self.wf(),
                base == mid.nodes.len(),
                base + pair_count(t.len()) < MAX_NODES,
                mid.known(start),
                self.known(cur),
                self.system_area == mid.system_area,
                self.chained(mid, start, t.take(k - offset), cur),
            decreases n - k,
        {
            let ghost x = *self;
            let ghost k0 = k;
            let c = if k + 1 < n {
                let c = self.insert_pair(cur, messages[k].content.as_str(), Some(messages[k + 1].content.as_str()));
                k = k + 2;
                c
            } else {
                let c = self.insert_pair(cur, messages[k].content.as_str(), None);
                k = k + 1;
                c
            };
            proof {
                let t0 = t.take(k0 - offset);
                let t1 = t.take(k - offset);
                assert forall|j: int| 0 <= j < m + 1 implies #[trigger] self.pair_node_ok(base as int, start, t1, j) by {
                    if j < m {
                        assert(x.pair_node_ok(base as int, start, t0, j));
                        assert(self.nodes@[base + j].user_area == x.nodes@[base + j].user_area);
                        assert(self.nodes@[base + j].assistant_area == x.nodes@[base + j].assistant_area);
                        assert(self.nodes@[base + j].parent == x.nodes@[base + j].parent);
                        assert(t1[2 * j] == t0[2 * j]);
                        if 2 * j + 1 < t0.len() {
                            assert(t1[2 * j + 1] == t0[2 * j + 1]);
                        }
                    } else {
                        assert(t1[2 * j] == messages@[k0 as int]@);
                        if 2 * j + 1 < t1.len() {
                            assert(t1[2 * j + 1] == messages@[k0 + 1]@);
                        }
                    }
                }
                assert forall|i: int| 0 <= i < base && NodeId::Node(i as u16) != start implies self.nodes@[i] == mid.nodes@[i] by {
                    assert(x.nodes@[i] == mid.nodes@[i]);
                    if NodeId::Node(i as u16) == cur {
                        assert(m > 0);
                    }
                }
                m = m + 1;
            }
            cur = c;
        }
        assert(t.take(n - offset) =~= t);
        cur
    }
}


/// Every node's height is its parent's plus one, and every node is in the
/// children list of its parent, once, and in no other list. `Root::new`
/// makes a tree with this invariant and every change (`insert_child` and the
/// rest) keeps it, so it holds after any sequence of insertions.
pub proof fn lemma_tree_shape(t: Root)
    requires
        t.wf(),
    ensures
        forall|i: int|
            0 <= i < t.nodes.len() ==> {
                let n = #[trigger] t.nodes@[i];
                &&& n.height == t.spec_height(n.parent) + 1
                &&& t.children_of(n.parent).contains(NodeId::Node(i as u16))
                &&& t.children_of(n.parent).no_duplicates()
                &&& forall|x: NodeId|
                    t.known(x) && x != n.parent ==> !(#[trigger] t.children_of(x)).contains(
                        NodeId::Node(i as u16),
                    )
            },
{
    assert forall|i: int| 0 <= i < t.nodes.len() implies {
        let n = #[trigger] t.nodes@[i];
        &&& n.height == t.spec_height(n.parent) + 1
        &&& t.children_of(n.parent).contains(NodeId::Node(i as u16))
        &&& t.children_of(n.parent).no_duplicates()
        &&& forall|x: NodeId|
            t.known(x) && x != n.parent ==> !(#[trigger] t.children_of(x)).contains(NodeId::Node(i as u16))
    } by {
        assert(t.node_wf(i));
        let n = t.nodes@[i];
        if let NodeId::Node(p) = n.parent {
            assert(t.node_wf(p as int));
        }
        assert forall|x: NodeId| t.known(x) && x != n.parent implies !(#[trigger] t.children_of(x)).contains(
            NodeId::Node(i as u16),
        ) by {
            if t.children_of(x).contains(NodeId::Node(i as u16)) {
                let k = choose|k: int| 0 <= k < t.children_of(x).len() && t.children_of(x)[k] == NodeId::Node(i as u16);
                if let NodeId::Node(q) = x {
                    assert(t.node_wf(q as int));
                    assert(t.nodes@[q as int].children@[k] == NodeId::Node(i as u16));
                } else {
                    assert(t.children@[k] == NodeId::Node(i as u16));
                }
            }
        }
    }
}

/// Sibling steps wrap around: after the last child comes the first, before
/// the first comes the last, and in between they step through the list in order.
pub proof fn lemma_siblings_cyclic(t: Root, parent: NodeId)
    requires
        t.wf(),
        t.known(parent),
        t.children_of(parent).len() > 0,
    ensures
        ({
            let s = t.children_of(parent);
            &&& t.siblings_of(s.last()) == s
            &&& t.siblings_of(s[0]) == s
            &&& next_in(s, s.last()) == Some(s[0])
            &&& previous_in(s, s[0]) == Some(s.last())
            &&& forall|k: int| 0 <= k < s.len() - 1 ==> next_in(s, #[trigger] s[k]) == Some(s[k + 1])
            &&& forall|k: int| 0 < k < s.len() ==> previous_in(s, #[trigger] s[k]) == Some(s[k - 1])
            &&& forall|k: int| 0 <= k < s.len() ==> t.siblings_of(#[trigger] s[k]) == s
        }),
{
    let s = t.children_of(parent);
    if let NodeId::Node(p) = parent {
        assert(t.node_wf(p as int));
    }
    assert forall|k: int| 0 <= k < s.len() implies t.siblings_of(#[trigger] s[k]) == s by {
        if let NodeId::Node(p) = parent {
            assert(t.valid(t.nodes@[p as int].children@[k]));
        } else {
            assert(t.valid(t.children@[k]));
        }
    }
    assert(t.siblings_of(s[s.len() - 1]) == s);
    assert(t.siblings_of(s[0]) == s);
    lemma_position_unique(s, s.len() - 1);
    lemma_position_unique(s, 0);
    assert forall|k: int| 0 <= k < s.len() - 1 implies next_in(s, #[trigger] s[k]) == Some(s[k + 1]) by {
        lemma_position_unique(s, k);
    }
    assert forall|k: int| 0 < k < s.len() implies previous_in(s, #[trigger] s[k]) == Some(s[k - 1]) by {
        lemma_position_unique(s, k);
    }
}

/// Activating the assistant buffer of a node whose reply is still empty
/// focuses its parent's assistant buffer, and the tree's focus is the parent.
pub proof fn lemma_empty_reply_focuses_parent(before: Root, after: Root, id: NodeId)
    requires
        before.wf(),
        after.activated(before, id, SessionAreaId::Assistant),
        before.valid(id),
        before.node(id).assistant_area.spec_is_empty(),
        before.valid(before.node(id).parent),
    ensures
        after.active == before.node(id).parent,
        after.node(before.node(id).parent).assistant_area.active,
        after.node(before.node(id).parent).active == Some(SessionAreaId::Assistant),
        !after.node(id).assistant_area.active,
        !after.node(id).user_area.active,
{
    let p = before.node(id).parent;
    assert(before.node_wf(Root::index(id)));
    assert(after.nodes@[Root::index(p)] == before.nodes@[Root::index(p)].with_focus(Some(SessionAreaId::Assistant)));
    assert(after.nodes@[Root::index(id)] == before.nodes@[Root::index(id)].with_focus(None));
}

/// Building a branch from messages and collecting it again gives the messages
/// back: for turns that alternate user and assistant, with no empty message and
/// no line too long for the buffers, collecting from the last node made gives
/// exactly the turns, so `collect_messages` returns them without a trailing reply.
pub proof fn lemma_insert_collect_round_trip(before: Root, after: Root, ms: Seq<(Role, Seq<char>)>, id: NodeId)
    requires
        before.wf(),
        after.wf(),
        turns_ok(ms),
        after.chained(before, NodeId::Root, turns(ms), id),
        forall|k: int|
            0 <= k < turns(ms).len() ==> (#[trigger] turns(ms)[k]).1.len() > 0 && fits(
                turns(ms)[k].1,
                before.max_line_length as nat,
            ),
    ensures
        after.collected(id, 0) == turns(ms),
        drop_trailing_assistant(after.collected(id, 0)) == drop_trailing_assistant(turns(ms)),
{
    let t = turns(ms);
    let base = before.nodes.len() as int;
    let m = pair_count(t.len()) as int;
    if m == 0 {
        assert(t =~= seq![]);
    } else {
        lemma_chain_collected(before, after, t, m - 1);
        assert(t.take(t.len() as int) =~= t);
    }
}

proof fn lemma_chain_collected(before: Root, after: Root, t: Seq<(Role, Seq<char>)>, j: int)
    requires
        after.wf(),
        forall|k: int| 0 <= k < t.len() ==> (#[trigger] t[k]).0 == expected_role(k),
        after.chained(before, NodeId::Root, t, NodeId::Node((before.nodes.len() + pair_count(t.len()) - 1) as u16)),
        pair_count(t.len()) > 0,
        forall|k: int|
            0 <= k < t.len() ==> (#[trigger] t[k]).1.len() > 0 && fits(t[k].1, before.max_line_length as nat),
        0 <= j < pair_count(t.len()),
    ensures
        after.collected(NodeId::Node((before.nodes.len() + j) as u16), 0) == t.take(
            if 2 * j + 2 <= t.len() {
                2 * j + 2
            } else {
                t.len() as int
            },
        ),
    decreases j,
{
    let base = before.nodes.len() as int;
    let i = base + j;
    let id = NodeId::Node(i as u16);
    let max = before.max_line_length as nat;
    assert(after.pair_node_ok(base, NodeId::Root, t, j));
    assert(after.node_wf(i));
    let n = after.nodes@[i];
    lemma_typed_message(t[2 * j].1, max);
    let u = (Role::User, t[2 * j].1);
    assert(t[2 * j].0 == expected_role(2 * j));
    let chrono = node_chrono(n);
    if 2 * j + 1 < t.len() {
        lemma_typed_message(t[2 * j + 1].1, max);
        assert(t[2 * j + 1].0 == expected_role(2 * j + 1));
        assert(chrono == seq![t[2 * j], t[2 * j + 1]]);
    } else {
        assert(lines_empty(seq![Seq::<char>::empty()]));
        assert(chrono == seq![t[2 * j]]);
    }
    assert(after.spec_height(id) > 0);
    if j == 0 {
        assert(after.collected(n.parent, 0) =~= seq![]);
        assert(after.collected(id, 0) == after.collected(n.parent, 0) + chrono);
        if 2 * j + 1 < t.len() {
            assert(t.take(2) =~= seq![t[0], t[1]]);
        } else {
            assert(t.take(1) =~= seq![t[0]]);
        }
    } else {
        lemma_chain_collected(before, after, t, j - 1);
        assert(after.collected(id, 0) == after.collected(n.parent, 0) + chrono);
        if 2 * j + 1 < t.len() {
            assert(t.take(2 * j + 2) =~= t.take(2 * j) + seq![t[2 * j], t[2 * j + 1]]);
        } else {
            assert(t.take(2 * j + 1) =~= t.take(2 * j) + seq![t[2 * j]]);
        }
    }
}

/// A non-empty message whose lines fit is not empty once typed, and reads back as itself.
proof fn lemma_typed_message(s: Seq<char>, max: nat)
    requires
        s.len() > 0,
        fits(s, max),
    ensures
        !lines_empty(typed_lines(s, max)),
        join_lines(typed_lines(s, max)) == s,
{
    lemma_type_fits(s, max);
    let e: Seq<Seq<char>> = seq![seq![]];
    assert(no_newlines(e));
    lemma_type_str_no_newlines(e, s, max);
    let l = typed_lines(s, max);
    if l.len() == 1 {
        assert(join_lines(l) == l[0]);
        if l[0] == seq!['\n'] {
            assert(l[0][0] == '\n');
        }
    }
}


/// Changing only the text or the locks of buffers keeps the tree's invariant.
proof fn lemma_retext(before: Root, after: Root, k: int)
    requires
        before.wf(),
        after.nodes.len() == before.nodes.len(),
        forall|i: int| 0 <= i < before.nodes.len() && i != k ==> #[trigger] after.nodes@[i] == before.nodes@[i],
        0 <= k < before.nodes.len() ==> {
            let a = after.nodes@[k];
            let b = before.nodes@[k];
            &&& same_links(a, b)
            &&& a.active == b.active
            &&& a.user_area.active == b.user_area.active
            &&& a.assistant_area.active == b.assistant_area.active
        },
        after.children == before.children,
        after.active == before.active,
        after.max_line_length == before.max_line_length,
        after.system_area.wf(),
        after.system_area.id == SessionAreaId::System,
        after.system_area.max_line_length == after.max_line_length,
        after.system_area.active == before.system_area.active,
    ensures
        after.wf(),
{
    assert forall|i: int| 0 <= i < before.nodes.len() implies #[trigger] same_links(after.nodes@[i], before.nodes@[i]) by {
        assert(before.node_wf(i));
    }
    lemma_same_links_shape(before, after);
    assert forall|i: int| 0 <= i < after.nodes.len() && NodeId::Node(i as u16) != after.active implies (#[trigger] after.nodes@[i]).unfocused() by {
        assert(before.nodes@[i].unfocused());
    }
    assert forall|i: int| 0 <= i < after.nodes.len() implies (#[trigger] after.nodes@[i]).focus_ok() by {
        assert(before.nodes@[i].focus_ok());
    }
}

impl Root {
    /// Buffer `area` (user or assistant) of node `id`.
    pub open spec fn area_of_node(&self, id: NodeId, area: SessionAreaId) -> SessionTextArea {
        if area == SessionAreaId::User {
            self.node(id).user_area
        } else {
            self.node(id).assistant_area
        }
    }

    /// Applies `input` to buffer `area` of node `id` (the system buffer for
    /// `System`); false when the buffer is locked and the input is an edit.
    pub fn input_at(&mut self, id: NodeId, area: SessionAreaId, input: Input) -> (r: bool)
        requires
            old(self).wf(),
            area == SessionAreaId::System || old(self).valid(id),
        ensures
            final(self).wf(),
            final(self).active == old(self).active,
            final(self).children == old(self).children,
            final(self).nodes.len() == old(self).nodes.len(),
            final(self).max_line_length == old(self).max_line_length,
            forall|i: int|
                0 <= i < old(self).nodes.len() ==> (#[trigger] final(self).nodes@[i]).parent == old(self).nodes@[i].parent,
            area == SessionAreaId::System ==> {
                &&& r == !(old(self).system_area.locked && input.edits())
                &&& final(self).nodes == old(self).nodes
                &&& (r ==> final(self).system_area.text_lines() == apply_input(
                    old(self).system_area.text_lines(),
                    input,
                    old(self).system_area.max(),
                ))
                &&& (!r ==> *final(self) == *old(self))
            },
            area != SessionAreaId::System ==> r == !(old(self).area_of_node(id, area).locked && input.edits()),
            area != SessionAreaId::System && r ==> final(self).area_of_node(id, area).text_lines() == apply_input(
                old(self).area_of_node(id, area).text_lines(),
                input,
                old(self).area_of_node(id, area).max(),
            ),
            area != SessionAreaId::System && !r ==> final(self).nodes@ == old(self).nodes@,
            area != SessionAreaId::System ==> final(self).area_of_node(id, area).same_settings(
                &old(self).area_of_node(id, area),
            ),
            area != SessionAreaId::System ==> final(self).system_area == old(self).system_area,
            area != SessionAreaId::System ==> forall|i: int|
                0 <= i < old(self).nodes.len() && NodeId::Node(i as u16) != id ==> final(self).nodes@[i]
                    == old(self).nodes@[i],
    {
        let ghost before = *self;
        let ghost k = if area == SessionAreaId::System {
            -1
        } else {
            Self::index(id)
        };
        let r = match area {
            SessionAreaId::System => self.system_area.input(input),
            SessionAreaId::User => {
                let i = match id {
                    NodeId::Node(i) => i as usize,
                    NodeId::Root => 0,
                };
                assert(self.node_wf(i as int));
                self.nodes[i].user_area.input(input)
            },
            SessionAreaId::Assistant => {
                let i = match id {
                    NodeId::Node(i) => i as usize,
                    NodeId::Root => 0,
                };
                assert(self.node_wf(i as int));
                self.nodes[i].assistant_area.input(input)
            },
        };
        proof {
            lemma_retext(before, *self, k);
            if !r {
                assert(self.nodes@ =~= before.nodes@);
            }
        }
        r
    }

    /// Types `text` at the end of the reply of node `id`, locked or not.
    pub fn stream_text(&mut self, id: NodeId, text: &str)
        requires
            old(self).wf(),
            old(self).valid(id),
        ensures
            final(self).wf(),
            final(self).node(id).assistant_area.text_lines() == type_str(
                old(self).node(id).assistant_area.text_lines(),
                text@,
                old(self).node(id).assistant_area.max(),
            ),
            final(self).node(id).assistant_area.same_settings(&old(self).node(id).assistant_area),
            final(self).node(id).user_area == old(self).node(id).user_area,
            final(self).node(id).parent == old(self).node(id).parent,
            final(self).node(id).children == old(self).node(id).children,
            final(self).node(id).height == old(self).node(id).height,
            final(self).node(id).id == old(self).node(id).id,
            final(self).max_line_length == old(self).max_line_length,
            final(self).active == old(self).active,
            final(self).children == old(self).children,
            final(self).system_area == old(self).system_area,
            final(self).nodes.len() == old(self).nodes.len(),
            forall|i: int|
                0 <= i < old(self).nodes.len() && NodeId::Node(i as u16) != id ==> final(self).nodes@[i]
                    == old(self).nodes@[i],
    {
        let ghost before = *self;
        let i = match id {
            NodeId::Node(i) => i as usize,
            NodeId::Root => 0,
        };
        assert(self.node_wf(i as int));
        self.nodes[i].assistant_area.force_text(text);
        proof {
            lemma_retext(before, *self, i as int);
        }
    }

    /// Locks both buffers of node `id`.
    pub fn lock_node(&mut self, id: NodeId)
        requires
            old(self).wf(),
            old(self).valid(id),
        ensures
            final(self).wf(),
            final(self).node(id).user_area == (SessionTextArea { locked: true, ..old(self).node(id).user_area }),
            final(self).node(id).assistant_area == (SessionTextArea {
                locked: true,
                ..old(self).node(id).assistant_area
            }),
            final(self).node(id).parent == old(self).node(id).parent,
            final(self).node(id).children == old(self).node(id).children,
            final(self).node(id).height == old(self).node(id).height,
            final(self).node(id).id == old(self).node(id).id,
            final(self).max_line_length == old(self).max_line_length,
            final(self).active == old(self).active,
            final(self).children == old(self).children,
            final(self).system_area == old(self).system_area,
            final(self).nodes.len() == old(self).nodes.len(),
            forall|i: int|
                0 <= i < old(self).nodes.len() && NodeId::Node(i as u16) != id ==> final(self).nodes@[i]
                    == old(self).nodes@[i],
    {
        let ghost before = *self;
        let i = match id {
            NodeId::Node(i) => i as usize,
            NodeId::Root => 0,
        };
        assert(self.node_wf(i as int));
        self.nodes[i].lock();
        proof {
            lemma_retext(before, *self, i as int);
        }
    }

    /// Empties the reply of node `id`; the emptied buffer loses the focus it had.
    pub fn clear_reply(&mut self, id: NodeId)
        requires
            old(self).wf(),
            old(self).valid(id),
        ensures
            final(self).wf(),
            final(self).node(id).assistant_area.text_lines() == seq![Seq::<char>::empty()],
            !final(self).node(id).assistant_area.active,
            final(self).node(id).assistant_area.locked == old(self).node(id).assistant_area.locked,
            final(self).node(id).user_area == old(self).node(id).user_area,
            final(self).node(id).parent == old(self).node(id).parent,
            final(self).node(id).children == old(self).node(id).children,
            final(self).node(id).height == old(self).node(id).height,
            final(self).node(id).id == old(self).node(id).id,
            final(self).max_line_length == old(self).max_line_length,
            final(self).active == old(self).active,
            final(self).children == old(self).children,
            final(self).system_area == old(self).system_area,
            final(self).nodes.len() == old(self).nodes.len(),
            forall|i: int|
                0 <= i < old(self).nodes.len() && NodeId::Node(i as u16) != id ==> final(self).nodes@[i]
                    == old(self).nodes@[i],
    {
        let ghost before = *self;
        let i = match id {
            NodeId::Node(i) => i as usize,
            NodeId::Root => 0,
        };
        assert(self.node_wf(i as int));
        self.nodes[i].assistant_area.clear();
        if let Some(SessionAreaId::Assistant) = self.nodes[i].active {
            self.nodes[i].active = None;
        }
        proof {
            assert forall|j: int| 0 <= j < self.nodes.len() implies #[trigger] same_links(self.nodes@[j], before.nodes@[j]) by {
                assert(before.node_wf(j));
            }
            lemma_same_links_shape(before, *self);
            assert forall|j: int| 0 <= j < self.nodes.len() && NodeId::Node(j as u16) != self.active implies (#[trigger] self.nodes@[j]).unfocused() by {
                assert(before.nodes@[j].unfocused());
            }
            assert forall|j: int| 0 <= j < self.nodes.len() implies (#[trigger] self.nodes@[j]).focus_ok() by {
                assert(before.nodes@[j].focus_ok());
            }
        }
    }

    /// Adds a sibling of node `id` (a new child of its parent) whose user
    /// buffer starts with the text of `id`'s, and returns it.
    pub fn fork_node(&mut self, id: NodeId) -> (r: NodeId)
        requires
            old(self).wf(),
            old(self).valid(id),
            old(self).nodes.len() < MAX_NODES,
        ensures
            final(self).wf(),
            r == NodeId::Node(old(self).nodes.len() as u16),
            final(self).nodes.len() == old(self).nodes.len() + 1,
            final(self).node(r).parent == old(self).node(id).parent,
            final(self).node(r).user_area.text_lines() == typed_lines(
                old(self).node(id).user_area.content(),
                old(self).max_line_length as nat,
            ),
            final(self).node(r).assistant_area.text_lines() == seq![Seq::<char>::empty()],
            final(self).children_of(old(self).node(id).parent) == old(self).children_of(
                old(self).node(id).parent,
            ).push(r),
            !final(self).node(r).user_area.locked,
            !final(self).node(r).assistant_area.locked,
            final(self).node(r).user_area.max_line_length == old(self).max_line_length,
            final(self).node(r).assistant_area.max_line_length == old(self).max_line_length,
            final(self).active == old(self).active,
            final(self).system_area == old(self).system_area,
    {
        let i = match id {
            NodeId::Node(i) => i as usize,
            NodeId::Root => 0,
        };
        assert(self.node_wf(i as int));
        let text = self.nodes[i].user_area.text();
        let parent = self.nodes[i].parent;
        assert(self.known(parent)) by {
            if let NodeId::Node(p) = parent {
                assert(self.node_wf(i as int));
            }
        }
        self.insert_pair(parent, text.as_str(), None)
    }
}


/// The decimal digit for `d` (below ten).
pub open spec fn digit(d: nat) -> char {
    if d == 0 { '0' } else if d == 1 { '1' } else if d == 2 { '2' } else if d == 3 { '3' } else if d == 4 {
        '4'
    } else if d == 5 { '5' } else if d == 6 { '6' } else if d == 7 { '7' } else if d == 8 { '8' } else { '9' }
}

/// `n` written in decimal.
pub open spec fn decimal(n: nat) -> Seq<char>
    decreases n,
{
    if n < 10 {
        seq![digit(n)]
    } else {
        decimal(n / 10).push(digit(n % 10))
    }
}

fn digit_char(d: u16) -> (r: char)
    requires
        d < 10,
    ensures
        r == digit(d as nat),
{
    if d == 0 { '0' } else if d == 1 { '1' } else if d == 2 { '2' } else if d == 3 { '3' } else if d == 4 {
        '4'
    } else if d == 5 { '5' } else if d == 6 { '6' } else if d == 7 { '7' } else if d == 8 { '8' } else { '9' }
}

fn decimal_string(n: u16) -> (r: String)
    ensures
        r@ == decimal(n as nat),
    decreases n,
{
    if n < 10 {
        let mut r = String::new();
        string_push(&mut r, digit_char(n));
        assert(r@ =~= seq![digit(n as nat)]);
        r
    } else {
        let mut r = decimal_string(n / 10);
        string_push(&mut r, digit_char(n % 10));
        r
    }
}

/// What separates the steps of a breadcrumb.
pub open spec fn crumb_separator() -> Seq<char> {
    seq![' ', '>', ' ']
}

/// The steps of a breadcrumb from a list of nodes that runs from a node up
/// to the root: from the list's end to its start, each node's index and a separator.
pub open spec fn crumbs(up: Seq<u16>) -> Seq<char>
    decreases up.len(),
{
    if up.len() == 0 {
        seq![]
    } else {
        decimal(up.last() as nat) + crumb_separator() + crumbs(up.drop_last())
    }
}

impl Root {
    /// Node `i` and its ancestors, from `i` up to the top-level node.
    pub open spec fn ancestors(&self, i: int) -> Seq<u16>
        decreases i + 1,
    {
        if 0 <= i < self.nodes.len() {
            match self.nodes@[i].parent {
                NodeId::Node(p) => if (p as int) < i {
                    seq![i as u16] + self.ancestors(p as int)
                } else {
                    seq![i as u16]
                },
                NodeId::Root => seq![i as u16],
            }
        } else {
            seq![]
        }
    }

    /// The title of buffer `area` of node `i`: the path from the root to the
    /// node, then the buffer's name.
    pub open spec fn title_of(&self, i: int, area: SessionAreaId) -> Seq<char> {
        crumbs(self.ancestors(i)) + area_name(area)
    }

    /// The path from the root to node `i`, each step followed by the separator.
    fn breadcrumb(&self, i: u16) -> (r: String)
        requires
            self.wf(),
            (i as int) < self.nodes.len(),
        ensures
            r@ == crumbs(self.ancestors(i as int)),
    {
        let mut up: Vec<u16> = Vec::new();
        let mut cur: NodeId = NodeId::Node(i);
        loop
            invariant
                self.wf(),
                self.ancestors(i as int) == up@ + match cur {
                    NodeId::Node(c) => self.ancestors(c as int),
                    NodeId::Root => seq![],
                },
                cur matches NodeId::Node(c) ==> (c as int) < self.nodes.len(),
            ensures
                self.ancestors(i as int) == up@,
            decreases Self::index(cur) + 1,
        {
            let c = match cur {
                NodeId::Node(c) => c,
                NodeId::Root => {
                    assert(up@ + seq![] =~= up@);
                    break;
                },
            };
            assert(self.node_wf(c as int));
            let ghost prev = up@;
            up.push(c);
            cur = self.nodes[c as usize].parent;
            assert(prev + self.ancestors(c as int) =~= up@ + match cur {
                NodeId::Node(p) => self.ancestors(p as int),
                NodeId::Root => seq![],
            });
        }
        let mut r = String::new();
        let mut j = up.len();
        let sep = " > ";
        proof {
            reveal_strlit(" > ");
            assert(sep@ =~= crumb_separator());
            assert(up@.take(j as int) =~= up@);
        }
        while j > 0
            invariant
                j <= up@.len(),
                sep@ == crumb_separator(),
                r@ + crumbs(up@.take(j as int)) == crumbs(up@),
            decreases j,
        {
            j = j - 1;
            let ghost prev = r@;
            let d = decimal_string(up[j]);
            r.append(d.as_str());
            r.append(sep);
            proof {
                let t = up@.take(j as int + 1);
                assert(t.drop_last() =~= up@.take(j as int));
                assert(r@ + crumbs(up@.take(j as int)) =~= prev + crumbs(t));
            }
        }
        assert(r@ =~= crumbs(up@));
        r
    }

    /// Titles both buffers of node `i` with its breadcrumb.
    fn set_titles(&mut self, i: u16)
        requires
            old(self).wf(),
            (i as int) < old(self).nodes.len(),
        ensures
            final(self).wf(),
            final(self).nodes.len() == old(self).nodes.len(),
            forall|j: int| 0 <= j < old(self).nodes.len() && j != i ==> final(self).nodes@[j] == old(self).nodes@[j],
            final(self).nodes@[i as int] == (Node {
                user_area: SessionTextArea {
                    title: final(self).nodes@[i as int].user_area.title,
                    ..old(self).nodes@[i as int].user_area
                },
                assistant_area: SessionTextArea {
                    title: final(self).nodes@[i as int].assistant_area.title,
                    ..old(self).nodes@[i as int].assistant_area
                },
                ..old(self).nodes@[i as int]
            }),
            final(self).nodes@[i as int].user_area.title@ == old(self).title_of(i as int, SessionAreaId::User),
            final(self).nodes@[i as int].assistant_area.title@ == old(self).title_of(
                i as int,
                SessionAreaId::Assistant,
            ),
            final(self).active == old(self).active,
            final(self).children == old(self).children,
            final(self).system_area == old(self).system_area,
            final(self).max_line_length == old(self).max_line_length,
    {
        let ghost before = *self;
        let crumb = self.breadcrumb(i);
        let user = crumb.clone().concat(SessionAreaId::User.name().as_str());
        let assistant = crumb.concat(SessionAreaId::Assistant.name().as_str());
        assert(self.node_wf(i as int));
        self.nodes[i as usize].user_area.set_title(user);
        self.nodes[i as usize].assistant_area.set_title(assistant);
        proof {
            lemma_retext(before, *self, i as int);
        }
    }
}

impl Root {
    /// Appends a new node under `parent` (the root or a node of the tree) and
    /// returns its id. Both buffers of the node are titled with its breadcrumb:
    /// the indices of the nodes from the root down to it, then the buffer's name.
    pub fn insert_child(&mut self, parent: NodeId) -> (r: NodeId)
        requires
            old(self).wf(),
            old(self).known(parent),
            old(self).nodes.len() < MAX_NODES,
        ensures
            final(self).wf(),
            r == NodeId::Node(old(self).nodes.len() as u16),
            final(self).nodes.len() == old(self).nodes.len() + 1,
            forall|i: int|
                0 <= i < old(self).nodes.len() && NodeId::Node(i as u16) != parent ==> final(self).nodes@[i]
                    == old(self).nodes@[i],
            parent matches NodeId::Node(p) ==> final(self).nodes@[p as int] == (Node {
                children: final(self).nodes@[p as int].children,
                ..old(self).nodes@[p as int]
            }),
            final(self).children_of(parent) == old(self).children_of(parent).push(r),
            forall|x: NodeId|
                old(self).known(x) && x != parent ==> #[trigger] final(self).children_of(x) == old(self).children_of(x),
            parent is Node ==> final(self).children == old(self).children,
            final(self).node(r).parent == parent,
            final(self).node(r).height == old(self).spec_height(parent) + 1,
            final(self).node(r).children@.len() == 0,
            final(self).node(r).unfocused(),
            final(self).node(r).user_area.text_lines() == seq![Seq::<char>::empty()],
            final(self).node(r).assistant_area.text_lines() == seq![Seq::<char>::empty()],
            !final(self).node(r).user_area.locked,
            !final(self).node(r).assistant_area.locked,
            final(self).node(r).user_area.max_line_length == old(self).max_line_length,
            final(self).node(r).assistant_area.max_line_length == old(self).max_line_length,
            final(self).active == old(self).active,
            final(self).system_area == old(self).system_area,
            final(self).max_line_length == old(self).max_line_length,
            final(self).node(r).user_area.title@ == final(self).title_of(Self::index(r), SessionAreaId::User),
            final(self).node(r).assistant_area.title@ == final(self).title_of(
                Self::index(r),
                SessionAreaId::Assistant,
            ),
    {
        let id = self.push_child(parent);
        let i = (self.nodes.len() - 1) as u16;
        let ghost mid = *self;
        self.set_titles(i);
        proof {
            assert(self.ancestors(i as int) == mid.ancestors(i as int)) by {
                lemma_ancestors_same(mid, *self, i as int);
            }
        }
        id
    }
}

/// Ancestor lists depend on the parent links alone.
proof fn lemma_ancestors_same(a: Root, b: Root, i: int)
    requires
        a.nodes.len() == b.nodes.len(),
        forall|j: int| 0 <= j < a.nodes.len() ==> (#[trigger] a.nodes@[j]).parent == b.nodes@[j].parent,
    ensures
        a.ancestors(i) == b.ancestors(i),
    decreases i + 1,
{
    if 0 <= i < a.nodes.len() {
        assert(a.nodes@[i].parent == b.nodes@[i].parent);
        if let NodeId::Node(p) = a.nodes@[i].parent {
            if (p as int) < i {
                lemma_ancestors_same(a, b, p as int);
            }
        }
    }
}

/// Moving the focus keeps a chain of turns as it is.
pub proof fn lemma_chain_ok_refocus(
    before: Root,
    after: Root,
    id: NodeId,
    area: SessionAreaId,
    base: int,
    start: NodeId,
    t: Seq<(Role, Seq<char>)>,
    r: NodeId,
)
    requires
        before.chain_ok(base, start, t, r),
        after.activated(before, id, area),
        0 <= base,
    ensures
        after.chain_ok(base, start, t, r),
{
    assert forall|j: int| 0 <= j < pair_count(t.len()) as int implies #[trigger] after.pair_node_ok(base, start, t, j) by {
        assert(before.pair_node_ok(base, start, t, j));
        let k = base + j;
        assert(after.nodes@[k].user_area.text_lines() == before.nodes@[k].user_area.text_lines());
        assert(after.nodes@[k].assistant_area.text_lines() == before.nodes@[k].assistant_area.text_lines());
    }
}

} // verus!
