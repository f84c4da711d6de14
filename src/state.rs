use vstd::prelude::*;
use vstd::string::*;

use crate::completion::{updated, ContentBlock, ContentDelta, MessageStartData, TextEvent};
use crate::message::{string_push, Message, Role};

verus! {

/// `s` without one trailing carriage return.
pub open spec fn strip_cr(s: Seq<char>) -> Seq<char> {
    if s.len() > 0 && s.last() == '\r' {
        s.drop_last()
    } else {
        s
    }
}

/// The lines read so far and the line being read.
pub open spec fn split_scan(s: Seq<char>) -> (Seq<Seq<char>>, Seq<char>)
    decreases s.len(),
{
    if s.len() == 0 {
        (seq![], seq![])
    } else {
        let (done, cur) = split_scan(s.drop_last());
        if s.last() == '\n' {
            (done.push(strip_cr(cur)), seq![])
        } else {
            (done, cur.push(s.last()))
        }
    }
}

/// The lines of `s`: split at each newline, a carriage return before it
/// dropped, and no empty line after a final newline.
pub open spec fn split_lines(s: Seq<char>) -> Seq<Seq<char>> {
    let (done, cur) = split_scan(s);
    if cur.len() > 0 {
        done.push(cur)
    } else {
        done
    }
}

/// `b` is a text block holding `s`.
pub open spec fn is_text(b: ContentBlock, s: Seq<char>) -> bool {
    b matches ContentBlock::Text { text } && text@ == s
}

/// `b` holds one text block per line of `s`.
pub open spec fn blocks_of(b: Seq<ContentBlock>, s: Seq<char>) -> bool {
    &&& b.len() == split_lines(s).len()
    &&& forall|k: int| 0 <= k < b.len() ==> is_text(#[trigger] b[k], split_lines(s)[k])
}

/// The text of a block; nothing for other content.
pub open spec fn block_text(b: ContentBlock) -> Seq<char> {
    match b {
        ContentBlock::Text { text } => text@,
        ContentBlock::Other => seq![],
    }
}

/// The texts of the blocks joined by newlines.
pub open spec fn join_blocks(bs: Seq<ContentBlock>) -> Seq<char>
    decreases bs.len(),
{
    if bs.len() == 0 {
        seq![]
    } else if bs.len() == 1 {
        block_text(bs[0])
    } else {
        join_blocks(bs.drop_last()) + seq!['\n'] + block_text(bs.last())
    }
}

/// The message of `role` that a buffer of blocks makes.
pub open spec fn buffer_message(bs: Seq<ContentBlock>, role: Role) -> (Role, Seq<char>) {
    (role, join_blocks(bs))
}

/// The conversation as a flat record of buffers by role, filled from whole
/// messages and from reply events.
#[derive(Debug)]
pub struct StateInner {
    pub user_buffers: Vec<Vec<ContentBlock>>,
    pub assistant_buffers: Vec<Vec<ContentBlock>>,
    pub system_buffers: Vec<Vec<ContentBlock>>,
    pub start_messages: Vec<MessageStartData>,
    pub last_drawn_lines: u16,
}

/// One text block per line of `content`.
fn to_content_blocks(content: &str) -> (r: Vec<ContentBlock>)
    ensures
        r@.len() == split_lines(content@).len(),
        forall|k: int| 0 <= k < r@.len() ==> is_text(#[trigger] r@[k], split_lines(content@)[k]),
{
    let n = content.unicode_len();
    let mut r: Vec<ContentBlock> = Vec::new();
    let mut cur = String::new();
    let mut i: usize = 0;
    while i < n
        invariant
            n == content@.len(),
            i <= n,
            ({
                let (done, c) = split_scan(content@.take(i as int));
                &&& r@.len() == done.len()
                &&& forall|k: int| 0 <= k < r@.len() ==> is_text(#[trigger] r@[k], done[k])
                &&& cur@ == c
            }),
        decreases n - i,
    {
        let c = content.get_char(i);
        assert(content@.take(i as int + 1).drop_last() =~= content@.take(i as int));
        if c == '\n' {
            let len = cur.as_str().unicode_len();
            let line = if len > 0 && cur.as_str().get_char(len - 1) == '\r' {
                String::from_str(cur.as_str().substring_char(0, len - 1))
            } else {
                cur
            };
            proof {
                if len > 0 && cur@.last() == '\r' {
                    assert(line@ =~= strip_cr(cur@));
                }
            }
            r.push(ContentBlock::Text { text: line });
            cur = String::new();
        } else {
            string_push(&mut cur, c);
        }
        i = i + 1;
    }
    assert(content@.take(n as int) =~= content@);
    if cur.as_str().unicode_len() > 0 {
        r.push(ContentBlock::Text { text: cur });
    }
    r
}

/// The buffer's text: the blocks' texts joined by newlines.
fn join_texts(bs: &Vec<ContentBlock>) -> (r: String)
    ensures
        r@ == join_blocks(bs@),
{
    let mut r = String::new();
    let mut i: usize = 0;
    while i < bs.len()
        invariant
            i <= bs@.len(),
            r@ == join_blocks(bs@.take(i as int)),
        decreases bs@.len() - i,
    {
        let ghost t = bs@.take(i as int + 1);
        assert(t.drop_last() =~= bs@.take(i as int));
        if i > 0 {
            let nl = "\n";
            proof {
                reveal_strlit("\n");
                assert(nl@ =~= seq!['\n']);
            }
            r.append(nl);
        }
        match &bs[i] {
            ContentBlock::Text { text } => r.append(text.as_str()),
            ContentBlock::Other => {},
        }
        proof {
            if i == 0 {
                assert(join_blocks(t) == block_text(t[0]));
                assert(r@ =~= join_blocks(t));
            } else {
                assert(r@ =~= join_blocks(t));
            }
        }
        i = i + 1;
    }
    assert(bs@.take(bs@.len() as int) =~= bs@);
    r
}

/// A copy of a block.
fn copy_block(b: &ContentBlock) -> (r: ContentBlock)
    ensures
        r == *b,
{
    match b {
        ContentBlock::Text { text } => ContentBlock::Text { text: text.clone() },
        ContentBlock::Other => ContentBlock::Other,
    }
}

impl StateInner {
    /// One empty user buffer and nothing else.
    pub fn new() -> (r: StateInner)
        ensures
            r.user_buffers@.len() == 1,
            r.user_buffers@[0]@.len() == 0,
            r.assistant_buffers@.len() == 0,
            r.system_buffers@.len() == 0,
            r.start_messages@.len() == 0,
            r.last_drawn_lines == 0,
    {
        StateInner {
            user_buffers: vec![Vec::new()],
            assistant_buffers: Vec::new(),
            system_buffers: Vec::new(),
            start_messages: Vec::new(),
            last_drawn_lines: 0,
        }
    }

    /// Files one message, one block per line, as a new buffer of its role.
    pub fn handle_message(&mut self, message: &Message)
        ensures
            final(self).user_buffers@ == if message.role == Role::User {
                old(self).user_buffers@.push(final(self).user_buffers@.last())
            } else {
                old(self).user_buffers@
            },
            final(self).assistant_buffers@ == if message.role == Role::Assistant {
                old(self).assistant_buffers@.push(final(self).assistant_buffers@.last())
            } else {
                old(self).assistant_buffers@
            },
            final(self).system_buffers@ == if message.role == Role::System {
                old(self).system_buffers@.push(final(self).system_buffers@.last())
            } else {
                old(self).system_buffers@
            },
            message.role == Role::User ==> blocks_of(final(self).user_buffers@.last()@, message.content@),
            message.role == Role::Assistant ==> blocks_of(final(self).assistant_buffers@.last()@, message.content@),
            message.role == Role::System ==> blocks_of(final(self).system_buffers@.last()@, message.content@),
            final(self).start_messages == old(self).start_messages,
    {
        let blocks = to_content_blocks(message.content.as_str());
        match message.role {
            Role::User => self.user_buffers.push(blocks),
            Role::Assistant => self.assistant_buffers.push(blocks),
            Role::System => self.system_buffers.push(blocks),
        }
    }

    /// Files each message in turn, as `handle_message` does.
    pub fn handle_messages(&mut self, messages: Vec<Message>)
        ensures
            final(self).handled(old(self), messages@),
    {
        let mut i: usize = 0;
        while i < messages.len()
            invariant
                i <= messages@.len(),
                old(self).user_buffers@.is_prefix_of(self.user_buffers@),
                old(self).assistant_buffers@.is_prefix_of(self.assistant_buffers@),
                old(self).system_buffers@.is_prefix_of(self.system_buffers@),
                filed(self.user_buffers@, old(self).user_buffers@.len() as int, contents_of(messages@.take(i as int), Role::User)),
                filed(
                    self.assistant_buffers@,
                    old(self).assistant_buffers@.len() as int,
                    contents_of(messages@.take(i as int), Role::Assistant),
                ),
                filed(
                    self.system_buffers@,
                    old(self).system_buffers@.len() as int,
                    contents_of(messages@.take(i as int), Role::System),
                ),
                self.start_messages == old(self).start_messages,
            decreases messages@.len() - i,
        {
            assert(messages@.take(i as int + 1).drop_last() =~= messages@.take(i as int));
            let ghost (u0, a0, s0) = (self.user_buffers@, self.assistant_buffers@, self.system_buffers@);
            self.handle_message(&messages[i]);
            proof {
                let m = messages@[i as int];
                let tk = messages@.take(i as int);
                lemma_filed_push(u0, self.user_buffers@, old(self).user_buffers@.len() as int, tk, m, Role::User);
                lemma_filed_push(a0, self.assistant_buffers@, old(self).assistant_buffers@.len() as int, tk, m, Role::Assistant);
                lemma_filed_push(s0, self.system_buffers@, old(self).system_buffers@.len() as int, tk, m, Role::System);
                assert(messages@.take(i as int + 1) =~= tk.push(m));
            }
            i = i + 1;
        }
        assert(messages@.take(messages@.len() as int) =~= messages@);
    }

    /// Adds the user's text as a new user buffer, one block per line.
    pub fn push_user_event(&mut self, event: String)
        ensures
            final(self).user_buffers@.len() == old(self).user_buffers@.len() + 1,
            forall|k: int| 0 <= k < old(self).user_buffers@.len() ==> #[trigger] final(self).user_buffers@[k] == old(self).user_buffers@[k],
            final(self).user_buffers@.last()@.len() == split_lines(event@).len(),
            forall|k: int|
                0 <= k < split_lines(event@).len() ==> is_text(#[trigger] final(self).user_buffers@.last()@[k], split_lines(event@)[k]),
            final(self).assistant_buffers == old(self).assistant_buffers,
            final(self).system_buffers == old(self).system_buffers,
            final(self).start_messages == old(self).start_messages,
    {
        let blocks = to_content_blocks(event.as_str());
        self.user_buffers.push(blocks);
    }

    /// Records a reply event: a message start is kept, a block start opens a
    /// new assistant buffer, and a delta extends block `index` of the last
    /// assistant buffer (when there is one); other events change nothing.
    pub fn push_assistant_event(&mut self, event: TextEvent)
        ensures
            final(self).pushed(old(self), event),
    {
        let ghost before_all = *self;
        match event {
            TextEvent::MessageStart { message } => self.start_messages.push(message),
            TextEvent::ContentBlockStart { content_block, .. } => {
                let ghost cb = content_block;
                self.assistant_buffers.push(vec![content_block]);
                assert(self.assistant_buffers@.drop_last() =~= before_all.assistant_buffers@);
                assert(self.assistant_buffers@.last()@ =~= seq![cb]);
            },
            TextEvent::ContentBlockDelta { index, delta } => {
                let n = self.assistant_buffers.len();
                if n > 0 && index < self.assistant_buffers[n - 1].len() {
                    let ghost before = self.assistant_buffers@;
                    let mut last = self.assistant_buffers.pop().unwrap();
                    let ghost old_last = last@;
                    let mut block = last.remove(index);
                    block.update(&delta);
                    last.insert(index, block);
                    self.assistant_buffers.push(last);
                    proof {
                        assert(self.assistant_buffers@.drop_last() =~= before.drop_last());
                        assert forall|k: int| 0 <= k < old_last.len() && k != index implies last@[k] == old_last[k] by {
                            if k < index {
                                assert(last@[k] == old_last[k]);
                            } else {
                                assert(last@[k] == old_last[k]);
                            }
                        }
                        let a = self.assistant_buffers@;
                        let b = before;
                        assert(forall|k: int| 0 <= k < b.last()@.len() && k != index ==> a.last()@[k] == b.last()@[k]);
                    }
                }
            },
            _ => {},
        }
    }

    /// The conversation: the system messages, then each user message followed
    /// by the reply at the same position, as far as both go.
    pub fn get_user_message(&self) -> (r: Vec<Message>)
        ensures
            r@.map_values(|m: Message| m@) == self.spec_messages(),
    {
        let mut r: Vec<Message> = Vec::new();
        let mut i: usize = 0;
        while i < self.system_buffers.len()
            invariant
                i <= self.system_buffers@.len(),
                r@.map_values(|m: Message| m@) == self.system_part().take(i as int),
            decreases self.system_buffers@.len() - i,
        {
            let ghost prev = r@.map_values(|m: Message| m@);
            let content = join_texts(&self.system_buffers[i]);
            let m = Message { role: Role::System, content };
            assert(m@ == self.system_part()[i as int]);
            r.push(m);
            assert(r@.map_values(|m: Message| m@) =~= prev.push(m@));
            assert(r@.map_values(|m: Message| m@) =~= self.system_part().take(i as int + 1));
            i = i + 1;
        }
        assert(self.system_part().take(self.system_buffers@.len() as int) =~= self.system_part());
        let pairs = if self.user_buffers.len() < self.assistant_buffers.len() {
            self.user_buffers.len()
        } else {
            self.assistant_buffers.len()
        };
        let mut k: usize = 0;
        while k < pairs
            invariant
                k <= pairs,
                pairs <= self.user_buffers@.len(),
                pairs <= self.assistant_buffers@.len(),
                pairs == self.pair_len(),
                r@.map_values(|m: Message| m@) == self.system_part() + self.pair_part().take(2 * k),
            decreases pairs - k,
        {
            let ghost prev = r@.map_values(|m: Message| m@);
            let user = join_texts(&self.user_buffers[k]);
            let assistant = join_texts(&self.assistant_buffers[k]);
            let mu = Message { role: Role::User, content: user };
            let ma = Message { role: Role::Assistant, content: assistant };
            assert(mu@ == self.pair_part()[2 * k as int]);
            assert(ma@ == self.pair_part()[2 * k + 1]);
            r.push(mu);
            r.push(ma);
            assert(r@.map_values(|m: Message| m@) =~= prev.push(mu@).push(ma@));
            assert(r@.map_values(|m: Message| m@) =~= self.system_part() + self.pair_part().take(2 * k + 2));
            k = k + 1;
        }
        assert(self.pair_part().take(2 * pairs as int) =~= self.pair_part());
        r
    }

    /// A copy of the blocks of the last assistant buffer; none when there is none.
    pub fn get_assistant_buffer(&self) -> (r: Vec<ContentBlock>)
        ensures
            self.assistant_buffers@.len() == 0 ==> r@.len() == 0,
            self.assistant_buffers@.len() > 0 ==> r@ == self.assistant_buffers@.last()@,
    {
        let mut r: Vec<ContentBlock> = Vec::new();
        let n = self.assistant_buffers.len();
        if n == 0 {
            return r;
        }
        let last = &self.assistant_buffers[n - 1];
        let mut i: usize = 0;
        while i < last.len()
            invariant
                i <= last@.len(),
                r@ == last@.take(i as int),
            decreases last@.len() - i,
        {
            r.push(copy_block(&last[i]));
            assert(r@ =~= last@.take(i as int + 1));
            i = i + 1;
        }
        assert(last@.take(last@.len() as int) =~= last@);
        r
    }

    /// `self` is `before` after the reply event `event` was recorded.
    pub open spec fn pushed(&self, before: &StateInner, event: TextEvent) -> bool {
        &&& match event {
                TextEvent::MessageStart { message } => self.start_messages@ == before.start_messages@.push(message)
                    && self.assistant_buffers == before.assistant_buffers,
                TextEvent::ContentBlockStart { content_block, .. } => self.assistant_buffers@.len()
                    == before.assistant_buffers@.len() + 1 && self.assistant_buffers@.drop_last()
                    == before.assistant_buffers@ && self.assistant_buffers@.last()@ == seq![
                    content_block,
                ] && self.start_messages == before.start_messages,
                TextEvent::ContentBlockDelta { index, delta } => {
                    let b = before.assistant_buffers@;
                    let a = self.assistant_buffers@;
                    &&& self.start_messages == before.start_messages
                    &&& a.len() == b.len()
                    &&& (b.len() > 0 && index < b.last()@.len() ==> {
                        &&& a.drop_last() == b.drop_last()
                        &&& a.last()@.len() == b.last()@.len()
                        &&& forall|k: int| 0 <= k < b.last()@.len() && k != index ==> a.last()@[k] == b.last()@[k]
                        &&& updated(b.last()@[index as int], delta, a.last()@[index as int])
                    })
                    &&& (!(b.len() > 0 && index < b.last()@.len()) ==> a == b)
                },
                _ => *self == *before,
            }
        &&& self.user_buffers == before.user_buffers
        &&& self.system_buffers == before.system_buffers
    }

    /// `self` is `before` after `ms` were filed by role.
    pub open spec fn handled(&self, before: &StateInner, ms: Seq<Message>) -> bool {
        &&& before.user_buffers@.is_prefix_of(self.user_buffers@)
        &&& before.assistant_buffers@.is_prefix_of(self.assistant_buffers@)
        &&& before.system_buffers@.is_prefix_of(self.system_buffers@)
        &&& filed(self.user_buffers@, before.user_buffers@.len() as int, contents_of(ms, Role::User))
        &&& filed(self.assistant_buffers@, before.assistant_buffers@.len() as int, contents_of(ms, Role::Assistant))
        &&& filed(self.system_buffers@, before.system_buffers@.len() as int, contents_of(ms, Role::System))
        &&& self.start_messages == before.start_messages
    }

    pub open spec fn system_part(&self) -> Seq<(Role, Seq<char>)> {
        self.system_buffers@.map_values(|b: Vec<ContentBlock>| buffer_message(b@, Role::System))
    }

    pub open spec fn pair_len(&self) -> int {
        if self.user_buffers@.len() < self.assistant_buffers@.len() {
            self.user_buffers@.len() as int
        } else {
            self.assistant_buffers@.len() as int
        }
    }

    /// User messages and replies in turn, as many pairs as both lists have.
    pub open spec fn pair_part(&self) -> Seq<(Role, Seq<char>)> {
        Seq::new(
            (2 * self.pair_len()) as nat,
            |j: int|
                if j % 2 == 0 {
                    buffer_message(self.user_buffers@[j / 2]@, Role::User)
                } else {
                    buffer_message(self.assistant_buffers@[j / 2]@, Role::Assistant)
                },
        )
    }

    pub open spec fn spec_messages(&self) -> Seq<(Role, Seq<char>)> {
        self.system_part() + self.pair_part()
    }
}

/// A request to the conversation record; the answer to `GetPromptMessages`
/// goes back to whoever asked.
#[derive(Debug)]
pub enum StateRequest {
    MessageEvent(Vec<Message>),
    PushAssistantEvent(TextEvent),
    GetPromptMessages,
}

impl StateInner {
    /// Serves one request: files messages, records a reply event, or answers
    /// with the conversation.
    pub fn handle_request(&mut self, request: StateRequest) -> (r: Option<Vec<Message>>)
        ensures
            match request {
                StateRequest::GetPromptMessages => r matches Some(ms) && ms@.map_values(|m: Message| m@)
                    == old(self).spec_messages() && *final(self) == *old(self),
                StateRequest::MessageEvent(ms) => r is None && final(self).handled(old(self), ms@),
                StateRequest::PushAssistantEvent(e) => r is None && final(self).pushed(old(self), e),
            },
    {
        match request {
            StateRequest::MessageEvent(messages) => {
                self.handle_messages(messages);
                None
            },
            StateRequest::PushAssistantEvent(event) => {
                self.push_assistant_event(event);
                None
            },
            StateRequest::GetPromptMessages => Some(self.get_user_message()),
        }
    }
}

/// The contents of the messages of `role` in `ms`, in order.
pub open spec fn contents_of(ms: Seq<Message>, role: Role) -> Seq<Seq<char>>
    decreases ms.len(),
{
    if ms.len() == 0 {
        seq![]
    } else {
        contents_of(ms.drop_last(), role) + if ms.last().role == role {
            seq![ms.last().content@]
        } else {
            seq![]
        }
    }
}

/// From `start` on, `bufs` holds one buffer per text of `cs`, one block per line.
pub open spec fn filed(bufs: Seq<Vec<ContentBlock>>, start: int, cs: Seq<Seq<char>>) -> bool {
    &&& bufs.len() == start + cs.len()
    &&& forall|k: int| 0 <= k < cs.len() ==> blocks_of(#[trigger] bufs[start + k]@, cs[k])
}

proof fn lemma_filed_push(
    before: Seq<Vec<ContentBlock>>,
    after: Seq<Vec<ContentBlock>>,
    start: int,
    ms: Seq<Message>,
    m: Message,
    role: Role,
)
    requires
        0 <= start,
        filed(before, start, contents_of(ms, role)),
        m.role == role ==> after.len() > 0 && after == before.push(after.last()) && blocks_of(after.last()@, m.content@),
        m.role != role ==> after == before,
    ensures
        filed(after, start, contents_of(ms.push(m), role)),
{
    let p = ms.push(m);
    assert(p.drop_last() =~= ms);
    let cs = contents_of(ms, role);
    let cs2 = contents_of(p, role);
    if m.role == role {
        assert(cs2 == cs + seq![m.content@]);
        assert forall|k: int| 0 <= k < cs2.len() implies blocks_of(#[trigger] after[start + k]@, cs2[k]) by {
            if k < cs.len() {
                assert(after[start + k] == before[start + k]);
                assert(cs2[k] == cs[k]);
            }
        }
    } else {
        assert(cs2 =~= cs);
    }
}

} // verus!
