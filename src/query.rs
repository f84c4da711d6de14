use vstd::prelude::*;

use crate::completion::{Content, ContentBlock, ContentDelta, TextEvent};

verus! {

/// The byte that ends a line.
pub const NEWLINE: u8 = 10;

/// The byte that, ending a line, carries its command on to the next line.
pub const CONTINUATION: u8 = 47;

/// What a one-shot query has received so far: the reply's content blocks by
/// index, and how many lines they have printed.
#[derive(Debug, Default)]
pub struct QueryState {
    pub line_no: usize,
    pub messages: Vec<Vec<u8>>,
}

/// The blocks' bytes, one after the other.
pub open spec fn flatten(ms: Seq<Seq<u8>>) -> Seq<u8>
    decreases ms.len(),
{
    if ms.len() == 0 {
        seq![]
    } else {
        flatten(ms.drop_last()) + ms.last()
    }
}

/// The number of line ends in `s`.
pub open spec fn count_newlines(s: Seq<u8>) -> nat
    decreases s.len(),
{
    if s.len() == 0 {
        0
    } else {
        count_newlines(s.drop_last()) + if s.last() == NEWLINE {
            1nat
        } else {
            0nat
        }
    }
}

/// The scan of a reply for commands: the commands found, the command being
/// continued, and the line being read.
pub struct Scan {
    pub blocks: Seq<Seq<u8>>,
    pub current: Seq<u8>,
    pub line: Seq<u8>,
}

/// A finished line: empty lines are skipped; a line ending in the
/// continuation byte joins the command being built, any other line ends it.
pub open spec fn end_line(s: Scan) -> Scan {
    if s.line.len() == 0 {
        s
    } else {
        let c = s.current + s.line + seq![NEWLINE];
        if s.line.last() != CONTINUATION {
            Scan { blocks: s.blocks.push(c), current: seq![], line: seq![] }
        } else {
            Scan { blocks: s.blocks, current: c, line: seq![] }
        }
    }
}

pub open spec fn scan(bytes: Seq<u8>) -> Scan
    decreases bytes.len(),
{
    if bytes.len() == 0 {
        Scan { blocks: seq![], current: seq![], line: seq![] }
    } else {
        let s = scan(bytes.drop_last());
        if bytes.last() == NEWLINE {
            end_line(s)
        } else {
            Scan { line: s.line.push(bytes.last()), ..s }
        }
    }
}

/// The shell commands in `bytes`: each non-empty line, with its newline, is
/// one, except that lines ending in the continuation byte run on into the next.
pub open spec fn code_blocks(bytes: Seq<u8>) -> Seq<Seq<u8>> {
    let s = end_line(scan(bytes));
    if s.current.len() > 0 {
        s.blocks.push(s.current)
    } else {
        s.blocks
    }
}

/// `n`, or the largest `usize` when `n` is larger.
pub open spec fn saturating(n: int) -> int {
    if n > usize::MAX {
        usize::MAX as int
    } else {
        n
    }
}

/// `after` is `before` with `msg` appended to block `index`, empty blocks
/// being added up to it.
pub open spec fn recorded(before: Seq<Seq<u8>>, after: Seq<Seq<u8>>, index: int, msg: Seq<u8>) -> bool {
    &&& after.len() == if before.len() <= index {
        index + 1
    } else {
        before.len() as int
    }
    &&& forall|i: int|
        0 <= i < after.len() && i != index ==> #[trigger] after[i] == if i < before.len() {
            before[i]
        } else {
            seq![]
        }
    &&& after[index] == (if index < before.len() {
        before[index]
    } else {
        seq![]
    }) + msg
}

/// `after` is `before` with `bs[i]` appended to block `i` for each `i`.
pub open spec fn recorded_all(before: Seq<Seq<u8>>, after: Seq<Seq<u8>>, bs: Seq<Seq<u8>>) -> bool {
    &&& after.len() == if before.len() < bs.len() {
        bs.len() as int
    } else {
        before.len() as int
    }
    &&& forall|i: int|
        0 <= i < after.len() ==> #[trigger] after[i] == (if i < before.len() {
            before[i]
        } else {
            seq![]
        }) + (if i < bs.len() {
            bs[i]
        } else {
            seq![]
        })
}

proof fn lemma_recorded_step(b: Seq<Seq<u8>>, x: Seq<Seq<u8>>, y: Seq<Seq<u8>>, bs: Seq<Seq<u8>>, i: int)
    requires
        0 <= i < bs.len(),
        recorded_all(b, x, bs.take(i)),
        recorded(x, y, i, bs[i]),
    ensures
        recorded_all(b, y, bs.take(i + 1)),
{
    let t = bs.take(i + 1);
    assert forall|j: int| 0 <= j < y.len() implies #[trigger] y[j] == (if j < b.len() {
        b[j]
    } else {
        seq![]
    }) + (if j < t.len() {
        t[j]
    } else {
        seq![]
    }) by {
        if j < x.len() {
            assert(x[j] == (if j < b.len() { b[j] } else { seq![] }) + (if j < bs.take(i).len() { bs.take(i)[j] } else { seq![] }));
        }
        if j == i {
            assert(t[j] == bs[i]);
        } else if j < i {
            assert(t[j] == bs.take(i)[j]);
        }
        let e: Seq<u8> = seq![];
        assert(e + e =~= e);
        assert forall|q: Seq<u8>| q + e =~= q && e + q =~= q by {}
    }
}

impl QueryState {
    pub open spec fn blocks(&self) -> Seq<Seq<u8>> {
        self.messages@.map_values(|m: Vec<u8>| m@)
    }

    pub fn new() -> (r: QueryState)
        ensures
            r.line_no == 0,
            r.messages@.len() == 0,
    {
        QueryState { line_no: 0, messages: Vec::new() }
    }

    /// Appends `msg` to content block `index` (adding empty blocks up to it)
    /// and counts its line ends; the count stops at the largest `usize`.
    pub fn add_message(&mut self, index: usize, msg: Vec<u8>)
        requires
            index < usize::MAX,
        ensures
            final(self).line_no == saturating(old(self).line_no + count_newlines(msg@)),
            recorded(old(self).blocks(), final(self).blocks(), index as int, msg@),
    {
        let ghost before = self.blocks();
        while self.messages.len() <= index
            invariant
                index < usize::MAX,
                self.line_no == old(self).line_no,
                self.blocks().len() >= before.len(),
                self.blocks().len() <= if before.len() <= index {
                    index + 1
                } else {
                    before.len() as int
                },
                forall|i: int|
                    0 <= i < self.blocks().len() ==> #[trigger] self.blocks()[i] == if i < before.len() {
                        before[i]
                    } else {
                        seq![]
                    },
            decreases index + 1 - self.messages.len(),
        {
            let ghost prev = self.blocks();
            self.messages.push(Vec::new());
            assert(self.blocks() =~= prev.push(seq![]));
        }
        let mut count: usize = 0;
        let mut k: usize = 0;
        while k < msg.len()
            invariant
                k <= msg@.len(),
                count == count_newlines(msg@.take(k as int)),
                count <= k,
                self.line_no == old(self).line_no,
            decreases msg@.len() - k,
        {
            assert(msg@.take(k as int + 1).drop_last() =~= msg@.take(k as int));
            if msg[k] == NEWLINE {
                count = count + 1;
            }
            k = k + 1;
        }
        assert(msg@.take(msg@.len() as int) =~= msg@);
        self.line_no = self.line_no.saturating_add(count);
        let mut m = msg;
        let ghost mid = self.blocks();
        self.messages[index].append(&mut m);
        assert(self.blocks() =~= mid.update(index as int, mid[index as int] + msg@));
    }

    /// The shell commands in the reply received so far.
    pub fn get_code_blocks(&self) -> (r: Vec<Vec<u8>>)
        ensures
            r@.map_values(|b: Vec<u8>| b@) == code_blocks(flatten(self.blocks())),
    {
        let ghost all = flatten(self.blocks());
        let mut blocks: Vec<Vec<u8>> = Vec::new();
        let mut current: Vec<u8> = Vec::new();
        let mut line: Vec<u8> = Vec::new();
        let mut i: usize = 0;
        while i < self.messages.len()
            invariant
                i <= self.messages@.len(),
                ({
                    let s = scan(flatten(self.blocks().take(i as int)));
                    &&& blocks@.map_values(|b: Vec<u8>| b@) == s.blocks
                    &&& current@ == s.current
                    &&& line@ == s.line
                }),
            decreases self.messages@.len() - i,
        {
            let ghost prefix = flatten(self.blocks().take(i as int));
            let msg = &self.messages[i];
            let mut j: usize = 0;
            while j < msg.len()
                invariant
                    j <= msg@.len(),
                    ({
                        let s = scan(prefix + msg@.take(j as int));
                        &&& blocks@.map_values(|b: Vec<u8>| b@) == s.blocks
                        &&& current@ == s.current
                        &&& line@ == s.line
                    }),
                decreases msg@.len() - j,
            {
                let ghost bytes = prefix + msg@.take(j as int + 1);
                assert(bytes.drop_last() =~= prefix + msg@.take(j as int));
                assert(bytes.last() == msg@[j as int]);
                let b = msg[j];
                if b == NEWLINE {
                    end_line_exec(&mut blocks, &mut current, &mut line);
                } else {
                    line.push(b);
                }
                j = j + 1;
            }
            proof {
                assert(msg@.take(msg@.len() as int) =~= msg@);
                let t = self.blocks().take(i as int + 1);
                assert(t.drop_last() =~= self.blocks().take(i as int));
                assert(flatten(t) == prefix + msg@);
            }
            i = i + 1;
        }
        assert(self.blocks().take(self.messages@.len() as int) =~= self.blocks());
        end_line_exec(&mut blocks, &mut current, &mut line);
        if current.len() > 0 {
            let ghost before = blocks@.map_values(|b: Vec<u8>| b@);
            blocks.push(current);
            assert(blocks@.map_values(|b: Vec<u8>| b@) =~= before.push(current@));
        }
        blocks
    }
}

/// Finishes the line being read, as `end_line` says.
fn end_line_exec(blocks: &mut Vec<Vec<u8>>, current: &mut Vec<u8>, line: &mut Vec<u8>)
    ensures
        ({
            let s = end_line(Scan { blocks: old(blocks)@.map_values(|b: Vec<u8>| b@), current: old(current)@, line: old(line)@ });
            &&& final(blocks)@.map_values(|b: Vec<u8>| b@) == s.blocks
            &&& final(current)@ == s.current
            &&& final(line)@ == s.line
        }),
{
    let n = line.len();
    if n == 0 {
        return;
    }
    let last = line[n - 1];
    let ghost old_blocks = blocks@.map_values(|b: Vec<u8>| b@);
    let ghost c = current@ + line@ + seq![NEWLINE];
    current.append(line);
    current.push(NEWLINE);
    assert(current@ =~= c);
    if last != CONTINUATION {
        let mut done: Vec<u8> = Vec::new();
        done.append(current);
        blocks.push(done);
        assert(blocks@.map_values(|b: Vec<u8>| b@) =~= old_blocks.push(c));
    }
    assert(line@ =~= seq![]);
}


/// The UTF-8 bytes of a block's text; nothing for other content.
pub open spec fn block_bytes(b: ContentBlock) -> Seq<u8> {
    match b {
        ContentBlock::Text { text } => vstd::utf8::encode_utf8(text@),
        ContentBlock::Other => seq![],
    }
}

/// The UTF-8 bytes of a delta's text; nothing for other deltas.
pub open spec fn delta_bytes(d: ContentDelta) -> Seq<u8> {
    match d {
        ContentDelta::TextDelta { text } => vstd::utf8::encode_utf8(text@),
        ContentDelta::Other => seq![],
    }
}

/// The UTF-8 bytes of a piece of content; nothing for other content.
pub open spec fn content_bytes(c: Content) -> Seq<u8> {
    match c {
        Content::Text { text } => vstd::utf8::encode_utf8(text@),
        Content::Other => seq![],
    }
}

impl QueryState {
    /// Records `msg` for block `index` and hands it back for printing; an
    /// index of `usize::MAX` is not recorded.
    pub fn handle_message_bytes(&mut self, index: usize, msg: Vec<u8>) -> (r: Vec<u8>)
        ensures
            r@ == msg@,
            index < usize::MAX ==> {
                &&& final(self).line_no == saturating(old(self).line_no + count_newlines(msg@))
                &&& recorded(old(self).blocks(), final(self).blocks(), index as int, msg@)
            },
            index == usize::MAX ==> *final(self) == *old(self),
    {
        if index < usize::MAX {
            let mut copy: Vec<u8> = Vec::new();
            let mut k: usize = 0;
            while k < msg.len()
                invariant
                    k <= msg@.len(),
                    copy@ == msg@.take(k as int),
                decreases msg@.len() - k,
            {
                copy.push(msg[k]);
                assert(copy@ =~= msg@.take(k as int + 1));
                k = k + 1;
            }
            assert(copy@ =~= msg@);
            self.add_message(index, copy);
        }
        msg
    }

    pub fn handle_content(&mut self, index: usize, content: Content) -> (r: Vec<u8>)
        ensures
            r@ == content_bytes(content),
            index < usize::MAX ==> recorded(old(self).blocks(), final(self).blocks(), index as int, r@),
            index == usize::MAX ==> *final(self) == *old(self),
    {
        let bytes = content.bytes();
        self.handle_message_bytes(index, bytes)
    }

    pub fn handle_content_block_start(&mut self, index: usize, block: ContentBlock) -> (r: Vec<u8>)
        ensures
            r@ == block_bytes(block),
            index < usize::MAX ==> recorded(old(self).blocks(), final(self).blocks(), index as int, r@),
            index == usize::MAX ==> *final(self) == *old(self),
    {
        let bytes = block.bytes();
        self.handle_message_bytes(index, bytes)
    }

    pub fn handle_content_block_delta(&mut self, index: usize, delta: ContentDelta) -> (r: Vec<u8>)
        ensures
            r@ == delta_bytes(delta),
            index < usize::MAX ==> recorded(old(self).blocks(), final(self).blocks(), index as int, r@),
            index == usize::MAX ==> *final(self) == *old(self),
    {
        let bytes = delta.bytes();
        self.handle_message_bytes(index, bytes)
    }

    /// The bytes to print for a reply event, recorded by block: the content
    /// of a whole message, the text of a block as it opens, or a delta.
    pub fn handle_event(&mut self, event: TextEvent) -> (r: Vec<u8>)
        ensures
            match event {
                TextEvent::MessageStart { message } => {
                    let bs = message.content@.map_values(|c: Content| content_bytes(c));
                    &&& r@ == flatten(bs)
                    &&& recorded_all(old(self).blocks(), final(self).blocks(), bs)
                },
                TextEvent::ContentBlockStart { index, content_block } => {
                    &&& r@ == block_bytes(content_block)
                    &&& index < usize::MAX ==> recorded(old(self).blocks(), final(self).blocks(), index as int, r@)
                    &&& index == usize::MAX ==> *final(self) == *old(self)
                },
                TextEvent::ContentBlockDelta { index, delta } => {
                    &&& r@ == delta_bytes(delta)
                    &&& index < usize::MAX ==> recorded(old(self).blocks(), final(self).blocks(), index as int, r@)
                    &&& index == usize::MAX ==> *final(self) == *old(self)
                },
                _ => r@.len() == 0 && *final(self) == *old(self),
            },
    {
        match event {
            TextEvent::MessageStart { message } => {
                let ghost all = message.content@.map_values(|c: Content| content_bytes(c));
                let ghost start = self.blocks();
                let mut out: Vec<u8> = Vec::new();
                proof {
                    assert forall|q: Seq<u8>| q + Seq::<u8>::empty() =~= q by {}
                    assert(recorded_all(start, self.blocks(), all.take(0)));
                }
                let mut i: usize = 0;
                while i < message.content.len()
                    invariant
                        i <= message.content@.len(),
                        all == message.content@.map_values(|c: Content| content_bytes(c)),
                        out@ == flatten(all.take(i as int)),
                        recorded_all(start, self.blocks(), all.take(i as int)),
                    decreases message.content@.len() - i,
                {
                    let bytes = message.content[i].bytes();
                    let ghost x = self.blocks();
                    let mut printed = self.handle_message_bytes(i, bytes);
                    proof {
                        lemma_recorded_step(start, x, self.blocks(), all, i as int);
                    }
                    out.append(&mut printed);
                    proof {
                        let t = all.take(i as int + 1);
                        assert(t.drop_last() =~= all.take(i as int));
                        assert(out@ =~= flatten(t));
                    }
                    i = i + 1;
                }
                assert(all.take(message.content@.len() as int) =~= all);
                out
            },
            TextEvent::ContentBlockStart { index, content_block } => self.handle_content_block_start(index, content_block),
            TextEvent::ContentBlockDelta { index, delta } => self.handle_content_block_delta(index, delta),
            _ => Vec::new(),
        }
    }
}

} // verus!
