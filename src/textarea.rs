use vstd::prelude::*;
use vstd::string::*;

use crate::message::{role_named, string_push, Message, Role};

verus! {

/// Which of the three message buffers a focus or an edit is aimed at.
#[derive(Debug, Clone, Copy, PartialEq, Eq, Structural)]
pub enum SessionAreaId {
    User,
    Assistant,
    System,
}

/// The role of the messages that the buffer `id` holds.
pub open spec fn role_of(id: SessionAreaId) -> Role {
    match id {
        SessionAreaId::User => Role::User,
        SessionAreaId::Assistant => Role::Assistant,
        SessionAreaId::System => Role::System,
    }
}

/// The name of the buffer `id`.
pub open spec fn area_name(id: SessionAreaId) -> Seq<char> {
    match id {
        SessionAreaId::User => seq!['u', 's', 'e', 'r'],
        SessionAreaId::Assistant => seq!['a', 's', 's', 'i', 's', 't', 'a', 'n', 't'],
        SessionAreaId::System => seq!['s', 'y', 's', 't', 'e', 'm'],
    }
}

/// The buffer that holds messages of `role`.
pub open spec fn area_of(role: Role) -> SessionAreaId {
    match role {
        Role::User => SessionAreaId::User,
        Role::Assistant => SessionAreaId::Assistant,
        Role::System => SessionAreaId::System,
    }
}

impl SessionAreaId {
    pub fn role(&self) -> (r: Role)
        ensures
            r == role_of(*self),
    {
        match self {
            SessionAreaId::User => Role::User,
            SessionAreaId::Assistant => Role::Assistant,
            SessionAreaId::System => Role::System,
        }
    }

    /// The buffer's name: `"user"`, `"assistant"` or `"system"`.
    pub fn name(&self) -> (r: String)
        ensures
            r@ == area_name(*self),
    {
        proof {
            reveal_strlit("user");
            reveal_strlit("assistant");
            reveal_strlit("system");
        }
        match self {
            SessionAreaId::User => String::from_str("user"),
            SessionAreaId::Assistant => String::from_str("assistant"),
            SessionAreaId::System => String::from_str("system"),
        }
    }

    /// The buffer named `name`; any name but `"assistant"` and `"system"` is the user's.
    pub fn from_name(name: &str) -> (r: SessionAreaId)
        ensures
            r == area_of(role_named(name@)),
    {
        SessionAreaId::from_role(Role::from_name(name))
    }

    pub fn from_role(role: Role) -> (r: SessionAreaId)
        ensures
            r == area_of(role),
    {
        match role {
            Role::User => SessionAreaId::User,
            Role::Assistant => SessionAreaId::Assistant,
            Role::System => SessionAreaId::System,
        }
    }
}

/// One editing operation on a buffer. Text is entered at the end of the buffer.
#[derive(Debug, Clone, Copy, PartialEq, Eq, Structural)]
pub enum Input {
    Char(char),
    Backspace,
    Delete,
    Enter,
    Tab,
    /// A key that leaves the text as it is (cursor movement and the like).
    Other,
}

impl Input {
    /// Whether the operation is one that a locked buffer refuses.
    pub open spec fn edits(self) -> bool {
        !(self is Other)
    }
}

/// Columns between two tab stops.
pub const TAB_WIDTH: usize = 4;

/// The lines joined by newlines.
pub open spec fn join_lines(lines: Seq<Seq<char>>) -> Seq<char>
    decreases lines.len(),
{
    if lines.len() == 0 {
        seq![]
    } else if lines.len() == 1 {
        lines[0]
    } else {
        join_lines(lines.drop_last()) + seq!['\n'] + lines.last()
    }
}

/// The number of characters after the last newline of `s`.
pub open spec fn tail_len(s: Seq<char>) -> nat
    decreases s.len(),
{
    if s.len() == 0 {
        0
    } else if s.last() == '\n' {
        0
    } else {
        tail_len(s.drop_last()) + 1
    }
}

/// Typing `c` at the end of `lines`: a newline opens a line, and a character
/// that would bring the last line to `max` columns goes to a new line.
pub open spec fn type_char(lines: Seq<Seq<char>>, c: char, max: nat) -> Seq<Seq<char>> {
    if c == '\n' {
        lines.push(seq![])
    } else if lines.len() == 0 || lines.last().len() + 1 >= max {
        lines.push(seq![c])
    } else {
        lines.update(lines.len() - 1, lines.last().push(c))
    }
}

/// Typing the characters of `s` one after the other.
pub open spec fn type_str(lines: Seq<Seq<char>>, s: Seq<char>, max: nat) -> Seq<Seq<char>>
    decreases s.len(),
{
    if s.len() == 0 {
        lines
    } else {
        type_char(type_str(lines, s.drop_last(), max), s.last(), max)
    }
}

/// The spaces that a tab adds to a line of `n` characters.
pub open spec fn spaces(n: nat) -> Seq<char> {
    Seq::new((TAB_WIDTH - n % (TAB_WIDTH as nat)) as nat, |_i: int| ' ')
}

/// What `input` does to the lines of an unlocked buffer.
pub open spec fn apply_input(lines: Seq<Seq<char>>, input: Input, max: nat) -> Seq<Seq<char>> {
    let k = lines.len() - 1;
    match input {
        Input::Char(c) => type_char(lines, c, max),
        Input::Enter => lines.push(seq![]),
        Input::Backspace => if lines.last().len() > 0 {
            lines.update(k, lines.last().drop_last())
        } else if lines.len() > 1 {
            lines.drop_last()
        } else {
            lines
        },
        Input::Tab => lines.update(k, lines.last() + spaces(lines.last().len())),
        _ => lines,
    }
}

/// No line of `lines` holds a newline.
pub open spec fn no_newlines(lines: Seq<Seq<char>>) -> bool {
    forall|i: int, j: int|
        0 <= i < lines.len() && 0 <= j < lines[i].len() ==> #[trigger] lines[i][j] != '\n'
}

/// Every line of `s` stays under `max` columns, so typing `s` breaks no line.
pub open spec fn fits(s: Seq<char>, max: nat) -> bool {
    forall|i: int| 0 <= i < s.len() && s[i] != '\n' ==> tail_len(#[trigger] s.take(i)) + 1 < max
}

/// An empty buffer: no lines, or one line that is empty or a lone newline.
pub open spec fn lines_empty(lines: Seq<Seq<char>>) -> bool {
    lines.len() == 0 || (lines.len() == 1 && (lines[0].len() == 0 || lines[0] == seq!['\n']))
}

pub proof fn lemma_type_str_append(lines: Seq<Seq<char>>, a: Seq<char>, b: Seq<char>, max: nat)
    ensures
        type_str(lines, a + b, max) == type_str(type_str(lines, a, max), b, max),
    decreases b.len(),
{
    if b.len() == 0 {
        assert(a + b =~= a);
    } else {
        lemma_type_str_append(lines, a, b.drop_last(), max);
        assert((a + b).drop_last() =~= a + b.drop_last());
        assert((a + b).last() == b.last());
    }
}

pub proof fn lemma_type_char_no_newlines(lines: Seq<Seq<char>>, c: char, max: nat)
    requires
        no_newlines(lines),
    ensures
        no_newlines(type_char(lines, c, max)),
        type_char(lines, c, max).len() >= 1,
        lines.len() >= 1 ==> type_char(lines, c, max).len() >= lines.len(),
{
    let r = type_char(lines, c, max);
    if c == '\n' {
        assert forall|i: int, j: int| 0 <= i < r.len() && 0 <= j < r[i].len() implies #[trigger] r[i][j] != '\n' by {
            assert(i < lines.len());
            assert(r[i] == lines[i]);
        }
    } else if lines.len() == 0 || lines.last().len() + 1 >= max {
        assert forall|i: int, j: int| 0 <= i < r.len() && 0 <= j < r[i].len() implies #[trigger] r[i][j] != '\n' by {
            if i < lines.len() {
                assert(r[i] == lines[i]);
            }
        }
    } else {
        assert forall|i: int, j: int| 0 <= i < r.len() && 0 <= j < r[i].len() implies #[trigger] r[i][j] != '\n' by {
            if i < lines.len() - 1 {
                assert(r[i] == lines[i]);
            } else {
                assert(r[i] == lines.last().push(c));
                if j < lines.last().len() {
                    assert(lines[lines.len() - 1][j] != '\n');
                }
            }
        }
    }
}

pub proof fn lemma_type_str_no_newlines(lines: Seq<Seq<char>>, s: Seq<char>, max: nat)
    requires
        no_newlines(lines),
        lines.len() >= 1,
    ensures
        no_newlines(type_str(lines, s, max)),
        type_str(lines, s, max).len() >= 1,
    decreases s.len(),
{
    if s.len() > 0 {
        lemma_type_str_no_newlines(lines, s.drop_last(), max);
        lemma_type_char_no_newlines(type_str(lines, s.drop_last(), max), s.last(), max);
    }
}

/// Typing a text whose lines all fit into an empty buffer gives back the text.
pub proof fn lemma_type_fits(s: Seq<char>, max: nat)
    requires
        fits(s, max),
    ensures
        type_str(seq![seq![]], s, max).len() >= 1,
        join_lines(type_str(seq![seq![]], s, max)) == s,
        type_str(seq![seq![]], s, max).last().len() == tail_len(s),
    decreases s.len(),
{
    let e: Seq<Seq<char>> = seq![seq![]];
    if s.len() == 0 {
        assert(join_lines(e) == e[0]);
        assert(s =~= seq![]);
    } else {
        let p = s.drop_last();
        let c = s.last();
        assert forall|i: int| 0 <= i < p.len() && p[i] != '\n' implies tail_len(#[trigger] p.take(i)) + 1 < max by {
            assert(p.take(i) =~= s.take(i));
            assert(s[i] == p[i]);
        }
        lemma_type_fits(p, max);
        let l = type_str(e, p, max);
        let r = type_str(e, s, max);
        assert(r == type_char(l, c, max));
        if c == '\n' {
            assert(r.drop_last() =~= l);
            assert(join_lines(r) == join_lines(l) + seq!['\n'] + r.last());
            assert(s =~= p + seq!['\n'] + seq![]);
        } else {
            assert(s.take(s.len() - 1) =~= p);
            assert(tail_len(s.take(s.len() - 1)) + 1 < max);
            assert(r == l.update(l.len() - 1, l.last().push(c)));
            if l.len() == 1 {
                assert(join_lines(l) == l[0]);
                assert(join_lines(r) == r[0]);
                assert(s =~= p.push(c));
            } else {
                assert(r.drop_last() =~= l.drop_last());
                assert(join_lines(r) == join_lines(r.drop_last()) + seq!['\n'] + r.last());
                assert(join_lines(l) == join_lines(l.drop_last()) + seq!['\n'] + l.last());
                assert(s =~= p.push(c));
                assert(join_lines(r) =~= join_lines(l).push(c));
            }
        }
    }
}

/// A buffer with no lines, or with one line that is empty or a lone newline,
/// is empty: in particular a new buffer without seed lines and a cleared one.
pub proof fn lemma_blank_buffers_are_empty(a: SessionTextArea)
    requires
        a.text_lines() == seq![Seq::<char>::empty()] || a.text_lines() == seq![seq!['\n']] || a.lines@.len() == 0,
    ensures
        a.spec_is_empty(),
{
}

/// An editable message buffer: one role's message in one turn of the conversation.
#[derive(Debug, Clone)]
pub struct SessionTextArea {
    pub id: SessionAreaId,
    pub title: String,
    pub lines: Vec<String>,
    pub locked: bool,
    /// Whether the buffer has input focus (shown highlighted rather than dimmed).
    pub active: bool,
    /// Typed characters go to a new line before a line reaches this many columns.
    pub max_line_length: usize,
}

impl SessionTextArea {
    /// The buffer's lines.
    pub open spec fn text_lines(&self) -> Seq<Seq<char>> {
        self.lines@.map_values(|l: String| l@)
    }

    /// The buffer's content.
    pub open spec fn content(&self) -> Seq<char> {
        join_lines(self.text_lines())
    }

    pub open spec fn max(&self) -> nat {
        self.max_line_length as nat
    }

    pub open spec fn wf(&self) -> bool {
        &&& self.lines.len() >= 1
        &&& no_newlines(self.text_lines())
    }

    pub open spec fn spec_is_empty(&self) -> bool {
        lines_empty(self.text_lines())
    }

    /// Everything but the text is as in `other`.
    pub open spec fn same_settings(&self, other: &SessionTextArea) -> bool {
        &&& self.id == other.id
        &&& self.title == other.title
        &&& self.locked == other.locked
        &&& self.active == other.active
        &&& self.max_line_length == other.max_line_length
    }
}


impl SessionTextArea {
    /// A buffer for `id`, seeded with `lines` (joined by newlines and followed
    /// by one more newline when there are any), unlocked and not focused.
    pub fn new(id: SessionAreaId, lines: &[&str], max_line_length: usize) -> (r: SessionTextArea)
        ensures
            r.wf(),
            r.id == id,
            r.title@ == area_name(id),
            !r.locked,
            !r.active,
            r.max_line_length == max_line_length,
            lines@.len() == 0 ==> r.text_lines() == seq![Seq::<char>::empty()],
            lines@.len() > 0 ==> r.text_lines() == type_str(
                seq![seq![]],
                join_lines(lines@.map_values(|l: &str| l@)),
                max_line_length as nat,
            ).push(seq![]),
    {
        let mut s = SessionTextArea {
            id,
            title: id.name(),
            lines: vec![String::new()],
            locked: false,
            active: false,
            max_line_length,
        };
        let ghost empty: Seq<Seq<char>> = seq![seq![]];
        assert(s.text_lines() =~= empty);
        proof {
            reveal_strlit("\n");
        }
        if lines.len() > 0 {
            let ghost views = lines@.map_values(|l: &str| l@);
            let mut i: usize = 0;
            while i < lines.len()
                invariant
                    0 < lines@.len(),
                    i <= lines@.len(),
                    views == lines@.map_values(|l: &str| l@),
                    s.wf(),
                    s.id == id,
                    s.title@ == area_name(id),
                    !s.locked,
                    !s.active,
                    s.max_line_length == max_line_length,
                    i > 0 ==> s.text_lines() == type_str(empty, join_lines(views.take(i as int)), max_line_length as nat),
                    i == 0 ==> s.text_lines() == empty,
                decreases lines@.len() - i,
            {
                let ghost j = join_lines(views.take(i as int));
                let ghost nl: Seq<char> = seq!['\n'];
                if i > 0 {
                    s.push_char('\n');
                    proof {
                        lemma_type_str_append(empty, j, nl, max_line_length as nat);
                        assert(nl.drop_last() =~= Seq::<char>::empty());
                        assert(type_str(type_str(empty, j, max_line_length as nat), nl.drop_last(), max_line_length as nat) == type_str(empty, j, max_line_length as nat));
                        assert(s.text_lines() == type_str(empty, j + nl, max_line_length as nat));
                    }
                }
                s.force_text(lines[i]);
                proof {
                    let t = views.take(i as int + 1);
                    assert(t.last() == lines@[i as int]@);
                    if i == 0 {
                        assert(t.len() == 1);
                        assert(join_lines(t) == t[0]);
                        assert(type_str(empty, lines@[0]@, max_line_length as nat) == s.text_lines());
                    } else {
                        assert(t.drop_last() =~= views.take(i as int));
                        assert(join_lines(t) == join_lines(views.take(i as int)) + seq!['\n'] + t.last());
                        lemma_type_str_append(empty, j + nl, lines@[i as int]@, max_line_length as nat);
                        assert(join_lines(t) == j + nl + lines@[i as int]@);
                    }
                }
                i = i + 1;
            }
            assert(views.take(lines@.len() as int) =~= views);
            s.push_char('\n');
        }
        s
    }

    /// Appends `c` as typing it would, breaking long lines.
    fn push_char(&mut self, c: char)
        requires
            old(self).wf(),
        ensures
            final(self).wf(),
            final(self).same_settings(old(self)),
            final(self).text_lines() == type_char(old(self).text_lines(), c, old(self).max()),
    {
        let ghost old_lines = self.text_lines();
        proof {
            lemma_type_char_no_newlines(old_lines, c, self.max());
        }
        if c == '\n' {
            self.lines.push(String::new());
            assert(self.text_lines() =~= old_lines.push(seq![]));
        } else {
            let k = self.lines.len() - 1;
            let n = self.lines[k].as_str().unicode_len();
            assert(old_lines.last() == self.lines@[k as int]@);
            if self.max_line_length == 0 || n >= self.max_line_length - 1 {
                let mut l = String::new();
                string_push(&mut l, c);
                self.lines.push(l);
                assert(l@ =~= seq![c]);
                assert(self.text_lines() =~= old_lines.push(seq![c]));
            } else {
                let mut l = self.lines.pop().unwrap();
                string_push(&mut l, c);
                self.lines.push(l);
                assert(self.text_lines() =~= old_lines.update(k as int, old_lines.last().push(c)));
            }
        }
    }

    /// Types every character of `s`, locked or not, as `force_input` does
    /// for each of them.
    pub fn force_text(&mut self, s: &str)
        requires
            old(self).wf(),
        ensures
            final(self).wf(),
            final(self).same_settings(old(self)),
            final(self).text_lines() == type_str(old(self).text_lines(), s@, old(self).max()),
    {
        let ghost start = self.text_lines();
        let n = s.unicode_len();
        let mut i: usize = 0;
        while i < n
            invariant
                n == s@.len(),
                i <= n,
                self.wf(),
                self.same_settings(old(self)),
                start == old(self).text_lines(),
                self.text_lines() == type_str(start, s@.take(i as int), self.max()),
            decreases n - i,
        {
            let c = s.get_char(i);
            self.push_char(c);
            assert(s@.take(i as int + 1).drop_last() =~= s@.take(i as int));
            i = i + 1;
        }
        assert(s@.take(n as int) =~= s@);
    }
}


impl SessionTextArea {
    pub fn unlock(&mut self)
        ensures
            *final(self) == (SessionTextArea { locked: false, ..*old(self) }),
    {
        self.locked = false;
    }

    pub fn lock(&mut self)
        ensures
            *final(self) == (SessionTextArea { locked: true, ..*old(self) }),
    {
        self.locked = true;
    }

    pub fn is_locked(&self) -> (r: bool)
        ensures
            r == self.locked,
    {
        self.locked
    }

    pub fn set_title(&mut self, title: String)
        ensures
            *final(self) == (SessionTextArea { title, ..*old(self) }),
    {
        self.title = title;
    }

    /// Shows the buffer as focused.
    pub fn activate(&mut self)
        ensures
            *final(self) == (SessionTextArea { active: true, ..*old(self) }),
    {
        self.active = true;
    }

    /// Shows the buffer dimmed; the text stays.
    pub fn inactivate(&mut self)
        ensures
            *final(self) == (SessionTextArea { active: false, ..*old(self) }),
    {
        self.active = false;
    }

    /// Empties the buffer and dims it.
    pub fn clear(&mut self)
        ensures
            final(self).wf(),
            final(self).text_lines() == seq![Seq::<char>::empty()],
            !final(self).active,
            final(self).id == old(self).id,
            final(self).title == old(self).title,
            final(self).locked == old(self).locked,
            final(self).max_line_length == old(self).max_line_length,
    {
        self.lines = vec![String::new()];
        assert(self.text_lines() =~= seq![Seq::<char>::empty()]);
        self.inactivate();
    }

    /// True when there are no lines, or one line that is empty or a lone newline.
    pub fn is_empty(&self) -> (r: bool)
        ensures
            r == self.spec_is_empty(),
    {
        let n = self.lines.len();
        if n == 0 {
            return true;
        }
        if n != 1 {
            return false;
        }
        let first = self.lines[0].as_str();
        let len = first.unicode_len();
        assert(self.text_lines()[0] == first@);
        let r = len == 0 || (len == 1 && first.get_char(0) == '\n');
        proof {
            if len == 1 && first@[0] == '\n' {
                assert(first@ =~= seq!['\n']);
            }
        }
        r
    }

    /// The lines as text, joined by newlines.
    pub fn text(&self) -> (r: String)
        ensures
            r@ == self.content(),
    {
        let mut r = String::new();
        let mut i: usize = 0;
        proof {
            reveal_strlit("\n");
        }
        while i < self.lines.len()
            invariant
                i <= self.lines.len(),
                i == 0 ==> r@.len() == 0,
                i > 0 ==> r@ == join_lines(self.text_lines().take(i as int)),
            decreases self.lines.len() - i,
        {
            let ghost t = self.text_lines().take(i as int + 1);
            let ghost prev = r@;
            if i > 0 {
                let nl = "\n";
                proof {
                    reveal_strlit("\n");
                    assert(nl@ =~= seq!['\n']);
                }
                r.append(nl);
                assert(r@ =~= prev + seq!['\n']);
            }
            r.append(self.lines[i].as_str());
            proof {
                if i == 0 {
                    assert(join_lines(t) == t[0]);
                    assert(r@ =~= t[0]);
                } else {
                    assert(t.drop_last() =~= self.text_lines().take(i as int));
                    assert(join_lines(t) == join_lines(t.drop_last()) + seq!['\n'] + t.last());
                    assert(t.last() == self.lines@[i as int]@);
                    assert(r@ =~= join_lines(t));
                }
            }
            i = i + 1;
        }
        assert(self.text_lines().take(self.lines.len() as int) =~= self.text_lines());
        proof {
            if self.lines.len() == 0 {
                assert(r@ =~= join_lines(self.text_lines()));
            }
        }
        r
    }

    /// The buffer's message: none when the buffer is empty, else its role and
    /// its lines joined by newlines.
    pub fn message(&self) -> (r: Option<Message>)
        ensures
            self.spec_is_empty() <==> r is None,
            r matches Some(m) ==> m.role == role_of(self.id) && m.content@ == self.content(),
    {
        if self.is_empty() {
            None
        } else {
            Some(Message { role: self.id.role(), content: self.text() })
        }
    }

    /// Replaces the content by `message`'s, typed character by character, and dims the buffer.
    pub fn set_message(&mut self, message: Message)
        requires
            old(self).wf(),
        ensures
            final(self).wf(),
            final(self).text_lines() == type_str(seq![seq![]], message.content@, old(self).max()),
            !final(self).active,
            final(self).id == old(self).id,
            final(self).title == old(self).title,
            final(self).locked == old(self).locked,
            final(self).max_line_length == old(self).max_line_length,
    {
        self.load(message.content.as_str());
    }

    /// Empties the buffer, dims it, and types `s` into it.
    pub fn load(&mut self, s: &str)
        requires
            old(self).wf(),
        ensures
            final(self).wf(),
            final(self).text_lines() == type_str(seq![seq![]], s@, old(self).max()),
            !final(self).active,
            final(self).id == old(self).id,
            final(self).title == old(self).title,
            final(self).locked == old(self).locked,
            final(self).max_line_length == old(self).max_line_length,
    {
        self.clear();
        self.force_text(s);
    }

    /// Applies one edit. A locked buffer refuses an edit and returns false;
    /// otherwise the edit is applied and the result is true.
    pub fn input(&mut self, input: Input) -> (r: bool)
        requires
            old(self).wf(),
        ensures
            final(self).wf(),
            final(self).same_settings(old(self)),
            r == !(old(self).locked && input.edits()),
            r ==> final(self).text_lines() == apply_input(old(self).text_lines(), input, old(self).max()),
            !r ==> *final(self) == *old(self),
    {
        if self.locked {
            if let Input::Other = input {
            } else {
                return false;
            }
        }
        let ghost old_lines = self.text_lines();
        match input {
            Input::Char(c) => {
                self.push_char(c);
            },
            Input::Enter => {
                self.push_char('\n');
            },
            Input::Backspace => {
                self.backspace();
            },
            Input::Tab => {
                self.tab();
            },
            _ => {},
        }
        true
    }

    fn backspace(&mut self)
        requires
            old(self).wf(),
        ensures
            final(self).wf(),
            final(self).same_settings(old(self)),
            final(self).text_lines() == apply_input(old(self).text_lines(), Input::Backspace, old(self).max()),
    {
        let ghost old_lines = self.text_lines();
        let k = self.lines.len() - 1;
        let n = self.lines[k].as_str().unicode_len();
        assert(old_lines.last() == self.lines@[k as int]@);
        if n > 0 {
            let last = self.lines.pop().unwrap();
            let l = String::from_str(last.as_str().substring_char(0, n - 1));
            self.lines.push(l);
            assert(l@ =~= old_lines.last().drop_last());
            assert(self.text_lines() =~= old_lines.update(k as int, old_lines.last().drop_last()));
            assert forall|i: int, j: int| 0 <= i < self.text_lines().len() && 0 <= j < self.text_lines()[i].len()
                implies #[trigger] self.text_lines()[i][j] != '\n' by {
                assert(old_lines[i][j] != '\n');
            }
        } else if k > 0 {
            self.lines.pop();
            assert(self.text_lines() =~= old_lines.drop_last());
            assert forall|i: int, j: int| 0 <= i < self.text_lines().len() && 0 <= j < self.text_lines()[i].len()
                implies #[trigger] self.text_lines()[i][j] != '\n' by {
                assert(old_lines[i][j] != '\n');
            }
        }
    }

    fn tab(&mut self)
        requires
            old(self).wf(),
        ensures
            final(self).wf(),
            final(self).same_settings(old(self)),
            final(self).text_lines() == apply_input(old(self).text_lines(), Input::Tab, old(self).max()),
    {
        let ghost old_lines = self.text_lines();
        let k = self.lines.len() - 1;
        let mut l = self.lines.pop().unwrap();
        let n = l.as_str().unicode_len();
        assert(old_lines.last() == l@);
        let count = TAB_WIDTH - n % TAB_WIDTH;
        let ghost base = l@;
        let mut i: usize = 0;
        while i < count
            invariant
                i <= count,
                count == TAB_WIDTH - n % TAB_WIDTH,
                l@ == base + Seq::new(i as nat, |_i: int| ' '),
            decreases count - i,
        {
            string_push(&mut l, ' ');
            assert(l@ =~= base + Seq::new((i + 1) as nat, |_i: int| ' '));
            i = i + 1;
        }
        self.lines.push(l);
        assert(spaces(n as nat) =~= Seq::new(count as nat, |_i: int| ' '));
        assert(self.text_lines() =~= old_lines.update(k as int, old_lines.last() + spaces(n as nat)));
        assert forall|a: int, j: int| 0 <= a < self.text_lines().len() && 0 <= j < self.text_lines()[a].len()
            implies #[trigger] self.text_lines()[a][j] != '\n' by {
            if a < k {
                assert(old_lines[a][j] != '\n');
            } else if j < base.len() {
                assert(old_lines[k as int][j] != '\n');
            }
        }
    }

    /// Applies one edit whether or not the buffer is locked; the lock is as before afterwards.
    pub fn force_input(&mut self, input: Input)
        requires
            old(self).wf(),
        ensures
            final(self).wf(),
            final(self).same_settings(old(self)),
            final(self).text_lines() == apply_input(old(self).text_lines(), input, old(self).max()),
    {
        let was_locked = self.locked;
        self.locked = false;
        self.input(input);
        self.locked = was_locked;
    }
}

} // verus!
