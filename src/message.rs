use vstd::prelude::*;
use vstd::string::*;

verus! {

/// Relies on `String::push`: appends the one character to the string.
#[verifier::external_body]
pub(crate) fn string_push(s: &mut String, c: char)
    ensures
        final(s)@ == old(s)@.push(c),
{
    s.push(c)
}


/// The author of a message in a conversation.
#[derive(Debug, Clone, Copy, PartialEq, Eq, Structural)]
pub enum Role {
    User,
    Assistant,
    System,
}

/// A role-tagged message.
#[derive(Debug, Clone)]
pub struct Message {
    pub role: Role,
    pub content: String,
}

impl View for Message {
    type V = (Role, Seq<char>);

    open spec fn view(&self) -> (Role, Seq<char>) {
        (self.role, self.content@)
    }
}

/// A bare string is a message from the user.
impl From<String> for Message {
    fn from(content: String) -> (r: Message)
        ensures
            r.role == Role::User,
            r.content@ == content@,
    {
        Message { role: Role::User, content }
    }
}

impl vstd::std_specs::convert::FromSpecImpl<String> for Message {
    open spec fn obeys_from_spec() -> bool {
        true
    }

    open spec fn from_spec(content: String) -> Message {
        Message { role: Role::User, content }
    }
}

/// Whether two strings hold the same characters.
pub fn str_eq(a: &str, b: &str) -> (r: bool)
    ensures
        r == (a@ == b@),
{
    let n = a.unicode_len();
    if n != b.unicode_len() {
        return false;
    }
    let mut i: usize = 0;
    while i < n
        invariant
            n == a@.len(),
            n == b@.len(),
            i <= n,
            forall|j: int| 0 <= j < i ==> a@[j] == b@[j],
        decreases n - i,
    {
        if a.get_char(i) != b.get_char(i) {
            return false;
        }
        i = i + 1;
    }
    assert(a@ =~= b@);
    true
}

/// The role named `name`: `"user"`, `"assistant"` or `"system"`; any other
/// name is taken as the user.
pub open spec fn role_named(name: Seq<char>) -> Role {
    if name == seq!['a', 's', 's', 'i', 's', 't', 'a', 'n', 't'] {
        Role::Assistant
    } else if name == seq!['s', 'y', 's', 't', 'e', 'm'] {
        Role::System
    } else {
        Role::User
    }
}

impl Role {
    pub fn from_name(name: &str) -> (r: Role)
        ensures
            r == role_named(name@),
    {
        let assistant = "assistant";
        let system = "system";
        proof {
            reveal_strlit("assistant");
            reveal_strlit("system");
            assert(assistant@ =~= seq!['a', 's', 's', 'i', 's', 't', 'a', 'n', 't']);
            assert(system@ =~= seq!['s', 'y', 's', 't', 'e', 'm']);
        }
        if str_eq(name, assistant) {
            Role::Assistant
        } else if str_eq(name, system) {
            Role::System
        } else {
            Role::User
        }
    }
}

} // verus!
