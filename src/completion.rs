use vstd::prelude::*;
use vstd::string::*;

use crate::message::Message;

verus! {

/// Tokens read and written by one model call.
#[derive(Debug, Clone, Copy, PartialEq, Eq, Structural)]
pub struct Usage {
    pub input_tokens: usize,
    pub output_tokens: usize,
}

/// One piece of a complete reply.
#[derive(Debug, Clone)]
pub enum Content {
    Text { text: String },
    Other,
}

/// Why the model stopped writing.
#[derive(Debug, Clone, Copy, PartialEq, Eq, Structural)]
pub enum StopReason {
    MaxTokens,
    StopSequence,
    EndTurn,
}

/// A complete (not streamed) reply.
#[derive(Debug, Clone)]
pub struct Response {
    pub stop_reason: Option<StopReason>,
    pub stop_sequence: Option<String>,
    pub content: Vec<Content>,
    pub model: String,
    pub id: String,
    pub type_: String,
    pub role: String,
    pub usage: Usage,
}

/// What opens a reply.
#[derive(Debug, Clone)]
pub struct MessageStartData {
    pub id: String,
    pub type_: String,
    pub role: String,
    pub model: String,
    pub content: Vec<Content>,
    pub stop_reason: Option<StopReason>,
    pub stop_sequence: Option<String>,
    pub usage: Usage,
}

/// A change to the reply as a whole.
#[derive(Debug, Clone)]
pub struct MessageDelta {
    pub stop_reason: Option<StopReason>,
    pub stop_sequence: Option<String>,
}

/// A block of a streamed reply, as it opens.
#[derive(Debug, Clone)]
pub enum ContentBlock {
    Text { text: String },
    Other,
}

/// More text for an open block.
#[derive(Debug, Clone)]
pub enum ContentDelta {
    TextDelta { text: String },
    Other,
}

/// One event of a reply, streamed or not.
#[derive(Debug, Clone)]
#[allow(inconsistent_fields)]
pub enum TextEvent {
    Null,
    MessageStart { message: MessageStartData },
    ContentBlockStart { index: usize, content_block: ContentBlock },
    ContentBlockDelta { index: usize, delta: ContentDelta },
    ContentBlockStop { index: usize },
    MessageDelta { delta: MessageDelta },
    MessageStop,
}

impl Content {
    pub fn text(&self) -> (r: Option<String>)
        ensures
            match self {
                Content::Text { text } => r matches Some(t) && t@ == text@,
                Content::Other => r is None,
            },
    {
        match self {
            Content::Text { text } => Some(text.clone()),
            Content::Other => None,
        }
    }

    /// The text as UTF-8; nothing for other content.
    pub fn bytes(&self) -> (r: Vec<u8>)
        ensures
            match self {
                Content::Text { text } => r@ == vstd::utf8::encode_utf8(text@),
                Content::Other => r@.len() == 0,
            },
    {
        match self {
            Content::Text { text } => text.as_str().as_bytes_vec(),
            Content::Other => Vec::new(),
        }
    }
}

/// `after` is `before` with the delta's text appended, when both are text;
/// otherwise `after` is `before`.
pub open spec fn updated(before: ContentBlock, delta: ContentDelta, after: ContentBlock) -> bool {
    match (before, delta) {
        (ContentBlock::Text { text }, ContentDelta::TextDelta { text: d }) => after matches ContentBlock::Text {
            text: t,
        } && t@ == text@ + d@,
        _ => after == before,
    }
}

impl ContentBlock {
    /// Appends the delta's text to a text block; any other pairing leaves the block as it is.
    pub fn update(&mut self, delta: &ContentDelta)
        ensures
            updated(*old(self), *delta, *final(self)),
    {
        match self {
            ContentBlock::Text { text } => match delta {
                ContentDelta::TextDelta { text: d } => text.append(d.as_str()),
                ContentDelta::Other => {},
            },
            ContentBlock::Other => {},
        }
    }

    pub fn text(&self) -> (r: Option<String>)
        ensures
            match self {
                ContentBlock::Text { text } => r matches Some(t) && t@ == text@,
                ContentBlock::Other => r is None,
            },
    {
        match self {
            ContentBlock::Text { text } => Some(text.clone()),
            ContentBlock::Other => None,
        }
    }

    pub fn bytes(&self) -> (r: Vec<u8>)
        ensures
            match self {
                ContentBlock::Text { text } => r@ == vstd::utf8::encode_utf8(text@),
                ContentBlock::Other => r@.len() == 0,
            },
    {
        match self {
            ContentBlock::Text { text } => text.as_str().as_bytes_vec(),
            ContentBlock::Other => Vec::new(),
        }
    }
}

impl ContentDelta {
    pub fn text(&self) -> (r: Option<String>)
        ensures
            match self {
                ContentDelta::TextDelta { text } => r matches Some(t) && t@ == text@,
                ContentDelta::Other => r is None,
            },
    {
        match self {
            ContentDelta::TextDelta { text } => Some(text.clone()),
            ContentDelta::Other => None,
        }
    }

    pub fn bytes(&self) -> (r: Vec<u8>)
        ensures
            match self {
                ContentDelta::TextDelta { text } => r@ == vstd::utf8::encode_utf8(text@),
                ContentDelta::Other => r@.len() == 0,
            },
    {
        match self {
            ContentDelta::TextDelta { text } => text.as_str().as_bytes_vec(),
            ContentDelta::Other => Vec::new(),
        }
    }
}

/// The text an event carries: a block's text as it opens, a delta's text,
/// and a line break when a block closes.
pub open spec fn event_text(e: TextEvent) -> Option<Seq<char>> {
    match e {
        TextEvent::ContentBlockStart { content_block: ContentBlock::Text { text }, .. } => Some(text@),
        TextEvent::ContentBlockDelta { delta: ContentDelta::TextDelta { text }, .. } => Some(text@),
        TextEvent::ContentBlockStop { .. } => Some(seq!['\n']),
        _ => None,
    }
}

impl TextEvent {
    pub fn text(&self) -> (r: Option<String>)
        ensures
            match event_text(*self) {
                Some(t) => r matches Some(s) && s@ == t,
                None => r is None,
            },
    {
        match self {
            TextEvent::ContentBlockStart { content_block, .. } => content_block.text(),
            TextEvent::ContentBlockDelta { delta, .. } => delta.text(),
            TextEvent::ContentBlockStop { .. } => {
                let nl = "\n";
                proof {
                    reveal_strlit("\n");
                    assert(nl@ =~= seq!['\n']);
                }
                Some(String::from_str(nl))
            },
            _ => None,
        }
    }

    /// Whether the event ends a block or the reply.
    pub fn is_stop(&self) -> (r: bool)
        ensures
            r == match self {
                TextEvent::MessageStart { message } => message.stop_reason is Some || message.stop_sequence is Some,
                TextEvent::MessageStop => true,
                TextEvent::ContentBlockStop { .. } => true,
                _ => false,
            },
    {
        match self {
            TextEvent::MessageStart { message } => message.stop_reason.is_some() || message.stop_sequence.is_some(),
            TextEvent::MessageStop => true,
            TextEvent::ContentBlockStop { .. } => true,
            _ => false,
        }
    }

    /// Whether the event ends a reply that the model finished.
    pub fn is_complete(&self) -> (r: bool)
        ensures
            r == match self {
                TextEvent::MessageStart { message } => message.stop_reason == Some(StopReason::EndTurn),
                TextEvent::MessageStop => true,
                _ => false,
            },
    {
        match self {
            TextEvent::MessageStart { message } => match message.stop_reason {
                Some(StopReason::EndTurn) => true,
                _ => false,
            },
            TextEvent::MessageStop => true,
            _ => false,
        }
    }
}

impl Response {
    /// The reply as the event that starts a message holding all of its content.
    pub fn into_event(self) -> (r: TextEvent)
        ensures
            r matches TextEvent::MessageStart { message } && message.role@ == seq!['a', 's', 's', 'i', 's', 't', 'a', 'n', 't']
                && message.id == self.id && message.type_ == self.type_ && message.model == self.model
                && message.content == self.content && message.stop_reason == self.stop_reason
                && message.stop_sequence == self.stop_sequence && message.usage == self.usage,
    {
        let role = String::from_str("assistant");
        proof {
            reveal_strlit("assistant");
        }
        TextEvent::MessageStart {
            message: MessageStartData {
                id: self.id,
                type_: self.type_,
                role,
                model: self.model,
                content: self.content,
                stop_reason: self.stop_reason,
                stop_sequence: self.stop_sequence,
                usage: self.usage,
            },
        }
    }

    /// The reply as a stream of events: its start, then its end.
    pub fn into_events(self) -> (r: Vec<TextEvent>)
        ensures
            r@.len() == 2,
            r@[0] matches TextEvent::MessageStart { message } && message.role@ == seq![
                'a',
                's',
                's',
                'i',
                's',
                't',
                'a',
                'n',
                't',
            ] && message.id == self.id && message.type_ == self.type_ && message.model == self.model
                && message.content == self.content && message.stop_reason == self.stop_reason
                && message.stop_sequence == self.stop_sequence && message.usage == self.usage,
            r@[1] is MessageStop,
    {
        let start = self.into_event();
        vec![start, TextEvent::MessageStop]
    }
}

} // verus!
