//! Messages: what the model is sent and what it says.

use vstd::prelude::*;

use crate::protocol::id::ToolCallId;
use crate::text::text_of;

verus! {

/// Who a message is from.
#[derive(Debug, Clone, Copy, PartialEq, Eq, Structural)]
pub enum Role {
    /// Immutable instructions, first in the prompt.
    System,
    /// Context the harness supplies: sandbox, environment, project memory.
    Developer,
    User,
    Assistant,
}

/// One message of a conversation.
#[derive(Debug, PartialEq, Eq)]
pub struct Message {
    pub role: Role,
    pub parts: Vec<Part>,
}

/// A piece of a message.
#[derive(Debug, PartialEq, Eq)]
pub enum Part {
    Text { text: String },
    /// Model reasoning.
    Reasoning { text: String },
    ToolCall(ToolCall),
    ToolResult(ToolResult),
    /// A file pulled into context.
    File { path: String, content: String },
    /// An image, its data in base64.
    Image { media_type: String, data: String },
    /// A note the harness injected; never typed by the user.
    Synthetic { text: String },
}

/// A tool the model wants run.
#[derive(Debug, PartialEq, Eq)]
pub struct ToolCall {
    pub id: ToolCallId,
    pub name: String,
    /// Raw JSON as the model emitted it.
    pub input: String,
}

/// What a tool answered.
#[derive(Debug, PartialEq, Eq)]
pub struct ToolResult {
    pub call_id: ToolCallId,
    /// What the model sees.
    pub output: String,
    /// What a client sees, as JSON text. Never sent to the model.
    pub metadata: Option<String>,
    pub is_error: bool,
}

/// What a [`Message`] is.
pub struct MessageModel {
    pub role: Role,
    pub parts: Seq<PartModel>,
}

/// What a [`Part`] is.
pub enum PartModel {
    Text { text: Seq<char> },
    Reasoning { text: Seq<char> },
    ToolCall(CallModel),
    ToolResult(ResultModel),
    File { path: Seq<char>, content: Seq<char> },
    Image { media_type: Seq<char>, data: Seq<char> },
    Synthetic { text: Seq<char> },
}

/// What a [`ToolCall`] is.
pub struct CallModel {
    pub id: Seq<char>,
    pub name: Seq<char>,
    pub input: Seq<char>,
}

/// What a [`ToolResult`] is.
pub struct ResultModel {
    pub call_id: Seq<char>,
    pub output: Seq<char>,
    pub metadata: Option<Seq<char>>,
    pub is_error: bool,
}

impl DeepView for ToolCall {
    type V = CallModel;

    open spec fn deep_view(&self) -> CallModel {
        CallModel { id: self.id.deep_view(), name: self.name@, input: self.input@ }
    }
}

impl DeepView for ToolResult {
    type V = ResultModel;

    open spec fn deep_view(&self) -> ResultModel {
        ResultModel {
            call_id: self.call_id.deep_view(),
            output: self.output@,
            metadata: text_of(self.metadata),
            is_error: self.is_error,
        }
    }
}

impl DeepView for Part {
    type V = PartModel;

    open spec fn deep_view(&self) -> PartModel {
        match *self {
            Part::Text { text } => PartModel::Text { text: text@ },
            Part::Reasoning { text } => PartModel::Reasoning { text: text@ },
            Part::ToolCall(call) => PartModel::ToolCall(call.deep_view()),
            Part::ToolResult(result) => PartModel::ToolResult(result.deep_view()),
            Part::File { path, content } => PartModel::File { path: path@, content: content@ },
            Part::Image { media_type, data } => PartModel::Image {
                media_type: media_type@,
                data: data@,
            },
            Part::Synthetic { text } => PartModel::Synthetic { text: text@ },
        }
    }
}

impl DeepView for Message {
    type V = MessageModel;

    open spec fn deep_view(&self) -> MessageModel {
        MessageModel { role: self.role, parts: self.parts.deep_view() }
    }
}

impl Clone for ToolCall {
    fn clone(&self) -> (r: Self)
        ensures
            r == *self,
    {
        ToolCall { id: self.id.clone(), name: self.name.clone(), input: self.input.clone() }
    }
}

impl Clone for ToolResult {
    fn clone(&self) -> (r: Self)
        ensures
            r == *self,
    {
        ToolResult {
            call_id: self.call_id.clone(),
            output: self.output.clone(),
            metadata: self.metadata.clone(),
            is_error: self.is_error,
        }
    }
}

impl Clone for Part {
    fn clone(&self) -> (r: Self)
        ensures
            r == *self,
    {
        match self {
            Part::Text { text } => Part::Text { text: text.clone() },
            Part::Reasoning { text } => Part::Reasoning { text: text.clone() },
            Part::ToolCall(call) => Part::ToolCall(call.clone()),
            Part::ToolResult(result) => Part::ToolResult(result.clone()),
            Part::File { path, content } => Part::File {
                path: path.clone(),
                content: content.clone(),
            },
            Part::Image { media_type, data } => Part::Image {
                media_type: media_type.clone(),
                data: data.clone(),
            },
            Part::Synthetic { text } => Part::Synthetic { text: text.clone() },
        }
    }
}

impl Clone for Message {
    fn clone(&self) -> (r: Self)
        ensures
            r.deep_view() == self.deep_view(),
    {
        let parts = self.parts.clone();
        assert(parts.deep_view() =~= self.parts.deep_view());
        Message { role: self.role, parts }
    }
}

/// A message of one text part.
pub open spec fn text_message(role: Role, text: Seq<char>) -> MessageModel {
    MessageModel { role, parts: seq![PartModel::Text { text }] }
}

/// The text parts one after another; everything else is passed over.
pub open spec fn text_content_of(parts: Seq<PartModel>) -> Seq<char>
    decreases parts.len(),
{
    if parts.len() == 0 {
        Seq::empty()
    } else {
        let rest = text_content_of(parts.drop_last());
        match parts.last() {
            PartModel::Text { text } => rest + text,
            _ => rest,
        }
    }
}

impl Message {
    pub fn new(role: Role, parts: Vec<Part>) -> (r: Self)
        ensures
            r.role == role,
            r.parts == parts,
    {
        Message { role, parts }
    }

    /// A message of one text part.
    pub fn text(role: Role, text: &str) -> (r: Self)
        ensures
            r.deep_view() == text_message(role, text@),
    {
        let mut parts: Vec<Part> = Vec::new();
        parts.push(Part::Text { text: text.to_owned() });
        assert(parts.deep_view() =~= seq![PartModel::Text { text: text@ }]);
        Message { role, parts }
    }

    /// Concatenation of every text part, ignoring reasoning and tool traffic.
    pub fn text_content(&self) -> (r: String)
        ensures
            r@ == text_content_of(self.deep_view().parts),
    {
        let mut r = String::new();
        let mut i: usize = 0;
        let ghost parts = self.deep_view().parts;
        while i < self.parts.len()
            invariant
                i <= self.parts@.len(),
                parts == self.parts.deep_view(),
                r@ == text_content_of(parts.take(i as int)),
            decreases self.parts@.len() - i,
        {
            assert(parts.take(i + 1).drop_last() =~= parts.take(i as int));
            assert(parts.take(i + 1).last() == self.parts@[i as int].deep_view());
            match &self.parts[i] {
                Part::Text { text } => {
                    r.push_str(text);
                },
                _ => {},
            }
            i += 1;
        }
        assert(parts.take(i as int) =~= parts);
        r
    }
}

/// Copies messages `from..to`.
pub fn copy_of(messages: &[Message], from: usize, to: usize) -> (r: Vec<Message>)
    requires
        from <= to <= messages@.len(),
    ensures
        r.deep_view() == messages.deep_view().subrange(from as int, to as int),
{
    let mut r: Vec<Message> = Vec::new();
    let mut i: usize = from;
    while i < to
        invariant
            from <= i <= to <= messages@.len(),
            r.deep_view() == messages.deep_view().subrange(from as int, i as int),
        decreases to - i,
    {
        let ghost before = r.deep_view();
        let copy = messages[i].clone();
        r.push(copy);
        assert(r.deep_view() =~= before.push(copy.deep_view()));
        assert(r.deep_view() =~= messages.deep_view().subrange(from as int, i + 1));
        i += 1;
    }
    r
}

/// Every text of a message is read, in its order, and nothing but the texts.
pub proof fn law_every_text_is_read(a: Seq<PartModel>, b: Seq<PartModel>, part: PartModel)
    ensures
        text_content_of(a + b) == text_content_of(a) + text_content_of(b),
        text_content_of(seq![part]) == (if part is Text {
            part->Text_text
        } else {
            Seq::empty()
        }),
    decreases b.len(),
{
    reveal_with_fuel(text_content_of, 2);
    let one = seq![part];
    assert(one.drop_last() =~= Seq::<PartModel>::empty());
    assert(one.last() == part);
    assert(text_content_of(one) =~= (if part is Text {
        part->Text_text
    } else {
        Seq::empty()
    }));
    if b.len() == 0 {
        assert(a + b =~= a);
        assert(text_content_of(a) + text_content_of(b) =~= text_content_of(a));
    } else {
        let rest = b.drop_last();
        law_every_text_is_read(a, rest, part);
        assert((a + b).drop_last() =~= a + rest);
        assert((a + b).last() == b.last());
        assert(text_content_of(a + b) =~= text_content_of(a) + text_content_of(b));
    }
}

} // verus!
