//! Turning an old span of conversation into a paragraph.
//!
//! The span travels as one transcript inside a single user message: replaying the
//! messages would put calls without results in front of the model.

use vstd::prelude::*;

use crate::context::{ContextError, Summary};
use crate::protocol::event::Usage;
use crate::protocol::message::{text_message, Message, MessageModel, Part, PartModel, Role};
use crate::text::{chars_of, slice_of, trim, trim_of};

verus! {

/// What the summarizing model is asked to produce.
pub const INSTRUCTIONS: &'static str = "You are compacting a coding session that has run out of context.\n\nSummarize the conversation below so that work can continue without it. Keep:\nwhat the user asked for and any constraints they gave, decisions taken and the\nreasons, files and symbols touched, what is done, and what is still outstanding.\n\nDrop tool output, exploration that led nowhere, and anything already superseded.\n\nWrite plain prose. Do not address the user, do not offer to help, and do not\nspeculate about what was not said.";

/// The most tokens a summary may take.
pub const MAX_SUMMARY_TOKENS: usize = 2_000;

/// At most `limit` characters of a text, with three dots where it was clipped.
pub open spec fn clipped(text: Seq<char>, limit: int) -> Seq<char> {
    if text.len() <= limit {
        text
    } else {
        text.take(limit) + "..."@
    }
}

/// Clips on a character boundary, since the input is arbitrary text.
pub fn truncate(text: &str, limit: usize) -> (r: String)
    ensures
        r@ == clipped(text@, limit as int),
{
    let chars = chars_of(text);
    if chars.len() <= limit {
        return text.to_owned();
    }
    let mut r = slice_of(&chars, 0, limit);
    assert(r@ =~= text@.take(limit as int));
    r.push_str("...");
    r
}

/// One part as text for the transcript. Reasoning is left out: it is superseded by
/// what it led to.
pub open spec fn part_text(part: PartModel) -> Seq<char> {
    match part {
        PartModel::Text { text } => text,
        PartModel::Synthetic { text } => text,
        PartModel::Reasoning { .. } => Seq::empty(),
        PartModel::ToolCall(call) => "called "@ + call.name + " with "@ + clipped(call.input, 200),
        PartModel::ToolResult(result) => "result: "@ + clipped(result.output, 400),
        PartModel::File { path, .. } => "attached "@ + path,
        PartModel::Image { .. } => "[image]"@,
    }
}

/// The parts as text, each with a space behind it.
pub open spec fn parts_text(parts: Seq<PartModel>) -> Seq<char>
    decreases parts.len(),
{
    if parts.len() == 0 {
        Seq::empty()
    } else {
        parts_text(parts.drop_last()) + part_text(parts.last()) + " "@
    }
}

/// One message as text for the transcript.
pub open spec fn rendered(message: MessageModel) -> Seq<char> {
    trim_of(parts_text(message.parts))
}

fn write_part(part: &Part) -> (r: String)
    ensures
        r@ == part_text(part.deep_view()),
{
    match part {
        Part::Text { text } => text.clone(),
        Part::Synthetic { text } => text.clone(),
        Part::Reasoning { text: _ } => String::new(),
        Part::ToolCall(call) => {
            let mut r = "called ".to_owned();
            r.push_str(&call.name);
            r.push_str(" with ");
            r.push_str(&truncate(&call.input, 200));
            r
        },
        Part::ToolResult(result) => {
            let mut r = "result: ".to_owned();
            r.push_str(&truncate(&result.output, 400));
            r
        },
        Part::File { path, content: _ } => {
            let mut r = "attached ".to_owned();
            r.push_str(path);
            r
        },
        Part::Image { media_type: _, data: _ } => "[image]".to_owned(),
    }
}

/// One message as plain text for the transcript.
pub fn render(message: &Message) -> (r: String)
    ensures
        r@ == rendered(message.deep_view()),
{
    let ghost parts = message.deep_view().parts;
    let mut out = String::new();
    let mut i: usize = 0;
    while i < message.parts.len()
        invariant
            i <= message.parts@.len(),
            parts == message.parts.deep_view(),
            out@ == parts_text(parts.take(i as int)),
        decreases message.parts@.len() - i,
    {
        assert(parts.take(i + 1).drop_last() =~= parts.take(i as int));
        assert(parts.take(i + 1).last() == message.parts@[i as int].deep_view());
        out.push_str(&write_part(&message.parts[i]));
        out.push_str(" ");
        i += 1;
    }
    assert(parts.take(i as int) =~= parts);
    trim(&out)
}

/// How a role is written in the transcript.
pub open spec fn role_name(role: Role) -> Seq<char> {
    match role {
        Role::System => "System"@,
        Role::Developer => "Developer"@,
        Role::User => "User"@,
        Role::Assistant => "Assistant"@,
    }
}

fn name_of(role: Role) -> (r: &'static str)
    ensures
        r@ == role_name(role),
{
    match role {
        Role::System => "System",
        Role::Developer => "Developer",
        Role::User => "User",
        Role::Assistant => "Assistant",
    }
}

/// The span as one text; a message with nothing to say is left out.
pub open spec fn transcript_of(span: Seq<MessageModel>) -> Seq<char>
    decreases span.len(),
{
    if span.len() == 0 {
        Seq::empty()
    } else {
        let before = transcript_of(span.drop_last());
        let message = span.last();
        if rendered(message).len() == 0 {
            before
        } else {
            before + "["@ + role_name(message.role) + "] "@ + rendered(message) + "\n\n"@
        }
    }
}

/// Writes a span as one text.
pub fn transcript(span: &[Message]) -> (r: String)
    ensures
        r@ == transcript_of(span.deep_view()),
{
    let ghost all = span.deep_view();
    let mut out = String::new();
    let mut i: usize = 0;
    while i < span.len()
        invariant
            i <= span@.len(),
            all == span.deep_view(),
            out@ == transcript_of(all.take(i as int)),
        decreases span@.len() - i,
    {
        assert(all.take(i + 1).drop_last() =~= all.take(i as int));
        assert(all.take(i + 1).last() == span@[i as int].deep_view());
        let body = render(&span[i]);
        if !body.as_str().is_empty() {
            out.push_str("[");
            out.push_str(name_of(span[i].role));
            out.push_str("] ");
            out.push_str(&body);
            out.push_str("\n\n");
        }
        i += 1;
    }
    assert(all.take(i as int) =~= all);
    out
}

/// What the summarizing model is sent: the instructions and the transcript.
pub open spec fn summary_messages(span: Seq<MessageModel>) -> Seq<MessageModel> {
    seq![text_message(Role::System, INSTRUCTIONS@), text_message(Role::User, transcript_of(span))]
}

/// Drives a model that summarizes.
#[derive(Debug)]
pub struct ModelSummarizer {
    /// What has been said so far.
    pub text: String,
    pub usage: Usage,
}

impl ModelSummarizer {
    pub fn new() -> (r: Self)
        ensures
            r.text@.len() == 0,
            r.usage == (Usage {
                input_tokens: 0,
                output_tokens: 0,
                cached_input_tokens: 0,
                reasoning_tokens: 0,
            }),
    {
        ModelSummarizer { text: String::new(), usage: Usage::default() }
    }

    /// What to send for a span, and how many tokens the answer may take.
    pub fn request(span: &[Message], max_output_tokens: usize) -> (r: (Vec<Message>, usize))
        ensures
            r.0.deep_view() == summary_messages(span.deep_view()),
            r.1 == (if max_output_tokens <= MAX_SUMMARY_TOKENS {
                max_output_tokens
            } else {
                MAX_SUMMARY_TOKENS
            }),
    {
        let mut messages: Vec<Message> = Vec::new();
        messages.push(Message::text(Role::System, INSTRUCTIONS));
        messages.push(Message::text(Role::User, &transcript(span)));
        assert(messages.deep_view() =~= summary_messages(span.deep_view()));
        (
            messages,
            if max_output_tokens <= MAX_SUMMARY_TOKENS {
                max_output_tokens
            } else {
                MAX_SUMMARY_TOKENS
            },
        )
    }

    /// The model said more.
    pub fn text_delta(&mut self, delta: &str)
        ensures
            final(self).text@ == old(self).text@ + delta@,
            final(self).usage == old(self).usage,
    {
        self.text.push_str(delta);
    }

    /// The model finished a step.
    pub fn step_finish(&mut self, usage: Usage)
        ensures
            final(self).text == old(self).text,
            final(self).usage == usage,
    {
        self.usage = usage;
    }

    /// The summary. A model that said nothing has failed: a header with nothing
    /// under it must not count as a compaction.
    pub fn finish(self) -> (r: Result<Summary, ContextError>)
        ensures
            match r {
                Ok(summary) => {
                    &&& trim_of(self.text@).len() > 0
                    &&& summary.text@ == trim_of(self.text@)
                    &&& summary.usage == self.usage
                },
                Err(ContextError::Summarization(reason)) => {
                    &&& trim_of(self.text@).len() == 0
                    &&& reason@ == "the model returned nothing"@
                },
                Err(_) => false,
            },
    {
        let text = trim(&self.text);
        if text.as_str().is_empty() {
            return Err(ContextError::Summarization("the model returned nothing".to_owned()));
        }
        Ok(Summary { text, usage: self.usage })
    }

    /// A call that failed.
    pub fn failed(error: &str) -> (r: ContextError)
        ensures
            match r {
                ContextError::Summarization(reason) => reason@ == error@,
                _ => false,
            },
    {
        ContextError::Summarization(error.to_owned())
    }
}

/// Clipping never keeps more than the limit and the three dots, and what it keeps
/// stands at the front of the text.
pub proof fn law_clipping_is_bounded(text: Seq<char>, limit: int)
    requires
        0 <= limit,
    ensures
        clipped(text, limit).len() <= limit + 3,
        text.len() > limit ==> clipped(text, limit).take(limit) == text.take(limit),
        text.len() <= limit ==> clipped(text, limit) == text,
{
    reveal_strlit("...");
    if text.len() > limit {
        assert(clipped(text, limit).take(limit) =~= text.take(limit));
    }
}

/// Every message of the span is in the transcript, in its order: a span of two halves reads
/// as the one and then the other, and a message by itself as its role and what it says, or
/// as nothing where it says nothing.
pub proof fn law_every_message_is_in_the_transcript(
    a: Seq<MessageModel>,
    b: Seq<MessageModel>,
    message: MessageModel,
)
    ensures
        transcript_of(a + b) == transcript_of(a) + transcript_of(b),
        rendered(message).len() > 0 ==> transcript_of(seq![message]) == "["@ + (match message.role {
            Role::System => "System"@,
            Role::Developer => "Developer"@,
            Role::User => "User"@,
            Role::Assistant => "Assistant"@,
        }) + "] "@ + rendered(message) + "\n\n"@,
        rendered(message).len() == 0 ==> transcript_of(seq![message]) == Seq::<char>::empty(),
{
    lemma_transcript(a, b);
    reveal_with_fuel(transcript_of, 2);
    let one = seq![message];
    assert(one.drop_last() =~= Seq::<MessageModel>::empty());
    assert(one.last() == message);
    assert(Seq::<char>::empty() + "["@ =~= "["@);
}

proof fn lemma_transcript(a: Seq<MessageModel>, b: Seq<MessageModel>)
    ensures
        transcript_of(a + b) == transcript_of(a) + transcript_of(b),
    decreases b.len(),
{
    let all = a + b;
    if b.len() == 0 {
        assert(all =~= a);
        assert(transcript_of(a) + transcript_of(b) =~= transcript_of(a));
    } else {
        let rest = b.drop_last();
        lemma_transcript(a, rest);
        assert(all.drop_last() =~= a + rest);
        assert(all.last() == b.last());
        let message = b.last();
        let one = "["@ + role_name(message.role) + "] "@ + rendered(message) + "\n\n"@;
        assert(transcript_of(a) + transcript_of(rest) + "["@ + role_name(message.role) + "] "@
            + rendered(message) + "\n\n"@ =~= transcript_of(a) + (transcript_of(rest) + "["@
            + role_name(message.role) + "] "@ + rendered(message) + "\n\n"@));
    }
}

/// What a message says is what its parts say, each behind the one before: texts in full,
/// calls and results cut short, files and pictures by name, and reasoning not at all.
pub proof fn law_every_part_says_its_own(
    a: Seq<PartModel>,
    b: Seq<PartModel>,
    part: PartModel,
    role: Role,
)
    ensures
        parts_text(a + b) == parts_text(a) + parts_text(b),
        parts_text(seq![part]) == (match part {
            PartModel::Text { text } => text,
            PartModel::Synthetic { text } => text,
            PartModel::Reasoning { .. } => Seq::empty(),
            PartModel::ToolCall(call) => "called "@ + call.name + " with "@ + clipped(
                call.input,
                200,
            ),
            PartModel::ToolResult(result) => "result: "@ + clipped(result.output, 400),
            PartModel::File { path, .. } => "attached "@ + path,
            PartModel::Image { .. } => "[image]"@,
        }) + " "@,
        rendered(MessageModel { role, parts: a }) == trim_of(parts_text(a)),
{
    lemma_parts_text(a, b);
    reveal_with_fuel(parts_text, 2);
    let one = seq![part];
    assert(one.drop_last() =~= Seq::<PartModel>::empty());
    assert(one.last() == part);
    assert(Seq::<char>::empty() + part_text(part) =~= part_text(part));
}

proof fn lemma_parts_text(a: Seq<PartModel>, b: Seq<PartModel>)
    ensures
        parts_text(a + b) == parts_text(a) + parts_text(b),
    decreases b.len(),
{
    let all = a + b;
    if b.len() == 0 {
        assert(all =~= a);
        assert(parts_text(a) + parts_text(b) =~= parts_text(a));
    } else {
        let rest = b.drop_last();
        lemma_parts_text(a, rest);
        assert(all.drop_last() =~= a + rest);
        assert(all.last() == b.last());
        assert(parts_text(a) + parts_text(rest) + part_text(b.last()) + " "@ =~= parts_text(a) + (
        parts_text(rest) + part_text(b.last()) + " "@));
    }
}

/// A summary is asked for with the instructions first and the whole transcript behind.
pub proof fn law_the_whole_span_is_summarized(span: Seq<MessageModel>)
    ensures
        summary_messages(span).len() == 2,
        summary_messages(span)[0] == text_message(Role::System, INSTRUCTIONS@),
        summary_messages(span)[1].role == Role::User,
        summary_messages(span)[1].parts == seq![PartModel::Text { text: transcript_of(span) }],
{
}

} // verus!
