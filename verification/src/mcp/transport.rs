//! How messages travel.
//!
//! A server that is a process reads and writes lines. One that is reached over HTTP
//! takes a message in a POST and answers with one JSON object or with a stream of
//! events, so its replies are queued until they are asked for.

use vstd::prelude::*;

use crate::mcp::{McpError, McpErrorModel};
use crate::text::{
    ascii_lowercase, ascii_lowercase_of, begins, decimal, decimal_of, lines, lines_of, same,
    starts_with, strip_prefix, text_of, trim, trim_end, trim_end_of, trim_of,
};
use crate::text_map::{pairs_of, TextMap};

verus! {

/// The header by which a server names a session, and expects it back.
pub const SESSION_HEADER: &'static str = "Mcp-Session-Id";

/// The header that names the version spoken.
pub const PROTOCOL_HEADER: &'static str = "MCP-Protocol-Version";

/// A message as a process reads it: a line.
pub fn frame(message: &str) -> (r: String)
    ensures
        r@ == message@ + "\n"@,
{
    let mut r = message.to_owned();
    r.push_str("\n");
    r
}

/// What a process wrote, by the number of bytes that were read and the line. No
/// bytes mean that it closed its output; blank lines are tolerated.
pub fn unframe(read: usize, line: &str) -> (r: Option<String>)
    ensures
        text_of(r) == (if read == 0 {
            None
        } else if trim_of(line@).len() == 0 {
            Some(Seq::empty())
        } else {
            Some(trim_end_of(line@))
        }),
{
    if read == 0 {
        return None;
    }
    if trim(line).as_str().is_empty() {
        let r = String::new();
        assert(r@ =~= Seq::<char>::empty());
        return Some(r);
    }
    Some(trim_end(line))
}

/// A character that may stand in the name of a header.
pub open spec fn is_token(c: char) -> bool {
    ||| 'a' <= c && c <= 'z'
    ||| 'A' <= c && c <= 'Z'
    ||| '0' <= c && c <= '9'
    ||| c == '!' || c == '#' || c == '$' || c == '%' || c == '&' || c == '\''
    ||| c == '*' || c == '+' || c == '-' || c == '.' || c == '^' || c == '_'
    ||| c == '`' || c == '|' || c == '~'
}

/// Whether a text can name a header.
pub open spec fn is_header_name(name: Seq<char>) -> bool {
    0 < name.len() <= 65_535 && forall|i: int| 0 <= i < name.len() ==> is_token(#[trigger] name[i])
}

/// Calls `HeaderName::from_bytes`, which takes one to 65,535 bytes that are all
/// token characters; any other name gets the one error there is.
#[verifier::external_body]
fn header_name_error(name: &str) -> (r: Option<String>)
    ensures
        match r {
            None => is_header_name(name@),
            Some(error) => !is_header_name(name@) && error@ == "invalid HTTP header name"@,
        },
{
    reqwest::header::HeaderName::from_bytes(name.as_bytes()).err().map(|error| error.to_string())
}

/// Whether a text can be the value of a header: no control character but the tab.
pub open spec fn is_header_value(value: Seq<char>) -> bool {
    forall|i: int|
        0 <= i < value.len() ==> (' ' <= #[trigger] value[i] && value[i] != '\u{7f}') || value[i]
            == '\t'
}

/// Calls `HeaderValue::from_str`, which refuses the bytes below 32 but the tab, and
/// 127, with the one error there is.
#[verifier::external_body]
fn header_value_error(value: &str) -> (r: Option<String>)
    ensures
        match r {
            None => is_header_value(value@),
            Some(error) => !is_header_value(value@) && error@ == "failed to parse header value"@,
        },
{
    reqwest::header::HeaderValue::from_str(value).err().map(|error| error.to_string())
}

/// What is said of a header that cannot be sent.
pub open spec fn header_text(name: Seq<char>, fault: Seq<char>) -> Seq<char> {
    "header "@ + name + ": "@ + fault
}

/// What is wrong with headers: the first that cannot be sent, its name before its
/// value.
pub open spec fn header_fault(headers: Seq<(Seq<char>, Seq<char>)>) -> Option<Seq<char>>
    decreases headers.len(),
{
    if headers.len() == 0 {
        None
    } else if header_fault(headers.drop_last()) is Some {
        header_fault(headers.drop_last())
    } else if !is_header_name(headers.last().0) {
        Some(header_text(headers.last().0, "invalid HTTP header name"@))
    } else if !is_header_value(headers.last().1) {
        Some(header_text(headers.last().0, "failed to parse header value"@))
    } else {
        None
    }
}

/// Where a header stands among some, or how many there are if it is not among them.
pub open spec fn header_at(headers: Seq<(Seq<char>, Seq<char>)>, name: Seq<char>) -> int
    decreases headers.len(),
{
    if headers.len() == 0 || headers[0].0 == name {
        0
    } else {
        1 + header_at(headers.drop_first(), name)
    }
}

/// Headers after one was put among them: in place of the one of its name, or behind all
/// others.
pub open spec fn with_header(
    headers: Seq<(Seq<char>, Seq<char>)>,
    name: Seq<char>,
    value: Seq<char>,
) -> Seq<(Seq<char>, Seq<char>)> {
    let i = header_at(headers, name);
    if i < headers.len() {
        headers.update(i, (name, value))
    } else {
        headers.push((name, value))
    }
}

/// Headers as they are sent: the names in lower case, each once, with the value that was
/// given last.
pub open spec fn stored_headers(pairs: Seq<(Seq<char>, Seq<char>)>) -> Seq<(Seq<char>, Seq<char>)>
    decreases pairs.len(),
{
    if pairs.len() == 0 {
        Seq::empty()
    } else {
        with_header(
            stored_headers(pairs.drop_last()),
            ascii_lowercase_of(pairs.last().0),
            pairs.last().1,
        )
    }
}

/// [`header_at`] is the first place of a name.
proof fn lemma_header_at(headers: Seq<(Seq<char>, Seq<char>)>, name: Seq<char>)
    ensures
        0 <= header_at(headers, name) <= headers.len(),
        header_at(headers, name) < headers.len() ==> headers[header_at(headers, name)].0 == name,
        forall|i: int| 0 <= i < header_at(headers, name) ==> (#[trigger] headers[i]).0 != name,
    decreases headers.len(),
{
    if headers.len() > 0 && headers[0].0 != name {
        let rest = headers.drop_first();
        lemma_header_at(rest, name);
        assert forall|i: int| 0 <= i < header_at(headers, name) implies (
        #[trigger] headers[i]).0 != name by {
            if i > 0 {
                assert(rest[i - 1] == headers[i]);
            }
        }
    }
}

/// Puts a header among others.
fn put_header(headers: &mut Vec<(String, String)>, name: String, value: String)
    ensures
        final(headers).deep_view() == with_header(old(headers).deep_view(), name@, value@),
{
    let ghost before = headers.deep_view();
    proof {
        lemma_header_at(before, name@);
    }
    let mut i: usize = 0;
    while i < headers.len() && !same(&headers[i].0, &name)
        invariant
            i <= headers@.len(),
            before == headers.deep_view(),
            *headers == *old(headers),
            forall|k: int| 0 <= k < i ==> (#[trigger] before[k]).0 != name@,
        decreases headers@.len() - i,
    {
        assert(before[i as int] == headers@[i as int].deep_view());
        i += 1;
    }
    proof {
        let at = header_at(before, name@);
        if i < headers@.len() {
            assert(before[i as int] == headers@[i as int].deep_view());
            assert(before[i as int].0 == name@);
            assert(at <= i);
        }
        if at < before.len() {
            assert(before[at].0 == name@);
            assert(at >= i);
        }
        assert(before.len() == headers@.len());
        assert(i == at);
    }
    let pair = (name, value);
    let ghost kept = pair.deep_view();
    if i < headers.len() {
        headers.set(i, pair);
        assert(headers.deep_view() =~= before.update(i as int, kept));
    } else {
        headers.push(pair);
        assert(headers.deep_view() =~= before.push(kept));
    }
}

/// No configured header is sent twice: the names that are kept differ.
pub proof fn law_each_header_once(pairs: Seq<(Seq<char>, Seq<char>)>)
    ensures
        forall|i: int, j: int|
            0 <= i < j < stored_headers(pairs).len() ==> (#[trigger] stored_headers(pairs)[i]).0
                != (#[trigger] stored_headers(pairs)[j]).0,
    decreases pairs.len(),
{
    if pairs.len() > 0 {
        let before = stored_headers(pairs.drop_last());
        let name = ascii_lowercase_of(pairs.last().0);
        law_each_header_once(pairs.drop_last());
        lemma_header_at(before, name);
        let after = stored_headers(pairs);
        let at = header_at(before, name);
        assert forall|i: int, j: int| 0 <= i < j < after.len() implies (#[trigger] after[i]).0 != (
        #[trigger] after[j]).0 by {
            if at < before.len() {
                assert(before[at].0 == name);
                assert(after[i].0 == before[i].0 && after[j].0 == before[j].0);
            } else {
                assert(after[i] == before[i]);
                if j < before.len() {
                    assert(after[j] == before[j]);
                }
            }
        }
    }
}

/// The header that was given last is the one that is sent: a value is sent unless a
/// later header has the same name, however the two are spelled.
pub proof fn law_the_later_header_is_sent(pairs: Seq<(Seq<char>, Seq<char>)>, k: int)
    requires
        0 <= k < pairs.len(),
        forall|j: int|
            k < j < pairs.len() ==> ascii_lowercase_of((#[trigger] pairs[j]).0)
                != ascii_lowercase_of(pairs[k].0),
    ensures
        stored_headers(pairs).contains((ascii_lowercase_of(pairs[k].0), pairs[k].1)),
    decreases pairs.len(),
{
    let earlier = pairs.drop_last();
    let before = stored_headers(earlier);
    let name = ascii_lowercase_of(pairs.last().0);
    let at = header_at(before, name);
    lemma_header_at(before, name);
    let after = stored_headers(pairs);
    let sent = (ascii_lowercase_of(pairs[k].0), pairs[k].1);
    if k == pairs.len() - 1 {
        assert(after[at] == sent);
    } else {
        assert(pairs[pairs.len() - 1] == pairs.last());
        assert forall|j: int| k < j < earlier.len() implies ascii_lowercase_of(
            (#[trigger] earlier[j]).0,
        ) != ascii_lowercase_of(earlier[k].0) by {
            assert(earlier[j] == pairs[j]);
        }
        law_the_later_header_is_sent(earlier, k);
        let m = choose|m: int| 0 <= m < before.len() && before[m] == sent;
        assert(m != at);
        assert(after[m] == sent);
    }
}

/// What is sent with every message.
#[derive(Debug, PartialEq, Eq)]
pub struct HttpRequest {
    pub url: String,
    /// The headers of every request, in order.
    pub headers: Vec<(String, String)>,
    /// The version spoken, once it is settled.
    pub version: Option<String>,
    /// The session, once the server has named one.
    pub session: Option<Vec<u8>>,
}

/// What a server answered.
#[derive(Debug)]
pub struct HttpReply {
    pub status: u16,
    /// The session the reply names.
    pub session: Option<Vec<u8>>,
    /// The reply's type, where it is text.
    pub content_type: Option<String>,
    /// The reply's body, or why it could not be read.
    pub body: Result<String, String>,
}

/// A server reached over HTTP.
#[derive(Debug)]
pub struct HttpTransport {
    url: String,
    headers: Vec<(String, String)>,
    session: Option<Vec<u8>>,
    negotiated: Option<String>,
    pending: Vec<String>,
}

/// What an [`HttpTransport`] is.
pub struct HttpModel {
    pub url: Seq<char>,
    pub headers: Seq<(Seq<char>, Seq<char>)>,
    pub session: Option<Seq<u8>>,
    pub negotiated: Option<Seq<char>>,
    /// The messages that came and were not asked for yet.
    pub pending: Seq<Seq<char>>,
}

/// The bytes, if there are any.
pub open spec fn bytes_in(bytes: Option<Vec<u8>>) -> Option<Seq<u8>> {
    match bytes {
        Some(bytes) => Some(bytes@),
        None => None,
    }
}

impl DeepView for HttpTransport {
    type V = HttpModel;

    closed spec fn deep_view(&self) -> HttpModel {
        HttpModel {
            url: self.url@,
            headers: self.headers.deep_view(),
            session: bytes_in(self.session),
            negotiated: text_of(self.negotiated),
            pending: self.pending.deep_view(),
        }
    }
}

/// The headers of every request: those that were configured, and what is sent and
/// taken. Both kinds of reply are taken, because the server picks.
pub open spec fn request_headers(headers: Seq<(Seq<char>, Seq<char>)>) -> Seq<
    (Seq<char>, Seq<char>),
> {
    headers.push(("content-type"@, "application/json"@)).push(
        ("accept"@, "application/json, text/event-stream"@),
    )
}

/// A line of a stream: an end, data, or something that does not matter.
pub open spec fn data_of(line: Seq<char>) -> Option<Seq<char>> {
    if begins(line, "data:"@) {
        let value = line.skip(5);
        if value.len() > 0 && value[0] == ' ' {
            Some(value.skip(1))
        } else {
            Some(value)
        }
    } else {
        None
    }
}

/// The data gathered so far with more of it.
pub open spec fn with_data(data: Seq<char>, more: Seq<char>) -> Seq<char> {
    if data.len() > 0 {
        data + "\n"@ + more
    } else {
        more
    }
}

/// The payloads of a stream's lines, given the data gathered before them: one for
/// each event that has data, its last line ended or not.
pub open spec fn payloads_of(lines: Seq<Seq<char>>, data: Seq<char>) -> Seq<Seq<char>>
    decreases lines.len(),
{
    if lines.len() == 0 {
        if data.len() > 0 {
            seq![data]
        } else {
            Seq::empty()
        }
    } else if lines[0].len() == 0 {
        if data.len() > 0 {
            seq![data] + payloads_of(lines.drop_first(), Seq::empty())
        } else {
            payloads_of(lines.drop_first(), data)
        }
    } else {
        match data_of(lines[0]) {
            Some(more) => payloads_of(lines.drop_first(), with_data(data, more)),
            None => payloads_of(lines.drop_first(), data),
        }
    }
}

/// The messages in a whole stream of events, one for each.
pub fn sse_payloads(body: &str) -> (r: Vec<String>)
    ensures
        r.deep_view() == payloads_of(lines_of(body@), Seq::empty()),
{
    let all = lines(body);
    let ghost every = all.deep_view();
    let ghost whole = payloads_of(every, Seq::empty());
    let mut payloads: Vec<String> = Vec::new();
    let mut data = String::new();
    let mut i: usize = 0;
    assert(every.skip(0) =~= every);
    assert(data@ =~= Seq::<char>::empty());
    assert(payloads.deep_view() + whole =~= whole);
    while i < all.len()
        invariant
            i <= all@.len(),
            every == all.deep_view(),
            payloads.deep_view() + payloads_of(every.skip(i as int), data@) == whole,
        decreases all@.len() - i,
    {
        let ghost rest = every.skip(i as int);
        let ghost before = payloads.deep_view();
        let ghost had = data@;
        assert(rest[0] == all@[i as int]@);
        assert(rest.drop_first() =~= every.skip(i + 1));
        if all[i].as_str().is_empty() {
            if !data.as_str().is_empty() {
                payloads.push(data);
                assert(payloads.deep_view() =~= before.push(had));
                data = String::new();
                assert(data@ =~= Seq::<char>::empty());
                assert(payloads.deep_view() + payloads_of(every.skip(i + 1), Seq::empty())
                    =~= before + (seq![had] + payloads_of(every.skip(i + 1), Seq::empty())));
            }
        } else {
            proof {
                reveal_strlit("data:");
                reveal_strlit(" ");
            }
            if let Some(value) = strip_prefix(&all[i], "data:") {
                assert(value@ =~= all@[i as int]@.skip(5));
                if !data.as_str().is_empty() {
                    data.push_str("\n");
                }
                match strip_prefix(&value, " ") {
                    Some(rest) => {
                        data.push_str(&rest);
                    },
                    None => {
                        data.push_str(&value);
                    },
                }
                assert(" "@ =~= seq![' ']);
                assert(begins(value@, " "@) == (value@.len() > 0 && value@[0] == ' ')) by {
                    if value@.len() > 0 {
                        assert(value@.take(1) =~= seq![value@[0]]);
                        assert(seq![value@[0]][0] == value@[0]);
                        assert(" "@[0] == ' ');
                    }
                }
                assert(data@ =~= with_data(had, data_of(all@[i as int]@)->0));
            }
        }
        i += 1;
    }
    assert(every.skip(i as int) =~= Seq::<Seq<char>>::empty());
    if !data.as_str().is_empty() {
        let ghost before = payloads.deep_view();
        let ghost had = data@;
        payloads.push(data);
        assert(payloads.deep_view() =~= before + seq![had]);
    } else {
        assert(payloads.deep_view() + Seq::<Seq<char>>::empty() =~= payloads.deep_view());
    }
    payloads
}

/// Those of some messages that are not blank.
pub open spec fn not_blank(messages: Seq<Seq<char>>) -> Seq<Seq<char>>
    decreases messages.len(),
{
    if messages.len() == 0 {
        messages
    } else if trim_of(messages.last()).len() == 0 {
        not_blank(messages.drop_last())
    } else {
        not_blank(messages.drop_last()).push(messages.last())
    }
}

/// The messages in a reply of a type.
pub open spec fn messages_in(content_type: Seq<char>, body: Seq<char>) -> Seq<Seq<char>> {
    if begins(content_type, "text/event-stream"@) {
        not_blank(payloads_of(lines_of(body), Seq::empty()))
    } else {
        not_blank(seq![body])
    }
}

/// Whether a status means success.
pub open spec fn succeeded(status: u16) -> bool {
    200 <= status < 300
}

/// A reply's text, or none.
pub open spec fn body_or_nothing(body: Result<String, String>) -> Seq<char> {
    match body {
        Ok(text) => text@,
        Err(_) => Seq::empty(),
    }
}

/// A reply's type, or none.
pub open spec fn type_or_nothing(content_type: Option<String>) -> Seq<char> {
    match content_type {
        Some(text) => text@,
        None => Seq::empty(),
    }
}

/// A transport after a reply, and what is wrong with the reply. The session is kept
/// whatever the status: a server may hand one out and refuse the request. A status of
/// 202 acknowledges, and brings nothing.
pub open spec fn after_reply(http: HttpModel, reply: HttpReply) -> (HttpModel, Option<McpErrorModel>) {
    let kept = match reply.session {
        Some(session) => HttpModel { session: Some(session@), ..http },
        None => http,
    };
    if !succeeded(reply.status) {
        (
            kept,
            Some(
                McpErrorModel::Transport(
                    decimal_of(reply.status as nat) + " "@ + http.url + ": "@ + trim_of(
                        body_or_nothing(reply.body),
                    ),
                ),
            ),
        )
    } else if reply.status == 202 {
        (kept, None)
    } else {
        match reply.body {
            Err(error) => (kept, Some(McpErrorModel::Transport(error@))),
            Ok(body) => (
                HttpModel {
                    pending: kept.pending + messages_in(
                        type_or_nothing(reply.content_type),
                        body@,
                    ),
                    ..kept
                },
                None,
            ),
        }
    }
}

/// Copies bytes.
fn copy_bytes(bytes: &Option<Vec<u8>>) -> (r: Option<Vec<u8>>)
    ensures
        bytes_in(r) == bytes_in(*bytes),
{
    match bytes {
        Some(bytes) => {
            let copy = bytes.clone();
            assert(copy@ =~= bytes@);
            Some(copy)
        },
        None => None,
    }
}

impl HttpTransport {
    /// Prepares a connection; nothing is sent until the first message. The headers go
    /// with every request, which is how credentials are carried; of two whose names
    /// differ in case alone, the later goes.
    pub fn connect(url: &str, headers: TextMap<String>) -> (r: Result<Self, McpError>)
        ensures
            match r {
                Ok(transport) => {
                    &&& header_fault(pairs_of(headers)) is None
                    &&& transport.deep_view() == (HttpModel {
                        url: url@,
                        headers: stored_headers(pairs_of(headers)),
                        session: None,
                        negotiated: None,
                        pending: Seq::empty(),
                    })
                },
                Err(error) => match header_fault(pairs_of(headers)) {
                    Some(fault) => error.deep_view() == McpErrorModel::Transport(fault),
                    None => false,
                },
            },
    {
        let ghost pairs = pairs_of(headers);
        let mut kept: Vec<(String, String)> = Vec::new();
        let mut i: usize = 0;
        assert(kept.deep_view() =~= Seq::<(Seq<char>, Seq<char>)>::empty());
        assert(pairs.take(0) =~= Seq::<(Seq<char>, Seq<char>)>::empty());
        while i < headers.len()
            invariant
                i <= headers.keys_of().len() == pairs.len(),
                pairs == pairs_of(headers),
                header_fault(pairs.take(i as int)) is None,
                kept.deep_view() == stored_headers(pairs.take(i as int)),
            decreases headers.keys_of().len() - i,
        {
            assert(pairs.take(i + 1).drop_last() =~= pairs.take(i as int));
            let (name, value) = headers.at(i);
            assert(pairs.take(i + 1).last() == (name@, value@));
            if let Some(error) = header_name_error(name) {
                proof {
                    lemma_header_fault(pairs, i + 1);
                }
                return Err(header_error(name, "invalid HTTP header name", &error));
            }
            if let Some(error) = header_value_error(value) {
                proof {
                    lemma_header_fault(pairs, i + 1);
                }
                return Err(header_error(name, "failed to parse header value", &error));
            }
            put_header(&mut kept, ascii_lowercase(name), value.clone());
            i += 1;
        }
        assert(pairs.take(i as int) =~= pairs);
        let r = HttpTransport {
            url: url.to_owned(),
            headers: kept,
            session: None,
            negotiated: None,
            pending: Vec::new(),
        };
        assert(r.pending.deep_view() =~= Seq::<Seq<char>>::empty());
        Ok(r)
    }

    /// Learns the version that the handshake settled on. One that no header can hold
    /// is not sent: the request then looks like one from before the handshake.
    pub fn negotiated_version(&mut self, version: &str)
        ensures
            final(self).deep_view() == (if is_header_value(version@) {
                HttpModel { negotiated: Some(version@), ..old(self).deep_view() }
            } else {
                old(self).deep_view()
            }),
    {
        if header_value_error(version).is_none() {
            self.negotiated = Some(version.to_owned());
        }
    }

    /// What goes with the next message: the version only once it is settled, and the
    /// session only once there is one.
    pub fn request(&self) -> (r: HttpRequest)
        ensures
            r.url@ == self.deep_view().url,
            r.headers.deep_view() == request_headers(self.deep_view().headers),
            text_of(r.version) == self.deep_view().negotiated,
            bytes_in(r.session) == self.deep_view().session,
    {
        let ghost pairs = self.deep_view().headers;
        let mut headers: Vec<(String, String)> = Vec::new();
        let mut i: usize = 0;
        assert(headers.deep_view() =~= pairs.take(0));
        while i < self.headers.len()
            invariant
                i <= self.headers@.len() == pairs.len(),
                pairs == self.headers.deep_view(),
                headers.deep_view() == pairs.take(i as int),
            decreases self.headers@.len() - i,
        {
            let ghost before = headers.deep_view();
            assert(pairs[i as int] == self.headers@[i as int].deep_view());
            let pair = (self.headers[i].0.clone(), self.headers[i].1.clone());
            headers.push(pair);
            assert(headers.deep_view() =~= before.push(pair.deep_view()));
            assert(pair.deep_view() == pairs[i as int]);
            assert(headers.deep_view() =~= pairs.take(i + 1));
            i += 1;
        }
        assert(pairs.take(i as int) =~= pairs);
        let json = ("content-type".to_owned(), "application/json".to_owned());
        headers.push(json);
        assert(headers.deep_view() =~= pairs.push(json.deep_view()));
        let taken = ("accept".to_owned(), "application/json, text/event-stream".to_owned());
        headers.push(taken);
        assert(headers.deep_view() =~= pairs.push(json.deep_view()).push(taken.deep_view()));
        HttpRequest {
            url: self.url.clone(),
            headers,
            version: self.negotiated.clone(),
            session: copy_bytes(&self.session),
        }
    }

    /// Takes in a reply: queues what it brings, or says what is wrong with it.
    pub fn received(&mut self, reply: HttpReply) -> (r: Result<(), McpError>)
        ensures
            after_reply(old(self).deep_view(), reply) == (
                final(self).deep_view(),
                match r {
                    Ok(()) => None,
                    Err(error) => Some(error.deep_view()),
                },
            ),
    {
        if let Some(session) = reply.session {
            self.session = Some(session);
        }
        if reply.status < 200 || reply.status >= 300 {
            let mut text = decimal(reply.status as u64);
            text.push_str(" ");
            text.push_str(&self.url);
            text.push_str(": ");
            let body = match reply.body {
                Ok(body) => body,
                Err(_) => String::new(),
            };
            assert(body@ =~= body_or_nothing(reply.body));
            text.push_str(&trim(&body));
            return Err(McpError::Transport(text));
        }
        if reply.status == 202 {
            return Ok(());
        }
        let body = match reply.body {
            Ok(body) => body,
            Err(error) => {
                return Err(McpError::Transport(error));
            },
        };
        let streamed = match &reply.content_type {
            Some(content_type) => starts_with(content_type, "text/event-stream"),
            None => starts_with("", "text/event-stream"),
        };
        proof {
            reveal_strlit("");
            assert(""@ =~= Seq::<char>::empty());
        }
        let messages = if streamed {
            sse_payloads(&body)
        } else {
            let mut one: Vec<String> = Vec::new();
            one.push(body);
            assert(one.deep_view() =~= seq![body@]);
            one
        };
        self.queue(messages);
        Ok(())
    }

    fn queue(&mut self, messages: Vec<String>)
        ensures
            final(self).deep_view() == (HttpModel {
                pending: old(self).deep_view().pending + not_blank(messages.deep_view()),
                ..old(self).deep_view()
            }),
    {
        let ghost all = messages.deep_view();
        let ghost start = self.pending.deep_view();
        let mut i: usize = 0;
        assert(all.take(0) =~= Seq::<Seq<char>>::empty());
        assert(start + not_blank(all.take(0)) =~= start);
        while i < messages.len()
            invariant
                i <= messages@.len(),
                all == messages.deep_view(),
                self.url == old(self).url,
                self.headers == old(self).headers,
                self.session == old(self).session,
                self.negotiated == old(self).negotiated,
                self.pending.deep_view() == start + not_blank(all.take(i as int)),
            decreases messages@.len() - i,
        {
            let ghost before = self.pending.deep_view();
            assert(all.take(i + 1).drop_last() =~= all.take(i as int));
            assert(all.take(i + 1).last() == messages@[i as int]@);
            if !trim(&messages[i]).as_str().is_empty() {
                self.pending.push(messages[i].clone());
                assert(self.pending.deep_view() =~= before.push(messages@[i as int]@));
                assert(self.pending.deep_view() =~= start + not_blank(all.take(i + 1)));
            }
            i += 1;
        }
        assert(all.take(i as int) =~= all);
    }

    /// The next message, if one has come. None is no end: a reply is only fetched by
    /// sending.
    pub fn recv(&mut self) -> (r: Option<String>)
        ensures
            match r {
                Some(message) => {
                    &&& old(self).deep_view().pending.len() > 0
                    &&& message@ == old(self).deep_view().pending[0]
                    &&& final(self).deep_view() == (HttpModel {
                        pending: old(self).deep_view().pending.drop_first(),
                        ..old(self).deep_view()
                    })
                },
                None => {
                    &&& old(self).deep_view().pending.len() == 0
                    &&& final(self).deep_view() == old(self).deep_view()
                },
            },
    {
        if self.pending.len() == 0 {
            return None;
        }
        let ghost before = self.pending.deep_view();
        let message = self.pending.remove(0);
        assert(before[0] == message@);
        assert(self.pending.deep_view() =~= before.drop_first());
        Some(message)
    }

    /// The session to end, if there is one: a server without keeps nothing to tear
    /// down.
    pub fn shutdown(&self) -> (r: Option<HttpRequest>)
        ensures
            match r {
                Some(request) => {
                    &&& self.deep_view().session is Some
                    &&& bytes_in(request.session) == self.deep_view().session
                    &&& request.url@ == self.deep_view().url
                    &&& request.version is None
                    &&& request.headers.deep_view() == self.deep_view().headers
                },
                None => self.deep_view().session is None,
            },
    {
        if self.session.is_none() {
            return None;
        }
        let mut request = self.request();
        let ghost pairs = self.deep_view().headers;
        let ghost full = request.headers.deep_view();
        let _ = request.headers.pop();
        assert(request.headers.deep_view() =~= full.drop_last());
        let _ = request.headers.pop();
        assert(request.headers.deep_view() =~= full.drop_last().drop_last());
        assert(full.drop_last().drop_last() =~= pairs);
        request.version = None;
        Some(request)
    }
}

fn header_error(name: &str, fault: &str, error: &str) -> (r: McpError)
    requires
        error@ == fault@,
    ensures
        r.deep_view() == McpErrorModel::Transport(header_text(name@, fault@)),
{
    let mut text = "header ".to_owned();
    text.push_str(name);
    text.push_str(": ");
    text.push_str(error);
    McpError::Transport(text)
}

/// A fault among the first headers is the fault of all.
proof fn lemma_header_fault(headers: Seq<(Seq<char>, Seq<char>)>, n: int)
    requires
        0 <= n <= headers.len(),
    ensures
        header_fault(headers.take(n)) is Some ==> header_fault(headers) == header_fault(
            headers.take(n),
        ),
    decreases headers.len() - n,
{
    if n < headers.len() {
        assert(headers.take(n + 1).drop_last() =~= headers.take(n));
        lemma_header_fault(headers, n + 1);
    } else {
        assert(headers.take(n) =~= headers);
    }
}

/// A stream with one event for each message, as lines.
pub open spec fn event_lines(messages: Seq<Seq<char>>) -> Seq<Seq<char>>
    decreases messages.len(),
{
    if messages.len() == 0 {
        Seq::empty()
    } else {
        seq!["data: "@ + messages[0], Seq::<char>::empty()] + event_lines(messages.drop_first())
    }
}

/// Every message of a stream comes out, one for each event and in order, as long as
/// none is empty.
pub proof fn law_every_event_comes_out(messages: Seq<Seq<char>>)
    requires
        forall|i: int| 0 <= i < messages.len() ==> (#[trigger] messages[i]).len() > 0,
    ensures
        payloads_of(event_lines(messages), Seq::empty()) == messages,
    decreases messages.len(),
{
    if messages.len() > 0 {
        reveal_strlit("data: ");
        reveal_strlit("data:");
        let rest = messages.drop_first();
        assert forall|i: int| 0 <= i < rest.len() implies (#[trigger] rest[i]).len() > 0 by {
            assert(rest[i] == messages[i + 1]);
        }
        law_every_event_comes_out(rest);
        let all = event_lines(messages);
        let line = "data: "@ + messages[0];
        let more = event_lines(rest);
        assert(all[0] == line && all[1].len() == 0);
        let after = all.drop_first();
        assert(after[0].len() == 0);
        assert(after.drop_first() =~= more);
        assert(line.take(5) =~= "data:"@);
        assert(line.skip(5)[0] == ' ');
        assert(line.skip(5).skip(1) =~= messages[0]);
        assert(data_of(line) == Some(messages[0]));
        assert(payloads_of(all, Seq::empty()) == payloads_of(after, messages[0]));
        assert(payloads_of(after, messages[0]) == seq![messages[0]] + payloads_of(
            more,
            Seq::empty(),
        ));
        assert(seq![messages[0]] + rest =~= messages);
    }
}

/// A reply that refuses brings no message, and the session it names is kept.
pub proof fn law_a_refusal_is_no_message(http: HttpModel, reply: HttpReply)
    requires
        !succeeded(reply.status),
    ensures
        after_reply(http, reply).1 is Some,
        after_reply(http, reply).0.pending == http.pending,
        reply.session matches Some(session) ==> after_reply(http, reply).0.session == Some(
            session@,
        ),
{
}

} // verus!
