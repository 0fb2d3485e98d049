//! Identifiers: a prefix that says what is named, and a time-ordered UUID.

use uuid::Uuid;
use vstd::prelude::*;

use crate::text::same;

verus! {

/// A lower-case hexadecimal digit.
pub open spec fn is_hex(c: char) -> bool {
    ('0' <= c && c <= '9') || ('a' <= c && c <= 'f')
}

/// Whether a text is a UUID of version 7 in simple form: 32 lower-case hexadecimal
/// digits, of which one names the version and one the variant.
pub open spec fn is_simple_uuid(s: Seq<char>) -> bool {
    &&& s.len() == 32
    &&& forall|i: int| 0 <= i < s.len() ==> is_hex(#[trigger] s[i])
    &&& s[12] == '7'
    &&& s[16] == '8' || s[16] == '9' || s[16] == 'a' || s[16] == 'b'
}

/// Whether a text is `prefix`, an underscore, and a UUID in simple form.
pub open spec fn is_fresh_id(s: Seq<char>, prefix: Seq<char>) -> bool {
    exists|uuid: Seq<char>| #[trigger] is_simple_uuid(uuid) && s == prefix + "_"@ + uuid
}

/// Calls `Uuid::now_v7` and writes the result in simple form: 32 lower-case
/// hexadecimal digits, with the version 7 in the thirteenth and the variant of RFC 9562
/// in the upper bits of the seventeenth. The others come from the time and from chance.
#[verifier::external_body]
fn fresh_uuid() -> (r: String)
    ensures
        is_simple_uuid(r@),
{
    Uuid::now_v7().simple().to_string()
}

fn fresh_id(prefix: &str) -> (r: String)
    ensures
        is_fresh_id(r@, prefix@),
{
    let mut r = prefix.to_owned();
    let uuid = fresh_uuid();
    r.push_str("_");
    r.push_str(&uuid);
    assert(is_simple_uuid(uuid@));
    r
}

/// Identifies a durable conversation.
#[derive(Debug, PartialEq, Eq, Hash, PartialOrd, Ord)]
pub struct ThreadId(pub String);

impl DeepView for ThreadId {
    type V = Seq<char>;

    open spec fn deep_view(&self) -> Seq<char> {
        self.0@
    }
}

impl Clone for ThreadId {
    fn clone(&self) -> (r: Self)
        ensures
            r == *self,
    {
        ThreadId(self.0.clone())
    }
}

impl ThreadId {
    /// Mints a fresh, time-ordered id.
    pub fn new() -> (r: Self)
        ensures
            is_fresh_id(r.deep_view(), "thr"@),
    {
        ThreadId(fresh_id("thr"))
    }

    /// The id's text.
    pub fn as_str(&self) -> (r: &str)
        ensures
            r@ == self.deep_view(),
    {
        &self.0
    }

    /// Whether two ids are the same.
    pub fn is(&self, other: &ThreadId) -> (r: bool)
        ensures
            r == (self.deep_view() == other.deep_view()),
    {
        same(&self.0, &other.0)
    }
}

impl Default for ThreadId {
    fn default() -> (r: Self)
        ensures
            is_fresh_id(r.deep_view(), "thr"@),
    {
        ThreadId::new()
    }
}

impl From<String> for ThreadId {
    fn from(value: String) -> (r: Self) {
        ThreadId(value)
    }
}

impl vstd::std_specs::convert::FromSpecImpl<String> for ThreadId {
    open spec fn obeys_from_spec() -> bool {
        true
    }

    open spec fn from_spec(value: String) -> Self {
        ThreadId(value)
    }
}

/// Identifies one unit of agent work within a thread.
#[derive(Debug, PartialEq, Eq, Hash, PartialOrd, Ord)]
pub struct TurnId(pub String);

impl DeepView for TurnId {
    type V = Seq<char>;

    open spec fn deep_view(&self) -> Seq<char> {
        self.0@
    }
}

impl Clone for TurnId {
    fn clone(&self) -> (r: Self)
        ensures
            r == *self,
    {
        TurnId(self.0.clone())
    }
}

impl TurnId {
    /// Mints a fresh, time-ordered id.
    pub fn new() -> (r: Self)
        ensures
            is_fresh_id(r.deep_view(), "trn"@),
    {
        TurnId(fresh_id("trn"))
    }

    /// The id's text.
    pub fn as_str(&self) -> (r: &str)
        ensures
            r@ == self.deep_view(),
    {
        &self.0
    }

    /// Whether two ids are the same.
    pub fn is(&self, other: &TurnId) -> (r: bool)
        ensures
            r == (self.deep_view() == other.deep_view()),
    {
        same(&self.0, &other.0)
    }
}

impl Default for TurnId {
    fn default() -> (r: Self)
        ensures
            is_fresh_id(r.deep_view(), "trn"@),
    {
        TurnId::new()
    }
}

impl From<String> for TurnId {
    fn from(value: String) -> (r: Self) {
        TurnId(value)
    }
}

impl vstd::std_specs::convert::FromSpecImpl<String> for TurnId {
    open spec fn obeys_from_spec() -> bool {
        true
    }

    open spec fn from_spec(value: String) -> Self {
        TurnId(value)
    }
}

/// Identifies an atomic unit of input or output within a turn.
#[derive(Debug, PartialEq, Eq, Hash, PartialOrd, Ord)]
pub struct ItemId(pub String);

impl DeepView for ItemId {
    type V = Seq<char>;

    open spec fn deep_view(&self) -> Seq<char> {
        self.0@
    }
}

impl Clone for ItemId {
    fn clone(&self) -> (r: Self)
        ensures
            r == *self,
    {
        ItemId(self.0.clone())
    }
}

impl ItemId {
    /// Mints a fresh, time-ordered id.
    pub fn new() -> (r: Self)
        ensures
            is_fresh_id(r.deep_view(), "itm"@),
    {
        ItemId(fresh_id("itm"))
    }

    /// The id's text.
    pub fn as_str(&self) -> (r: &str)
        ensures
            r@ == self.deep_view(),
    {
        &self.0
    }

    /// Whether two ids are the same.
    pub fn is(&self, other: &ItemId) -> (r: bool)
        ensures
            r == (self.deep_view() == other.deep_view()),
    {
        same(&self.0, &other.0)
    }
}

impl Default for ItemId {
    fn default() -> (r: Self)
        ensures
            is_fresh_id(r.deep_view(), "itm"@),
    {
        ItemId::new()
    }
}

impl From<String> for ItemId {
    fn from(value: String) -> (r: Self) {
        ItemId(value)
    }
}

impl vstd::std_specs::convert::FromSpecImpl<String> for ItemId {
    open spec fn obeys_from_spec() -> bool {
        true
    }

    open spec fn from_spec(value: String) -> Self {
        ItemId(value)
    }
}

/// Identifies a single tool invocation, matching call to result.
#[derive(Debug, PartialEq, Eq, Hash, PartialOrd, Ord)]
pub struct ToolCallId(pub String);

impl DeepView for ToolCallId {
    type V = Seq<char>;

    open spec fn deep_view(&self) -> Seq<char> {
        self.0@
    }
}

impl Clone for ToolCallId {
    fn clone(&self) -> (r: Self)
        ensures
            r == *self,
    {
        ToolCallId(self.0.clone())
    }
}

impl ToolCallId {
    /// Mints a fresh, time-ordered id.
    pub fn new() -> (r: Self)
        ensures
            is_fresh_id(r.deep_view(), "tc"@),
    {
        ToolCallId(fresh_id("tc"))
    }

    /// The id's text.
    pub fn as_str(&self) -> (r: &str)
        ensures
            r@ == self.deep_view(),
    {
        &self.0
    }

    /// Whether two ids are the same.
    pub fn is(&self, other: &ToolCallId) -> (r: bool)
        ensures
            r == (self.deep_view() == other.deep_view()),
    {
        same(&self.0, &other.0)
    }
}

impl Default for ToolCallId {
    fn default() -> (r: Self)
        ensures
            is_fresh_id(r.deep_view(), "tc"@),
    {
        ToolCallId::new()
    }
}

impl From<String> for ToolCallId {
    fn from(value: String) -> (r: Self) {
        ToolCallId(value)
    }
}

impl vstd::std_specs::convert::FromSpecImpl<String> for ToolCallId {
    open spec fn obeys_from_spec() -> bool {
        true
    }

    open spec fn from_spec(value: String) -> Self {
        ToolCallId(value)
    }
}

/// Identifies a running agent session.
#[derive(Debug, PartialEq, Eq, Hash, PartialOrd, Ord)]
pub struct SessionId(pub String);

impl DeepView for SessionId {
    type V = Seq<char>;

    open spec fn deep_view(&self) -> Seq<char> {
        self.0@
    }
}

impl Clone for SessionId {
    fn clone(&self) -> (r: Self)
        ensures
            r == *self,
    {
        SessionId(self.0.clone())
    }
}

impl SessionId {
    /// Mints a fresh, time-ordered id.
    pub fn new() -> (r: Self)
        ensures
            is_fresh_id(r.deep_view(), "ses"@),
    {
        SessionId(fresh_id("ses"))
    }

    /// The id's text.
    pub fn as_str(&self) -> (r: &str)
        ensures
            r@ == self.deep_view(),
    {
        &self.0
    }

    /// Whether two ids are the same.
    pub fn is(&self, other: &SessionId) -> (r: bool)
        ensures
            r == (self.deep_view() == other.deep_view()),
    {
        same(&self.0, &other.0)
    }
}

impl Default for SessionId {
    fn default() -> (r: Self)
        ensures
            is_fresh_id(r.deep_view(), "ses"@),
    {
        SessionId::new()
    }
}

impl From<String> for SessionId {
    fn from(value: String) -> (r: Self) {
        SessionId(value)
    }
}

impl vstd::std_specs::convert::FromSpecImpl<String> for SessionId {
    open spec fn obeys_from_spec() -> bool {
        true
    }

    open spec fn from_spec(value: String) -> Self {
        SessionId(value)
    }
}

} // verus!
