//! Failure values with fixed message templates, and the records they talk about.
use vstd::prelude::*;
use crate::text::{decimal, push_decimal};

verus! {

/// The first character of `s`, or the NUL character when `s` is empty.
pub open spec fn first_char_of(s: Seq<char>) -> char {
    if s.len() == 0 {
        '\0'
    } else {
        s[0]
    }
}

/// The first character of `s`, or the NUL character when `s` is empty.
pub fn first_char(s: &str) -> (r: char)
    ensures
        r == first_char_of(s@),
{
    if s.unicode_len() == 0 {
        '\0'
    } else {
        s.get_char(0)
    }
}

/// How `format!("{:?}", c)` writes a character: quoted and escaped.
pub uninterp spec fn char_debug(c: char) -> Seq<char>;

/// How `format!("{:?}", s)` writes a string: quoted and escaped.
pub uninterp spec fn str_debug(s: Seq<char>) -> Seq<char>;

/// Relies on the `Debug` impl of `char`: the text depends on the character alone.
#[verifier::external_body]
fn debug_char(c: char) -> (r: String)
    ensures
        r@ == char_debug(c),
{
    format!("{:?}", c)
}

/// Relies on the `Debug` impl of `str`: the text depends on the characters alone.
#[verifier::external_body]
fn debug_str(s: &str) -> (r: String)
    ensures
        r@ == str_debug(s@),
{
    format!("{:?}", s)
}

/// A lower-level input/output failure, held by the text it displays as.
#[derive(Debug, PartialEq, Eq)]
pub struct IoFailure {
    pub message: String,
}

impl IoFailure {
    /// A failure that displays as `message`.
    pub fn new(message: String) -> (r: IoFailure)
        ensures
            r.message@ == message@,
    {
        IoFailure { message }
    }
}

/// An inclusive range of allowed indices.
#[derive(Debug, Clone, Copy, PartialEq, Eq)]
pub struct Limits {
    pub lo: usize,
    pub hi: usize,
}

/// The largest value a signed 32-bit integer holds.
pub const LOOKAHEAD_MAX: u64 = 2147483647;

/// Failures of an encoder configuration.
#[derive(Debug, PartialEq, Eq)]
pub enum ExampleErrors {
    InvalidLookahead(u32),
    WrongCase(String),
    OutOfBounds { idx: usize, limits: Limits },
    Io(IoFailure),
    Aerror,
}

impl ExampleErrors {
    /// The message of each failure, from its template.
    pub open spec fn message(&self) -> Seq<char> {
        match self {
            ExampleErrors::InvalidLookahead(n) => "invalid rdo_lookahead_frames "@ + decimal(*n as nat)
                + " (expected < "@ + decimal(LOOKAHEAD_MAX as nat) + ")"@,
            ExampleErrors::WrongCase(s) => "first letter must be lowercase but was "@ + char_debug(
                first_char_of(s@),
            ),
            ExampleErrors::OutOfBounds { idx, limits } => "invalid index "@ + decimal(*idx as nat)
                + ", expected at least "@ + decimal(limits.lo as nat) + " and at most "@ + decimal(
                limits.hi as nat,
            ),
            ExampleErrors::Io(e) => "I/O error: "@ + e.message@,
            ExampleErrors::Aerror => "this is a custom error,no actual use"@,
        }
    }

    /// Renders the failure's message.
    pub fn to_string(&self) -> (r: String)
        ensures
            r@ == self.message(),
    {
        let mut s = String::new();
        match self {
            ExampleErrors::InvalidLookahead(n) => {
                s.append("invalid rdo_lookahead_frames ");
                push_decimal(&mut s, *n as u64);
                s.append(" (expected < ");
                push_decimal(&mut s, LOOKAHEAD_MAX);
                s.append(")");
            },
            ExampleErrors::WrongCase(w) => {
                s.append("first letter must be lowercase but was ");
                let d = debug_char(first_char(w.as_str()));
                s.append(d.as_str());
            },
            ExampleErrors::OutOfBounds { idx, limits } => {
                s.append("invalid index ");
                push_decimal(&mut s, *idx as u64);
                s.append(", expected at least ");
                push_decimal(&mut s, limits.lo as u64);
                s.append(" and at most ");
                push_decimal(&mut s, limits.hi as u64);
            },
            ExampleErrors::Io(e) => {
                s.append("I/O error: ");
                s.append(e.message.as_str());
            },
            ExampleErrors::Aerror => {
                s.append("this is a custom error,no actual use");
            },
        }
        assert(s@ =~= self.message());
        s
    }

    /// The lower-level failure that caused this one, if any.
    pub fn source(&self) -> (r: Option<&IoFailure>)
        ensures
            match self {
                ExampleErrors::Io(e) => r == Some(e),
                _ => r is None,
            },
    {
        match self {
            ExampleErrors::Io(e) => Some(e),
            _ => None,
        }
    }
}

/// Failures of a data store.
#[derive(Debug, PartialEq, Eq)]
pub enum DataStoreError {
    Disconnect(IoFailure),
    Redaction(String),
    InvalidHeader { expected: String, found: String },
    Unknown,
}

impl DataStoreError {
    /// The message of each failure, from its template.
    pub open spec fn message(&self) -> Seq<char> {
        match self {
            DataStoreError::Disconnect(_) => "data store disconnected"@,
            DataStoreError::Redaction(key) => "the data for key `"@ + key@ + "` is not available"@,
            DataStoreError::InvalidHeader { expected, found } => "invalid header (expected "@
                + str_debug(expected@) + ", found "@ + str_debug(found@) + ")"@,
            DataStoreError::Unknown => "unknown data store error"@,
        }
    }

    /// Renders the failure's message.
    pub fn to_string(&self) -> (r: String)
        ensures
            r@ == self.message(),
    {
        let mut s = String::new();
        match self {
            DataStoreError::Disconnect(_) => {
                s.append("data store disconnected");
            },
            DataStoreError::Redaction(key) => {
                s.append("the data for key `");
                s.append(key.as_str());
                s.append("` is not available");
            },
            DataStoreError::InvalidHeader { expected, found } => {
                s.append("invalid header (expected ");
                let e = debug_str(expected.as_str());
                s.append(e.as_str());
                s.append(", found ");
                let f = debug_str(found.as_str());
                s.append(f.as_str());
                s.append(")");
            },
            DataStoreError::Unknown => {
                s.append("unknown data store error");
            },
        }
        assert(s@ =~= self.message());
        s
    }

    /// The lower-level failure that caused this one, if any.
    pub fn source(&self) -> (r: Option<&IoFailure>)
        ensures
            match self {
                DataStoreError::Disconnect(e) => r == Some(e),
                _ => r is None,
            },
    {
        match self {
            DataStoreError::Disconnect(e) => Some(e),
            _ => None,
        }
    }
}

impl From<IoFailure> for DataStoreError {
    fn from(e: IoFailure) -> (r: DataStoreError)
        ensures
            r == DataStoreError::Disconnect(e),
    {
        DataStoreError::Disconnect(e)
    }
}

impl vstd::std_specs::convert::FromSpecImpl<IoFailure> for DataStoreError {
    open spec fn obeys_from_spec() -> bool {
        true
    }

    open spec fn from_spec(e: IoFailure) -> DataStoreError {
        DataStoreError::Disconnect(e)
    }
}

impl From<IoFailure> for ExampleErrors {
    fn from(e: IoFailure) -> (r: ExampleErrors)
        ensures
            r == ExampleErrors::Io(e),
    {
        ExampleErrors::Io(e)
    }
}

impl vstd::std_specs::convert::FromSpecImpl<IoFailure> for ExampleErrors {
    open spec fn obeys_from_spec() -> bool {
        true
    }

    open spec fn from_spec(e: IoFailure) -> ExampleErrors {
        ExampleErrors::Io(e)
    }
}

/// A user account.
#[derive(Debug, PartialEq, Eq)]
pub struct User {
    pub id: u32,
    pub name: String,
    pub age: u8,
}

impl User {
    /// The user's display text.
    pub open spec fn display(&self) -> Seq<char> {
        "[impl Display] User { id: "@ + decimal(self.id as nat) + ", name: "@ + self.name@ + ", age: "@
            + decimal(self.age as nat) + " }"@
    }

    /// Renders the user's display text.
    pub fn to_string(&self) -> (r: String)
        ensures
            r@ == self.display(),
    {
        let mut s = String::new();
        s.append("[impl Display] User { id: ");
        push_decimal(&mut s, self.id as u64);
        s.append(", name: ");
        s.append(self.name.as_str());
        s.append(", age: ");
        push_decimal(&mut s, self.age as u64);
        s.append(" }");
        assert(s@ =~= self.display());
        s
    }
}

} // verus!
