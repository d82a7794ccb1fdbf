use vstd::prelude::*;

use crate::text::push_str;
use crate::time::Timestamp;

verus! {

/// Identifier used to look up errors caused by specific actions.
#[derive(Clone, Copy, PartialEq, Eq, Structural, Debug)]
pub enum ErrorId {
    /// An error of the search with this identifier.
    Search(u128),
}

/// The lines after the message: `caused by: CAUSE` for each cause, each
/// line ended by a line feed when `trailing` holds, else each started by
/// one.
pub open spec fn causes_text(causes: Seq<String>, trailing: bool) -> Seq<char>
    decreases causes.len(),
{
    if causes.len() == 0 {
        Seq::empty()
    } else {
        let line = "caused by: "@ + causes.last()@;
        causes_text(causes.drop_last(), trailing) + if trailing {
            line + "\n"@
        } else {
            "\n"@ + line
        }
    }
}

fn push_causes(out: &mut String, causes: &Vec<String>, trailing: bool)
    ensures
        final(out)@ == old(out)@ + causes_text(causes@, trailing),
{
    let mut i: usize = 0;
    assert(old(out)@ + causes_text(causes@.take(0), trailing) =~= old(out)@);
    while i < causes.len()
        invariant
            i <= causes@.len(),
            out@ == old(out)@ + causes_text(causes@.take(i as int), trailing),
        decreases causes@.len() - i,
    {
        proof {
            assert(causes@.take(i + 1).drop_last() =~= causes@.take(i as int));
        }
        if trailing {
            push_str(out, "caused by: ");
            push_str(out, causes[i].as_str());
            push_str(out, "\n");
        } else {
            push_str(out, "\n");
            push_str(out, "caused by: ");
            push_str(out, causes[i].as_str());
        }
        i = i + 1;
        assert(out@ =~= old(out)@ + causes_text(causes@.take(i as int), trailing));
    }
    assert(causes@.take(i as int) =~= causes@);
}

/// A detailed error: a message, the messages of its causes, when it
/// happened and, when known, the action that caused it.
#[derive(Debug)]
pub struct ErrorInfo {
    pub id: Option<ErrorId>,
    pub timestamp: Timestamp,
    pub message: String,
    pub causes: Vec<String>,
}

impl ErrorInfo {
    /// An error caused by the action `id`.
    pub fn new(id: ErrorId, message: String, causes: Vec<String>, timestamp: Timestamp) -> (r: ErrorInfo)
        ensures
            r.id == Some(id),
            r.message == message,
            r.causes == causes,
            r.timestamp == timestamp,
    {
        ErrorInfo::internal(Some(id), message, causes, timestamp)
    }

    /// An error, with the action that caused it when known.
    pub fn internal(id: Option<ErrorId>, message: String, causes: Vec<String>, timestamp: Timestamp) -> (r: ErrorInfo)
        ensures
            r.id == id,
            r.message == message,
            r.causes == causes,
            r.timestamp == timestamp,
    {
        ErrorInfo { id, timestamp, message, causes }
    }

    /// The message, then a line `caused by: CAUSE` for each cause.
    pub fn to_string(&self) -> (s: String)
        ensures
            s@ == self.message@ + causes_text(self.causes@, false),
    {
        let mut s = String::new();
        push_str(&mut s, self.message.as_str());
        push_causes(&mut s, &self.causes, false);
        s
    }
}

/// An error message with the messages of its causes.
#[derive(Debug)]
pub struct ErrorMessage {
    pub message: String,
    pub causes: Vec<String>,
}

impl ErrorMessage {
    /// The message alone when there are no causes; else the message and a
    /// line `caused by: CAUSE` for each cause, each line ended by a line
    /// feed.
    pub fn to_string(&self) -> (s: String)
        ensures
            self.causes@.len() == 0 ==> s@ == self.message@,
            self.causes@.len() > 0 ==> s@ == self.message@ + "\n"@ + causes_text(self.causes@, true),
    {
        let mut s = String::new();
        push_str(&mut s, self.message.as_str());
        if self.causes.len() == 0 {
            return s;
        }
        push_str(&mut s, "\n");
        push_causes(&mut s, &self.causes, true);
        s
    }
}

} // verus!
