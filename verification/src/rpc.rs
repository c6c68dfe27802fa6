//! What the daemon answers to its callers: the single reply of a call that
//! reports a status or asks the daemon to stop, and the stream of replies
//! that relays the output of a hook.

use vstd::prelude::*;

verus! {

/// The reply to a call that is answered once.
#[derive(Debug)]
pub enum Reply {
    /// The call succeeded; the reply carries nothing.
    Empty,
    /// The call failed on the side of the operating system or of a
    /// collaborator; the reply carries the cause.
    OsError(String),
}

/// A `Reply` with its text as a sequence of characters.
pub enum ReplyView {
    Empty,
    OsError(Seq<char>),
}

impl View for Reply {
    type V = ReplyView;

    open spec fn view(&self) -> ReplyView {
        match self {
            Reply::Empty => ReplyView::Empty,
            Reply::OsError(cause) => ReplyView::OsError(cause@),
        }
    }
}

impl Reply {
    /// Whether the reply reports a failure.
    pub fn is_error(&self) -> (r: bool)
        ensures
            r == (self@ is OsError),
    {
        match self {
            Reply::Empty => false,
            Reply::OsError(_) => true,
        }
    }
}

/// The reply to a status report, given what became of publishing the
/// consolidated status: empty where it was published, an error with the
/// sink's own words where it was not.
pub fn reply_to_publish(published: Result<(), String>) -> (r: Reply)
    ensures
        r@ == match published {
            Ok(_) => ReplyView::Empty,
            Err(cause) => ReplyView::OsError(cause@),
        },
{
    match published {
        Ok(_) => Reply::Empty,
        Err(cause) => Reply::OsError(cause),
    }
}

/// One reply in the stream that answers a hook call.
#[derive(Debug)]
pub enum HookReply {
    /// A piece of the hook's output; more replies follow.
    Output(String),
    /// The empty reply that closes the stream.
    End,
    /// The hook could not be started; the stream holds nothing else.
    OsError(String),
}

/// A `HookReply` with its text as a sequence of characters.
pub enum HookReplyView {
    Output(Seq<char>),
    End,
    OsError(Seq<char>),
}

impl View for HookReply {
    type V = HookReplyView;

    open spec fn view(&self) -> HookReplyView {
        match self {
            HookReply::Output(text) => HookReplyView::Output(text@),
            HookReply::End => HookReplyView::End,
            HookReply::OsError(cause) => HookReplyView::OsError(cause@),
        }
    }
}

impl DeepView for HookReply {
    type V = HookReplyView;

    open spec fn deep_view(&self) -> HookReplyView {
        self@
    }
}

impl HookReplyView {
    /// Whether more replies follow this one.
    pub open spec fn continues(self) -> bool {
        self is Output
    }

    /// The text that the reply carries, if any.
    pub open spec fn message(self) -> Option<Seq<char>> {
        match self {
            HookReplyView::Output(text) => Some(text),
            HookReplyView::End => None,
            HookReplyView::OsError(cause) => Some(cause),
        }
    }
}

impl HookReply {
    /// Whether more replies follow this one.
    pub fn continues(&self) -> (r: bool)
        ensures
            r == self@.continues(),
    {
        match self {
            HookReply::Output(_) => true,
            _ => false,
        }
    }

    /// Whether the reply reports a failure.
    pub fn is_error(&self) -> (r: bool)
        ensures
            r == (self@ is OsError),
    {
        match self {
            HookReply::OsError(_) => true,
            _ => false,
        }
    }

    /// The text that the reply carries, if any.
    pub fn message(&self) -> (r: Option<String>)
        ensures
            r.deep_view() == self@.message(),
    {
        match self {
            HookReply::Output(text) => Some(text.clone()),
            HookReply::End => None,
            HookReply::OsError(cause) => Some(cause.clone()),
        }
    }
}

} // verus!
