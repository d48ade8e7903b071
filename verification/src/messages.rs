//! Messages to the user, by their key in the translation catalogs.
use vstd::prelude::*;

use crate::desktop::{pairs, Pair};
use crate::text::copy;

verus! {

/// A message: its key in the catalogs, and the values of its placeholders.
#[derive(Debug)]
pub struct Message {
    pub key: String,
    pub args: Vec<(String, String)>,
}

/// What a [`Message`] says.
#[verifier::ext_equal]
pub struct MessageView {
    pub key: Seq<char>,
    pub args: Seq<Pair>,
}

impl View for Message {
    type V = MessageView;

    open spec fn view(&self) -> MessageView {
        MessageView { key: self.key@, args: pairs(self.args@) }
    }
}

/// What a vector of messages says.
pub open spec fn message_views(v: Seq<Message>) -> Seq<MessageView> {
    Seq::new(v.len(), |i: int| v[i]@)
}

/// What an optional message says.
pub open spec fn opt_message(o: Option<Message>) -> Option<MessageView> {
    match o {
        Some(m) => Some(m@),
        None => None,
    }
}

/// The message without placeholders.
pub open spec fn plain(key: Seq<char>) -> MessageView {
    MessageView { key, args: seq![] }
}

/// The message with one placeholder.
pub open spec fn with_arg(key: Seq<char>, name: Seq<char>, value: Seq<char>) -> MessageView {
    MessageView { key, args: seq![(name, value)] }
}

/// The message with two placeholders.
pub open spec fn with_args(
    key: Seq<char>,
    first: Seq<char>,
    value: Seq<char>,
    second: Seq<char>,
    other: Seq<char>,
) -> MessageView {
    MessageView { key, args: seq![(first, value), (second, other)] }
}

impl Message {
    /// The message without placeholders.
    pub fn plain(key: &str) -> (r: Self)
        ensures
            r@ == plain(key@),
    {
        let r: Message = Message { key: copy(key), args: Vec::new() };
        assert(r@ =~= plain(key@));
        r
    }

    /// The message with one placeholder.
    pub fn with_arg(key: &str, name: &str, value: &str) -> (r: Self)
        ensures
            r@ == with_arg(key@, name@, value@),
    {
        let mut args: Vec<(String, String)> = Vec::new();
        args.push((copy(name), copy(value)));
        let r: Message = Message { key: copy(key), args };
        assert(r@ =~= with_arg(key@, name@, value@));
        r
    }

    /// The message with two placeholders.
    pub fn with_args(key: &str, first: &str, value: &str, second: &str, other: &str) -> (r: Self)
        ensures
            r@ == with_args(key@, first@, value@, second@, other@),
    {
        let mut args: Vec<(String, String)> = Vec::new();
        args.push((copy(first), copy(value)));
        args.push((copy(second), copy(other)));
        let r: Message = Message { key: copy(key), args };
        assert(r@ =~= with_args(key@, first@, value@, second@, other@));
        r
    }
}

} // verus!
