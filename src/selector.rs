//! Path queries as free functions over a message.
use crate::message::{message_query, Message};
use vstd::prelude::*;

verus! {

/// The value that `path` reads in `msg`; see [`Message::query`].
pub fn query<'a>(msg: &Message<'a>, path: &str) -> (r: &'a str)
    requires
        msg.wf(),
    ensures
        r@ == message_query(msg.source@, msg.separators, path@),
{
    query_message(msg, path)
}

/// The value that `path` reads in `msg`; see [`Message::query`].
pub fn query_message<'a>(msg: &Message<'a>, path: &str) -> (r: &'a str)
    requires
        msg.wf(),
    ensures
        r@ == message_query(msg.source@, msg.separators, path@),
{
    msg.query(path)
}

} // verus!
