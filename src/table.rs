//! The records kept for each account and each conversation.

use vstd::prelude::*;
use vstd::string::*;
use crate::command::{first_index, has_char, split_once};

verus! {

/// One user account.
pub struct Account {
    pub username: String,
    pub passhash: String,
    pub session: String,
    pub picture: String,
    pub email: String,
    pub chats: Vec<String>,
}

/// One conversation and the messages written in it.
pub struct Chat {
    pub members: Vec<String>,
    pub messages: Vec<Message>,
}

/// One message of a conversation.
pub struct Message {
    pub date: String,
    pub text: String,
    pub owner: String,
}

/// Splits a record id written `table:key` at its first `:` into the table
/// and the key; `None` when there is no `:`.
pub fn record_id_parts(s: &str) -> (r: Option<(String, String)>)
    ensures
        match r {
            Some((table, key)) => {
                &&& has_char(s@, ':')
                &&& table@ == s@.subrange(0, first_index(s@, ':'))
                &&& key@ == s@.subrange(first_index(s@, ':') + 1, s@.len() as int)
            },
            None => !has_char(s@, ':'),
        },
{
    match split_once(s, ':') {
        Some((table, key)) => Some((table.to_owned(), key.to_owned())),
        None => None,
    }
}

} // verus!
