//! The plain data types that cross the library's boundary: room descriptions,
//! chat messages, and the caller-facing error.

use vstd::prelude::*;

verus! {

/// Description of a chat room. The name is the room's unique key in the
/// registry and is never mutated after creation.
#[derive(Debug, PartialEq)]
pub struct RoomDescription {
    pub name: String,
    pub long_desc: String,
}

impl Clone for RoomDescription {
    fn clone(&self) -> (r: Self)
        ensures
            r == *self,
    {
        RoomDescription { name: self.name.clone(), long_desc: self.long_desc.clone() }
    }
}

/// One chat message: who sent it, the sender's display colour, and the text.
/// Messages are immutable and are never stored beyond the delivery round in
/// which they are broadcast.
#[derive(Debug, PartialEq)]
pub struct MessageMetaData {
    pub username: String,
    pub user_color: [u8; 3],
    pub msg: String,
}

impl Clone for MessageMetaData {
    fn clone(&self) -> (r: Self)
        ensures
            r == *self,
    {
        MessageMetaData {
            username: self.username.clone(),
            user_color: self.user_color,
            msg: self.msg.clone(),
        }
    }
}

/// The only error surfaced to callers: a lookup or session request named a
/// room that is not in the registry. Delivery failures are never surfaced;
/// they are absorbed into subscriber pruning.
#[derive(Debug, PartialEq)]
pub enum ChatError {
    RoomDoesNotExist(String),
}

impl ChatError {
    /// The room name that the failed request asked for.
    pub fn room_name(&self) -> (r: &String)
        ensures
            *self matches ChatError::RoomDoesNotExist(n) && r@ == n@,
    {
        match self {
            ChatError::RoomDoesNotExist(n) => n,
        }
    }
}

} // verus!
