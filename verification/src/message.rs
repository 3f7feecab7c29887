//! Message types: named payloads carried by one communication step.
//!
//! A message type is opaque beyond its identity; it labels edges and is
//! what branch continuations are unified over during merge.

use vstd::prelude::*;

verus! {

/// A named payload type.
#[derive(Debug)]
pub struct MessageType {
    pub name: String,
}

impl View for MessageType {
    type V = Seq<char>;

    open spec fn view(&self) -> Seq<char> {
        self.name@
    }
}

impl Clone for MessageType {
    fn clone(&self) -> (r: Self)
        ensures
            r@ == self@,
    {
        MessageType { name: self.name.clone() }
    }
}

impl MessageType {
    pub fn new(name: String) -> (r: MessageType)
        ensures
            r@ == name@,
    {
        MessageType { name }
    }

    /// Whether two message types are the same name.
    pub fn same_as(&self, other: &MessageType) -> (r: bool)
        ensures
            r == (self@ == other@),
    {
        self.name.eq(&other.name)
    }
}

} // verus!
