//! The message envelope received from peers.
use vstd::prelude::*;

verus! {

/// A message received from a peer: its identifier, the sender, and an opaque payload.
#[derive(Debug, PartialEq, Eq)]
pub struct Message {
    pub id: String,
    pub peer_id: String,
    pub data: Vec<u8>,
}

/// The mathematical model of a [`Message`].
pub struct MessageView {
    pub id: Seq<char>,
    pub peer_id: Seq<char>,
    pub data: Seq<u8>,
}

impl View for Message {
    type V = MessageView;

    open spec fn view(&self) -> MessageView {
        MessageView { id: self.id@, peer_id: self.peer_id@, data: self.data@ }
    }
}

impl Clone for Message {
    fn clone(&self) -> (r: Self)
        ensures
            r@ == self@,
    {
        let data = self.data.clone();
        proof {
            assert(data@ =~= self.data@);
        }
        Message { id: self.id.clone(), peer_id: self.peer_id.clone(), data }
    }
}

} // verus!
