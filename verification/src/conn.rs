//! The connection actor's decision core.
//!
//! One connection actor stands between a client's transport and the actor
//! mesh.  The functions here decide, for each input, what leaves the
//! actor: a room event becomes (or does not become) a payload for the
//! client, and a client frame becomes (or does not become) a report to
//! the dispatch manager.  The transport itself and the actor's event loop
//! live outside the library and only call these functions.

use vstd::prelude::*;

use crate::chat::{ConnMessage, Frame, RoomMessage};
use crate::member::Member;
use crate::protocol::{spec_parse, ClientProtocol, MessageType};

verus! {

/// A cloneable reference to one live connection: the participant's
/// identity and the address of the connection actor's mailbox.
#[derive(Debug)]
pub struct ConnHandle {
    pub member: Member,
    pub mailbox: u64,
}

impl ConnHandle {
    pub fn new(member: Member, mailbox: u64) -> (r: Self)
        ensures
            r.member == member,
            r.mailbox == mailbox,
    {
        ConnHandle { member, mailbox }
    }

    pub fn identity(&self) -> (r: &Member)
        ensures
            *r == self.member,
    {
        &self.member
    }
}

impl Clone for ConnHandle {
    fn clone(&self) -> (r: Self)
        ensures
            r == *self,
    {
        ConnHandle { member: self.member.clone(), mailbox: self.mailbox }
    }
}

/// The decision core of one connection actor: its own identity.  The
/// transport halves and the mailbox that the full actor owns stay outside
/// the library.
#[derive(Debug)]
pub struct Conn {
    pub id: Member,
}

impl Conn {
    pub fn new(id: Member) -> (r: Self)
        ensures
            r.id == id,
    {
        Conn { id }
    }

    /// Decides what a room event means for this actor's client: a join of
    /// this very identity becomes a "you joined" notice, a join of a peer
    /// becomes a "peer joined" notice, a message authored by this identity
    /// is suppressed (no echo), any other message is forwarded verbatim,
    /// and a leave event is deliberately ignored: leave handling has no
    /// policy here yet.
    pub fn handle_room_message(&self, message: RoomMessage) -> (r: Option<ClientProtocol>)
        ensures
            match message {
                RoomMessage::OnJoin { room_id, member } => {
                    if member.key() == self.id.key() {
                        match r {
                            Some(p) => {
                                &&& p.body@ == "你加入了聊天"@
                                &&& p.msg_type == MessageType::Tips
                                &&& p.room_id@ == room_id@
                            },
                            None => false,
                        }
                    } else {
                        match r {
                            Some(p) => {
                                &&& p.body@ == member.spec_id() + " 加入了聊天"@
                                &&& p.msg_type == MessageType::Tips
                                &&& p.room_id@ == room_id@
                            },
                            None => false,
                        }
                    }
                },
                RoomMessage::OnLeave { .. } => r is None,
                RoomMessage::OnNewMessage { room_id, member, content } => {
                    if member.key() == self.id.key() {
                        r is None
                    } else {
                        match r {
                            Some(p) => {
                                &&& p.body@ == content.body@
                                &&& p.msg_type == content.msg_type
                                &&& p.room_id@ == content.room_id@
                            },
                            None => false,
                        }
                    }
                },
            },
    {
        match message {
            RoomMessage::OnJoin { room_id, member } => {
                if member == self.id {
                    Some(ClientProtocol::self_join(room_id))
                } else {
                    Some(ClientProtocol::join(&member, room_id))
                }
            },
            RoomMessage::OnLeave { .. } => None,
            RoomMessage::OnNewMessage { room_id: _, member, content } => {
                if member == self.id {
                    None
                } else {
                    Some(content)
                }
            },
        }
    }

    /// Decides what a client frame means for the system: a text frame
    /// that parses as a chat payload becomes a new-message report carrying
    /// this identity, a text frame that does not parse is dropped (the
    /// connection stays open), a close frame becomes a leave report, and
    /// any other frame kind (binary, ping, pong) is deliberately ignored.
    pub fn handle_client_message(&self, message: Frame) -> (r: Option<ConnMessage>)
        ensures
            match message {
                Frame::Text(s) => {
                    match spec_parse(s@) {
                        Some((body, t, room)) => match r {
                            Some(m) => match m {
                                ConnMessage::OnNewMessage { member, message: p } => {
                                    &&& member == self.id
                                    &&& p.body@ == body
                                    &&& p.msg_type == t
                                    &&& p.room_id@ == room
                                },
                                _ => false,
                            },
                            None => false,
                        },
                        None => r is None,
                    }
                },
                Frame::Close => match r {
                    Some(m) => m matches ConnMessage::OnLeave { member } && member == self.id,
                    None => false,
                },
                Frame::Other => r is None,
            },
    {
        match message {
            Frame::Text(s) => {
                match ClientProtocol::from_json(s.as_str()) {
                    Some(p) => Some(
                        ConnMessage::OnNewMessage { member: self.id.clone(), message: p },
                    ),
                    None => None,
                }
            },
            Frame::Close => Some(ConnMessage::OnLeave { member: self.id.clone() }),
            Frame::Other => None,
        }
    }
}

} // verus!
