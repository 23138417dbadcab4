//! The messages that flow between the actors of the routing core, and the
//! transport frames a connection receives from its client.
//!
//! Every cross-actor interaction is an immutable value of one of these
//! types dropped into the receiver's mailbox; the routing decisions in
//! this crate consume and produce them as plain values, and the mailboxes
//! that carry them live outside the library.

use vstd::prelude::*;

use crate::conn::ConnHandle;
use crate::member::Member;
use crate::protocol::{ClientProtocol, RoomId};

verus! {

/// What a connection actor reports to the dispatch manager.
#[derive(Debug)]
pub enum ConnMessage {
    OnLeave { member: Member },
    OnNewMessage { member: Member, message: ClientProtocol },
}

/// What a room actor delivers to a member's connection actor.
#[derive(Debug)]
pub enum RoomMessage {
    OnJoin { room_id: RoomId, member: Member },
    OnLeave { room_id: RoomId, member: Member },
    OnNewMessage { room_id: RoomId, member: Member, content: ClientProtocol },
}

/// What the dispatch manager (or a forwarded client message) asks of a
/// room actor.
#[derive(Debug)]
pub enum DispatchMessage {
    OnJoin { conn_handle: ConnHandle },
    OnNewMessage { member: Member, message: ClientProtocol },
    GetMemberCount,
}

/// What the accept path announces to the dispatch manager.
#[derive(Debug)]
pub enum SessionMessage {
    OnAccept { conn: ConnHandle },
}

/// One inbound transport frame, reduced to what the routing core reads:
/// a text frame with its payload, a close frame, or any other frame kind
/// (binary and control frames), which the core ignores by policy.
#[derive(Debug)]
pub enum Frame {
    Text(String),
    Close,
    Other,
}

impl Clone for ConnMessage {
    fn clone(&self) -> (r: Self)
        ensures
            r == *self,
    {
        match self {
            ConnMessage::OnLeave { member } => ConnMessage::OnLeave { member: member.clone() },
            ConnMessage::OnNewMessage { member, message } => ConnMessage::OnNewMessage {
                member: member.clone(),
                message: message.clone(),
            },
        }
    }
}

impl Clone for RoomMessage {
    fn clone(&self) -> (r: Self)
        ensures
            r == *self,
    {
        match self {
            RoomMessage::OnJoin { room_id, member } => RoomMessage::OnJoin {
                room_id: room_id.clone(),
                member: member.clone(),
            },
            RoomMessage::OnLeave { room_id, member } => RoomMessage::OnLeave {
                room_id: room_id.clone(),
                member: member.clone(),
            },
            RoomMessage::OnNewMessage { room_id, member, content } => RoomMessage::OnNewMessage {
                room_id: room_id.clone(),
                member: member.clone(),
                content: content.clone(),
            },
        }
    }
}

impl Clone for DispatchMessage {
    fn clone(&self) -> (r: Self)
        ensures
            r == *self,
    {
        match self {
            DispatchMessage::OnJoin { conn_handle } => DispatchMessage::OnJoin {
                conn_handle: conn_handle.clone(),
            },
            DispatchMessage::OnNewMessage { member, message } => DispatchMessage::OnNewMessage {
                member: member.clone(),
                message: message.clone(),
            },
            DispatchMessage::GetMemberCount => DispatchMessage::GetMemberCount,
        }
    }
}

impl Clone for SessionMessage {
    fn clone(&self) -> (r: Self)
        ensures
            r == *self,
    {
        match self {
            SessionMessage::OnAccept { conn } => SessionMessage::OnAccept { conn: conn.clone() },
        }
    }
}

impl Clone for Frame {
    fn clone(&self) -> (r: Self)
        ensures
            r == *self,
    {
        match self {
            Frame::Text(s) => Frame::Text(s.clone()),
            Frame::Close => Frame::Close,
            Frame::Other => Frame::Other,
        }
    }
}

} // verus!
