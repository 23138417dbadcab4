use chat_router::chat::{DispatchMessage, RoomMessage};
use chat_router::conn::{Conn, ConnHandle};
use chat_router::member::{Member, UserType};
use chat_router::protocol::{ClientProtocol, MessageType};
use chat_router::room::{ChatRoom, RoomEffect};

fn customer(id: &str) -> ConnHandle {
    ConnHandle::new(
        Member::new(UserType::Customer, id.to_string(), id.to_string()),
        1,
    )
}

fn agent(id: &str) -> ConnHandle {
    ConnHandle::new(
        Member::new(UserType::CustomerService, id.to_string(), id.to_string()),
        2,
    )
}

#[test]
fn broadcast_excludes_the_author() {
    let mut room = ChatRoom::new("r".to_string());
    let a = customer("A");
    let b = customer("B");
    let c = customer("C");
    room.handle_dispatch_message(DispatchMessage::OnJoin { conn_handle: a });
    room.handle_dispatch_message(DispatchMessage::OnJoin { conn_handle: b.clone() });
    room.handle_dispatch_message(DispatchMessage::OnJoin { conn_handle: c });

    let msg = ClientProtocol {
        body: "from B".to_string(),
        msg_type: MessageType::Chat,
        room_id: "r".to_string(),
    };
    let effects = room.handle_dispatch_message(DispatchMessage::OnNewMessage {
        member: b.identity().clone(),
        message: msg,
    });

    let mut recipients: Vec<String> = Vec::new();
    for e in &effects {
        match e {
            RoomEffect::Deliver { to, msg } => {
                match msg {
                    RoomMessage::OnNewMessage { member, content, .. } => {
                        assert_eq!(member.id(), "B");
                        assert_eq!(content.body(), "from B");
                    }
                    _ => panic!("unexpected event kind"),
                }
                recipients.push(to.identity().id().to_string());
            }
            RoomEffect::MemberCount { .. } => panic!("no count was asked for"),
        }
    }
    // Delivered to A and C, never echoed back to B.
    assert_eq!(recipients, vec!["A".to_string(), "C".to_string()]);
}

#[test]
fn join_notifies_the_others_only() {
    let mut room = ChatRoom::new("r".to_string());
    let a = customer("A");
    let effects = room.handle_dispatch_message(DispatchMessage::OnJoin { conn_handle: a });
    // The first member has nobody to notify.
    assert!(effects.is_empty());

    let b = agent("B");
    let effects = room.handle_dispatch_message(DispatchMessage::OnJoin { conn_handle: b });
    assert_eq!(effects.len(), 1);
    match &effects[0] {
        RoomEffect::Deliver { to, msg } => {
            assert_eq!(to.identity().id(), "A");
            match msg {
                RoomMessage::OnJoin { room_id, member } => {
                    assert_eq!(room_id, "r");
                    assert_eq!(member.id(), "B");
                }
                _ => panic!("expected a join event"),
            }
        }
        RoomEffect::MemberCount { .. } => panic!("no count was asked for"),
    }
}

#[test]
fn rejoining_replaces_the_entry() {
    let mut room = ChatRoom::new("r".to_string());
    room.handle_dispatch_message(DispatchMessage::OnJoin { conn_handle: customer("A") });
    room.handle_dispatch_message(DispatchMessage::OnJoin { conn_handle: customer("A") });
    assert_eq!(room.get_member_count(), 1);
}

#[test]
fn member_count_is_answered() {
    let mut room = ChatRoom::new("r".to_string());
    room.handle_dispatch_message(DispatchMessage::OnJoin { conn_handle: customer("A") });
    room.handle_dispatch_message(DispatchMessage::OnJoin { conn_handle: customer("B") });
    let effects = room.handle_dispatch_message(DispatchMessage::GetMemberCount);
    assert_eq!(effects.len(), 1);
    match &effects[0] {
        RoomEffect::MemberCount { count } => assert_eq!(*count, 2),
        RoomEffect::Deliver { .. } => panic!("expected the count"),
    }
    assert_eq!(room.get_member_count(), 2);
}

#[test]
fn conn_turns_room_events_into_client_payloads() {
    let me = Member::new(UserType::Customer, "me".to_string(), "Me".to_string());
    let other = Member::new(UserType::CustomerService, "agt".to_string(), "Agent".to_string());
    let conn = Conn::new(me.clone());

    // My own join becomes a self tip.
    let r = conn
        .handle_room_message(RoomMessage::OnJoin { room_id: "r".to_string(), member: me.clone() })
        .expect("a self join yields a tip");
    assert_eq!(r.body(), "你加入了聊天");
    assert!(matches!(r.msg_type(), MessageType::Tips));
    assert_eq!(r.room_id(), "r");

    // A peer's join becomes a named tip.
    let r = conn
        .handle_room_message(RoomMessage::OnJoin {
            room_id: "r".to_string(),
            member: other.clone(),
        })
        .expect("a peer join yields a tip");
    assert_eq!(r.body(), "agt 加入了聊天");

    // A peer's message is forwarded verbatim.
    let content = ClientProtocol {
        body: "hello".to_string(),
        msg_type: MessageType::Chat,
        room_id: "r".to_string(),
    };
    let r = conn
        .handle_room_message(RoomMessage::OnNewMessage {
            room_id: "r".to_string(),
            member: other,
            content,
        })
        .expect("a peer message is forwarded");
    assert_eq!(r.body(), "hello");

    // My own message is suppressed: no echo.
    let content = ClientProtocol {
        body: "mine".to_string(),
        msg_type: MessageType::Chat,
        room_id: "r".to_string(),
    };
    assert!(conn
        .handle_room_message(RoomMessage::OnNewMessage {
            room_id: "r".to_string(),
            member: me.clone(),
            content,
        })
        .is_none());

    // A leave event is ignored by policy.
    assert!(conn
        .handle_room_message(RoomMessage::OnLeave { room_id: "r".to_string(), member: me })
        .is_none());
}
