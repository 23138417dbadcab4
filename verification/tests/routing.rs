use chat_router::chat::{ConnMessage, DispatchMessage, Frame, RoomMessage, SessionMessage};
use chat_router::conn::{Conn, ConnHandle};
use chat_router::dispatch::{DispatchEffect, Manager};
use chat_router::member::{Member, UserType};
use chat_router::protocol::{ClientProtocol, MessageType};
use chat_router::room::{ChatRoom, RoomEffect};

fn customer(id: &str, mailbox: u64) -> ConnHandle {
    ConnHandle::new(
        Member::new(UserType::Customer, id.to_string(), id.to_string()),
        mailbox,
    )
}

fn agent(id: &str, mailbox: u64) -> ConnHandle {
    ConnHandle::new(
        Member::new(UserType::CustomerService, id.to_string(), id.to_string()),
        mailbox,
    )
}

#[test]
fn pairing_is_synchronous_when_an_agent_is_free() {
    let mut mgr = Manager::new();
    let effects = mgr.handle_session_message(SessionMessage::OnAccept { conn: agent("agt1", 1) });
    assert!(effects.is_empty());

    let effects = mgr.handle_session_message(SessionMessage::OnAccept { conn: customer("cus1", 2) });
    // A room is created at once and both parties are asked in before any
    // other message of that room can exist.
    assert_eq!(effects.len(), 3);
    match &effects[0] {
        DispatchEffect::CreateRoom { handle } => assert_eq!(handle.id(), "cus1-agt1"),
        _ => panic!("the first effect starts the room"),
    }
    match &effects[1] {
        DispatchEffect::RoomSend { room, msg } => {
            assert_eq!(room.id(), "cus1-agt1");
            match msg {
                DispatchMessage::OnJoin { conn_handle } => {
                    assert_eq!(conn_handle.identity().id(), "cus1")
                }
                _ => panic!("expected the customer's join"),
            }
        }
        _ => panic!("the second effect admits the customer"),
    }
    match &effects[2] {
        DispatchEffect::RoomSend { msg, .. } => match msg {
            DispatchMessage::OnJoin { conn_handle } => {
                assert_eq!(conn_handle.identity().id(), "agt1")
            }
            _ => panic!("expected the agent's join"),
        },
        _ => panic!("the third effect admits the agent"),
    }
    assert_eq!(mgr.waiting_queue.len(), 0);
}

#[test]
fn customer_without_agent_is_queued_and_not_notified() {
    let mut mgr = Manager::new();
    let effects = mgr.handle_session_message(SessionMessage::OnAccept { conn: customer("cus1", 1) });
    // Enqueued, and no notification of any kind reaches the customer.
    assert!(effects.is_empty());
    assert_eq!(mgr.waiting_queue.len(), 1);

    // The periodic pass with no agent changes nothing either.
    let effects = mgr.auto_dispatch();
    assert!(effects.is_empty());
    assert_eq!(mgr.waiting_queue.len(), 1);
}

#[test]
fn agent_handle_is_never_dispatched() {
    let mut mgr = Manager::new();
    mgr.handle_session_message(SessionMessage::OnAccept { conn: agent("agt1", 1) });
    // A defensive call of dispatch on an agent changes nothing.
    let effects = mgr.dispatch(agent("agt2", 2));
    assert!(effects.is_empty());
    assert_eq!(mgr.waiting_queue.len(), 0);
}

#[test]
fn unrouted_message_is_dropped_in_silence() {
    let mut mgr = Manager::new();
    let msg = ClientProtocol {
        body: "stale".to_string(),
        msg_type: MessageType::Chat,
        room_id: "nowhere".to_string(),
    };
    let effects = mgr.handle_conn_message(ConnMessage::OnNewMessage {
        member: Member::new(UserType::Customer, "c".to_string(), "c".to_string()),
        message: msg,
    });
    assert!(effects.is_empty());
}

#[test]
fn leave_is_recorded_and_changes_nothing() {
    let mut mgr = Manager::new();
    mgr.handle_session_message(SessionMessage::OnAccept { conn: agent("agt1", 1) });
    let effects = mgr.handle_conn_message(ConnMessage::OnLeave {
        member: Member::new(UserType::Customer, "c".to_string(), "c".to_string()),
    });
    assert!(effects.is_empty());
    assert_eq!(mgr.customer_services.len(), 1);
}

#[test]
fn round_robin_across_agents() {
    let mut mgr = Manager::new();
    mgr.handle_session_message(SessionMessage::OnAccept { conn: agent("a1", 1) });
    mgr.handle_session_message(SessionMessage::OnAccept { conn: agent("a2", 2) });

    let e1 = mgr.dispatch(customer("c1", 3));
    let e2 = mgr.dispatch(customer("c2", 4));
    let e3 = mgr.dispatch(customer("c3", 5));
    let id_of = |effects: &Vec<DispatchEffect>| match &effects[0] {
        DispatchEffect::CreateRoom { handle } => handle.id().clone(),
        _ => panic!("expected a room"),
    };
    assert_eq!(id_of(&e1), "c1-a1");
    assert_eq!(id_of(&e2), "c2-a2");
    assert_eq!(id_of(&e3), "c3-a1");
}

/// Runs one room request and hands each delivery to the member's
/// connection core, collecting what each client would see.
fn run_room(
    room: &mut ChatRoom,
    msg: DispatchMessage,
    conns: &[&Conn],
) -> Vec<(String, ClientProtocol)> {
    let mut out = Vec::new();
    for e in room.handle_dispatch_message(msg) {
        match e {
            RoomEffect::Deliver { to, msg } => {
                for conn in conns {
                    if conn.id == *to.identity() {
                        if let Some(p) = conn.handle_room_message(msg.clone()) {
                            out.push((to.identity().id().to_string(), p));
                        }
                    }
                }
            }
            RoomEffect::MemberCount { .. } => {}
        }
    }
    out
}

#[test]
fn end_to_end_agent_then_customer() {
    // agt1 announces itself, then cus1: the pairing is immediate.
    let mut mgr = Manager::new();
    assert!(mgr
        .handle_session_message(SessionMessage::OnAccept { conn: agent("agt1", 1) })
        .is_empty());
    let effects =
        mgr.handle_session_message(SessionMessage::OnAccept { conn: customer("cus1", 2) });

    // Perform the manager's effects by hand, as the mailboxes would.
    let mut room = match &effects[0] {
        DispatchEffect::CreateRoom { handle } => {
            assert_eq!(handle.id(), "cus1-agt1");
            ChatRoom::new(handle.id().clone())
        }
        _ => panic!("expected a room"),
    };
    let cus_conn = Conn::new(Member::new(
        UserType::Customer,
        "cus1".to_string(),
        "cus1".to_string(),
    ));
    let agt_conn = Conn::new(Member::new(
        UserType::CustomerService,
        "agt1".to_string(),
        "agt1".to_string(),
    ));
    let conns = [&cus_conn, &agt_conn];

    let mut tips: Vec<(String, ClientProtocol)> = Vec::new();
    for e in &effects[1..] {
        match e {
            DispatchEffect::RoomSend { msg, .. } => {
                tips.extend(run_room(&mut room, msg.clone(), &conns))
            }
            _ => panic!("only room requests follow"),
        }
    }
    // The join notifications precede anything else the room does: the
    // customer learns that the agent joined its room.
    assert_eq!(tips.len(), 1);
    assert_eq!(tips[0].0, "cus1");
    assert_eq!(tips[0].1.body(), "agt1 加入了聊天");
    assert!(matches!(tips[0].1.msg_type(), MessageType::Tips));
    assert_eq!(tips[0].1.room_id(), "cus1-agt1");

    // cus1 sends a chat message through its connection.
    let frame = Frame::Text(
        "{\"body\":\"hello\",\"msg_type\":\"Chat\",\"room_id\":\"cus1-agt1\"}".to_string(),
    );
    let report = cus_conn
        .handle_client_message(frame)
        .expect("a well-formed frame is forwarded");
    let effects = mgr.handle_conn_message(report);
    assert_eq!(effects.len(), 1);
    let seen = match &effects[0] {
        DispatchEffect::RoomSend { room: r, msg } => {
            assert_eq!(r.id(), "cus1-agt1");
            run_room(&mut room, msg.clone(), &conns)
        }
        _ => panic!("expected a forward to the room"),
    };
    // agt1 receives the content; cus1 never hears its own message back.
    assert_eq!(seen.len(), 1);
    assert_eq!(seen[0].0, "agt1");
    assert_eq!(seen[0].1.body(), "hello");
    assert!(matches!(seen[0].1.msg_type(), MessageType::Chat));
}

#[test]
fn end_to_end_queued_customer_is_paired_by_the_periodic_pass() {
    // cus2 announces itself while no agent is free: it waits in silence.
    let mut mgr = Manager::new();
    let effects =
        mgr.handle_session_message(SessionMessage::OnAccept { conn: customer("cus2", 1) });
    assert!(effects.is_empty());
    assert_eq!(mgr.waiting_queue.len(), 1);

    // An agent appears; the pool gains an entry, the queue is untouched.
    let effects = mgr.handle_session_message(SessionMessage::OnAccept { conn: agent("agt9", 2) });
    assert!(effects.is_empty());
    assert_eq!(mgr.waiting_queue.len(), 1);

    // The next re-matching tick pairs the waiting customer.
    let effects = mgr.auto_dispatch();
    assert_eq!(mgr.waiting_queue.len(), 0);
    assert_eq!(effects.len(), 3);
    let mut room = match &effects[0] {
        DispatchEffect::CreateRoom { handle } => {
            assert_eq!(handle.id(), "cus2-agt9");
            ChatRoom::new(handle.id().clone())
        }
        _ => panic!("expected a room"),
    };

    let cus_conn = Conn::new(Member::new(
        UserType::Customer,
        "cus2".to_string(),
        "cus2".to_string(),
    ));
    let agt_conn = Conn::new(Member::new(
        UserType::CustomerService,
        "agt9".to_string(),
        "agt9".to_string(),
    ));
    let conns = [&cus_conn, &agt_conn];
    let mut tips: Vec<(String, ClientProtocol)> = Vec::new();
    for e in &effects[1..] {
        match e {
            DispatchEffect::RoomSend { msg, .. } => {
                tips.extend(run_room(&mut room, msg.clone(), &conns))
            }
            _ => panic!("only room requests follow"),
        }
    }
    // The paired customer receives a join notification for its new room.
    assert!(tips.iter().any(|(who, p)| who == "cus2" && p.room_id() == "cus2-agt9"
        && matches!(p.msg_type(), MessageType::Tips)));
}

#[test]
fn client_frames_become_reports() {
    let me = Member::new(UserType::Customer, "me".to_string(), "Me".to_string());
    let conn = Conn::new(me.clone());

    // A text frame that parses is forwarded with this identity.
    let r = conn
        .handle_client_message(Frame::Text(
            "{\"body\":\"x\",\"msg_type\":\"Chat\",\"room_id\":\"r\"}".to_string(),
        ))
        .expect("well-formed text is forwarded");
    match r {
        ConnMessage::OnNewMessage { member, message } => {
            assert!(member == me);
            assert_eq!(message.body(), "x");
            assert_eq!(message.room_id(), "r");
        }
        _ => panic!("expected a new-message report"),
    }

    // A text frame that does not parse is dropped; the connection lives on.
    assert!(conn
        .handle_client_message(Frame::Text("{broken".to_string()))
        .is_none());

    // A close frame becomes a leave report.
    match conn.handle_client_message(Frame::Close) {
        Some(ConnMessage::OnLeave { member }) => assert!(member == me),
        _ => panic!("expected a leave report"),
    }

    // Any other frame kind is ignored by policy.
    assert!(conn.handle_client_message(Frame::Other).is_none());
}

#[test]
fn repeated_pairing_keeps_one_registry_entry() {
    let mut mgr = Manager::new();
    mgr.handle_session_message(SessionMessage::OnAccept { conn: agent("a", 1) });
    mgr.dispatch(customer("c", 2));
    assert_eq!(mgr.rooms.len(), 1);
    // The same pair again: the registry entry is replaced, not duplicated.
    mgr.dispatch(customer("c", 3));
    assert_eq!(mgr.rooms.len(), 1);
    assert_eq!(mgr.rooms[0].id(), "c-a");
}
