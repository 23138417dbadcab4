use chat_router::member::{Member, UserType};
use chat_router::protocol::{ClientProtocol, MessageType};

#[test]
fn round_trip_chat_payload() {
    let p = ClientProtocol {
        body: "hi".to_string(),
        msg_type: MessageType::Chat,
        room_id: "r1".to_string(),
    };
    let wire = p.to_json();
    assert_eq!(wire, "{\"body\":\"hi\",\"msg_type\":\"Chat\",\"room_id\":\"r1\"}");
    let back = ClientProtocol::from_json(&wire).expect("canonical form must parse");
    assert_eq!(back.body(), "hi");
    assert!(matches!(back.msg_type(), MessageType::Chat));
    assert_eq!(back.room_id(), "r1");
}

#[test]
fn round_trip_with_escapes() {
    let p = ClientProtocol {
        body: "a \"quoted\" back\\slash\nnew\tline \u{1} end".to_string(),
        msg_type: MessageType::Tips,
        room_id: "room-1".to_string(),
    };
    let wire = p.to_json();
    let back = ClientProtocol::from_json(&wire).expect("escaped form must parse");
    assert_eq!(back.body(), "a \"quoted\" back\\slash\nnew\tline \u{1} end");
    assert!(matches!(back.msg_type(), MessageType::Tips));
    assert_eq!(back.room_id(), "room-1");
}

#[test]
fn encoder_matches_serde_json_output() {
    let mut obj = serde_json::Map::new();
    obj.insert(
        "body".to_string(),
        serde_json::Value::String("a \"q\" b\\c\nd".to_string()),
    );
    obj.insert(
        "msg_type".to_string(),
        serde_json::Value::String("Chat".to_string()),
    );
    obj.insert(
        "room_id".to_string(),
        serde_json::Value::String("r-9".to_string()),
    );
    let reference = serde_json::Value::Object(obj).to_string();

    let p = ClientProtocol {
        body: "a \"q\" b\\c\nd".to_string(),
        msg_type: MessageType::Chat,
        room_id: "r-9".to_string(),
    };
    assert_eq!(p.to_json(), reference);
}

#[test]
fn parser_accepts_serde_json_output() {
    let mut obj = serde_json::Map::new();
    obj.insert(
        "body".to_string(),
        serde_json::Value::String("hello there".to_string()),
    );
    obj.insert(
        "msg_type".to_string(),
        serde_json::Value::String("Tips".to_string()),
    );
    obj.insert(
        "room_id".to_string(),
        serde_json::Value::String("abc-def".to_string()),
    );
    let wire = serde_json::Value::Object(obj).to_string();

    let p = ClientProtocol::from_json(&wire).expect("serde output must parse");
    assert_eq!(p.body(), "hello there");
    assert!(matches!(p.msg_type(), MessageType::Tips));
    assert_eq!(p.room_id(), "abc-def");
}

#[test]
fn parser_tolerates_whitespace() {
    let wire = " { \"body\" : \"hi\" ,\n\t\"msg_type\" : \"Chat\" , \"room_id\" : \"r1\" } ";
    let p = ClientProtocol::from_json(wire).expect("whitespace must be tolerated");
    assert_eq!(p.body(), "hi");
    assert_eq!(p.room_id(), "r1");
}

#[test]
fn parser_accepts_members_in_any_order() {
    let wire = "{\"room_id\":\"r1\",\"body\":\"hi\",\"msg_type\":\"Chat\"}";
    let p = ClientProtocol::from_json(wire).expect("member order must not matter");
    assert_eq!(p.body(), "hi");
    assert!(matches!(p.msg_type(), MessageType::Chat));
    assert_eq!(p.room_id(), "r1");

    let wire = "{\"msg_type\":\"Tips\",\"room_id\":\"r2\",\"body\":\"yo\"}";
    let p = ClientProtocol::from_json(wire).expect("member order must not matter");
    assert_eq!(p.body(), "yo");
    assert!(matches!(p.msg_type(), MessageType::Tips));
    assert_eq!(p.room_id(), "r2");
}

#[test]
fn parser_decodes_surrogate_pairs() {
    let wire = "{\"body\":\"\\ud83d\\ude00!\",\"msg_type\":\"Chat\",\"room_id\":\"r\"}";
    let p = ClientProtocol::from_json(wire).expect("a surrogate pair must decode");
    assert_eq!(p.body(), "\u{1f600}!");
}

#[test]
fn parser_rejects_duplicate_and_unknown_members() {
    // The same member twice.
    assert!(ClientProtocol::from_json(
        "{\"body\":\"a\",\"body\":\"b\",\"room_id\":\"r\"}"
    )
    .is_none());
    // A member the protocol does not know.
    assert!(ClientProtocol::from_json(
        "{\"body\":\"a\",\"msg_type\":\"Chat\",\"extra\":\"x\"}"
    )
    .is_none());
}

#[test]
fn parser_decodes_unicode_escapes() {
    let wire = "{\"body\":\"\\u0041\\u00e9\",\"msg_type\":\"Chat\",\"room_id\":\"r1\"}";
    let p = ClientProtocol::from_json(wire).expect("unicode escapes must parse");
    assert_eq!(p.body(), "A\u{e9}");
}

#[test]
fn parse_failures_yield_nothing() {
    // Not JSON at all.
    assert!(ClientProtocol::from_json("not json").is_none());
    // A missing field.
    assert!(ClientProtocol::from_json("{\"body\":\"hi\",\"msg_type\":\"Chat\"}").is_none());
    // An unknown message type.
    assert!(
        ClientProtocol::from_json("{\"body\":\"hi\",\"msg_type\":\"Nope\",\"room_id\":\"r\"}")
            .is_none()
    );
    // An unterminated string.
    assert!(
        ClientProtocol::from_json("{\"body\":\"hi,\"msg_type\":\"Chat\",\"room_id\":\"r\"}")
            .is_none()
    );
    // Trailing content after the object.
    assert!(
        ClientProtocol::from_json("{\"body\":\"h\",\"msg_type\":\"Chat\",\"room_id\":\"r\"}x")
            .is_none()
    );
    // A lone surrogate escape.
    assert!(
        ClientProtocol::from_json("{\"body\":\"\\ud800\",\"msg_type\":\"Chat\",\"room_id\":\"r\"}")
            .is_none()
    );
}

#[test]
fn tips_builders_fill_the_fields() {
    let t = ClientProtocol::new_tips("note".to_string(), "r7".to_string());
    assert_eq!(t.body(), "note");
    assert!(matches!(t.msg_type(), MessageType::Tips));
    assert_eq!(t.room_id(), "r7");

    let m = Member::new(UserType::Customer, "c1".to_string(), "Ada".to_string());
    let j = ClientProtocol::join(&m, "r7".to_string());
    assert_eq!(j.body(), "c1 加入了聊天");
    assert!(matches!(j.msg_type(), MessageType::Tips));
    assert_eq!(j.room_id(), "r7");

    let s = ClientProtocol::self_join("r7".to_string());
    assert_eq!(s.body(), "你加入了聊天");
    assert!(matches!(s.msg_type(), MessageType::Tips));
    assert_eq!(s.room_id(), "r7");
}

#[test]
fn member_equality_is_role_and_id() {
    let a = Member::new(UserType::Customer, "x".to_string(), "Name One".to_string());
    let b = Member::new(UserType::Customer, "x".to_string(), "Other Name".to_string());
    let c = Member::new(UserType::CustomerService, "x".to_string(), "Name One".to_string());
    let d = Member::new(UserType::Customer, "y".to_string(), "Name One".to_string());
    assert!(a == b);
    assert!(a != c);
    assert!(a != d);
    assert!(a.is_customer());
    assert!(!a.is_customer_service());
    assert!(c.is_customer_service());
    assert_eq!(a.id(), "x");
    assert_eq!(a.user_name(), "Name One");
    assert_eq!(a.user_type(), UserType::Customer);
}
