use chat_server::json::parse_would_overflow;
use chat_server::manager::ManagerEvent;
use chat_server::message::{Message, MessageBody};
use chat_server::stream::{check_handshake_at, handshake_name_of};

fn s(x: &str) -> String {
    x.to_string()
}

#[test]
fn overflow_is_found_only_in_a_zero_fraction_outside_strings() {
    let z = |n: usize| "0".repeat(n);
    assert!(!parse_would_overflow(&format!("0.{}", z(32768))));
    assert!(parse_would_overflow(&format!("0.{}", z(32769))));
    assert!(parse_would_overflow(&format!("[0.{}]", z(32769))));
    assert!(parse_would_overflow(&format!("-0.{}", z(32769))));
    assert!(parse_would_overflow(&format!("0.{}{}", z(32760), "1".repeat(30))));
    assert!(!parse_would_overflow(&format!("0.{}", "1".repeat(40000))));
    assert!(!parse_would_overflow(&format!("1.{}", z(40000))));
    assert!(!parse_would_overflow(&format!("10.{}", z(40000))));
    assert!(!parse_would_overflow(&format!("\"0.{}\"", z(40000))));
    assert!(!parse_would_overflow(&format!("\"a\\\"0.{}\"", z(40000))));
    assert!(parse_would_overflow(&format!("\"a\\\\\" 0.{}", z(32769))));
    assert!(!parse_would_overflow(""));
}

#[test]
fn from_str_takes_long_digit_runs_where_the_parser_does() {
    let digits = "7".repeat(40000);
    let line = format!(r#"{{"type":"TEXT","room":"r","value":"{}"}}"#, digits);
    let m = Message::from_str(s("u1"), &line).unwrap();
    assert!(matches!(m.get_body(), MessageBody::PlainText { text } if text.len() == 40000));
    let extra = format!(r#"{{"type":"TEXT","room":"r","value":"v","hash":"{}"}}"#, digits);
    let m = Message::from_str(s("u1"), &extra).unwrap();
    assert!(matches!(m.get_body(), MessageBody::PlainText { text } if text == "v"));
    let number = format!(r#"{{"type":"TEXT","room":"r","value":"v","n":1.{}}}"#, "0".repeat(40000));
    assert!(Message::from_str(s("u1"), &number).is_ok());
}

#[test]
fn handshake_takes_a_long_digit_name() {
    let name = "5".repeat(40000);
    let line = format!(r#"{{"name":"{}"}}"#, name);
    let (user, reply) = check_handshake_at(line.into_bytes(), &s("p"), &s("T")).unwrap();
    assert_eq!(user.get_nickname(), name);
    assert_eq!(reply.last(), Some(&b'\n'));
}

#[test]
fn from_str_refuses_a_fraction_too_long_to_parse() {
    let line = format!(r#"{{"type":"TEXT","room":"r","value":"v","n":0.{}}}"#, "0".repeat(32769));
    assert!(Message::from_str(s("u1"), &line).is_err());
}

#[test]
fn from_str_ignores_extra_members() {
    let a = Message::from_str(s("u1"), r#"{"type":"TEXT","room":"r","value":"v"}"#).unwrap();
    let b = Message::from_str(s("u1"), r#"{"type":"TEXT","room":"r","value":"v","hash":"zz"}"#).unwrap();
    assert_eq!(a.get_room_name(), b.get_room_name());
    assert_eq!(a.get_user_id(), b.get_user_id());
    assert!(matches!(b.get_body(), MessageBody::PlainText { text } if text == "v"));
}

#[test]
fn from_json_value_reads_a_built_object() {
    let mut v = json::JsonValue::new_object();
    v.insert("type", "EXIT").unwrap();
    v.insert("room", "lounge").unwrap();
    v.insert("value", "").unwrap();
    let m = Message::from_json_value(s("u9"), &v).unwrap();
    assert_eq!(m.get_user_id(), "u9");
    assert_eq!(m.get_room_name(), "lounge");
    assert!(matches!(m.get_body(), MessageBody::ExitServer));
    let mut w = json::JsonValue::new_object();
    w.insert("type", "TEXT").unwrap();
    w.insert("room", 5).unwrap();
    w.insert("value", "x").unwrap();
    assert!(Message::from_json_value(s("u9"), &w).is_err());
    assert!(Message::from_json_value(s("u9"), &json::JsonValue::new_array()).is_err());
}

#[test]
fn forwarded_text_holds_no_line_break() {
    let m = Message::from_str(s("u1"), r#"{"type":"TEXT","room":"r","value":"a\nb"}"#).unwrap();
    let out = m.to_send_json_text().unwrap();
    assert!(!out.contains('\n'));
    let back = json::parse(&out).unwrap();
    assert_eq!(back["text"], "a\nb");
    assert_eq!(back["sender"], "u1");
    assert_eq!(back["room"], "r");
}

#[test]
fn handshake_name_of_reads_values() {
    let mut v = json::JsonValue::new_object();
    v.insert("name", "carol").unwrap();
    assert_eq!(handshake_name_of(&v, &s("peer")), Ok(s("carol")));
    let mut n = json::JsonValue::new_object();
    n.insert("name", json::JsonValue::Null).unwrap();
    assert_eq!(handshake_name_of(&n, &s("peer")), Ok(s("peer")));
    let mut t = json::JsonValue::new_object();
    t.insert("name", true).unwrap();
    assert_eq!(handshake_name_of(&t, &s("peer")), Err(()));
    assert_eq!(handshake_name_of(&json::JsonValue::new_object(), &s("peer")), Err(()));
}

#[test]
fn handshake_refuses_a_fraction_too_long_to_parse() {
    let line = format!(r#"{{"name":"a","x":0.{}}}"#, "0".repeat(32769));
    assert!(check_handshake_at(line.into_bytes(), &s("p"), &s("T")).is_err());
}

#[test]
fn after_read_decides_requeue_and_event() {
    let (again, e) = ManagerEvent::after_read(s("u"), Err(true));
    assert!(!again);
    assert!(matches!(e, Some(ManagerEvent::DisconnectInputSocket { user_hash_id }) if user_hash_id == "u"));
    let (again, e) = ManagerEvent::after_read(s("u"), Err(false));
    assert!(again);
    assert!(e.is_none());
    let m = Message::new(s("u"), s("r"), MessageBody::PlainText { text: s("t") });
    let (again, e) = ManagerEvent::after_read(s("u"), Ok(m));
    assert!(again);
    assert!(matches!(e, Some(ManagerEvent::ComeChatMessage { .. })));
    let m = Message::new(s("u"), s("r"), MessageBody::Image { bytes: vec![] });
    let (again, e) = ManagerEvent::after_read(s("u"), Ok(m));
    assert!(again);
    assert!(e.is_none());
}
