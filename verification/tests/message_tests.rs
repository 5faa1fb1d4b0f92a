use chat_server::message::{Message, MessageBody};

fn s(x: &str) -> String {
    x.to_string()
}

#[test]
fn from_str_reads_text_message() {
    let m = Message::from_str(s("u1"), r#"{"type":"TEXT","room":"lounge","value":"hello"}"#).unwrap();
    assert_eq!(m.get_user_id(), "u1");
    assert_eq!(m.get_room_name(), "lounge");
    match m.get_body() {
        MessageBody::PlainText { text } => assert_eq!(text, "hello"),
        _ => panic!("expected text"),
    }
}

#[test]
fn from_str_reads_image_file_and_exit() {
    let img = Message::from_str(s("u1"), r#"{"type":"IMG","room":"r","value":"x"}"#).unwrap();
    assert!(matches!(img.get_body(), MessageBody::Image { bytes } if bytes.is_empty()));
    let file = Message::from_str(s("u1"), r#"{"type":"FILE","room":"r","value":"x"}"#).unwrap();
    assert!(matches!(file.get_body(), MessageBody::File { bytes } if bytes.is_empty()));
    let exit = Message::from_str(s("u1"), r#"{"type":"EXIT","room":"r","value":""}"#).unwrap();
    assert!(matches!(exit.get_body(), MessageBody::ExitServer));
    assert_eq!(exit.get_room_name(), "r");
}

#[test]
fn from_str_refuses_bad_input() {
    assert!(Message::from_str(s("u1"), "not json").is_err());
    assert!(Message::from_str(s("u1"), r#"["TEXT","r","v"]"#).is_err());
    assert!(Message::from_str(s("u1"), r#"{"type":"TEXT","room":"r"}"#).is_err());
    assert!(Message::from_str(s("u1"), r#"{"type":"TEXT","value":"v"}"#).is_err());
    assert!(Message::from_str(s("u1"), r#"{"room":"r","value":"v"}"#).is_err());
    assert!(Message::from_str(s("u1"), r#"{"type":"SHOUT","room":"r","value":"v"}"#).is_err());
    assert!(Message::from_str(s("u1"), r#"{"type":1,"room":"r","value":"v"}"#).is_err());
    assert!(Message::from_str(s("u1"), r#"{"type":"TEXT","room":"r","value":null}"#).is_err());
}

#[test]
fn from_str_reads_long_strings() {
    let long = "x".repeat(100);
    let text = format!(r#"{{"type":"TEXT","room":"{}","value":"{}"}}"#, long, long);
    let m = Message::from_str(s("u1"), &text).unwrap();
    assert_eq!(m.get_room_name(), long);
}

#[test]
fn to_send_json_text_at_for_text() {
    let m = Message::new(s("u1"), s("lounge"), MessageBody::PlainText { text: s("hi") });
    assert_eq!(
        m.to_send_json_text_at(&s("T")).unwrap(),
        r#"{"type":"CHAT_SEND","sender":"u1","text":"hi","time":"T","room":"lounge"}"#
    );
}

#[test]
fn to_send_json_text_at_escapes_quotes() {
    let m = Message::new(s("u1"), s("r"), MessageBody::PlainText { text: s("say \"x\"\n") });
    assert_eq!(
        m.to_send_json_text_at(&s("T")).unwrap(),
        r#"{"type":"CHAT_SEND","sender":"u1","text":"say \"x\"\n","time":"T","room":"r"}"#
    );
}

#[test]
fn to_send_json_text_at_for_other_bodies() {
    let m = Message::new(s("u1"), s("lounge"), MessageBody::ExitServer);
    assert_eq!(m.to_send_json_text_at(&s("T")).unwrap(), r#"{"sender":"u1","text":"","time":"T","room":""}"#);
}

#[test]
fn to_send_json_text_stamps_a_time() {
    let m = Message::new(s("u1"), s("lounge"), MessageBody::PlainText { text: s("hi") });
    let text = m.to_send_json_text().unwrap();
    let value = json::parse(&text).unwrap();
    assert_eq!(value["type"], "CHAT_SEND");
    assert_eq!(value["text"], "hi");
    assert!(value["time"].as_str().unwrap().len() > 10);
}
