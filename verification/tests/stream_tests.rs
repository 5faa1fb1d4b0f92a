use chat_server::message::MessageBody;
use chat_server::stream::{check_handshake, check_handshake_at, frame_line, InputStream, LineSplitter, ReadFailure};

fn s(x: &str) -> String {
    x.to_string()
}

#[test]
fn frame_line_appends_newline() {
    assert_eq!(frame_line(&s("ab")), b"ab\n".to_vec());
    assert_eq!(frame_line(&s("é")), vec![0xc3, 0xa9, b'\n']);
}

#[test]
fn splitter_keeps_line_and_rest() {
    let mut sp = LineSplitter::new();
    sp.feed(b"{\"na".to_vec());
    assert!(!sp.is_complete());
    sp.feed(b"me\":1}\nTAIL".to_vec());
    assert!(sp.is_complete());
    sp.feed(b"\nMORE".to_vec());
    let (line, rest) = sp.into_parts();
    assert_eq!(line, b"{\"name\":1}".to_vec());
    assert_eq!(rest, b"TAIL\nMORE".to_vec());
}

#[test]
fn read_failures() {
    let mut st = InputStream::new(s("u1"), vec![]);
    assert!(matches!(st.read_message(Err(ReadFailure::Transient)), Err(false)));
    assert!(matches!(st.read_message(Err(ReadFailure::ConnectionReset)), Err(true)));
    assert!(matches!(st.read_message(Err(ReadFailure::ConnectionRefused)), Err(true)));
    assert!(matches!(st.read_message(Err(ReadFailure::ConnectionAborted)), Err(true)));
    assert!(matches!(st.read_message(Err(ReadFailure::NotConnected)), Err(true)));
    assert!(matches!(st.read_message(Err(ReadFailure::Other)), Err(true)));
    assert!(matches!(st.read_message(Ok(vec![])), Err(true)));
    assert!(ReadFailure::Other.ends_connection());
    assert!(!ReadFailure::Transient.ends_connection());
}

#[test]
fn read_message_waits_for_a_whole_line() {
    let mut st = InputStream::new(s("u1"), b"{\"type\":\"TEXT\",".to_vec());
    assert_eq!(st.get_user_hash_id(), "u1");
    assert!(matches!(st.read_message(Ok(b"\"room\":\"r\",".to_vec())), Err(false)));
    let m = st.read_message(Ok(b"\"value\":\"hi\"}\n{\"type\"".to_vec())).unwrap();
    assert_eq!(m.get_user_id(), "u1");
    assert_eq!(m.get_room_name(), "r");
    assert!(matches!(m.get_body(), MessageBody::PlainText { text } if text == "hi"));
    let m = st.read_message(Ok(b":\"EXIT\",\"room\":\"\",\"value\":\"\"}\n".to_vec())).unwrap();
    assert!(matches!(m.get_body(), MessageBody::ExitServer));
}

#[test]
fn read_message_drops_bad_lines() {
    let mut st = InputStream::new(s("u1"), vec![]);
    assert!(matches!(st.read_message(Ok(b"nonsense\n".to_vec())), Err(true)));
    assert!(matches!(st.read_message(Ok(vec![0xff, 0xfe, b'\n'])), Err(true)));
    let m = st.read_message(Ok(b"{\"type\":\"IMG\",\"room\":\"r\",\"value\":\"\"}\n".to_vec())).unwrap();
    assert!(matches!(m.get_body(), MessageBody::Image { .. }));
}

#[test]
fn handshake_answers_with_id_and_name() {
    let (user, reply) =
        check_handshake_at(b"{\"name\":\"alice\"}".to_vec(), &s("10.0.0.1:4000"), &s("2024-01-01 00:00:00 UTC")).unwrap();
    let id = "d83fd222552b59944b52c6f05167334ef5e200bdb63aacd9d1d20864aead0527dd1119af6f51a55edaef2173b462ab747fc73190259f25218c3bf464275db0c8";
    assert_eq!(user.get_nickname(), "alice");
    assert_eq!(user.get_hash_id(), id);
    assert!(user.get_entered_room_names().is_empty());
    let expected = format!("{{\"status\":200,\"id\":\"{}\",\"name\":\"alice\",\"room\":\"lounge\"}}\n", id);
    assert_eq!(String::from_utf8(reply).unwrap(), expected);
}

#[test]
fn handshake_with_null_name_uses_peer_address() {
    let (user, _) = check_handshake_at(b"{\"name\":null}".to_vec(), &s("10.0.0.1:4000"), &s("NOW")).unwrap();
    assert_eq!(user.get_nickname(), "10.0.0.1:4000");
    assert_eq!(
        user.get_hash_id(),
        "ddd84912a090f662f1aafbbbd0de87adc7c8e302b81282fbbb1583728948d5b96b35d5ac1bee30f9af9d84188412e566b75af76bda45523d5cca5741c55dccf7"
    );
}

#[test]
fn handshake_refusals() {
    let peer = s("p");
    assert!(check_handshake_at(b"{\"nick\":\"a\"}".to_vec(), &peer, &s("T")).is_err());
    assert!(check_handshake_at(b"{\"name\":5}".to_vec(), &peer, &s("T")).is_err());
    assert!(check_handshake_at(b"[\"name\"]".to_vec(), &peer, &s("T")).is_err());
    assert!(check_handshake_at(b"name".to_vec(), &peer, &s("T")).is_err());
    assert!(check_handshake_at(vec![0xff, 0x00], &peer, &s("T")).is_err());
}

#[test]
fn handshake_at_current_time() {
    let (user, reply) = check_handshake(b"{\"name\":\"bob\"}".to_vec(), &s("p")).unwrap();
    assert_eq!(user.get_nickname(), "bob");
    assert_eq!(user.get_hash_id().len(), 128);
    assert_eq!(*reply.last().unwrap(), b'\n');
}
