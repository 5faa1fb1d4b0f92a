use chat_server::notify::{ServerNotifyMessage, ServerNotifyMessageBody};
use chat_server::user::User;

fn s(x: &str) -> String {
    x.to_string()
}

fn users() -> Vec<User> {
    vec![User::new(s("Alice"), s("a")), User::new(s("Bob"), s("b"))]
}

fn notice(body: ServerNotifyMessageBody) -> ServerNotifyMessage {
    ServerNotifyMessage { body, room_name: s("lounge") }
}

#[test]
fn enter_notice_lists_connected_members() {
    let n = notice(ServerNotifyMessageBody::EnterMemberInRoom {
        new_member: s("a"),
        member_list: vec![s("a"), s("b"), s("ghost")],
    });
    assert_eq!(n.get_room_name(), "lounge");
    assert_eq!(
        n.to_json_text_at(&users(), &s("T")).unwrap(),
        r#"{"type":"ENTER_NEW_MEMBER_IN_ROOM","sender":"a","members":[{"hash_id":"a","name":"Alice"},{"hash_id":"b","name":"Bob"}],"time":"T","room":"lounge"}"#
    );
}

#[test]
fn enter_notice_for_a_gone_member_is_not_sent() {
    let n = notice(ServerNotifyMessageBody::EnterMemberInRoom { new_member: s("ghost"), member_list: vec![s("a")] });
    assert!(n.to_json_text_at(&users(), &s("T")).is_err());
    let n = notice(ServerNotifyMessageBody::ExitMemberFromRoom { exit_member: s("ghost"), member_list: vec![] });
    assert!(n.to_json_text_at(&users(), &s("T")).is_err());
}

#[test]
fn exit_member_notice_text() {
    let n = notice(ServerNotifyMessageBody::ExitMemberFromRoom { exit_member: s("b"), member_list: vec![s("a")] });
    assert_eq!(
        n.to_json_text_at(&users(), &s("T")).unwrap(),
        r#"{"type":"EXIT_MEMBER_FROM_ROOM","sender":"b","members":[{"hash_id":"a","name":"Alice"}],"time":"T","room":"lounge"}"#
    );
}

#[test]
fn disconnect_and_exit_server_notice_texts() {
    let n = notice(ServerNotifyMessageBody::DisconnectUser { user_hash_id: s("gone"), member_list: vec![s("b")] });
    assert_eq!(
        n.to_json_text_at(&users(), &s("T")).unwrap(),
        r#"{"type":"DISCONNECT_USER","sender":"gone","members":[{"hash_id":"b","name":"Bob"}],"time":"T","room":"lounge"}"#
    );
    let n = notice(ServerNotifyMessageBody::ExitServer { user_hash_id: s("gone"), member_list: vec![] });
    assert_eq!(
        n.to_json_text_at(&users(), &s("T")).unwrap(),
        r#"{"type":"EXIT_SERVER","sender":"gone","members":[],"time":"T","room":"lounge"}"#
    );
}

#[test]
fn change_nickname_notice_is_not_sent() {
    let n = notice(ServerNotifyMessageBody::ChangeNickName { user_hash_id: s("a"), prev_name: s("x"), new_name: s("y") });
    assert!(n.to_json_text_at(&users(), &s("T")).is_err());
    assert!(n.to_json_text(&users()).is_err());
}

#[test]
fn to_json_text_stamps_a_time() {
    let n = notice(ServerNotifyMessageBody::ExitServer { user_hash_id: s("gone"), member_list: vec![] });
    let text = n.to_json_text(&users()).unwrap();
    let value = json::parse(&text).unwrap();
    assert_eq!(value["type"], "EXIT_SERVER");
    assert!(value["time"].as_str().unwrap().len() > 10);
}
