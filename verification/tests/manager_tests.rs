use chat_server::manager::{Manager, ManagerEvent, Reaction};
use chat_server::message::{Message, MessageBody};
use chat_server::notify::{ServerNotifyMessage, ServerNotifyMessageBody};
use chat_server::user::User;

fn s(x: &str) -> String {
    x.to_string()
}

fn text(user: &str, room: &str, t: &str) -> Message {
    Message::new(s(user), s(room), MessageBody::PlainText { text: s(t) })
}

fn enter(user: &str, room: &str) -> Message {
    Message::new(s(user), s(room), MessageBody::EnterRoom)
}

fn exit(user: &str, room: &str) -> Message {
    Message::new(s(user), s(room), MessageBody::ExitRoom)
}

/// A manager with users a (Alice), b (Bob) and c (Carol), all with input
/// streams, and a and b with output streams open.
fn three_users() -> Manager {
    let mut m = Manager::new();
    m.on_init_connect_inputstream(User::new(s("Alice"), s("a")));
    m.on_init_connect_inputstream(User::new(s("Bob"), s("b")));
    m.on_init_connect_inputstream(User::new(s("Carol"), s("c")));
    m.on_init_connect_outputstream(s("a")).unwrap();
    m.on_init_connect_outputstream(s("b")).unwrap();
    m
}

#[test]
fn manager_starts_with_an_empty_lounge() {
    let m = Manager::new();
    assert_eq!(m.user_count(), 0);
    assert_eq!(m.get_room_members(&s("lounge")), Some(vec![]));
    assert_eq!(m.get_room_members(&s("games")), None);
    assert!(m.input_stream_ids().is_empty());
}

#[test]
fn input_connection_adds_user_and_stream() {
    let mut m = Manager::new();
    m.on_init_connect_inputstream(User::new(s("Alice"), s("a")));
    assert_eq!(m.user_count(), 1);
    assert_eq!(m.get_user_ids(), vec![s("a")]);
    assert_eq!(m.input_stream_ids(), vec![s("a")]);
    assert!(!m.is_listening(&s("a")));
    assert_eq!(m.get_user(&s("a")).unwrap().get_nickname(), "Alice");
    assert!(m.get_user(&s("z")).is_none());
}

#[test]
fn output_connection_of_unknown_id_changes_nothing() {
    let mut m = Manager::new();
    m.on_init_connect_inputstream(User::new(s("Alice"), s("a")));
    assert!(m.on_init_connect_outputstream(s("zzz")).is_none());
    assert!(!m.is_listening(&s("zzz")));
    assert_eq!(m.get_room_members(&s("lounge")), Some(vec![]));
}

#[test]
fn output_connection_enters_the_lounge() {
    let mut m = Manager::new();
    m.on_init_connect_inputstream(User::new(s("Bob"), s("b")));
    m.on_init_connect_inputstream(User::new(s("Alice"), s("a")));
    m.on_init_connect_outputstream(s("b")).unwrap();
    let n = m.on_init_connect_outputstream(s("a")).unwrap();
    assert_eq!(n.get_room_name(), "lounge");
    match &n.body {
        ServerNotifyMessageBody::EnterMemberInRoom { new_member, member_list } => {
            assert_eq!(new_member, "a");
            assert_eq!(member_list, &vec![s("a"), s("b")]);
        },
        _ => panic!("expected an enter notice"),
    }
    assert!(m.is_listening(&s("a")));
    assert_eq!(m.get_user(&s("a")).unwrap().get_entered_room_names(), vec![s("lounge")]);
    assert_eq!(m.get_room_members(&s("lounge")), Some(vec![s("a"), s("b")]));
}

#[test]
fn chat_goes_to_listening_members() {
    let m = three_users();
    let d = m.on_come_chat_message(&text("a", "lounge", "hi"), &s("T")).unwrap();
    assert_eq!(d.recipients, vec![s("a"), s("b")]);
    assert_eq!(d.text, r#"{"type":"CHAT_SEND","sender":"a","text":"hi","time":"T","room":"lounge"}"#);
    assert!(m.on_come_chat_message(&text("a", "nowhere", "hi"), &s("T")).is_none());
}

#[test]
fn enter_room_makes_the_room_and_tells_it() {
    let mut m = three_users();
    let n = m.on_enter_room(&enter("c", "games")).unwrap();
    assert_eq!(n.room_name, "games");
    match &n.body {
        ServerNotifyMessageBody::EnterMemberInRoom { new_member, member_list } => {
            assert_eq!(new_member, "c");
            assert_eq!(member_list, &vec![s("c")]);
        },
        _ => panic!("expected an enter notice"),
    }
    assert_eq!(m.get_room_members(&s("games")), Some(vec![s("c")]));
    assert_eq!(m.get_user(&s("c")).unwrap().get_entered_room_names(), vec![s("games")]);
    m.on_enter_room(&enter("a", "games")).unwrap();
    assert_eq!(m.get_room_members(&s("games")), Some(vec![s("a"), s("c")]));
    assert!(m.on_enter_room(&enter("nobody", "games")).is_none());
    assert_eq!(m.get_room_members(&s("games")), Some(vec![s("a"), s("c")]));
}

#[test]
fn exit_room_removes_member_and_tells_the_room() {
    let mut m = three_users();
    let n = m.on_exit_room(&exit("a", "lounge")).unwrap();
    match &n.body {
        ServerNotifyMessageBody::ExitMemberFromRoom { exit_member, member_list } => {
            assert_eq!(exit_member, "a");
            assert_eq!(member_list, &vec![s("b")]);
        },
        _ => panic!("expected an exit notice"),
    }
    assert_eq!(m.get_room_members(&s("lounge")), Some(vec![s("b")]));
    assert!(m.get_user(&s("a")).unwrap().get_entered_room_names().is_empty());
    assert!(m.on_exit_room(&exit("a", "lounge")).is_none());
    assert!(m.on_exit_room(&exit("a", "nowhere")).is_none());
}

#[test]
fn enter_then_exit_restores_the_room() {
    let mut m = three_users();
    m.on_enter_room(&enter("a", "games")).unwrap();
    let before = m.get_room_members(&s("games"));
    m.on_enter_room(&enter("b", "games")).unwrap();
    m.on_exit_room(&exit("b", "games")).unwrap();
    assert_eq!(m.get_room_members(&s("games")), before);
    assert_eq!(m.get_user(&s("b")).unwrap().get_entered_room_names(), vec![s("lounge")]);
}

#[test]
fn disconnect_swaps_the_last_user_in() {
    let mut m = three_users();
    m.on_enter_room(&enter("a", "games")).unwrap();
    let d = m.on_disconnectoutputstream(s("a")).unwrap();
    assert_eq!(m.get_user_ids(), vec![s("c"), s("b")]);
    assert_eq!(d.input_stream, Some(0));
    assert_eq!(m.input_stream_ids(), vec![s("c"), s("b")]);
    assert!(!m.is_listening(&s("a")));
    assert_eq!(m.get_room_members(&s("lounge")), Some(vec![s("b")]));
    assert_eq!(m.get_room_members(&s("games")), Some(vec![]));
    assert_eq!(d.notices.len(), 2);
    assert_eq!(d.notices[0].room_name, "lounge");
    assert_eq!(d.notices[1].room_name, "games");
    match &d.notices[0].body {
        ServerNotifyMessageBody::DisconnectUser { user_hash_id, member_list } => {
            assert_eq!(user_hash_id, "a");
            assert_eq!(member_list, &vec![s("b")]);
        },
        _ => panic!("expected a disconnect notice"),
    }
    assert!(m.on_disconnectinputstream(s("a")).is_none());
}

#[test]
fn disconnect_input_is_like_disconnect_output() {
    let mut m = three_users();
    let d = m.on_disconnectinputstream(s("b")).unwrap();
    assert_eq!(m.get_user_ids(), vec![s("a"), s("c")]);
    assert_eq!(d.input_stream, Some(1));
    assert_eq!(m.get_room_members(&s("lounge")), Some(vec![s("a")]));
}

#[test]
fn exit_server_keeps_the_order_of_users() {
    let mut m = three_users();
    let d = m.on_exit_server(s("a")).unwrap();
    assert_eq!(m.get_user_ids(), vec![s("b"), s("c")]);
    assert_eq!(m.input_stream_ids(), vec![s("c"), s("b")]);
    assert_eq!(d.input_stream, Some(0));
    assert_eq!(d.notices.len(), 1);
    match &d.notices[0].body {
        ServerNotifyMessageBody::ExitServer { user_hash_id, member_list } => {
            assert_eq!(user_hash_id, "a");
            assert_eq!(member_list, &vec![s("b")]);
        },
        _ => panic!("expected an exit-server notice"),
    }
    assert!(m.on_exit_server(s("a")).is_none());
}

#[test]
fn departed_user_is_in_none_of_its_rooms() {
    let mut m = three_users();
    m.on_enter_room(&enter("a", "games")).unwrap();
    m.on_enter_room(&enter("b", "games")).unwrap();
    m.on_exit_server(s("a")).unwrap();
    assert_eq!(m.get_room_members(&s("games")), Some(vec![s("b")]));
    assert_eq!(m.get_room_members(&s("lounge")), Some(vec![s("b")]));
    assert_eq!(m.user_count(), 2);
}

#[test]
fn notify_goes_to_listening_members() {
    let m = three_users();
    let n = ServerNotifyMessage {
        room_name: s("lounge"),
        body: ServerNotifyMessageBody::DisconnectUser { user_hash_id: s("x"), member_list: vec![s("a"), s("c")] },
    };
    let d = m.on_do_notify_system_message(&n, &s("T")).unwrap();
    assert_eq!(d.recipients, vec![s("a"), s("b")]);
    assert_eq!(
        d.text,
        r#"{"type":"DISCONNECT_USER","sender":"x","members":[{"hash_id":"a","name":"Alice"},{"hash_id":"c","name":"Carol"}],"time":"T","room":"lounge"}"#
    );
    let n2 = ServerNotifyMessage {
        room_name: s("nowhere"),
        body: ServerNotifyMessageBody::DisconnectUser { user_hash_id: s("x"), member_list: vec![] },
    };
    assert!(m.on_do_notify_system_message(&n2, &s("T")).is_none());
    let n3 = ServerNotifyMessage {
        room_name: s("lounge"),
        body: ServerNotifyMessageBody::EnterMemberInRoom { new_member: s("ghost"), member_list: vec![] },
    };
    assert!(m.on_do_notify_system_message(&n3, &s("T")).is_none());
}

#[test]
fn change_nickname_changes_nothing() {
    let mut m = three_users();
    m.on_change_nickname(s("a"), s("Zed"));
    assert_eq!(m.get_user(&s("a")).unwrap().get_nickname(), "Alice");
    assert!(matches!(
        m.process_at(ManagerEvent::ChangeNickname { user_hash_id: s("a"), new_nickname: s("Zed") }, &s("T")),
        Reaction::Idle
    ));
}

#[test]
fn process_dispatches_events() {
    let mut m = three_users();
    match m.process_at(ManagerEvent::ComeChatMessage { message: text("a", "lounge", "yo") }, &s("T")) {
        Reaction::Deliver { delivery } => assert_eq!(delivery.recipients, vec![s("a"), s("b")]),
        _ => panic!("expected a delivery"),
    }
    match m.process_at(ManagerEvent::EnterRoom { message: enter("c", "games") }, &s("T")) {
        Reaction::Notify { message } => assert_eq!(message.room_name, "games"),
        _ => panic!("expected a notice"),
    }
    match m.process_at(ManagerEvent::ExitRoom { message: exit("c", "games") }, &s("T")) {
        Reaction::Notify { message } => assert_eq!(message.room_name, "games"),
        _ => panic!("expected a notice"),
    }
    assert!(matches!(
        m.process_at(ManagerEvent::ExitRoom { message: exit("c", "games") }, &s("T")),
        Reaction::Idle
    ));
    match m.process_at(ManagerEvent::DisconnectOutputSocket { user_hash_id: s("b") }, &s("T")) {
        Reaction::Depart { departure } => assert_eq!(departure.input_stream, Some(1)),
        _ => panic!("expected a departure"),
    }
    assert!(matches!(
        m.process_at(ManagerEvent::DisconnectInputSocket { user_hash_id: s("b") }, &s("T")),
        Reaction::Idle
    ));
    match m.process(ManagerEvent::ExitServerUser { user_hash_id: s("a") }) {
        Reaction::Depart { departure } => assert_eq!(departure.notices.len(), 1),
        _ => panic!("expected a departure"),
    }
    let n = ServerNotifyMessage {
        room_name: s("lounge"),
        body: ServerNotifyMessageBody::ExitServer { user_hash_id: s("a"), member_list: vec![] },
    };
    assert!(matches!(m.process(ManagerEvent::DoNotifySystemMessage { message: n }), Reaction::Deliver { .. }));
}

#[test]
fn messages_raise_events() {
    assert!(matches!(
        ManagerEvent::from_message(s("u"), text("u", "r", "t")),
        Some(ManagerEvent::ComeChatMessage { .. })
    ));
    assert!(matches!(ManagerEvent::from_message(s("u"), enter("u", "r")), Some(ManagerEvent::EnterRoom { .. })));
    assert!(matches!(ManagerEvent::from_message(s("u"), exit("u", "r")), Some(ManagerEvent::ExitRoom { .. })));
    match ManagerEvent::from_message(s("u"), Message::new(s("x"), s("r"), MessageBody::ExitServer)) {
        Some(ManagerEvent::ExitServerUser { user_hash_id }) => assert_eq!(user_hash_id, "u"),
        _ => panic!("expected exit-server"),
    }
    assert!(ManagerEvent::from_message(s("u"), Message::new(s("u"), s("r"), MessageBody::Image { bytes: vec![] })).is_none());
    assert!(ManagerEvent::from_message(s("u"), Message::new(s("u"), s("r"), MessageBody::File { bytes: vec![] })).is_none());
}

#[test]
fn output_stream_handshake_reads_an_id() {
    assert_eq!(Manager::check_outputstream_handshake(b"abc".to_vec()), Ok(s("abc")));
    assert_eq!(Manager::check_outputstream_handshake(vec![0xff]), Err(()));
}

#[test]
fn chat_server_err_exists() {
    let e = chat_server::ChatServerErr::FailedInitializeServer;
    assert!(format!("{:?}", e).contains("FailedInitializeServer"));
}
