use chat_server::room::Room;

fn s(x: &str) -> String {
    x.to_string()
}

#[test]
fn room_new_is_empty_and_named() {
    let room = Room::new(s("lounge"));
    assert_eq!(room.get_name(), "lounge");
    assert!(room.get_users().is_empty());
}

#[test]
fn room_members_come_out_in_byte_order() {
    let mut room = Room::new(s("r"));
    room.add_new_user(s("m"));
    room.add_new_user(s("b"));
    room.add_new_user(s("z"));
    room.add_new_user(s("B"));
    room.add_new_user(s("ba"));
    room.add_new_user(s("é"));
    assert_eq!(room.get_users(), vec![s("B"), s("b"), s("ba"), s("m"), s("z"), s("é")]);
}

#[test]
fn room_add_twice_is_add_once() {
    let mut room = Room::new(s("r"));
    room.add_new_user(s("a"));
    room.add_new_user(s("a"));
    assert_eq!(room.get_users(), vec![s("a")]);
}

#[test]
fn room_get_user_finds_members_only() {
    let mut room = Room::new(s("r"));
    room.add_new_user(s("a"));
    assert_eq!(room.get_user(&s("a")), Some(s("a")));
    assert_eq!(room.get_user(&s("b")), None);
}

#[test]
fn room_remove_then_absent_and_others_stay() {
    let mut room = Room::new(s("r"));
    room.add_new_user(s("a"));
    room.add_new_user(s("b"));
    room.add_new_user(s("c"));
    room.remove_user(&s("b"));
    assert_eq!(room.get_users(), vec![s("a"), s("c")]);
    room.remove_user(&s("x"));
    assert_eq!(room.get_users(), vec![s("a"), s("c")]);
}

#[test]
fn room_remove_after_add_restores_members() {
    let mut room = Room::new(s("r"));
    room.add_new_user(s("a"));
    room.add_new_user(s("c"));
    let before = room.get_users();
    room.add_new_user(s("b"));
    room.remove_user(&s("b"));
    assert_eq!(room.get_users(), before);
}
