use chat_server::user::User;

fn s(x: &str) -> String {
    x.to_string()
}

#[test]
fn user_new_has_no_rooms() {
    let u = User::new(s("alice"), s("id1"));
    assert_eq!(u.get_nickname(), "alice");
    assert_eq!(u.get_hash_id(), "id1");
    assert!(u.get_entered_room_names().is_empty());
}

#[test]
fn user_enter_room_keeps_order_and_skips_repeats() {
    let mut u = User::new(s("alice"), s("id1"));
    u.enter_room(s("lounge"));
    u.enter_room(s("games"));
    u.enter_room(s("lounge"));
    assert_eq!(u.get_entered_room_names(), vec![s("lounge"), s("games")]);
}

#[test]
fn user_exit_room_removes_only_that_room() {
    let mut u = User::new(s("alice"), s("id1"));
    u.enter_room(s("lounge"));
    u.enter_room(s("games"));
    u.enter_room(s("music"));
    u.exit_room(&s("games"));
    assert_eq!(u.get_entered_room_names(), vec![s("lounge"), s("music")]);
    u.exit_room(&s("nowhere"));
    assert_eq!(u.get_entered_room_names(), vec![s("lounge"), s("music")]);
}
