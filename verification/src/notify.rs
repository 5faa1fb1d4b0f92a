//! What the server tells the members of a room when someone comes, leaves
//! or disconnects, and the JSON text it sends for it.
use vstd::prelude::*;
use crate::clock::now_rfc2822;
use crate::json::{
    json_doc, lemma_insert_new_member, json_dump, json_from_str, json_insert,
    json_new_array, json_new_object, json_push, json_text, lemma_member_names, JsonDoc,
};
use crate::strings::strings;
use crate::user::{find_user, user_position, user_views, User, UserView};

verus! {

/// The events of a room that its members hear of. A member list holds ids,
/// which are looked up among the connected users when the text is written.
pub enum ServerNotifyMessageBody {
    EnterMemberInRoom { new_member: String, member_list: Vec<String> },
    DisconnectUser { user_hash_id: String, member_list: Vec<String> },
    ExitServer { user_hash_id: String, member_list: Vec<String> },
    ExitMemberFromRoom { exit_member: String, member_list: Vec<String> },
    ChangeNickName { user_hash_id: String, prev_name: String, new_name: String },
}

pub enum NoticeBodyView {
    EnterMemberInRoom { new_member: Seq<char>, member_list: Seq<Seq<char>> },
    DisconnectUser { user_hash_id: Seq<char>, member_list: Seq<Seq<char>> },
    ExitServer { user_hash_id: Seq<char>, member_list: Seq<Seq<char>> },
    ExitMemberFromRoom { exit_member: Seq<char>, member_list: Seq<Seq<char>> },
    ChangeNickName { user_hash_id: Seq<char>, prev_name: Seq<char>, new_name: Seq<char> },
}

impl View for ServerNotifyMessageBody {
    type V = NoticeBodyView;

    open spec fn view(&self) -> NoticeBodyView {
        match self {
            ServerNotifyMessageBody::EnterMemberInRoom { new_member, member_list } =>
                NoticeBodyView::EnterMemberInRoom { new_member: new_member@, member_list: strings(member_list@) },
            ServerNotifyMessageBody::DisconnectUser { user_hash_id, member_list } =>
                NoticeBodyView::DisconnectUser { user_hash_id: user_hash_id@, member_list: strings(member_list@) },
            ServerNotifyMessageBody::ExitServer { user_hash_id, member_list } =>
                NoticeBodyView::ExitServer { user_hash_id: user_hash_id@, member_list: strings(member_list@) },
            ServerNotifyMessageBody::ExitMemberFromRoom { exit_member, member_list } =>
                NoticeBodyView::ExitMemberFromRoom { exit_member: exit_member@, member_list: strings(member_list@) },
            ServerNotifyMessageBody::ChangeNickName { user_hash_id, prev_name, new_name } =>
                NoticeBodyView::ChangeNickName {
                    user_hash_id: user_hash_id@,
                    prev_name: prev_name@,
                    new_name: new_name@,
                },
        }
    }
}

pub struct ServerNotifyMessage {
    pub body: ServerNotifyMessageBody,
    pub room_name: String,
}

/// What a notice is: the room it is for and what happened there.
pub struct NoticeView {
    pub room_name: Seq<char>,
    pub body: NoticeBodyView,
}

impl View for ServerNotifyMessage {
    type V = NoticeView;

    open spec fn view(&self) -> NoticeView {
        NoticeView { room_name: self.room_name@, body: self.body@ }
    }
}

/// What an optional notice is.
pub open spec fn notice_option_view(n: Option<ServerNotifyMessage>) -> Option<NoticeView> {
    match n {
        Some(x) => Some(x@),
        None => None,
    }
}

/// One entry per listed id that belongs to a connected user: its id and the
/// nickname of the first user with that id. Ids of users gone are skipped.
pub open spec fn member_docs(ids: Seq<Seq<char>>, users: Seq<UserView>) -> Seq<JsonDoc>
    decreases ids.len(),
{
    if ids.len() == 0 {
        seq![]
    } else {
        let before = member_docs(ids.drop_last(), users);
        match user_position(users, ids.last()) {
            Some(i) => before.push(
                JsonDoc::Object(
                    seq![("hash_id"@, JsonDoc::Str(ids.last())), ("name"@, JsonDoc::Str(users[i].nickname))],
                ),
            ),
            None => before,
        }
    }
}

/// The JSON of a notice of kind `kind` sent by `sender` at time `now`.
pub open spec fn notice_doc(
    kind: Seq<char>,
    sender: Seq<char>,
    members: Seq<Seq<char>>,
    users: Seq<UserView>,
    now: Seq<char>,
    room: Seq<char>,
) -> JsonDoc {
    JsonDoc::Object(
        seq![
            ("type"@, JsonDoc::Str(kind)),
            ("sender"@, JsonDoc::Str(sender)),
            ("members"@, JsonDoc::Array(member_docs(members, users))),
            ("time"@, JsonDoc::Str(now)),
            ("room"@, JsonDoc::Str(room)),
        ],
    )
}

/// The text the members of a room are sent for a notice at time `now`, with
/// `users` the connected users; `None` where nothing is sent: for a member who
/// came or left but is no longer connected, and for a change of nickname.
pub open spec fn notice_text(n: NoticeView, users: Seq<UserView>, now: Seq<char>) -> Option<Seq<char>> {
    match n.body {
        NoticeBodyView::EnterMemberInRoom { new_member, member_list } => match user_position(users, new_member) {
            Some(i) => Some(
                json_text(notice_doc("ENTER_NEW_MEMBER_IN_ROOM"@, new_member, member_list, users, now, n.room_name)),
            ),
            None => None,
        },
        NoticeBodyView::ExitMemberFromRoom { exit_member, member_list } => match user_position(users, exit_member) {
            Some(i) => Some(
                json_text(notice_doc("EXIT_MEMBER_FROM_ROOM"@, exit_member, member_list, users, now, n.room_name)),
            ),
            None => None,
        },
        NoticeBodyView::DisconnectUser { user_hash_id, member_list } => Some(
            json_text(notice_doc("DISCONNECT_USER"@, user_hash_id, member_list, users, now, n.room_name)),
        ),
        NoticeBodyView::ExitServer { user_hash_id, member_list } => Some(
            json_text(notice_doc("EXIT_SERVER"@, user_hash_id, member_list, users, now, n.room_name)),
        ),
        NoticeBodyView::ChangeNickName { .. } => None,
    }
}

/// The JSON array that lists the members of `member_list` that are connected.
fn members_json(member_list: &Vec<String>, users: &Vec<User>) -> (r: json::JsonValue)
    ensures
        json_doc(r) == JsonDoc::Array(member_docs(strings(member_list@), user_views(users@))),
{
    proof {
        lemma_member_names();
    }
    let ghost ids = strings(member_list@);
    let ghost uv = user_views(users@);
    let mut array = json_new_array();
    let mut i: usize = 0;
    proof {
        assert(ids.take(0) =~= seq![]);
    }
    while i < member_list.len()
        invariant
            0 <= i <= member_list@.len(),
            ids == strings(member_list@),
            uv == user_views(users@),
            json_doc(array) == JsonDoc::Array(member_docs(ids.take(i as int), uv)),
        decreases member_list@.len() - i,
    {
        proof {
            assert(ids.take(i + 1).drop_last() =~= ids.take(i as int));
            assert(ids.take(i + 1).last() == ids[i as int]);
        }
        match find_user(users, &member_list[i]) {
            Some(k) => {
                let mut member = json_new_object();
                json_insert(&mut member, "hash_id", json_from_str(member_list[i].as_str()));
                proof {
                    lemma_insert_new_member(seq![], "hash_id"@, JsonDoc::Str(ids[i as int]));
                }
                let nickname = users[k].get_nickname();
                json_insert(&mut member, "name", json_from_str(nickname.as_str()));
                proof {
                    lemma_member_names();
                    let f1 = seq![("hash_id"@, JsonDoc::Str(ids[i as int]))];
                    lemma_insert_new_member(f1, "name"@, JsonDoc::Str(nickname@));
                    assert(f1.push(("name"@, JsonDoc::Str(nickname@))) =~= seq![
                        ("hash_id"@, JsonDoc::Str(ids[i as int])),
                        ("name"@, JsonDoc::Str(uv[k as int].nickname)),
                    ]);
                }
                json_push(&mut array, member);
            },
            None => {},
        }
        i = i + 1;
    }
    proof {
        assert(ids.take(member_list@.len() as int) =~= ids);
    }
    array
}

/// The text of a notice of kind `kind`.
fn notice_json(
    kind: &str,
    sender: &String,
    member_list: &Vec<String>,
    users: &Vec<User>,
    now: &String,
    room: &String,
) -> (r: String)
    ensures
        r@ == json_text(
            notice_doc(kind@, sender@, strings(member_list@), user_views(users@), now@, room@),
        ),
        !r@.contains('\n'),
{
    proof {
        lemma_member_names();
    }
    let mut object = json_new_object();
    let ghost f0: Seq<(Seq<char>, JsonDoc)> = seq![];
    json_insert(&mut object, "type", json_from_str(kind));
    proof { lemma_insert_new_member(f0, "type"@, JsonDoc::Str(kind@)); }
    let ghost f1 = f0.push(("type"@, JsonDoc::Str(kind@)));
    json_insert(&mut object, "sender", json_from_str(sender.as_str()));
    proof { lemma_insert_new_member(f1, "sender"@, JsonDoc::Str(sender@)); }
    let ghost f2 = f1.push(("sender"@, JsonDoc::Str(sender@)));
    let members = members_json(member_list, users);
    let ghost md = json_doc(members);
    json_insert(&mut object, "members", members);
    proof { lemma_insert_new_member(f2, "members"@, md); }
    let ghost f3 = f2.push(("members"@, md));
    json_insert(&mut object, "time", json_from_str(now.as_str()));
    proof { lemma_insert_new_member(f3, "time"@, JsonDoc::Str(now@)); }
    let ghost f4 = f3.push(("time"@, JsonDoc::Str(now@)));
    json_insert(&mut object, "room", json_from_str(room.as_str()));
    proof {
        lemma_insert_new_member(f4, "room"@, JsonDoc::Str(room@));
        assert(f4.push(("room"@, JsonDoc::Str(room@))) =~= seq![
            ("type"@, JsonDoc::Str(kind@)),
            ("sender"@, JsonDoc::Str(sender@)),
            ("members"@, JsonDoc::Array(member_docs(strings(member_list@), user_views(users@)))),
            ("time"@, JsonDoc::Str(now@)),
            ("room"@, JsonDoc::Str(room@)),
        ]);
    }
    json_dump(&object)
}

impl ServerNotifyMessage {
    /// The room the notice is for.
    pub fn get_room_name(&self) -> (r: String)
        ensures
            r@ == self@.room_name,
    {
        self.room_name.clone()
    }

    /// The text for a user who entered the room; nothing where that user is
    /// no longer connected.
    pub fn on_enter_member_in_room(
        &self,
        new_member: &String,
        member_list: &Vec<String>,
        users: &Vec<User>,
        now: &String,
    ) -> (r: Result<String, ()>)
        ensures
            r matches Ok(s) ==> !s@.contains('\n'),
            r is Ok <==> user_position(user_views(users@), new_member@) is Some,
            r matches Ok(s) ==> s@ == json_text(
                notice_doc(
                    "ENTER_NEW_MEMBER_IN_ROOM"@,
                    new_member@,
                    strings(member_list@),
                    user_views(users@),
                    now@,
                    self@.room_name,
                ),
            ),
    {
        match find_user(users, new_member) {
            None => Err(()),
            Some(_) => Ok(notice_json("ENTER_NEW_MEMBER_IN_ROOM", new_member, member_list, users, now, &self.room_name)),
        }
    }

    /// The text for a user who left the room; nothing where that user is no
    /// longer connected.
    pub fn on_exit_member_from_room(
        &self,
        exit_member: &String,
        member_list: &Vec<String>,
        users: &Vec<User>,
        now: &String,
    ) -> (r: Result<String, ()>)
        ensures
            r matches Ok(s) ==> !s@.contains('\n'),
            r is Ok <==> user_position(user_views(users@), exit_member@) is Some,
            r matches Ok(s) ==> s@ == json_text(
                notice_doc(
                    "EXIT_MEMBER_FROM_ROOM"@,
                    exit_member@,
                    strings(member_list@),
                    user_views(users@),
                    now@,
                    self@.room_name,
                ),
            ),
    {
        match find_user(users, exit_member) {
            None => Err(()),
            Some(_) => Ok(notice_json("EXIT_MEMBER_FROM_ROOM", exit_member, member_list, users, now, &self.room_name)),
        }
    }

    /// The text for a user whose connection broke.
    pub fn on_disconnect_user(
        &self,
        user_hash_id: &String,
        member_list: &Vec<String>,
        users: &Vec<User>,
        now: &String,
    ) -> (r: Result<String, ()>)
        ensures
            r matches Ok(s) ==> !s@.contains('\n'),
            r matches Ok(s) && s@ == json_text(
                notice_doc(
                    "DISCONNECT_USER"@,
                    user_hash_id@,
                    strings(member_list@),
                    user_views(users@),
                    now@,
                    self@.room_name,
                ),
            ),
    {
        Ok(notice_json("DISCONNECT_USER", user_hash_id, member_list, users, now, &self.room_name))
    }

    /// The text for a user who left the server.
    pub fn on_exit_server(
        &self,
        user_hash_id: &String,
        member_list: &Vec<String>,
        users: &Vec<User>,
        now: &String,
    ) -> (r: Result<String, ()>)
        ensures
            r matches Ok(s) ==> !s@.contains('\n'),
            r matches Ok(s) && s@ == json_text(
                notice_doc(
                    "EXIT_SERVER"@,
                    user_hash_id@,
                    strings(member_list@),
                    user_views(users@),
                    now@,
                    self@.room_name,
                ),
            ),
    {
        Ok(notice_json("EXIT_SERVER", user_hash_id, member_list, users, now, &self.room_name))
    }

    /// The text the members of the room are sent, stamped with `now`.
    pub fn to_json_text_at(&self, users: &Vec<User>, now: &String) -> (r: Result<String, ()>)
        ensures
            r matches Ok(s) ==> !s@.contains('\n'),
            r is Ok <==> notice_text(self@, user_views(users@), now@) is Some,
            r matches Ok(s) ==> s@ == notice_text(self@, user_views(users@), now@)->0,
    {
        match &self.body {
            ServerNotifyMessageBody::EnterMemberInRoom { new_member, member_list } =>
                self.on_enter_member_in_room(new_member, member_list, users, now),
            ServerNotifyMessageBody::ExitMemberFromRoom { exit_member, member_list } =>
                self.on_exit_member_from_room(exit_member, member_list, users, now),
            ServerNotifyMessageBody::DisconnectUser { user_hash_id, member_list } =>
                self.on_disconnect_user(user_hash_id, member_list, users, now),
            ServerNotifyMessageBody::ExitServer { user_hash_id, member_list } =>
                self.on_exit_server(user_hash_id, member_list, users, now),
            _ => Err(()),
        }
    }

    /// The text the members of the room are sent, stamped with the current time.
    pub fn to_json_text(&self, users: &Vec<User>) -> (r: Result<String, ()>)
        ensures
            r matches Ok(s) ==> !s@.contains('\n'),
            r is Ok <==> notice_text(self@, user_views(users@), seq![]) is Some,
            r matches Ok(s) ==> exists|now: Seq<char>| s@ == notice_text(self@, user_views(users@), now)->0,
    {
        let now = now_rfc2822();
        self.to_json_text_at(users, &now)
    }
}

} // verus!
