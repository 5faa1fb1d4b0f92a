//! The server's state and its decisions: who is connected, which rooms
//! exist and who is in them, and what each event changes and makes the
//! server send. Sockets, threads and the clock stay outside; they hand the
//! manager events and carry out what it answers.
use vstd::prelude::*;
use vstd::utf8::{decode_utf8, valid_utf8};
use crate::clock::now_rfc2822;
use crate::json::json_text;
use crate::stream::utf8_text;
use crate::message::{chat_doc, BodyView, Message, MessageBody, MessageView};
use crate::notify::{notice_option_view, notice_text, NoticeBodyView, NoticeView, ServerNotifyMessage, ServerNotifyMessageBody};
use crate::order::{lemma_with_key, lemma_without_key, strictly_sorted, with_key, without_key};
use crate::room::{Room, RoomView};
use crate::strings::{find_string, strings};
use crate::user::{
    find_user, rooms_after_enter, rooms_after_exit, user_position, user_views, User, UserView,
};

verus! {

/// What the manager holds: the connected users in the order they came, the
/// rooms in the order they were made, the ids of the users whose input
/// streams are open, and the ids of those whose output streams are open.
pub struct ManagerView {
    pub users: Seq<UserView>,
    pub rooms: Seq<RoomView>,
    pub inputs: Seq<Seq<char>>,
    pub outputs: Set<Seq<char>>,
}

/// What each room of a list is.
pub open spec fn room_views(v: Seq<Room>) -> Seq<RoomView> {
    v.map_values(|r: Room| r@)
}

/// `i` is the first room of the list named `name`.
pub open spec fn is_first_room(rooms: Seq<RoomView>, name: Seq<char>, i: int) -> bool {
    &&& 0 <= i < rooms.len()
    &&& rooms[i].name == name
    &&& forall|j: int| 0 <= j < i ==> (#[trigger] rooms[j]).name != name
}

/// The index of the room named `name`, if there is one.
pub open spec fn room_position(rooms: Seq<RoomView>, name: Seq<char>) -> Option<int> {
    if exists|i: int| is_first_room(rooms, name, i) {
        Some(choose|i: int| is_first_room(rooms, name, i))
    } else {
        None
    }
}

/// `i` is the first occurrence of `x` in `s`.
pub open spec fn is_first_id(s: Seq<Seq<char>>, x: Seq<char>, i: int) -> bool {
    &&& 0 <= i < s.len()
    &&& s[i] == x
    &&& forall|j: int| 0 <= j < i ==> #[trigger] s[j] != x
}

/// The index of the first occurrence of `x` in `s`, if there is one.
pub open spec fn id_position(s: Seq<Seq<char>>, x: Seq<char>) -> Option<int> {
    if exists|i: int| is_first_id(s, x, i) {
        Some(choose|i: int| is_first_id(s, x, i))
    } else {
        None
    }
}

/// The name of the room every user enters first.
pub open spec fn lounge() -> Seq<char> {
    "lounge"@
}

/// The manager's state is consistent: room names are unique, each room's
/// members are in ascending order, and the lounge exists.
pub open spec fn view_wf(m: ManagerView) -> bool {
    &&& forall|i: int, j: int|
        0 <= i < j < m.rooms.len() ==> (#[trigger] m.rooms[i]).name != (#[trigger] m.rooms[j]).name
    &&& forall|i: int| 0 <= i < m.rooms.len() ==> strictly_sorted(#[trigger] m.rooms[i].members)
    &&& exists|i: int| 0 <= i < m.rooms.len() && (#[trigger] m.rooms[i]).name == lounge()
    &&& forall|i: int| 0 <= i < m.users.len() ==> (#[trigger] m.users[i]).rooms.no_duplicates()
}

/// A list with its element at `i` replaced by its last, and its last dropped.
pub open spec fn swap_removed<A>(s: Seq<A>, i: int) -> Seq<A> {
    s.update(i, s.last()).drop_last()
}

proof fn lemma_room_position(rooms: Seq<RoomView>, name: Seq<char>, i: int)
    requires
        is_first_room(rooms, name, i),
    ensures
        room_position(rooms, name) == Some(i),
{
    let k = choose|k: int| is_first_room(rooms, name, k);
    assert(is_first_room(rooms, name, k));
    if k < i {
        assert(rooms[k].name != name);
    } else if k > i {
        assert(rooms[i].name != name);
    }
}

/// A list of rooms one of which is named `name` has a first one so named.
proof fn lemma_room_has_first(rooms: Seq<RoomView>, name: Seq<char>, i: int)
    requires
        0 <= i < rooms.len(),
        rooms[i].name == name,
    ensures
        room_position(rooms, name) is Some,
    decreases i,
{
    if forall|j: int| 0 <= j < i ==> (#[trigger] rooms[j]).name != name {
        assert(is_first_room(rooms, name, i));
    } else {
        let j = choose|j: int| 0 <= j < i && (#[trigger] rooms[j]).name == name;
        lemma_room_has_first(rooms, name, j);
    }
}

proof fn lemma_id_position(s: Seq<Seq<char>>, x: Seq<char>, i: int)
    requires
        is_first_id(s, x, i),
    ensures
        id_position(s, x) == Some(i),
{
    let k = choose|k: int| is_first_id(s, x, k);
    assert(is_first_id(s, x, k));
    if k < i {
        assert(s[k] != x);
    } else if k > i {
        assert(s[i] != x);
    }
}

/// In a consistent state, the room named `name` is the one at `i` where
/// `i` bears that name.
proof fn lemma_room_named(m: ManagerView, name: Seq<char>, i: int)
    requires
        view_wf(m),
        0 <= i < m.rooms.len(),
        m.rooms[i].name == name,
    ensures
        room_position(m.rooms, name) == Some(i),
{
    assert forall|j: int| 0 <= j < i implies (#[trigger] m.rooms[j]).name != name by {
        assert(m.rooms[j].name != m.rooms[i].name);
    }
    lemma_room_position(m.rooms, name, i);
}

/// Looks a room up by name.
fn find_room(rooms: &Vec<Room>, name: &String) -> (r: Option<usize>)
    ensures
        r matches Some(i) ==> room_position(room_views(rooms@), name@) == Some(i as int),
        r is None ==> room_position(room_views(rooms@), name@) is None,
{
    let ghost rv = room_views(rooms@);
    let mut i: usize = 0;
    while i < rooms.len()
        invariant
            0 <= i <= rooms@.len(),
            rv == room_views(rooms@),
            forall|j: int| 0 <= j < i ==> (#[trigger] rv[j]).name != name@,
        decreases rooms@.len() - i,
    {
        if rooms[i].get_name() == *name {
            proof {
                lemma_room_position(rv, name@, i as int);
            }
            return Some(i);
        }
        i = i + 1;
    }
    None
}

/// Looks an id up in a list of ids: the index of its first occurrence.
fn find_id(ids: &Vec<String>, x: &String) -> (r: Option<usize>)
    ensures
        r matches Some(i) ==> id_position(strings(ids@), x@) == Some(i as int) && i < ids@.len(),
        r is None ==> id_position(strings(ids@), x@) is None,
{
    match find_string(ids, x) {
        Some(i) => {
            proof {
                lemma_id_position(strings(ids@), x@, i as int);
            }
            Some(i)
        },
        None => {
            proof {
                if exists|i: int| is_first_id(strings(ids@), x@, i) {
                    let i = choose|i: int| is_first_id(strings(ids@), x@, i);
                    assert(strings(ids@).contains(x@) && strings(ids@)[i] == x@);
                }
            }
            None
        },
    }
}

/// The server's state in plain fields. Its methods take and give back a
/// state that satisfies `wf`; `Manager` holds one as its type invariant.
pub(crate) struct ManagerState {
    users: Vec<User>,
    rooms: Vec<Room>,
    input_streams: Vec<String>,
    output_streams: Vec<String>,
}

impl View for ManagerState {
    type V = ManagerView;

    closed spec fn view(&self) -> ManagerView {
        ManagerView {
            users: user_views(self.users@),
            rooms: room_views(self.rooms@),
            inputs: strings(self.input_streams@),
            outputs: strings(self.output_streams@).to_set(),
        }
    }
}

/// The state after user `user` opened its input stream.
pub open spec fn connect_input(m: ManagerView, user: UserView) -> ManagerView {
    ManagerView { users: m.users.push(user), inputs: m.inputs.push(user.hash_id), ..m }
}

/// The state after the output stream of user `id` opened, and what the
/// lounge is told: the first user with that id enters the lounge. Nothing
/// happens where no user has that id.
pub open spec fn connect_output(m: ManagerView, id: Seq<char>) -> (ManagerView, Option<NoticeView>) {
    match user_position(m.users, id) {
        None => (m, None),
        Some(i) => {
            let l = room_position(m.rooms, lounge())->0;
            let members = with_key(m.rooms[l].members, id);
            let u = m.users[i];
            (
                ManagerView {
                    users: m.users.update(i, UserView { rooms: rooms_after_enter(u.rooms, lounge()), ..u }),
                    rooms: m.rooms.update(l, RoomView { members, ..m.rooms[l] }),
                    outputs: m.outputs.insert(id),
                    ..m
                },
                Some(
                    NoticeView {
                        room_name: lounge(),
                        body: NoticeBodyView::EnterMemberInRoom { new_member: id, member_list: members },
                    },
                ),
            )
        },
    }
}

/// What the server sends for a message or a notice: the text, and the ids
/// of the users it goes to.
pub struct DeliveryView {
    pub recipients: Seq<Seq<char>>,
    pub text: Seq<char>,
}

pub struct Delivery {
    pub recipients: Vec<String>,
    pub text: String,
}

impl View for Delivery {
    type V = DeliveryView;

    open spec fn view(&self) -> DeliveryView {
        DeliveryView { recipients: strings(self.recipients@), text: self.text@ }
    }
}

/// What an optional delivery is.
pub open spec fn delivery_option_view(d: Option<Delivery>) -> Option<DeliveryView> {
    match d {
        Some(x) => Some(x@),
        None => None,
    }
}

/// Who hears what is said in room `room`: its members whose output stream
/// is open, in the room's order. `None` where there is no such room.
pub open spec fn recipients(m: ManagerView, room: Seq<char>) -> Option<Seq<Seq<char>>> {
    match room_position(m.rooms, room) {
        None => None,
        Some(r) => Some(m.rooms[r].members.filter(|x: Seq<char>| m.outputs.contains(x))),
    }
}

/// What the server sends for a chat message at time `now`.
pub open spec fn chat_delivery(m: ManagerView, msg: MessageView, now: Seq<char>) -> Option<DeliveryView> {
    match recipients(m, msg.room_name) {
        None => None,
        Some(rs) => Some(DeliveryView { recipients: rs, text: json_text(chat_doc(msg, now)) }),
    }
}

/// What the server sends for a notice at time `now`.
pub open spec fn notice_delivery(m: ManagerView, n: NoticeView, now: Seq<char>) -> Option<DeliveryView> {
    match recipients(m, n.room_name) {
        None => None,
        Some(rs) => match notice_text(n, m.users, now) {
            None => None,
            Some(t) => Some(DeliveryView { recipients: rs, text: t }),
        },
    }
}

/// The state after the sender of `msg` entered the room it names, made
/// where it did not exist, and what that room is told. Nothing happens
/// where no user has the sender's id.
pub open spec fn enter_room(m: ManagerView, msg: MessageView) -> (ManagerView, Option<NoticeView>) {
    match user_position(m.users, msg.user_id) {
        None => (m, None),
        Some(i) => {
            let rooms = if room_position(m.rooms, msg.room_name) is Some {
                m.rooms
            } else {
                m.rooms.push(RoomView { name: msg.room_name, members: seq![] })
            };
            let r = room_position(rooms, msg.room_name)->0;
            let members = with_key(rooms[r].members, msg.user_id);
            let u = m.users[i];
            (
                ManagerView {
                    users: m.users.update(i, UserView { rooms: rooms_after_enter(u.rooms, msg.room_name), ..u }),
                    rooms: rooms.update(r, RoomView { members, ..rooms[r] }),
                    ..m
                },
                Some(
                    NoticeView {
                        room_name: msg.room_name,
                        body: NoticeBodyView::EnterMemberInRoom { new_member: msg.user_id, member_list: members },
                    },
                ),
            )
        },
    }
}

/// The state after the sender of `msg` left the room it names, and what
/// that room is told. Nothing happens where there is no such room or the
/// sender is not a member of it.
pub open spec fn exit_room(m: ManagerView, msg: MessageView) -> (ManagerView, Option<NoticeView>) {
    match room_position(m.rooms, msg.room_name) {
        None => (m, None),
        Some(r) => if !m.rooms[r].members.contains(msg.user_id) {
            (m, None)
        } else {
            let members = without_key(m.rooms[r].members, msg.user_id);
            let users = match user_position(m.users, msg.user_id) {
                Some(i) => m.users.update(
                    i,
                    UserView { rooms: rooms_after_exit(m.users[i].rooms, msg.room_name), ..m.users[i] },
                ),
                None => m.users,
            };
            (
                ManagerView { users, rooms: m.rooms.update(r, RoomView { members, ..m.rooms[r] }), ..m },
                Some(
                    NoticeView {
                        room_name: msg.room_name,
                        body: NoticeBodyView::ExitMemberFromRoom { exit_member: msg.user_id, member_list: members },
                    },
                ),
            )
        },
    }
}

/// The rooms after user `id` left those of them named in `names`.
pub open spec fn rooms_without(rooms: Seq<RoomView>, names: Seq<Seq<char>>, id: Seq<char>) -> Seq<RoomView> {
    Seq::new(
        rooms.len(),
        |k: int|
            if names.contains(rooms[k].name) {
                RoomView { members: without_key(rooms[k].members, id), ..rooms[k] }
            } else {
                rooms[k]
            },
    )
}

/// What a room is told when user `id` leaves it: it left the server where
/// `leaving` holds, and lost its connection otherwise.
pub open spec fn departure_notice(name: Seq<char>, id: Seq<char>, members: Seq<Seq<char>>, leaving: bool) -> NoticeView {
    NoticeView {
        room_name: name,
        body: if leaving {
            NoticeBodyView::ExitServer { user_hash_id: id, member_list: members }
        } else {
            NoticeBodyView::DisconnectUser { user_hash_id: id, member_list: members }
        },
    }
}

/// One notice per name in `names` that names a room of `rooms`, in order,
/// with the members that room has.
pub open spec fn departure_notices(
    names: Seq<Seq<char>>,
    rooms: Seq<RoomView>,
    id: Seq<char>,
    leaving: bool,
) -> Seq<NoticeView>
    decreases names.len(),
{
    if names.len() == 0 {
        seq![]
    } else {
        let before = departure_notices(names.drop_last(), rooms, id, leaving);
        match room_position(rooms, names.last()) {
            Some(r) => before.push(departure_notice(names.last(), id, rooms[r].members, leaving)),
            None => before,
        }
    }
}

/// What the outside is told when a user goes: what each of its rooms
/// hears, and which input stream to drop (removed by swapping in the last).
pub struct DepartureView {
    pub notices: Seq<NoticeView>,
    pub input_stream: Option<int>,
}

pub struct Departure {
    pub notices: Vec<ServerNotifyMessage>,
    pub input_stream: Option<usize>,
}

/// What each notice of a list is.
pub open spec fn notice_views(v: Seq<ServerNotifyMessage>) -> Seq<NoticeView> {
    v.map_values(|n: ServerNotifyMessage| n@)
}

impl View for Departure {
    type V = DepartureView;

    open spec fn view(&self) -> DepartureView {
        DepartureView {
            notices: notice_views(self.notices@),
            input_stream: match self.input_stream {
                Some(p) => Some(p as int),
                None => None,
            },
        }
    }
}

/// What an optional departure is.
pub open spec fn departure_option_view(d: Option<Departure>) -> Option<DepartureView> {
    match d {
        Some(x) => Some(x@),
        None => None,
    }
}

/// The state after the first user with id `id` went, and what is told. The
/// user leaves the list: taken out in order where it left the server
/// (`leaving`), and replaced by the last user where its connection broke.
/// It leaves each room it had entered, its first input stream is dropped
/// and its output stream closed. Nothing happens where no user has the id.
pub open spec fn depart(m: ManagerView, id: Seq<char>, leaving: bool) -> (ManagerView, Option<DepartureView>) {
    match user_position(m.users, id) {
        None => (m, None),
        Some(i) => {
            let u = m.users[i];
            let rooms = rooms_without(m.rooms, u.rooms, id);
            let pos = id_position(m.inputs, id);
            (
                ManagerView {
                    users: if leaving {
                        m.users.remove(i)
                    } else {
                        swap_removed(m.users, i)
                    },
                    rooms,
                    inputs: match pos {
                        Some(p) => swap_removed(m.inputs, p),
                        None => m.inputs,
                    },
                    outputs: m.outputs.remove(id),
                },
                Some(DepartureView { notices: departure_notices(u.rooms, rooms, id, leaving), input_stream: pos }),
            )
        },
    }
}

/// The events the manager handles, as they come from the users' streams and
/// from the manager itself.
#[allow(inconsistent_fields)]
pub enum ManagerEvent {
    ComeChatMessage { message: Message },
    DisconnectOutputSocket { user_hash_id: String },
    DisconnectInputSocket { user_hash_id: String },
    ExitServerUser { user_hash_id: String },
    ChangeNickname { user_hash_id: String, new_nickname: String },
    EnterRoom { message: Message },
    ExitRoom { message: Message },
    DoNotifySystemMessage { message: ServerNotifyMessage },
}

pub enum EventView {
    ComeChatMessage(MessageView),
    DisconnectOutputSocket(Seq<char>),
    DisconnectInputSocket(Seq<char>),
    ExitServerUser(Seq<char>),
    ChangeNickname(Seq<char>, Seq<char>),
    EnterRoom(MessageView),
    ExitRoom(MessageView),
    DoNotifySystemMessage(NoticeView),
}

impl View for ManagerEvent {
    type V = EventView;

    open spec fn view(&self) -> EventView {
        match self {
            ManagerEvent::ComeChatMessage { message } => EventView::ComeChatMessage(message@),
            ManagerEvent::DisconnectOutputSocket { user_hash_id } => EventView::DisconnectOutputSocket(user_hash_id@),
            ManagerEvent::DisconnectInputSocket { user_hash_id } => EventView::DisconnectInputSocket(user_hash_id@),
            ManagerEvent::ExitServerUser { user_hash_id } => EventView::ExitServerUser(user_hash_id@),
            ManagerEvent::ChangeNickname { user_hash_id, new_nickname } =>
                EventView::ChangeNickname(user_hash_id@, new_nickname@),
            ManagerEvent::EnterRoom { message } => EventView::EnterRoom(message@),
            ManagerEvent::ExitRoom { message } => EventView::ExitRoom(message@),
            ManagerEvent::DoNotifySystemMessage { message } => EventView::DoNotifySystemMessage(message@),
        }
    }
}

/// The event that a message read from the input stream of user
/// `user_hash_id` raises: chat text, entering or leaving a room, or leaving
/// the server. Images, files and changes of name raise none.
pub open spec fn event_of_message(user_hash_id: Seq<char>, m: MessageView) -> Option<EventView> {
    match m.body {
        BodyView::PlainText(_) => Some(EventView::ComeChatMessage(m)),
        BodyView::EnterRoom => Some(EventView::EnterRoom(m)),
        BodyView::ExitRoom => Some(EventView::ExitRoom(m)),
        BodyView::ExitServer => Some(EventView::ExitServerUser(user_hash_id)),
        _ => None,
    }
}

/// What the outside is to do after an event: nothing, send a text, hand a
/// notice back to the manager, or let a user go.
pub enum Reaction {
    Idle,
    Deliver { delivery: Delivery },
    Notify { message: ServerNotifyMessage },
    Depart { departure: Departure },
}

pub enum ReactionView {
    Idle,
    Deliver(DeliveryView),
    Notify(NoticeView),
    Depart(DepartureView),
}

impl View for Reaction {
    type V = ReactionView;

    open spec fn view(&self) -> ReactionView {
        match self {
            Reaction::Idle => ReactionView::Idle,
            Reaction::Deliver { delivery } => ReactionView::Deliver(delivery@),
            Reaction::Notify { message } => ReactionView::Notify(message@),
            Reaction::Depart { departure } => ReactionView::Depart(departure@),
        }
    }
}

/// The state after an event at time `now`, and what the outside is to do.
pub open spec fn step(m: ManagerView, e: EventView, now: Seq<char>) -> (ManagerView, ReactionView) {
    let after_delivery = |d: Option<DeliveryView>|
        match d {
            Some(x) => ReactionView::Deliver(x),
            None => ReactionView::Idle,
        };
    let after_notice = |r: (ManagerView, Option<NoticeView>)|
        match r.1 {
            Some(n) => (r.0, ReactionView::Notify(n)),
            None => (r.0, ReactionView::Idle),
        };
    let after_departure = |r: (ManagerView, Option<DepartureView>)|
        match r.1 {
            Some(d) => (r.0, ReactionView::Depart(d)),
            None => (r.0, ReactionView::Idle),
        };
    match e {
        EventView::ComeChatMessage(msg) => (m, after_delivery(chat_delivery(m, msg, now))),
        EventView::DisconnectOutputSocket(id) => after_departure(depart(m, id, false)),
        EventView::DisconnectInputSocket(id) => after_departure(depart(m, id, false)),
        EventView::ExitServerUser(id) => after_departure(depart(m, id, true)),
        EventView::ChangeNickname(_, _) => (m, ReactionView::Idle),
        EventView::EnterRoom(msg) => after_notice(enter_room(m, msg)),
        EventView::ExitRoom(msg) => after_notice(exit_room(m, msg)),
        EventView::DoNotifySystemMessage(n) => (m, after_delivery(notice_delivery(m, n, now))),
    }
}

/// What follows a read from the input stream of user `user_hash_id`:
/// whether the stream is read again, and the event it raises. A stream that
/// broke is not read again and reports its user disconnected; one that
/// awaits more bytes is read again and raises nothing; one that gave a
/// message is read again and raises that message's event.
pub open spec fn after_read_view(user_hash_id: Seq<char>, read: Result<MessageView, bool>) -> (bool, Option<EventView>) {
    match read {
        Err(true) => (false, Some(EventView::DisconnectInputSocket(user_hash_id))),
        Err(false) => (true, None),
        Ok(m) => (true, event_of_message(user_hash_id, m)),
    }
}

/// What an optional event is.
pub open spec fn event_option_view(e: Option<ManagerEvent>) -> Option<EventView> {
    match e {
        Some(x) => Some(x@),
        None => None,
    }
}

impl ManagerEvent {
    /// Decides what follows a read from the input stream of user
    /// `user_hash_id`; see `after_read_view`.
    pub fn after_read(user_hash_id: String, read: Result<Message, bool>) -> (r: (bool, Option<ManagerEvent>))
        ensures
            (r.0, event_option_view(r.1)) == after_read_view(
                user_hash_id@,
                match read {
                    Ok(m) => Ok(m@),
                    Err(b) => Err(b),
                },
            ),
    {
        match read {
            Err(true) => (false, Some(ManagerEvent::DisconnectInputSocket { user_hash_id })),
            Err(false) => (true, None),
            Ok(message) => (true, ManagerEvent::from_message(user_hash_id, message)),
        }
    }

    /// The event that a message read from the input stream of user
    /// `user_hash_id` raises, if any.
    pub fn from_message(user_hash_id: String, message: Message) -> (r: Option<ManagerEvent>)
        ensures
            match r {
                Some(e) => event_of_message(user_hash_id@, message@) == Some(e@),
                None => event_of_message(user_hash_id@, message@) is None,
            },
    {
        let kind: u8 = match message.get_body() {
            MessageBody::PlainText { .. } => 0u8,
            MessageBody::EnterRoom => 1u8,
            MessageBody::ExitRoom => 2u8,
            MessageBody::ExitServer => 3u8,
            _ => 4u8,
        };
        if kind == 0 {
            Some(ManagerEvent::ComeChatMessage { message })
        } else if kind == 1 {
            Some(ManagerEvent::EnterRoom { message })
        } else if kind == 2 {
            Some(ManagerEvent::ExitRoom { message })
        } else if kind == 3 {
            Some(ManagerEvent::ExitServerUser { user_hash_id })
        } else {
            None
        }
    }
}

impl ManagerState {

    /// The state is consistent, and no output stream is listed twice.
    pub(crate) closed spec fn wf(&self) -> bool {
        &&& view_wf(self@)
        &&& strings(self.output_streams@).no_duplicates()
    }

    /// A server with no user and one empty room, the lounge.
    pub(crate) fn new() -> (m: ManagerState)
        ensures
            m.wf(),
            m@.users == Seq::<UserView>::empty(),
            m@.rooms == seq![RoomView { name: lounge(), members: seq![] }],
            m@.inputs == Seq::<Seq<char>>::empty(),
            m@.outputs == Set::<Seq<char>>::empty(),
    {
        let mut rooms: Vec<Room> = Vec::new();
        rooms.push(Room::new("lounge".to_owned()));
        let m = ManagerState { users: Vec::new(), rooms, input_streams: Vec::new(), output_streams: Vec::new() };
        proof {
            assert(user_views(m.users@) =~= seq![]);
            assert(room_views(m.rooms@) =~= seq![RoomView { name: lounge(), members: seq![] }]);
            assert(strings(m.input_streams@) =~= seq![]);
            assert(strings(m.output_streams@) =~= seq![]);
            assert(strings(m.output_streams@).to_set() =~= Set::empty());
            assert(room_views(m.rooms@)[0].name == lounge());
        }
        m
    }

    /// Makes `id` a member of the room at `r`.
    fn add_member(&mut self, r: usize, id: String)
        requires
            old(self).wf(),
            r < old(self)@.rooms.len(),
        ensures
            final(self).wf(),
            final(self)@ == (ManagerView {
                rooms: old(self)@.rooms.update(
                    r as int,
                    RoomView { members: with_key(old(self)@.rooms[r as int].members, id@), ..old(self)@.rooms[r as int] },
                ),
                ..old(self)@
            }),
    {
        let ghost before = room_views(self.rooms@);
        let mut room = self.rooms.remove(r);
        assert(room@ == before[r as int]);
        room.add_new_user(id);
        self.rooms.insert(r, room);
        proof {
            let after = room_views(self.rooms@);
            assert(after =~= before.update(r as int, room@));
            lemma_with_key(before[r as int].members, id@);
            let m = self@;
            assert(m.users == old(self)@.users);
            assert forall|i: int| 0 <= i < m.users.len() implies (#[trigger] m.users[i]).rooms.no_duplicates() by {
                assert(m.users[i] == old(self)@.users[i]);
            }
            assert forall|i: int| 0 <= i < m.rooms.len() implies strictly_sorted(#[trigger] m.rooms[i].members) by {
                if i != r {
                    assert(m.rooms[i] == before[i]);
                }
            }
            assert forall|i: int, j: int|
                0 <= i < j < m.rooms.len() implies (#[trigger] m.rooms[i]).name != (#[trigger] m.rooms[j]).name by {
                assert(m.rooms[i].name == before[i].name && m.rooms[j].name == before[j].name);
            }
            let l = choose|l: int| 0 <= l < before.len() && (#[trigger] before[l]).name == lounge();
            assert(m.rooms[l].name == lounge());
        }
    }

    /// Makes `id` no longer a member of the room at `r`.
    fn remove_member(&mut self, r: usize, id: &String)
        requires
            old(self).wf(),
            r < old(self)@.rooms.len(),
        ensures
            final(self).wf(),
            final(self)@ == (ManagerView {
                rooms: old(self)@.rooms.update(
                    r as int,
                    RoomView { members: without_key(old(self)@.rooms[r as int].members, id@), ..old(self)@.rooms[r as int] },
                ),
                ..old(self)@
            }),
    {
        let ghost before = room_views(self.rooms@);
        let mut room = self.rooms.remove(r);
        assert(room@ == before[r as int]);
        room.remove_user(id);
        self.rooms.insert(r, room);
        proof {
            let after = room_views(self.rooms@);
            assert(after =~= before.update(r as int, room@));
            let m = self@;
            assert(m.users == old(self)@.users);
            assert forall|i: int| 0 <= i < m.users.len() implies (#[trigger] m.users[i]).rooms.no_duplicates() by {
                assert(m.users[i] == old(self)@.users[i]);
            }
            assert forall|i: int| 0 <= i < m.rooms.len() implies strictly_sorted(#[trigger] m.rooms[i].members) by {
                if i != r {
                    assert(m.rooms[i] == before[i]);
                }
            }
            assert forall|i: int, j: int|
                0 <= i < j < m.rooms.len() implies (#[trigger] m.rooms[i]).name != (#[trigger] m.rooms[j]).name by {
                assert(m.rooms[i].name == before[i].name && m.rooms[j].name == before[j].name);
            }
            let l = choose|l: int| 0 <= l < before.len() && (#[trigger] before[l]).name == lounge();
            assert(m.rooms[l].name == lounge());
        }
    }

    /// Records that the user at `i` entered room `name`.
    fn user_enters(&mut self, i: usize, name: String)
        requires
            old(self).wf(),
            i < old(self)@.users.len(),
        ensures
            final(self).wf(),
            final(self)@ == (ManagerView {
                users: old(self)@.users.update(
                    i as int,
                    UserView { rooms: rooms_after_enter(old(self)@.users[i as int].rooms, name@), ..old(self)@.users[i as int] },
                ),
                ..old(self)@
            }),
    {
        let ghost before = user_views(self.users@);
        let mut user = self.users.remove(i);
        assert(user@ == before[i as int]);
        user.enter_room(name);
        proof {
            use_type_invariant(&user);
        }
        self.users.insert(i, user);
        proof {
            assert(user_views(self.users@) =~= before.update(i as int, user@));
            let m = self@;
            assert forall|k: int| 0 <= k < m.users.len() implies (#[trigger] m.users[k]).rooms.no_duplicates() by {
                if k != i {
                    assert(m.users[k] == before[k]);
                }
            }
        }
    }

    /// Records that the user at `i` left room `name`.
    fn user_exits(&mut self, i: usize, name: &String)
        requires
            old(self).wf(),
            i < old(self)@.users.len(),
        ensures
            final(self).wf(),
            final(self)@ == (ManagerView {
                users: old(self)@.users.update(
                    i as int,
                    UserView { rooms: rooms_after_exit(old(self)@.users[i as int].rooms, name@), ..old(self)@.users[i as int] },
                ),
                ..old(self)@
            }),
    {
        let ghost before = user_views(self.users@);
        let mut user = self.users.remove(i);
        assert(user@ == before[i as int]);
        user.exit_room(name);
        proof {
            use_type_invariant(&user);
        }
        self.users.insert(i, user);
        proof {
            assert(user_views(self.users@) =~= before.update(i as int, user@));
            let m = self@;
            assert forall|k: int| 0 <= k < m.users.len() implies (#[trigger] m.users[k]).rooms.no_duplicates() by {
                if k != i {
                    assert(m.users[k] == before[k]);
                }
            }
        }
    }

    /// Records that the output stream of `id` is open.
    fn add_output(&mut self, id: String)
        requires
            old(self).wf(),
        ensures
            final(self).wf(),
            final(self)@ == (ManagerView { outputs: old(self)@.outputs.insert(id@), ..old(self)@ }),
    {
        let ghost before = strings(self.output_streams@);
        match find_string(&self.output_streams, &id) {
            Some(k) => {
                proof {
                    assert(before[k as int] == id@);
                    assert(before.to_set().insert(id@) =~= before.to_set());
                }
            },
            None => {
                self.output_streams.push(id);
                proof {
                    let after = strings(self.output_streams@);
                    assert(after =~= before.push(id@));
                    assert forall|y: Seq<char>| after.contains(y) <==> (before.contains(y) || y == id@) by {
                        if after.contains(y) {
                            let a = choose|a: int| 0 <= a < after.len() && after[a] == y;
                            if a < before.len() {
                                assert(before[a] == y);
                            }
                        }
                        if before.contains(y) {
                            let a = choose|a: int| 0 <= a < before.len() && before[a] == y;
                            assert(after[a] == y);
                        }
                        if y == id@ {
                            assert(after[before.len() as int] == y);
                        }
                    }
                    assert(after.to_set() =~= before.to_set().insert(id@));
                    assert(after.no_duplicates());
                }
            },
        }
    }

    /// Records that the output stream of `id` is closed.
    fn remove_output(&mut self, id: &String)
        requires
            old(self).wf(),
        ensures
            final(self).wf(),
            final(self)@ == (ManagerView { outputs: old(self)@.outputs.remove(id@), ..old(self)@ }),
    {
        let ghost before = strings(self.output_streams@);
        match find_string(&self.output_streams, id) {
            Some(k) => {
                self.output_streams.swap_remove(k);
                proof {
                    let after = strings(self.output_streams@);
                    assert(after =~= swap_removed(before, k as int));
                    assert forall|y: Seq<char>| after.contains(y) <==> (before.contains(y) && y != id@) by {
                        if after.contains(y) {
                            let a = choose|a: int| 0 <= a < after.len() && after[a] == y;
                            if a == k {
                                assert(before[before.len() - 1] == y);
                            } else {
                                assert(before[a] == y);
                            }
                        }
                        if before.contains(y) && y != id@ {
                            let a = choose|a: int| 0 <= a < before.len() && before[a] == y;
                            assert(a != k);
                            if a == before.len() - 1 {
                                assert(after[k as int] == y);
                            } else {
                                assert(after[a] == y);
                            }
                        }
                    }
                    assert(after.to_set() =~= before.to_set().remove(id@));
                    assert(after.no_duplicates());
                }
            },
            None => {
                proof {
                    assert(before.to_set().remove(id@) =~= before.to_set());
                }
            },
        }
    }

    /// A user whose input stream just opened: it joins the users, and its
    /// stream the input streams.
    pub(crate) fn on_init_connect_inputstream(&mut self, user: User)
        requires
            old(self).wf(),
        ensures
            final(self).wf(),
            final(self)@ == connect_input(old(self)@, user@),
    {
        proof {
            use_type_invariant(&user);
        }
        let id = user.get_hash_id();
        let ghost uv = user@;
        let ghost before = self@;
        self.users.push(user);
        self.input_streams.push(id);
        proof {
            assert(user_views(self.users@) =~= before.users.push(uv));
            assert(strings(self.input_streams@) =~= before.inputs.push(uv.hash_id));
            let m = self@;
            assert forall|k: int| 0 <= k < m.users.len() implies (#[trigger] m.users[k]).rooms.no_duplicates() by {
                if k < before.users.len() {
                    assert(m.users[k] == before.users[k]);
                }
            }
        }
    }

    /// The output stream of user `user_hash_id` opened: the user enters the
    /// lounge, and the lounge is told. `None` where no user has that id; the
    /// stream is then dropped.
    pub(crate) fn on_init_connect_outputstream(&mut self, user_hash_id: String) -> (r: Option<ServerNotifyMessage>)
        requires
            old(self).wf(),
        ensures
            final(self).wf(),
            (final(self)@, notice_option_view(r)) == connect_output(old(self)@, user_hash_id@),
    {
        let ghost m = self@;
        let i = match find_user(&self.users, &user_hash_id) {
            None => {
                return None;
            },
            Some(i) => i,
        };
        let lounge_name = "lounge".to_owned();
        let l = match find_room(&self.rooms, &lounge_name) {
            Some(l) => l,
            None => {
                proof {
                    let k = choose|k: int| 0 <= k < m.rooms.len() && (#[trigger] m.rooms[k]).name == lounge();
                    lemma_room_named(m, lounge(), k);
                }
                return None;
            },
        };
        self.add_output(user_hash_id.clone());
        self.user_enters(i, lounge_name.clone());
        self.add_member(l, user_hash_id.clone());
        let members = self.rooms[l].get_users();
        let notice = ServerNotifyMessage {
            room_name: lounge_name,
            body: ServerNotifyMessageBody::EnterMemberInRoom { new_member: user_hash_id, member_list: members },
        };
        proof {
            assert(self@ =~= connect_output(m, user_hash_id@).0);
        }
        Some(notice)
    }
    /// Who hears what is said in room `room_name`.
    fn recipients_of(&self, room_name: &String) -> (r: Option<Vec<String>>)
        requires
            self.wf(),
        ensures
            match r {
                Some(v) => recipients(self@, room_name@) == Some(strings(v@)),
                None => recipients(self@, room_name@) is None,
            },
    {
        let r = match find_room(&self.rooms, room_name) {
            None => {
                return None;
            },
            Some(r) => r,
        };
        let members = self.rooms[r].get_users();
        let ghost ms = strings(members@);
        let ghost outs = self@.outputs;
        let ghost keep = |x: Seq<char>| outs.contains(x);
        let mut chosen: Vec<String> = Vec::new();
        let mut k: usize = 0;
        while k < members.len()
            invariant
                0 <= k <= members@.len(),
                ms == strings(members@),
                outs == strings(self.output_streams@).to_set(),
                keep == (|x: Seq<char>| outs.contains(x)),
                strings(chosen@) == ms.take(k as int).filter(keep),
            decreases members@.len() - k,
        {
            proof {
                assert(ms.take(k + 1) =~= ms.take(k as int).push(ms[k as int]));
                ms.take(k as int).lemma_filter_push(ms[k as int], keep);
            }
            let ghost prev = chosen@;
            match find_string(&self.output_streams, &members[k]) {
                Some(o) => {
                    proof {
                        assert(strings(self.output_streams@)[o as int] == ms[k as int]);
                        assert(outs.contains(ms[k as int]));
                    }
                    chosen.push(members[k].clone());
                    proof {
                        assert(strings(chosen@) =~= strings(prev).push(ms[k as int]));
                    }
                },
                None => {},
            }
            k = k + 1;
        }
        proof {
            assert(ms.take(ms.len() as int) =~= ms);
        }
        Some(chosen)
    }

    /// A chat message: the text the room hears at time `now`, and who hears
    /// it. `None` where the room does not exist.
    pub(crate) fn on_come_chat_message(&self, message: &Message, now: &String) -> (r: Option<Delivery>)
        requires
            self.wf(),
        ensures
            delivery_option_view(r) == chat_delivery(self@, message@, now@),
            r matches Some(d) ==> !d.text@.contains('\n'),
    {
        let room_name = message.get_room_name();
        match self.recipients_of(&room_name) {
            None => None,
            Some(rs) => match message.to_send_json_text_at(now) {
                Ok(text) => Some(Delivery { recipients: rs, text }),
                Err(_) => None,
            },
        }
    }

    /// A notice: the text the room hears at time `now`, and who hears it.
    /// `None` where the room does not exist or there is nothing to tell.
    pub(crate) fn on_do_notify_system_message(&self, message: &ServerNotifyMessage, now: &String) -> (r: Option<Delivery>)
        requires
            self.wf(),
        ensures
            delivery_option_view(r) == notice_delivery(self@, message@, now@),
            r matches Some(d) ==> !d.text@.contains('\n'),
    {
        let room_name = message.get_room_name();
        match self.recipients_of(&room_name) {
            None => None,
            Some(rs) => match message.to_json_text_at(&self.users, now) {
                Ok(text) => Some(Delivery { recipients: rs, text }),
                Err(_) => None,
            },
        }
    }

    /// The sender of `message` enters the room it names, which is made where
    /// it does not exist; the room is told.
    #[verifier::spinoff_prover]
    pub(crate) fn on_enter_room(&mut self, message: &Message) -> (r: Option<ServerNotifyMessage>)
        requires
            old(self).wf(),
        ensures
            final(self).wf(),
            (final(self)@, notice_option_view(r)) == enter_room(old(self)@, message@),
    {
        let ghost m = self@;
        let user_hash_id = message.get_user_id();
        let i = match find_user(&self.users, &user_hash_id) {
            None => {
                return None;
            },
            Some(i) => i,
        };
        let room_name = message.get_room_name();
        let r = match find_room(&self.rooms, &room_name) {
            Some(r) => r,
            None => {
                let ghost before = room_views(self.rooms@);
                self.rooms.push(Room::new(room_name.clone()));
                proof {
                    let after = room_views(self.rooms@);
                    assert(after =~= before.push(RoomView { name: room_name@, members: seq![] }));
                    assert forall|a: int, b: int|
                        0 <= a < b < after.len() implies (#[trigger] after[a]).name != (#[trigger] after[b]).name by {
                        if b == before.len() {
                            if after[a].name == room_name@ {
                                assert(before[a].name == room_name@);
                                lemma_room_has_first(before, room_name@, a);
                            }
                        } else {
                            assert(after[a] == before[a] && after[b] == before[b]);
                        }
                    }
                    assert forall|a: int| 0 <= a < after.len() implies strictly_sorted(#[trigger] after[a].members) by {
                        if a < before.len() {
                            assert(after[a] == before[a]);
                        }
                    }
                    let l = choose|l: int| 0 <= l < before.len() && (#[trigger] before[l]).name == lounge();
                    assert(after[l].name == lounge());
                    lemma_room_named(self@, room_name@, before.len() as int);
                }
                self.rooms.len() - 1
            },
        };
        let ghost m1 = self@;
        proof {
            let rooms = if room_position(m.rooms, message@.room_name) is Some {
                m.rooms
            } else {
                m.rooms.push(RoomView { name: message@.room_name, members: seq![] })
            };
            assert(m1.rooms == rooms);
            assert(room_position(rooms, message@.room_name) == Some(r as int));
            assert(is_first_room(rooms, message@.room_name, r as int));
        }
        self.add_member(r, user_hash_id.clone());
        let members = self.rooms[r].get_users();
        let name = self.rooms[r].get_name();
        proof {
            assert(self@.rooms[r as int] == self.rooms@[r as int]@);
            assert(self@.rooms[r as int].name == m1.rooms[r as int].name);
            assert(name@ == message@.room_name);
            assert(self@.users == m.users);
        }
        self.user_enters(i, name);
        proof {
            let e = enter_room(m, message@).0;
            assert(self@.users =~= e.users);
            assert(self@.rooms =~= e.rooms);
            assert(self@.inputs =~= e.inputs);
            assert(self@.outputs =~= e.outputs);
        }
        Some(ServerNotifyMessage {
            room_name,
            body: ServerNotifyMessageBody::EnterMemberInRoom { new_member: user_hash_id, member_list: members },
        })
    }

    /// The sender of `message` leaves the room it names; the room is told.
    /// Nothing happens where there is no such room or the sender is not in it.
    #[verifier::spinoff_prover]
    pub(crate) fn on_exit_room(&mut self, message: &Message) -> (r: Option<ServerNotifyMessage>)
        requires
            old(self).wf(),
        ensures
            final(self).wf(),
            (final(self)@, notice_option_view(r)) == exit_room(old(self)@, message@),
    {
        let ghost m = self@;
        let room_name = message.get_room_name();
        let r = match find_room(&self.rooms, &room_name) {
            None => {
                return None;
            },
            Some(r) => r,
        };
        let user_hash_id = message.get_user_id();
        if self.rooms[r].get_user(&user_hash_id).is_none() {
            return None;
        }
        proof {
            assert(m.rooms[r as int].members.contains(user_hash_id@));
        }
        self.remove_member(r, &user_hash_id);
        let members = self.rooms[r].get_users();
        match find_user(&self.users, &user_hash_id) {
            Some(i) => {
                self.user_exits(i, &room_name);
            },
            None => {},
        }
        proof {
            let e = exit_room(m, message@).0;
            assert(self@.users =~= e.users);
            assert(self@.rooms =~= e.rooms);
            assert(self@.inputs =~= e.inputs);
            assert(self@.outputs =~= e.outputs);
            assert(self@.rooms[r as int] == self.rooms@[r as int]@);
        }
        Some(ServerNotifyMessage {
            room_name,
            body: ServerNotifyMessageBody::ExitMemberFromRoom { exit_member: user_hash_id, member_list: members },
        })
    }

    /// The first user with id `user_hash_id` goes; see `depart`.
    #[verifier::spinoff_prover]
    fn depart(&mut self, user_hash_id: &String, leaving: bool) -> (r: Option<Departure>)
        requires
            old(self).wf(),
        ensures
            final(self).wf(),
            (final(self)@, departure_option_view(r)) == depart(old(self)@, user_hash_id@, leaving),
    {
        let ghost m = self@;
        let i = match find_user(&self.users, user_hash_id) {
            None => {
                return None;
            },
            Some(i) => i,
        };
        let ghost uv = user_views(self.users@);
        let user = if leaving {
            self.users.remove(i)
        } else {
            self.users.swap_remove(i)
        };
        proof {
            assert(user@ == m.users[i as int]);
            if leaving {
                assert(user_views(self.users@) =~= m.users.remove(i as int));
            } else {
                assert(user_views(self.users@) =~= swap_removed(m.users, i as int));
            }
        }
        self.remove_output(user_hash_id);
        let names = user.get_entered_room_names();
        let ghost ns = strings(names@);
        let ghost id = user_hash_id@;
        let ghost m2 = self@;
        assert(m2.rooms == m.rooms);
        let mut k: usize = 0;
        proof {
            assert(rooms_without(m.rooms, ns.take(0), id) =~= m.rooms);
        }
        while k < names.len()
            invariant
                0 <= k <= names@.len(),
                ns == strings(names@),
                id == user_hash_id@,
                self.wf(),
                view_wf(m),
                self@ == (ManagerView { rooms: rooms_without(m.rooms, ns.take(k as int), id), ..m2 }),
            decreases names@.len() - k,
        {
            let ghost cur = self@.rooms;
            proof {
                let t1 = ns.take(k as int);
                let t2 = ns.take(k + 1);
                assert(t2 =~= t1.push(ns[k as int]));
                assert forall|y: Seq<char>| t2.contains(y) <==> (t1.contains(y) || y == ns[k as int]) by {
                    if t2.contains(y) {
                        let a = choose|a: int| 0 <= a < t2.len() && t2[a] == y;
                        if a < k {
                            assert(t1[a] == y);
                        }
                    }
                    if t1.contains(y) {
                        let a = choose|a: int| 0 <= a < t1.len() && t1[a] == y;
                        assert(t2[a] == y);
                    }
                    if y == ns[k as int] {
                        assert(t2[k as int] == y);
                    }
                }
            }
            match find_room(&self.rooms, &names[k]) {
                Some(r) => {
                    self.remove_member(r, user_hash_id);
                    proof {
                        let n = ns[k as int];
                        assert(cur[r as int].name == n);
                        assert forall|j: int| 0 <= j < m.rooms.len() && j != r implies m.rooms[j].name != n by {
                            if j < r {
                                assert(m.rooms[j].name != m.rooms[r as int].name);
                            } else {
                                assert(m.rooms[r as int].name != m.rooms[j].name);
                            }
                        }
                        if ns.take(k as int).contains(n) {
                            lemma_without_key(m.rooms[r as int].members, id);
                            crate::order::lemma_without_key_idempotent(m.rooms[r as int].members, id);
                        }
                        assert(self@.rooms =~= rooms_without(m.rooms, ns.take(k + 1), id));
                    }
                },
                None => {
                    proof {
                        let n = ns[k as int];
                        assert forall|j: int| 0 <= j < m.rooms.len() implies m.rooms[j].name != n by {
                            if m.rooms[j].name == n {
                                assert(cur[j].name == n);
                                lemma_room_has_first(cur, n, j);
                            }
                        }
                        assert(self@.rooms =~= rooms_without(m.rooms, ns.take(k + 1), id));
                    }
                },
            }
            k = k + 1;
        }
        proof {
            assert(ns.take(ns.len() as int) =~= ns);
        }
        let ghost fin = self@.rooms;
        let mut notices: Vec<ServerNotifyMessage> = Vec::new();
        let mut k: usize = 0;
        while k < names.len()
            invariant
                0 <= k <= names@.len(),
                ns == strings(names@),
                id == user_hash_id@,
                fin == self@.rooms,
                fin == room_views(self.rooms@),
                notice_views(notices@) == departure_notices(ns.take(k as int), fin, id, leaving),
            decreases names@.len() - k,
        {
            proof {
                assert(ns.take(k + 1).drop_last() =~= ns.take(k as int));
                assert(ns.take(k + 1).last() == ns[k as int]);
            }
            let ghost prev = notices@;
            match find_room(&self.rooms, &names[k]) {
                Some(r) => {
                    let members = self.rooms[r].get_users();
                    let body = if leaving {
                        ServerNotifyMessageBody::ExitServer { user_hash_id: user_hash_id.clone(), member_list: members }
                    } else {
                        ServerNotifyMessageBody::DisconnectUser { user_hash_id: user_hash_id.clone(), member_list: members }
                    };
                    notices.push(ServerNotifyMessage { body, room_name: names[k].clone() });
                    proof {
                        assert(fin[r as int] == self.rooms@[r as int]@);
                        assert(notice_views(notices@) =~= notice_views(prev).push(
                            departure_notice(ns[k as int], id, fin[r as int].members, leaving),
                        ));
                    }
                },
                None => {},
            }
            k = k + 1;
        }
        proof {
            assert(ns.take(ns.len() as int) =~= ns);
        }
        let input_stream = find_id(&self.input_streams, user_hash_id);
        match input_stream {
            Some(p) => {
                let ghost before = strings(self.input_streams@);
                self.input_streams.swap_remove(p);
                proof {
                    assert(strings(self.input_streams@) =~= swap_removed(before, p as int));
                }
            },
            None => {},
        }
        proof {
            let e = depart(m, id, leaving).0;
            assert(self@.users =~= e.users);
            assert(self@.rooms =~= e.rooms);
            assert(self@.inputs =~= e.inputs);
            assert(self@.outputs =~= e.outputs);
        }
        Some(Departure { notices, input_stream })
    }





    /// The members of room `room_name`, if it exists.
    pub(crate) fn get_room_members(&self, room_name: &String) -> (r: Option<Vec<String>>)
        ensures
            match r {
                Some(v) => room_position(self@.rooms, room_name@) is Some
                    && strings(v@) == self@.rooms[room_position(self@.rooms, room_name@)->0].members,
                None => room_position(self@.rooms, room_name@) is None,
            },
    {
        match find_room(&self.rooms, room_name) {
            Some(k) => Some(self.rooms[k].get_users()),
            None => None,
        }
    }

    /// The first connected user with id `user_hash_id`, if any.
    pub(crate) fn get_user(&self, user_hash_id: &String) -> (r: Option<&User>)
        ensures
            match r {
                Some(u) => user_position(self@.users, user_hash_id@) is Some
                    && u@ == self@.users[user_position(self@.users, user_hash_id@)->0],
                None => user_position(self@.users, user_hash_id@) is None,
            },
    {
        match find_user(&self.users, user_hash_id) {
            Some(i) => Some(&self.users[i]),
            None => None,
        }
    }

    /// The ids of the connected users, in their order.
    pub(crate) fn get_user_ids(&self) -> (r: Vec<String>)
        ensures
            strings(r@) == self@.users.map_values(|u: UserView| u.hash_id),
    {
        let mut r: Vec<String> = Vec::new();
        let mut i: usize = 0;
        while i < self.users.len()
            invariant
                0 <= i <= self.users@.len(),
                strings(r@) =~= self@.users.map_values(|u: UserView| u.hash_id).take(i as int),
            decreases self.users@.len() - i,
        {
            let ghost prev = r@;
            r.push(self.users[i].get_hash_id());
            proof {
                assert(strings(r@) =~= strings(prev).push(self@.users[i as int].hash_id));
                assert(self@.users.map_values(|u: UserView| u.hash_id).take(i + 1) =~= self@.users.map_values(
                    |u: UserView| u.hash_id,
                ).take(i as int).push(self@.users[i as int].hash_id));
            }
            i = i + 1;
        }
        proof {
            assert(self@.users.map_values(|u: UserView| u.hash_id).take(self@.users.len() as int) =~= self@.users.map_values(
                |u: UserView| u.hash_id,
            ));
        }
        r
    }

    /// How many users are connected.
    pub(crate) fn user_count(&self) -> (r: usize)
        ensures
            r == self@.users.len(),
    {
        self.users.len()
    }

    /// Whether the output stream of `user_hash_id` is open.
    pub(crate) fn is_listening(&self, user_hash_id: &String) -> (r: bool)
        ensures
            r == self@.outputs.contains(user_hash_id@),
    {
        match find_string(&self.output_streams, user_hash_id) {
            Some(k) => {
                proof {
                    assert(strings(self.output_streams@)[k as int] == user_hash_id@);
                }
                true
            },
            None => false,
        }
    }

    /// The ids of the open input streams, in their order.
    pub(crate) fn input_stream_ids(&self) -> (r: Vec<String>)
        ensures
            strings(r@) == self@.inputs,
    {
        crate::strings::copy_strings(&self.input_streams)
    }
}

/// The server: who is connected, which rooms exist, and which streams are
/// open. Its state is always consistent (`view_wf`), with no output stream
/// listed twice; that is its type invariant, which every method keeps.
pub struct Manager {
    state: ManagerState,
}

impl View for Manager {
    type V = ManagerView;

    closed spec fn view(&self) -> ManagerView {
        self.state@
    }
}

impl Manager {
    /// No output stream is listed twice.
    pub closed spec fn outputs_unique(&self) -> bool {
        strings(self.state.output_streams@).no_duplicates()
    }

    /// The state is consistent, and no output stream is listed twice.
    #[verifier::type_invariant]
    pub open spec fn inv(&self) -> bool {
        &&& view_wf(self@)
        &&& self.outputs_unique()
    }

    /// A server with no user and one empty room, the lounge.
    pub fn new() -> (m: Manager)
        ensures
            m@.users == Seq::<UserView>::empty(),
            m@.rooms == seq![RoomView { name: lounge(), members: seq![] }],
            m@.inputs == Seq::<Seq<char>>::empty(),
            m@.outputs == Set::<Seq<char>>::empty(),
    {
        Manager { state: ManagerState::new() }
    }

    /// Takes the state out for a change, leaving a fresh one in its place.
    fn take_state(&mut self) -> (s: ManagerState)
        ensures
            s.wf(),
            s@ == old(self)@,
    {
        proof {
            use_type_invariant(&*self);
        }
        let mut s = ManagerState::new();
        std::mem::swap(&mut s, &mut self.state);
        s
    }

    /// A user whose input stream just opened: it joins the users, and its
    /// stream the input streams.
    pub fn on_init_connect_inputstream(&mut self, user: User)
        ensures
            final(self)@ == connect_input(old(self)@, user@),
    {
        let mut state = self.take_state();
        state.on_init_connect_inputstream(user);
        self.state = state;
    }

    /// The output stream of user `user_hash_id` opened: the user enters the
    /// lounge, and the lounge is told. `None` where no user has that id; the
    /// stream is then dropped.
    pub fn on_init_connect_outputstream(&mut self, user_hash_id: String) -> (r: Option<ServerNotifyMessage>)
        ensures
            (final(self)@, notice_option_view(r)) == connect_output(old(self)@, user_hash_id@),
    {
        let mut state = self.take_state();
        let r = state.on_init_connect_outputstream(user_hash_id);
        self.state = state;
        r
    }

    /// The sender of `message` enters the room it names, which is made where
    /// it does not exist; the room is told.
    pub fn on_enter_room(&mut self, message: &Message) -> (r: Option<ServerNotifyMessage>)
        ensures
            (final(self)@, notice_option_view(r)) == enter_room(old(self)@, message@),
    {
        let mut state = self.take_state();
        let r = state.on_enter_room(message);
        self.state = state;
        r
    }

    /// The sender of `message` leaves the room it names; the room is told.
    /// Nothing happens where there is no such room or the sender is not in it.
    pub fn on_exit_room(&mut self, message: &Message) -> (r: Option<ServerNotifyMessage>)
        ensures
            (final(self)@, notice_option_view(r)) == exit_room(old(self)@, message@),
    {
        let mut state = self.take_state();
        let r = state.on_exit_room(message);
        self.state = state;
        r
    }

    /// A chat message: the text the room hears at time `now`, and who hears
    /// it. `None` where the room does not exist.
    pub fn on_come_chat_message(&self, message: &Message, now: &String) -> (r: Option<Delivery>)
        ensures
            delivery_option_view(r) == chat_delivery(self@, message@, now@),
            r matches Some(d) ==> !d.text@.contains('\n'),
    {
        proof {
            use_type_invariant(self);
        }
        self.state.on_come_chat_message(message, now)
    }

    /// A notice: the text the room hears at time `now`, and who hears it.
    /// `None` where the room does not exist or there is nothing to tell.
    pub fn on_do_notify_system_message(&self, message: &ServerNotifyMessage, now: &String) -> (r: Option<Delivery>)
        ensures
            delivery_option_view(r) == notice_delivery(self@, message@, now@),
            r matches Some(d) ==> !d.text@.contains('\n'),
    {
        proof {
            use_type_invariant(self);
        }
        self.state.on_do_notify_system_message(message, now)
    }

    /// The members of room `room_name`, if it exists.
    pub fn get_room_members(&self, room_name: &String) -> (r: Option<Vec<String>>)
        ensures
            match r {
                Some(v) => room_position(self@.rooms, room_name@) is Some
                    && strings(v@) == self@.rooms[room_position(self@.rooms, room_name@)->0].members,
                None => room_position(self@.rooms, room_name@) is None,
            },
    {
        self.state.get_room_members(room_name)
    }

    /// The first connected user with id `user_hash_id`, if any.
    pub fn get_user(&self, user_hash_id: &String) -> (r: Option<&User>)
        ensures
            match r {
                Some(u) => user_position(self@.users, user_hash_id@) is Some
                    && u@ == self@.users[user_position(self@.users, user_hash_id@)->0],
                None => user_position(self@.users, user_hash_id@) is None,
            },
    {
        self.state.get_user(user_hash_id)
    }

    /// The ids of the connected users, in their order.
    pub fn get_user_ids(&self) -> (r: Vec<String>)
        ensures
            strings(r@) == self@.users.map_values(|u: UserView| u.hash_id),
    {
        self.state.get_user_ids()
    }

    /// How many users are connected.
    pub fn user_count(&self) -> (r: usize)
        ensures
            r == self@.users.len(),
    {
        self.state.user_count()
    }

    /// Whether the output stream of `user_hash_id` is open.
    pub fn is_listening(&self, user_hash_id: &String) -> (r: bool)
        ensures
            r == self@.outputs.contains(user_hash_id@),
    {
        self.state.is_listening(user_hash_id)
    }

    /// The ids of the open input streams, in their order.
    pub fn input_stream_ids(&self) -> (r: Vec<String>)
        ensures
            strings(r@) == self@.inputs,
    {
        self.state.input_stream_ids()
    }

    /// A change of nickname changes nothing: the server does not carry it out.
    pub fn on_change_nickname(&mut self, user_hash_id: String, new_nickname: String)
        ensures
            final(self)@ == old(self)@,
    {
    }

    /// The output stream of a user broke: the user goes; see `depart`.
    pub fn on_disconnectoutputstream(&mut self, user_hash_id: String) -> (r: Option<Departure>)
        ensures
            (final(self)@, departure_option_view(r)) == depart(old(self)@, user_hash_id@, false),
    {
        let mut state = self.take_state();
        let r = state.depart(&user_hash_id, false);
        self.state = state;
        r
    }

    /// The input stream of a user broke: the user goes; see `depart`.
    pub fn on_disconnectinputstream(&mut self, user_hash_id: String) -> (r: Option<Departure>)
        ensures
            (final(self)@, departure_option_view(r)) == depart(old(self)@, user_hash_id@, false),
    {
        let mut state = self.take_state();
        let r = state.depart(&user_hash_id, false);
        self.state = state;
        r
    }

    /// A user left the server: it goes; see `depart`.
    pub fn on_exit_server(&mut self, user_hash_id: String) -> (r: Option<Departure>)
        ensures
            (final(self)@, departure_option_view(r)) == depart(old(self)@, user_hash_id@, true),
    {
        let mut state = self.take_state();
        let r = state.depart(&user_hash_id, true);
        self.state = state;
        r
    }

    /// Handles one event at time `now`.
    pub fn process_at(&mut self, event: ManagerEvent, now: &String) -> (r: Reaction)
        ensures
            (final(self)@, r@) == step(old(self)@, event@, now@),
            r matches Reaction::Deliver { delivery } ==> !delivery.text@.contains('\n'),
    {
        match event {
            ManagerEvent::ComeChatMessage { message } => match self.on_come_chat_message(&message, now) {
                Some(delivery) => Reaction::Deliver { delivery },
                None => Reaction::Idle,
            },
            ManagerEvent::DisconnectOutputSocket { user_hash_id } => match self.on_disconnectoutputstream(user_hash_id) {
                Some(departure) => Reaction::Depart { departure },
                None => Reaction::Idle,
            },
            ManagerEvent::DisconnectInputSocket { user_hash_id } => match self.on_disconnectinputstream(user_hash_id) {
                Some(departure) => Reaction::Depart { departure },
                None => Reaction::Idle,
            },
            ManagerEvent::ExitServerUser { user_hash_id } => match self.on_exit_server(user_hash_id) {
                Some(departure) => Reaction::Depart { departure },
                None => Reaction::Idle,
            },
            ManagerEvent::ChangeNickname { user_hash_id, new_nickname } => {
                self.on_change_nickname(user_hash_id, new_nickname);
                Reaction::Idle
            },
            ManagerEvent::EnterRoom { message } => match self.on_enter_room(&message) {
                Some(notice) => Reaction::Notify { message: notice },
                None => Reaction::Idle,
            },
            ManagerEvent::ExitRoom { message } => match self.on_exit_room(&message) {
                Some(notice) => Reaction::Notify { message: notice },
                None => Reaction::Idle,
            },
            ManagerEvent::DoNotifySystemMessage { message } => match self.on_do_notify_system_message(&message, now) {
                Some(delivery) => Reaction::Deliver { delivery },
                None => Reaction::Idle,
            },
        }
    }

    /// Handles one event at the current time.
    pub fn process(&mut self, event: ManagerEvent) -> (r: Reaction)
        ensures
            exists|now: Seq<char>| (final(self)@, r@) == #[trigger] step(old(self)@, event@, now),
    {
        let now = now_rfc2822();
        self.process_at(event, &now)
    }

    /// The id that a new output stream sends as its first line; `Err` where
    /// the line is no UTF-8.
    pub fn check_outputstream_handshake(line: Vec<u8>) -> (r: Result<String, ()>)
        ensures
            r is Ok <==> valid_utf8(line@),
            r matches Ok(s) ==> s@ == decode_utf8(line@),
    {
        match utf8_text(line) {
            Some(s) => Ok(s),
            None => Err(()),
        }
    }
}


/// Changing what a user has entered leaves where users are found by id.
proof fn lemma_user_position_update(users: Seq<UserView>, i: int, u: UserView, id: Seq<char>)
    requires
        0 <= i < users.len(),
        u.hash_id == users[i].hash_id,
    ensures
        user_position(users.update(i, u), id) == user_position(users, id),
{
    let v = users.update(i, u);
    assert forall|k: int| crate::user::is_first_user(v, id, k) <==> crate::user::is_first_user(users, id, k) by {
        if crate::user::is_first_user(v, id, k) {
            assert forall|j: int| 0 <= j < k implies (#[trigger] users[j]).hash_id != id by {
                assert(v[j].hash_id != id);
            }
        }
        if crate::user::is_first_user(users, id, k) {
            assert forall|j: int| 0 <= j < k implies (#[trigger] v[j]).hash_id != id by {
                assert(users[j].hash_id != id);
            }
        }
    }
    if exists|k: int| crate::user::is_first_user(users, id, k) {
        let k = choose|k: int| crate::user::is_first_user(users, id, k);
        crate::user::lemma_user_position(users, id, k);
        crate::user::lemma_user_position(v, id, k);
    }
}

/// Changing the members of a room leaves where rooms are found by name.
proof fn lemma_room_position_update(rooms: Seq<RoomView>, r: int, room: RoomView, name: Seq<char>)
    requires
        0 <= r < rooms.len(),
        room.name == rooms[r].name,
    ensures
        room_position(rooms.update(r, room), name) == room_position(rooms, name),
{
    let v = rooms.update(r, room);
    assert forall|k: int| is_first_room(v, name, k) <==> is_first_room(rooms, name, k) by {
        if is_first_room(v, name, k) {
            assert forall|j: int| 0 <= j < k implies (#[trigger] rooms[j]).name != name by {
                assert(v[j].name != name);
            }
        }
        if is_first_room(rooms, name, k) {
            assert forall|j: int| 0 <= j < k implies (#[trigger] v[j]).name != name by {
                assert(rooms[j].name != name);
            }
        }
    }
    if exists|k: int| is_first_room(rooms, name, k) {
        let k = choose|k: int| is_first_room(rooms, name, k);
        lemma_room_position(rooms, name, k);
        lemma_room_position(v, name, k);
    }
}

/// Keeping the names other than `name` keeps a list that does not hold it.
proof fn lemma_filter_other_than(s: Seq<Seq<char>>, name: Seq<char>)
    requires
        !s.contains(name),
    ensures
        s.filter(crate::user::other_than(name)) == s,
    decreases s.len(),
{
    if s.len() > 0 {
        let t = s.drop_last();
        assert(!t.contains(name)) by {
            if t.contains(name) {
                let k = choose|k: int| 0 <= k < t.len() && t[k] == name;
                assert(s[k] == name);
            }
        }
        lemma_filter_other_than(t, name);
        t.lemma_filter_push(s.last(), crate::user::other_than(name));
        assert(t.push(s.last()) =~= s);
    }
}

/// Entering a room and leaving it again gives back the state as it was,
/// for a connected user who was neither a member of that existing room nor
/// had it among its rooms.
pub proof fn law_enter_then_exit_room(m: ManagerView, msg: MessageView)
    requires
        view_wf(m),
        user_position(m.users, msg.user_id) is Some,
        room_position(m.rooms, msg.room_name) is Some,
        !m.rooms[room_position(m.rooms, msg.room_name)->0].members.contains(msg.user_id),
        !m.users[user_position(m.users, msg.user_id)->0].rooms.contains(msg.room_name),
    ensures
        exit_room(enter_room(m, msg).0, msg).0 == m,
{
    let i = user_position(m.users, msg.user_id)->0;
    let r = room_position(m.rooms, msg.room_name)->0;
    assert(crate::user::is_first_user(m.users, msg.user_id, i));
    assert(is_first_room(m.rooms, msg.room_name, r));
    let s = m.rooms[r].members;
    let m1 = enter_room(m, msg).0;
    lemma_with_key(s, msg.user_id);
    let u = m.users[i];
    let u1 = UserView { rooms: rooms_after_enter(u.rooms, msg.room_name), ..u };
    let room1 = RoomView { members: with_key(s, msg.user_id), ..m.rooms[r] };
    assert(m1.users == m.users.update(i, u1));
    assert(m1.rooms == m.rooms.update(r, room1));
    lemma_room_position_update(m.rooms, r, room1, msg.room_name);
    lemma_user_position_update(m.users, i, u1, msg.user_id);
    assert(m1.rooms[r].members.contains(msg.user_id));
    crate::order::lemma_without_with_key(s, msg.user_id);
    let m2 = exit_room(m1, msg).0;
    m.users[i].rooms.lemma_filter_push(msg.room_name, crate::user::other_than(msg.room_name));
    lemma_filter_other_than(u.rooms, msg.room_name);
    assert(m2.users =~= m.users);
    assert(m2.rooms =~= m.rooms);
}

/// A user that goes is a member of none of the rooms it had entered, the
/// other rooms keep their members, its output stream is closed, and there is
/// one user less.
pub proof fn law_departed_user_leaves_rooms(m: ManagerView, id: Seq<char>, leaving: bool)
    requires
        view_wf(m),
        user_position(m.users, id) is Some,
    ensures
        ({
            let entered = m.users[user_position(m.users, id)->0].rooms;
            let after = depart(m, id, leaving).0;
            &&& after.rooms.len() == m.rooms.len()
            &&& forall|k: int| 0 <= k < after.rooms.len() && entered.contains(#[trigger] after.rooms[k].name)
                ==> !after.rooms[k].members.contains(id)
            &&& forall|k: int| 0 <= k < after.rooms.len() && !entered.contains(#[trigger] after.rooms[k].name)
                ==> after.rooms[k] == m.rooms[k]
            &&& !after.outputs.contains(id)
            &&& after.users.len() == m.users.len() - 1
        }),
{
    let i = user_position(m.users, id)->0;
    assert(crate::user::is_first_user(m.users, id, i));
    let entered = m.users[i].rooms;
    let after = depart(m, id, leaving).0;
    assert forall|k: int| 0 <= k < after.rooms.len() && entered.contains(#[trigger] after.rooms[k].name)
        implies !after.rooms[k].members.contains(id) by {
        lemma_without_key(m.rooms[k].members, id);
    }
}

/// Who hears what is said in a room are exactly its members whose output
/// stream is open.
pub proof fn law_recipients_are_listening_members(m: ManagerView, room: Seq<char>)
    requires
        room_position(m.rooms, room) is Some,
    ensures
        forall|x: Seq<char>| #[trigger] recipients(m, room)->0.contains(x) <==> (
            m.rooms[room_position(m.rooms, room)->0].members.contains(x) && m.outputs.contains(x)),
{
    let r = room_position(m.rooms, room)->0;
    let members = m.rooms[r].members;
    let keep = |x: Seq<char>| m.outputs.contains(x);
    let f = members.filter(keep);
    assert(recipients(m, room)->0 == f);
    assert forall|x: Seq<char>| #[trigger] f.contains(x) <==> (members.contains(x) && m.outputs.contains(x)) by {
        if f.contains(x) {
            members.lemma_filter_contains_rev(keep, x);
            let j = choose|j: int| 0 <= j < f.len() && f[j] == x;
            members.lemma_filter_pred(keep, j);
        }
        if members.contains(x) && m.outputs.contains(x) {
            let j = choose|j: int| 0 <= j < members.len() && members[j] == x;
            members.lemma_filter_contains(keep, j);
        }
    }
}

/// A user whose output stream opened is a member of the lounge, and hears
/// what is said there.
pub proof fn law_connected_user_in_lounge(m: ManagerView, id: Seq<char>)
    requires
        view_wf(m),
        user_position(m.users, id) is Some,
    ensures
        ({
            let after = connect_output(m, id).0;
            let l = room_position(after.rooms, lounge())->0;
            &&& room_position(after.rooms, lounge()) is Some
            &&& after.rooms[l].members.contains(id)
            &&& after.outputs.contains(id)
            &&& after.users[user_position(m.users, id)->0].rooms.contains(lounge())
            &&& after.users[user_position(m.users, id)->0].rooms.no_duplicates()
        }),
{
    let i = user_position(m.users, id)->0;
    assert(crate::user::is_first_user(m.users, id, i));
    crate::user::law_enter_room_idempotent(m.users[i].rooms, lounge());
    if !m.users[i].rooms.contains(lounge()) {
        crate::user::lemma_push_no_duplicates(m.users[i].rooms, lounge());
    }
    let l = choose|l: int| 0 <= l < m.rooms.len() && (#[trigger] m.rooms[l]).name == lounge();
    lemma_room_named(m, lounge(), l);
    let s = m.rooms[l].members;
    lemma_with_key(s, id);
    let after = connect_output(m, id).0;
    let room1 = RoomView { members: with_key(s, id), ..m.rooms[l] };
    assert(after.rooms == m.rooms.update(l, room1));
    lemma_room_position_update(m.rooms, l, room1, lounge());
}

/// After a user enters a room, it is a member of that room, and the room
/// is listed once among the user's rooms.
pub proof fn law_entered_room_listed_once(m: ManagerView, msg: MessageView)
    requires
        view_wf(m),
        user_position(m.users, msg.user_id) is Some,
    ensures
        ({
            let after = enter_room(m, msg).0;
            let rooms = after.users[user_position(m.users, msg.user_id)->0].rooms;
            let r = room_position(after.rooms, msg.room_name);
            &&& rooms.contains(msg.room_name)
            &&& rooms.no_duplicates()
            &&& r is Some
            &&& after.rooms[r->0].members.contains(msg.user_id)
        }),
{
    let i = user_position(m.users, msg.user_id)->0;
    assert(crate::user::is_first_user(m.users, msg.user_id, i));
    crate::user::law_enter_room_idempotent(m.users[i].rooms, msg.room_name);
    if !m.users[i].rooms.contains(msg.room_name) {
        crate::user::lemma_push_no_duplicates(m.users[i].rooms, msg.room_name);
    }
    let rooms = if room_position(m.rooms, msg.room_name) is Some {
        m.rooms
    } else {
        m.rooms.push(RoomView { name: msg.room_name, members: seq![] })
    };
    if room_position(m.rooms, msg.room_name) is None {
        assert forall|j: int| 0 <= j < m.rooms.len() implies (#[trigger] m.rooms[j]).name != msg.room_name by {
            if m.rooms[j].name == msg.room_name {
                lemma_room_has_first(m.rooms, msg.room_name, j);
            }
        }
        assert(rooms[m.rooms.len() as int].name == msg.room_name);
        lemma_room_has_first(rooms, msg.room_name, m.rooms.len() as int);
    }
    let r = room_position(rooms, msg.room_name)->0;
    assert(is_first_room(rooms, msg.room_name, r));
    let s = rooms[r].members;
    assert(strictly_sorted(s)) by {
        if r < m.rooms.len() {
            assert(rooms[r] == m.rooms[r]);
        } else {
            assert(s =~= seq![]);
        }
    }
    lemma_with_key(s, msg.user_id);
    let room1 = RoomView { members: with_key(s, msg.user_id), ..rooms[r] };
    lemma_room_position_update(rooms, r, room1, msg.room_name);
}

/// A chat message is heard by exactly those members of its room whose
/// output stream is open: no member who listens is left out, and nobody
/// outside the room hears it.
pub proof fn law_chat_heard_by_listening_room_members(m: ManagerView, msg: MessageView, now: Seq<char>, i: int)
    requires
        view_wf(m),
        0 <= i < m.rooms.len(),
        m.rooms[i].name == msg.room_name,
    ensures
        chat_delivery(m, msg, now) is Some,
        forall|x: Seq<char>| #[trigger] chat_delivery(m, msg, now)->0.recipients.contains(x) <==> (
            m.rooms[i].members.contains(x) && m.outputs.contains(x)),
{
    lemma_room_named(m, msg.room_name, i);
    law_recipients_are_listening_members(m, msg.room_name);
}

/// A chat message for a room that does not exist is sent to nobody.
pub proof fn law_chat_to_missing_room_is_dropped(m: ManagerView, msg: MessageView, now: Seq<char>)
    requires
        forall|i: int| 0 <= i < m.rooms.len() ==> (#[trigger] m.rooms[i]).name != msg.room_name,
    ensures
        chat_delivery(m, msg, now) is None,
{
    if room_position(m.rooms, msg.room_name) is Some {
        let r = room_position(m.rooms, msg.room_name)->0;
        assert(is_first_room(m.rooms, msg.room_name, r));
        assert(m.rooms[r].name == msg.room_name);
    }
}

/// A notice for a room is heard by exactly those members of that room whose
/// output stream is open, whoever the notice is about: a listening member
/// who just entered hears who is in the room too.
pub proof fn law_notice_heard_by_listening_room_members(m: ManagerView, n: NoticeView, now: Seq<char>, i: int)
    requires
        view_wf(m),
        0 <= i < m.rooms.len(),
        m.rooms[i].name == n.room_name,
        notice_text(n, m.users, now) is Some,
    ensures
        notice_delivery(m, n, now) is Some,
        notice_delivery(m, n, now)->0.text == notice_text(n, m.users, now)->0,
        forall|x: Seq<char>| #[trigger] notice_delivery(m, n, now)->0.recipients.contains(x) <==> (
            m.rooms[i].members.contains(x) && m.outputs.contains(x)),
{
    lemma_room_named(m, n.room_name, i);
    law_recipients_are_listening_members(m, n.room_name);
}

/// A notice is sent only where its room exists and it has a text.
pub proof fn law_notice_needs_room_and_text(m: ManagerView, n: NoticeView, now: Seq<char>)
    ensures
        notice_delivery(m, n, now) is Some ==> notice_text(n, m.users, now) is Some && exists|i: int|
            0 <= i < m.rooms.len() && (#[trigger] m.rooms[i]).name == n.room_name,
{
    if notice_delivery(m, n, now) is Some {
        let r = room_position(m.rooms, n.room_name)->0;
        assert(is_first_room(m.rooms, n.room_name, r));
        assert(m.rooms[r].name == n.room_name);
    }
}

/// Each departure notice names a room of `rooms` and carries the members of
/// the first room so named.
proof fn lemma_departure_notices_rooms(names: Seq<Seq<char>>, rooms: Seq<RoomView>, id: Seq<char>, leaving: bool)
    ensures
        forall|k: int|
            0 <= k < departure_notices(names, rooms, id, leaving).len() ==> {
                let n = #[trigger] departure_notices(names, rooms, id, leaving)[k];
                &&& room_position(rooms, n.room_name) is Some
                &&& n == departure_notice(
                    n.room_name,
                    id,
                    rooms[room_position(rooms, n.room_name)->0].members,
                    leaving,
                )
            },
    decreases names.len(),
{
    if names.len() > 0 {
        lemma_departure_notices_rooms(names.drop_last(), rooms, id, leaving);
        let before = departure_notices(names.drop_last(), rooms, id, leaving);
        let all = departure_notices(names, rooms, id, leaving);
        assert forall|k: int| 0 <= k < all.len() implies {
            let n = #[trigger] all[k];
            &&& room_position(rooms, n.room_name) is Some
            &&& n == departure_notice(n.room_name, id, rooms[room_position(rooms, n.room_name)->0].members, leaving)
        } by {
            if k < before.len() {
                assert(all[k] == before[k]);
            }
        }
    }
}

/// When a user goes, the notice each of its rooms gets is about that user,
/// says whether it left the server, and lists the members that same room
/// has after the user is gone.
pub proof fn law_departure_notice_lists_its_own_room(m: ManagerView, id: Seq<char>, leaving: bool)
    requires
        view_wf(m),
    ensures
        depart(m, id, leaving).1 matches Some(d) ==> forall|k: int, r: int|
            0 <= k < d.notices.len() && 0 <= r < depart(m, id, leaving).0.rooms.len()
                && (#[trigger] depart(m, id, leaving).0.rooms[r]).name == (#[trigger] d.notices[k]).room_name
                ==> d.notices[k].body == (if leaving {
                NoticeBodyView::ExitServer { user_hash_id: id, member_list: depart(m, id, leaving).0.rooms[r].members }
            } else {
                NoticeBodyView::DisconnectUser {
                    user_hash_id: id,
                    member_list: depart(m, id, leaving).0.rooms[r].members,
                }
            }),
        depart(m, id, leaving).1 matches Some(d) ==> forall|k: int|
            0 <= k < d.notices.len() ==> room_position(depart(m, id, leaving).0.rooms, (#[trigger] d.notices[k]).room_name)
                is Some,
{
    if let Some(i) = user_position(m.users, id) {
        let u = m.users[i];
        let rooms = rooms_without(m.rooms, u.rooms, id);
        let ns = departure_notices(u.rooms, rooms, id, leaving);
        assert(depart(m, id, leaving).0.rooms == rooms);
        assert(depart(m, id, leaving).1 == Some(DepartureView { notices: ns, input_stream: id_position(m.inputs, id) }));
        lemma_departure_notices_rooms(u.rooms, rooms, id, leaving);
        assert forall|k: int, r: int|
            0 <= k < ns.len() && 0 <= r < rooms.len() && (#[trigger] rooms[r]).name == (#[trigger] ns[k]).room_name implies ns[k].body
                == (if leaving {
                NoticeBodyView::ExitServer { user_hash_id: id, member_list: rooms[r].members }
            } else {
                NoticeBodyView::DisconnectUser { user_hash_id: id, member_list: rooms[r].members }
            }) by {
            let n = ns[k];
            let q = room_position(rooms, n.room_name)->0;
            assert(is_first_room(rooms, n.room_name, q));
            if q != r {
                assert(rooms[q].name == m.rooms[q].name);
                assert(rooms[r].name == m.rooms[r].name);
                if q < r {
                    assert(m.rooms[q].name != m.rooms[r].name);
                } else {
                    assert(m.rooms[r].name != m.rooms[q].name);
                }
            }
        }
    }
}

/// A user whose input stream opens is added after the users already there,
/// whatever they are called, and its id after the open input streams; the
/// rooms and output streams stay as they were.
pub proof fn law_connect_input_appends(m: ManagerView, u: UserView)
    ensures
        connect_input(m, u).users.len() == m.users.len() + 1,
        connect_input(m, u).users.last() == u,
        forall|k: int| 0 <= k < m.users.len() ==> #[trigger] connect_input(m, u).users[k] == m.users[k],
        connect_input(m, u).inputs.len() == m.inputs.len() + 1,
        connect_input(m, u).inputs.last() == u.hash_id,
        forall|k: int| 0 <= k < m.inputs.len() ==> #[trigger] connect_input(m, u).inputs[k] == m.inputs[k],
        connect_input(m, u).rooms == m.rooms,
        connect_input(m, u).outputs == m.outputs,
{
}

/// Two users whose input streams open one after the other are both added,
/// in that order, even where they share a nickname or an id.
pub proof fn law_two_inputs_both_register(m: ManagerView, u1: UserView, u2: UserView)
    ensures
        connect_input(connect_input(m, u1), u2).users == m.users + seq![u1, u2],
        connect_input(connect_input(m, u1), u2).inputs == m.inputs + seq![u1.hash_id, u2.hash_id],
{
    assert(connect_input(connect_input(m, u1), u2).users =~= m.users + seq![u1, u2]);
    assert(connect_input(connect_input(m, u1), u2).inputs =~= m.inputs + seq![u1.hash_id, u2.hash_id]);
}

} // verus!
