//! A connected user: a nickname, the id that the server gave it, and the
//! names of the rooms it has entered, in the order it entered them.
use vstd::prelude::*;
use crate::strings::{copy_strings, find_string, strings};

verus! {

/// What a user is: its nickname, its id and the rooms it has entered.
pub struct UserView {
    pub nickname: Seq<char>,
    pub hash_id: Seq<char>,
    pub rooms: Seq<Seq<char>>,
}

/// The rooms after entering `name`: unchanged where it is there already.
pub open spec fn rooms_after_enter(rooms: Seq<Seq<char>>, name: Seq<char>) -> Seq<Seq<char>> {
    if rooms.contains(name) {
        rooms
    } else {
        rooms.push(name)
    }
}

/// The rooms after leaving `name`: every occurrence of it goes.
pub open spec fn rooms_after_exit(rooms: Seq<Seq<char>>, name: Seq<char>) -> Seq<Seq<char>> {
    rooms.filter(other_than(name))
}

/// Whether a room name is other than `name`.
pub open spec fn other_than(name: Seq<char>) -> spec_fn(Seq<char>) -> bool {
    |r: Seq<char>| r != name
}

/// Entering a room twice is entering it once.
pub proof fn law_enter_room_idempotent(rooms: Seq<Seq<char>>, name: Seq<char>)
    ensures
        rooms_after_enter(rooms_after_enter(rooms, name), name) == rooms_after_enter(rooms, name),
        rooms_after_enter(rooms, name).contains(name),
{
    if !rooms.contains(name) {
        assert(rooms.push(name)[rooms.len() as int] == name);
    }
}

/// After leaving a room, a user is in it no more, and is still in every
/// other room it was in.
pub proof fn law_exit_room_leaves(rooms: Seq<Seq<char>>, name: Seq<char>)
    ensures
        !rooms_after_exit(rooms, name).contains(name),
        forall|other: Seq<char>| other != name ==> (rooms_after_exit(rooms, name).contains(other) <==> rooms.contains(other)),
{
    let keep = other_than(name);
    let f = rooms.filter(keep);
    if f.contains(name) {
        let j = choose|j: int| 0 <= j < f.len() && f[j] == name;
        rooms.lemma_filter_pred(keep, j);
    }
    assert forall|other: Seq<char>| other != name implies (f.contains(other) <==> rooms.contains(other)) by {
        if rooms.contains(other) {
            let i = choose|i: int| 0 <= i < rooms.len() && rooms[i] == other;
            rooms.lemma_filter_contains(keep, i);
        }
        if f.contains(other) {
            rooms.lemma_filter_contains_rev(keep, other);
        }
    }
}

/// Adding a name that a list of distinct names lacks keeps it distinct.
pub proof fn lemma_push_no_duplicates(rooms: Seq<Seq<char>>, name: Seq<char>)
    requires
        rooms.no_duplicates(),
        !rooms.contains(name),
    ensures
        rooms.push(name).no_duplicates(),
{
    let p = rooms.push(name);
    assert forall|i: int, j: int| 0 <= i < p.len() && 0 <= j < p.len() && i != j implies p[i] != p[j] by {
        if i == rooms.len() {
            assert(rooms[j] == p[j]);
        } else if j == rooms.len() {
            assert(rooms[i] == p[i]);
        } else {
            assert(rooms[i] == p[i] && rooms[j] == p[j]);
        }
    }
}

/// Leaving a room keeps a list of distinct names distinct.
pub proof fn lemma_filter_no_duplicates(rooms: Seq<Seq<char>>, name: Seq<char>)
    requires
        rooms.no_duplicates(),
    ensures
        rooms_after_exit(rooms, name).no_duplicates(),
    decreases rooms.len(),
{
    if rooms.len() > 0 {
        let t = rooms.drop_last();
        let last = rooms.last();
        assert(t.no_duplicates()) by {
            assert forall|i: int, j: int| 0 <= i < t.len() && 0 <= j < t.len() && i != j implies t[i] != t[j] by {
                assert(rooms[i] == t[i] && rooms[j] == t[j]);
            }
        }
        lemma_filter_no_duplicates(t, name);
        assert(t.push(last) =~= rooms);
        t.lemma_filter_push(last, other_than(name));
        if other_than(name)(last) {
            if t.filter(other_than(name)).contains(last) {
                t.lemma_filter_contains_rev(other_than(name), last);
                let k = choose|k: int| 0 <= k < t.len() && t[k] == last;
                assert(rooms[k] == rooms[rooms.len() - 1]);
            }
            lemma_push_no_duplicates(t.filter(other_than(name)), last);
        }
    }
}

/// What each user of a list is.
pub open spec fn user_views(v: Seq<User>) -> Seq<UserView> {
    v.map_values(|u: User| u@)
}

/// `i` is the first user of the list with id `id`.
pub open spec fn is_first_user(users: Seq<UserView>, id: Seq<char>, i: int) -> bool {
    &&& 0 <= i < users.len()
    &&& users[i].hash_id == id
    &&& forall|j: int| 0 <= j < i ==> (#[trigger] users[j]).hash_id != id
}

/// The index of the first user with id `id`, if there is one.
pub open spec fn user_position(users: Seq<UserView>, id: Seq<char>) -> Option<int> {
    if exists|i: int| is_first_user(users, id, i) {
        Some(choose|i: int| is_first_user(users, id, i))
    } else {
        None
    }
}

/// The first user of a list with id `id` is at `i`.
pub proof fn lemma_user_position(users: Seq<UserView>, id: Seq<char>, i: int)
    requires
        is_first_user(users, id, i),
    ensures
        user_position(users, id) == Some(i),
{
    let k = choose|k: int| is_first_user(users, id, k);
    assert(is_first_user(users, id, k));
    if k < i {
        assert(users[k].hash_id != id);
    } else if k > i {
        assert(users[i].hash_id != id);
    }
}

/// Looks a user up by id: the index of the first one that has it.
pub fn find_user(users: &Vec<User>, id: &String) -> (r: Option<usize>)
    ensures
        r matches Some(i) ==> user_position(user_views(users@), id@) == Some(i as int),
        r is None ==> user_position(user_views(users@), id@) is None,
{
    let ghost uv = user_views(users@);
    let mut i: usize = 0;
    while i < users.len()
        invariant
            0 <= i <= users@.len(),
            uv == user_views(users@),
            forall|j: int| 0 <= j < i ==> (#[trigger] uv[j]).hash_id != id@,
        decreases users@.len() - i,
    {
        if users[i].hash_id == *id {
            proof {
                assert(uv[i as int] == users@[i as int]@);
                lemma_user_position(uv, id@, i as int);
            }
            return Some(i);
        }
        i = i + 1;
    }
    None
}

pub struct User {
    nickname: String,
    hash_id: String,
    entered_room_names: Vec<String>,
}

impl View for User {
    type V = UserView;

    closed spec fn view(&self) -> UserView {
        UserView {
            nickname: self.nickname@,
            hash_id: self.hash_id@,
            rooms: strings(self.entered_room_names@),
        }
    }
}

impl User {
    /// A user has entered no room twice.
    #[verifier::type_invariant]
    pub open spec fn inv(&self) -> bool {
        self@.rooms.no_duplicates()
    }

    /// A user that has entered no room yet.
    pub fn new(nickname: String, hash_id: String) -> (u: User)
        ensures
            u@ == (UserView { nickname: nickname@, hash_id: hash_id@, rooms: seq![] }),
    {
        let u = User { nickname, hash_id, entered_room_names: Vec::new() };
        proof {
            assert(strings(u.entered_room_names@) =~= seq![]);
        }
        u
    }

    /// The names of the rooms the user has entered, in the order it entered them.
    pub fn get_entered_room_names(&self) -> (r: Vec<String>)
        ensures
            strings(r@) == self@.rooms,
    {
        copy_strings(&self.entered_room_names)
    }

    /// Records that the user entered a room; a room it is in already is not listed twice.
    pub fn enter_room(&mut self, room_name: String)
        ensures
            final(self)@ == (UserView {
                rooms: rooms_after_enter(old(self)@.rooms, room_name@),
                ..old(self)@
            }),
    {
        proof {
            use_type_invariant(&*self);
        }
        let found = find_string(&self.entered_room_names, &room_name);
        if found.is_none() {
            let ghost before = self.entered_room_names@;
            let mut names = copy_strings(&self.entered_room_names);
            names.push(room_name);
            proof {
                assert(strings(names@) =~= strings(before).push(room_name@));
                lemma_push_no_duplicates(strings(before), room_name@);
            }
            self.entered_room_names = names;
        } else {
            proof {
                let i = found.unwrap();
                assert(strings(self.entered_room_names@).contains(room_name@)) by {
                    assert(strings(self.entered_room_names@)[i as int] == room_name@);
                }
            }
        }
    }

    /// Records that the user left a room.
    pub fn exit_room(&mut self, room_name: &String)
        ensures
            final(self)@ == (UserView {
                rooms: rooms_after_exit(old(self)@.rooms, room_name@),
                ..old(self)@
            }),
    {
        proof {
            use_type_invariant(&*self);
        }
        let ghost all = strings(self.entered_room_names@);
        let ghost keep = other_than(room_name@);
        let mut kept: Vec<String> = Vec::new();
        let mut i: usize = 0;
        while i < self.entered_room_names.len()
            invariant
                0 <= i <= self.entered_room_names@.len(),
                all == strings(self.entered_room_names@),
                keep == other_than(room_name@),
                strings(kept@) == all.take(i as int).filter(keep),
            decreases self.entered_room_names@.len() - i,
        {
            let ghost prev = kept@;
            proof {
                assert(all.take(i + 1) =~= all.take(i as int).push(all[i as int]));
                all.take(i as int).lemma_filter_push(all[i as int], keep);
            }
            if self.entered_room_names[i] != *room_name {
                kept.push(self.entered_room_names[i].clone());
                proof {
                    assert(strings(kept@) =~= strings(prev).push(all[i as int]));
                }
            }
            i = i + 1;
        }
        proof {
            assert(all.take(all.len() as int) =~= all);
            lemma_filter_no_duplicates(all, room_name@);
        }
        self.entered_room_names = kept;
    }

    /// The user's nickname.
    pub fn get_nickname(&self) -> (r: String)
        ensures
            r@ == self@.nickname,
    {
        self.nickname.clone()
    }

    /// The id the server gave the user.
    pub fn get_hash_id(&self) -> (r: String)
        ensures
            r@ == self@.hash_id,
    {
        self.hash_id.clone()
    }
}

} // verus!
