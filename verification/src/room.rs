//! A chat room: its name and the ids of its members, kept in ascending
//! order of `key_lt`, so that each id is a member at most once.
use vstd::prelude::*;
use crate::order::{
    key_less, key_lt, lemma_key_lt_total, lemma_key_lt_transitive,
    lemma_sorted_no_duplicates, lemma_with_key_is, lemma_without_key_is, strictly_sorted,
    with_key, without_key,
};
use crate::strings::{copy_strings, find_string, strings};

verus! {

/// What a room is: its name and the ascending list of its members' ids.
pub struct RoomView {
    pub name: Seq<char>,
    pub members: Seq<Seq<char>>,
}

pub struct Room {
    name: String,
    users: Vec<String>,
}

impl View for Room {
    type V = RoomView;

    closed spec fn view(&self) -> RoomView {
        RoomView { name: self.name@, members: strings(self.users@) }
    }
}

impl Room {
    /// The members are listed in strictly ascending order.
    #[verifier::type_invariant]
    pub open spec fn inv(&self) -> bool {
        strictly_sorted(self@.members)
    }

    /// An empty room.
    pub fn new(name: String) -> (r: Room)
        ensures
            r@ == (RoomView { name: name@, members: seq![] }),
    {
        let r = Room { name, users: Vec::new() };
        proof {
            assert(strings(r.users@) =~= seq![]);
        }
        r
    }

    /// The room's name.
    pub fn get_name(&self) -> (r: String)
        ensures
            r@ == self@.name,
    {
        self.name.clone()
    }

    /// Makes a user a member; a member stays a member once.
    pub fn add_new_user(&mut self, user_hash_id: String)
        ensures
            strictly_sorted(final(self)@.members),
            final(self)@ == (RoomView {
                members: with_key(old(self)@.members, user_hash_id@),
                ..old(self)@
            }),
    {
        proof {
            use_type_invariant(&*self);
        }
        let ghost m = strings(self.users@);
        let ghost x = user_hash_id@;
        let mut k: usize = 0;
        loop
            invariant
                0 <= k <= self.users@.len(),
                m == strings(self.users@),
                x == user_hash_id@,
                forall|j: int| 0 <= j < k ==> key_lt(#[trigger] m[j], x),
            ensures
                0 <= k <= self.users@.len(),
                forall|j: int| 0 <= j < k ==> key_lt(#[trigger] m[j], x),
                k < self.users@.len() ==> !key_lt(m[k as int], x),
            decreases self.users@.len() - k,
        {
            if k >= self.users.len() {
                break;
            }
            if !key_less(&self.users[k], &user_hash_id) {
                break;
            }
            k = k + 1;
        }
        if k < self.users.len() && self.users[k] == user_hash_id {
            proof {
                assert(m[k as int] == x);
                lemma_with_key_is(m, x, m);
            }
        } else {
            let mut names = copy_strings(&self.users);
            let ghost copied = names@;
            assert(strings(copied).len() == strings(self.users@).len());
            names.insert(k, user_hash_id);
            proof {
                let n = strings(names@);
                assert(n =~= strings(copied).insert(k as int, x));
                assert(n =~= m.insert(k as int, x));
                assert forall|j: int| k <= j < m.len() implies key_lt(x, #[trigger] m[j]) by {
                    assert(m[k as int] != x);
                    lemma_key_lt_total(m[k as int], x);
                    if j > k {
                        lemma_key_lt_transitive(x, m[k as int], m[j]);
                    }
                }
                assert forall|i: int, j: int| 0 <= i < j < n.len() implies key_lt(#[trigger] n[i], #[trigger] n[j]) by {
                    if j < k {
                    } else if j == k {
                    } else if i < k {
                        lemma_key_lt_transitive(m[i], x, m[j - 1]);
                    } else if i == k {
                    } else {
                    }
                }
                assert forall|y: Seq<char>| #[trigger] n.contains(y) <==> (m.contains(y) || y == x) by {
                    if n.contains(y) {
                        let i = choose|i: int| 0 <= i < n.len() && n[i] == y;
                        if i < k {
                            assert(m[i] == y);
                        } else if i > k {
                            assert(m[i - 1] == y);
                        }
                    }
                    if m.contains(y) {
                        let i = choose|i: int| 0 <= i < m.len() && m[i] == y;
                        if i < k {
                            assert(n[i] == y);
                        } else {
                            assert(n[i + 1] == y);
                        }
                    }
                    if y == x {
                        assert(n[k as int] == y);
                    }
                }
                lemma_with_key_is(m, x, n);
            }
            self.users = names;
        }
    }

    /// The ids of the members, in ascending order.
    pub fn get_users(&self) -> (r: Vec<String>)
        ensures
            strings(r@) == self@.members,
    {
        copy_strings(&self.users)
    }

    /// The id of a member, if the user is one.
    pub fn get_user(&self, user_hash_id: &String) -> (r: Option<String>)
        ensures
            r is Some <==> self@.members.contains(user_hash_id@),
            r matches Some(s) ==> s@ == user_hash_id@,
    {
        match find_string(&self.users, user_hash_id) {
            Some(i) => {
                proof {
                    assert(strings(self.users@)[i as int] == user_hash_id@);
                }
                Some(self.users[i].clone())
            },
            None => None,
        }
    }

    /// Makes a user no longer a member.
    pub fn remove_user(&mut self, user_hash_id: &String)
        ensures
            strictly_sorted(final(self)@.members),
            final(self)@ == (RoomView {
                members: without_key(old(self)@.members, user_hash_id@),
                ..old(self)@
            }),
    {
        proof {
            use_type_invariant(&*self);
        }
        let ghost m = strings(self.users@);
        let ghost x = user_hash_id@;
        match find_string(&self.users, user_hash_id) {
            Some(i) => {
                let mut names = copy_strings(&self.users);
                let ghost copied = names@;
                assert(strings(copied).len() == strings(self.users@).len());
                names.remove(i);
                proof {
                    let n = strings(names@);
                    assert(n =~= strings(copied).remove(i as int));
                    assert(n =~= m.remove(i as int));
                    lemma_sorted_no_duplicates(m);
                    assert forall|a: int, b: int| 0 <= a < b < n.len() implies key_lt(#[trigger] n[a], #[trigger] n[b]) by {
                        if a < i && b >= i {
                            assert(key_lt(m[a], m[b + 1]));
                        } else if a >= i {
                            assert(key_lt(m[a + 1], m[b + 1]));
                        } else {
                            assert(key_lt(m[a], m[b]));
                        }
                    }
                    assert forall|y: Seq<char>| #[trigger] n.contains(y) <==> (m.contains(y) && y != x) by {
                        if n.contains(y) {
                            let a = choose|a: int| 0 <= a < n.len() && n[a] == y;
                            if a < i {
                                assert(m[a] == y);
                            } else {
                                assert(m[a + 1] == y);
                            }
                        }
                        if m.contains(y) && y != x {
                            let a = choose|a: int| 0 <= a < m.len() && m[a] == y;
                            assert(a != i);
                            if a < i {
                                assert(n[a] == y);
                            } else {
                                assert(n[a - 1] == y);
                            }
                        }
                    }
                    lemma_without_key_is(m, x, n);
                }
                self.users = names;
            },
            None => {
                proof {
                    lemma_without_key_is(m, x, m);
                }
            },
        }
    }
}

} // verus!
