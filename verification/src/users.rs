//! The users of the station.

use vstd::prelude::*;
use crate::actor::{Actor, Role};
use crate::text::copy_text;
use crate::lookup::{first_index, is_first, lemma_first_index, lemma_first_index_found, Keyed};
use crate::records::{opt_chars, views};
use crate::text::str_eq;

verus! {

/// A user record, with the credentials that the login checks.
#[derive(Clone, Debug)]
pub struct User {
    pub id: i32,
    pub full_name: String,
    pub role: Role,
    pub login: Option<String>,
    pub password_hash: Option<String>,
    pub pin_code: Option<String>,
    pub status: String,
}

/// A user as a mathematical value.
pub struct UserView {
    pub id: i32,
    pub full_name: Seq<char>,
    pub role: Role,
    pub login: Option<Seq<char>>,
    pub password_hash: Option<Seq<char>>,
    pub pin_code: Option<Seq<char>>,
    pub status: Seq<char>,
}

impl View for User {
    type V = UserView;

    open spec fn view(&self) -> UserView {
        UserView {
            id: self.id,
            full_name: self.full_name@,
            role: self.role,
            login: opt_chars(self.login),
            password_hash: opt_chars(self.password_hash),
            pin_code: opt_chars(self.pin_code),
            status: self.status@,
        }
    }
}

impl Keyed for User {
    open spec fn key_of(v: UserView) -> i32 {
        v.id
    }

    fn key(&self) -> (k: i32) {
        self.id
    }
}

impl UserView {
    /// Only a user whose status is `Active` may log in.
    pub open spec fn active(self) -> bool {
        self.status == "Active"@
    }

    /// The actor that stands for the user.
    pub open spec fn actor(self) -> Actor {
        Actor { id: self.id, role: self.role }
    }

    /// The user may log in under this name.
    pub open spec fn answers_to(self, username: Seq<char>) -> bool {
        self.login == Some(username) && self.active()
    }

    /// The user is an active worker with this PIN.
    pub open spec fn works_under(self, pin: Seq<char>) -> bool {
        self.pin_code == Some(pin) && self.role == Role::Worker && self.active()
    }
}

impl User {
    /// Whether the user's status is `Active`.
    pub fn is_active(&self) -> (r: bool)
        ensures
            r == self@.active(),
    {
        str_eq(self.status.as_str(), "Active")
    }

    /// The actor to whom the user's actions are attributed.
    pub fn actor(&self) -> (r: Actor)
        ensures
            r == self@.actor(),
    {
        Actor { id: self.id, role: self.role }
    }

    /// Whether the user may log in under this name.
    pub fn answers_to(&self, username: &str) -> (r: bool)
        ensures
            r == self@.answers_to(username@),
    {
        let named = match &self.login {
            Some(l) => str_eq(l.as_str(), username),
            None => false,
        };
        named && self.is_active()
    }

    /// Whether the user is an active worker with this PIN.
    pub fn works_under(&self, pin: &str) -> (r: bool)
        ensures
            r == self@.works_under(pin@),
    {
        let known = match &self.pin_code {
            Some(p) => str_eq(p.as_str(), pin),
            None => false,
        };
        known && self.role == Role::Worker && self.is_active()
    }
    /// A copy of the record.
    pub fn duplicate(&self) -> (r: User)
        ensures
            r@ == self@,
    {
        User {
            id: self.id,
            full_name: self.full_name.clone(),
            role: self.role,
            login: copy_text(&self.login),
            password_hash: copy_text(&self.password_hash),
            pin_code: copy_text(&self.pin_code),
            status: self.status.clone(),
        }
    }
}

/// The predicate "may log in under `username`".
pub open spec fn login_is(username: Seq<char>) -> spec_fn(UserView) -> bool {
    |u: UserView| u.answers_to(username)
}

/// The predicate "is an active worker with the PIN `pin`".
pub open spec fn pin_is(pin: Seq<char>) -> spec_fn(UserView) -> bool {
    |u: UserView| u.works_under(pin)
}

/// The predicate "is an active worker".
pub open spec fn is_available_worker() -> spec_fn(UserView) -> bool {
    |u: UserView| u.role == Role::Worker && u.active()
}

/// The user that a login name denotes: the first active user with it.
pub open spec fn user_named(users: Seq<UserView>, username: Seq<char>) -> Option<UserView> {
    match first_index(users, login_is(username)) {
        Some(i) => Some(users[i]),
        None => None,
    }
}

/// The worker that a PIN denotes: the first active worker with it.
pub open spec fn worker_with_pin(users: Seq<UserView>, pin: Seq<char>) -> Option<UserView> {
    match first_index(users, pin_is(pin)) {
        Some(i) => Some(users[i]),
        None => None,
    }
}

/// Looks up the user who may log in under a name.
pub fn find_by_login<'a>(users: &'a Vec<User>, username: &str) -> (r: Option<&'a User>)
    ensures
        match r {
            Some(u) => user_named(views(users@), username@) == Some(u@),
            None => user_named(views(users@), username@) is None,
        },
{
    let ghost s = views(users@);
    let ghost p = login_is(username@);
    let mut i: usize = 0;
    while i < users.len()
        invariant
            i <= users.len(),
            s == views(users@),
            p == login_is(username@),
            forall|j: int| 0 <= j < i ==> !p(#[trigger] s[j]),
        decreases users.len() - i,
    {
        assert(s[i as int] == users@[i as int]@);
        if users[i].answers_to(username) {
            proof {
                assert(is_first(s, p, i as int));
                lemma_first_index_found(s, p, i as int);
            }
            return Some(&users[i]);
        }
        i += 1;
    }
    proof {
        lemma_first_index(s, p);
        if first_index(s, p) is Some {
            assert(p(s[first_index(s, p)->0]));
        }
    }
    None
}

/// Looks up the active worker with a PIN.
pub fn find_by_pin<'a>(users: &'a Vec<User>, pin: &str) -> (r: Option<&'a User>)
    ensures
        match r {
            Some(u) => worker_with_pin(views(users@), pin@) == Some(u@),
            None => worker_with_pin(views(users@), pin@) is None,
        },
{
    let ghost s = views(users@);
    let ghost p = pin_is(pin@);
    let mut i: usize = 0;
    while i < users.len()
        invariant
            i <= users.len(),
            s == views(users@),
            p == pin_is(pin@),
            forall|j: int| 0 <= j < i ==> !p(#[trigger] s[j]),
        decreases users.len() - i,
    {
        assert(s[i as int] == users@[i as int]@);
        if users[i].works_under(pin) {
            proof {
                assert(is_first(s, p, i as int));
                lemma_first_index_found(s, p, i as int);
            }
            return Some(&users[i]);
        }
        i += 1;
    }
    proof {
        lemma_first_index(s, p);
        if first_index(s, p) is Some {
            assert(p(s[first_index(s, p)->0]));
        }
    }
    None
}

/// The active workers, in the order of the table.
pub fn available_workers<'a>(users: &'a Vec<User>) -> (r: Vec<&'a User>)
    ensures
        views(r@) == views(users@).filter(is_available_worker()),
{
    let ghost all = views(users@);
    let ghost p = is_available_worker();
    let mut found: Vec<&User> = Vec::new();
    let mut i: usize = 0;
    proof {
        reveal(Seq::filter);
        assert(all.take(0).filter(p) =~= Seq::empty());
        assert(views(found@) =~= Seq::empty());
    }
    while i < users.len()
        invariant
            i <= users.len(),
            all == views(users@),
            p == is_available_worker(),
            views(found@) == all.take(i as int).filter(p),
        decreases users.len() - i,
    {
        let ghost before = views(found@);
        proof {
            assert(all.take(i as int + 1) =~= all.take(i as int).push(all[i as int]));
            all.take(i as int).lemma_filter_push(all[i as int], p);
            assert(all[i as int] == users@[i as int]@);
        }
        if users[i].role == Role::Worker && users[i].is_active() {
            found.push(&users[i]);
            proof {
                assert(views(found@) =~= before.push(all[i as int]));
            }
        }
        i += 1;
    }
    proof {
        assert(all.take(i as int) =~= all);
    }
    found
}

} // verus!
