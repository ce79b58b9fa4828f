//! The session directory: which user stands behind a session token.

use vstd::prelude::*;
use crate::actor::Actor;
use crate::auth::fresh_uuid;
use crate::error::EngineError;
use crate::text::str_eq;
use crate::users::{User, UserView};

verus! {

/// One open session.
struct Session {
    token: String,
    user: User,
}

/// The map that a list of sessions stands for; a later entry for a token
/// replaces an earlier one.
spec fn sessions_map(entries: Seq<Session>) -> Map<Seq<char>, UserView>
    decreases entries.len(),
{
    if entries.len() == 0 {
        Map::empty()
    } else {
        sessions_map(entries.drop_last()).insert(entries.last().token@, entries.last().user@)
    }
}

spec fn distinct_tokens(entries: Seq<Session>) -> bool {
    forall|i: int, j: int|
        0 <= i < j < entries.len() ==> (#[trigger] entries[i]).token@ != (
        #[trigger] entries[j]).token@
}

proof fn lemma_sessions_domain(entries: Seq<Session>, token: Seq<char>)
    ensures
        sessions_map(entries).contains_key(token) <==> exists|i: int|
            0 <= i < entries.len() && (#[trigger] entries[i]).token@ == token,
    decreases entries.len(),
{
    if entries.len() > 0 {
        let init = entries.drop_last();
        lemma_sessions_domain(init, token);
        if exists|i: int| 0 <= i < init.len() && (#[trigger] init[i]).token@ == token {
            let i = choose|i: int| 0 <= i < init.len() && (#[trigger] init[i]).token@ == token;
            assert(entries[i] == init[i]);
        }
        if exists|i: int| 0 <= i < entries.len() && (#[trigger] entries[i]).token@ == token {
            let i = choose|i: int|
                0 <= i < entries.len() && (#[trigger] entries[i]).token@ == token;
            if i < init.len() {
                assert(init[i] == entries[i]);
            }
        }
    }
}

proof fn lemma_sessions_value(entries: Seq<Session>, i: int)
    requires
        distinct_tokens(entries),
        0 <= i < entries.len(),
    ensures
        sessions_map(entries).contains_key(entries[i].token@),
        sessions_map(entries)[entries[i].token@] == entries[i].user@,
    decreases entries.len(),
{
    let init = entries.drop_last();
    if i < init.len() {
        assert(distinct_tokens(init)) by {
            assert forall|a: int, b: int| 0 <= a < b < init.len() implies (#[trigger] init[a]).token@
                != (#[trigger] init[b]).token@ by {
                assert(init[a] == entries[a]);
                assert(init[b] == entries[b]);
            }
        }
        lemma_sessions_value(init, i);
        assert(init[i] == entries[i]);
        assert(entries[i].token@ != entries[entries.len() - 1].token@);
    }
}

/// The open sessions. No token occurs twice.
pub struct SessionDirectory {
    entries: Vec<Session>,
}

impl View for SessionDirectory {
    type V = Map<Seq<char>, UserView>;

    closed spec fn view(&self) -> Map<Seq<char>, UserView> {
        sessions_map(self.entries@)
    }
}

impl SessionDirectory {
    #[verifier::type_invariant]
    spec fn well_formed(self) -> bool {
        distinct_tokens(self.entries@)
    }

    /// A directory without sessions.
    pub fn new() -> (r: SessionDirectory)
        ensures
            r@ == Map::<Seq<char>, UserView>::empty(),
    {
        SessionDirectory { entries: Vec::new() }
    }

    fn position(&self, token: &str) -> (r: Option<usize>)
        ensures
            match r {
                Some(i) => i < self.entries@.len() && self.entries@[i as int].token@ == token@,
                None => forall|j: int|
                    0 <= j < self.entries@.len() ==> (#[trigger] self.entries@[j]).token@ != token@,
            },
    {
        let mut i: usize = 0;
        while i < self.entries.len()
            invariant
                i <= self.entries.len(),
                forall|j: int| 0 <= j < i ==> (#[trigger] self.entries@[j]).token@ != token@,
            decreases self.entries.len() - i,
        {
            if str_eq(self.entries[i].token.as_str(), token) {
                return Some(i);
            }
            i += 1;
        }
        None
    }

    /// The number of open sessions.
    pub fn len(&self) -> (r: usize)
        ensures
            r == self@.dom().len(),
            self@.dom().finite(),
    {
        proof {
            use_type_invariant(self);
            lemma_sessions_count(self.entries@);
        }
        self.entries.len()
    }

    /// The user behind a token, if the token is that of an open session.
    pub fn resolve(&self, token: &str) -> (r: Option<&User>)
        ensures
            match r {
                Some(u) => self@.contains_key(token@) && self@[token@] == u@,
                None => !self@.contains_key(token@),
            },
    {
        proof {
            use_type_invariant(self);
            lemma_sessions_domain(self.entries@, token@);
        }
        match self.position(token) {
            Some(i) => {
                proof {
                    lemma_sessions_value(self.entries@, i as int);
                }
                Some(&self.entries[i].user)
            },
            None => None,
        }
    }

    /// The actor behind a token; a token of no open session is refused as
    /// unauthorized.
    pub fn authorize(&self, token: &str) -> (r: Result<Actor, EngineError>)
        ensures
            match r {
                Ok(actor) => self@.contains_key(token@) && actor == self@[token@].actor(),
                Err(e) => !self@.contains_key(token@) && e == EngineError::Unauthorized,
            },
    {
        match self.resolve(token) {
            Some(user) => Ok(user.actor()),
            None => Err(EngineError::Unauthorized),
        }
    }

    /// Opens a session under a given token; a session that was open under
    /// the token is replaced.
    pub fn insert(&mut self, token: String, user: User)
        ensures
            final(self)@ == old(self)@.insert(token@, user@),
    {
        proof {
            use_type_invariant(&*self);
        }
        let found = self.position(token.as_str());
        let ghost before = self.entries@;
        let mut entries = Vec::new();
        std::mem::swap(&mut self.entries, &mut entries);
        match found {
            Some(i) => {
                entries[i].user = user;
                proof {
                    let after = entries@;
                    assert(distinct_tokens(after)) by {
                        assert forall|a: int, b: int| 0 <= a < b < after.len() implies (
                        #[trigger] after[a]).token@ != (#[trigger] after[b]).token@ by {
                            assert(after[a].token@ == before[a].token@);
                            assert(after[b].token@ == before[b].token@);
                        }
                    }
                    assert forall|t: Seq<char>|
                        sessions_map(after).contains_key(t) == sessions_map(before).insert(
                            token@,
                            user@,
                        ).contains_key(t) by {
                        lemma_sessions_domain(after, t);
                        lemma_sessions_domain(before, t);
                        if exists|k: int| 0 <= k < after.len() && (#[trigger] after[k]).token@ == t {
                            let k = choose|k: int|
                                0 <= k < after.len() && (#[trigger] after[k]).token@ == t;
                            assert(before[k].token@ == t);
                        }
                        if exists|k: int|
                            0 <= k < before.len() && (#[trigger] before[k]).token@ == t {
                            let k = choose|k: int|
                                0 <= k < before.len() && (#[trigger] before[k]).token@ == t;
                            assert(after[k].token@ == t);
                        }
                        if t == token@ {
                            assert(after[i as int].token@ == t);
                        }
                    }
                    assert forall|t: Seq<char>| sessions_map(after).contains_key(t) implies (
                    #[trigger] sessions_map(after)[t]) == sessions_map(before).insert(
                        token@,
                        user@,
                    )[t] by {
                        lemma_sessions_domain(after, t);
                        let k = choose|k: int|
                            0 <= k < after.len() && (#[trigger] after[k]).token@ == t;
                        lemma_sessions_value(after, k);
                        lemma_sessions_value(before, k);
                        assert(before[k].token@ == t);
                        if k != i {
                            assert(after[k] == before[k]);
                        }
                    }
                    assert(sessions_map(after) =~= sessions_map(before).insert(token@, user@));
                }
            },
            None => {
                entries.push(Session { token, user });
                proof {
                    let after = entries@;
                    assert(after.drop_last() =~= before);
                    assert(distinct_tokens(after)) by {
                        assert forall|a: int, b: int| 0 <= a < b < after.len() implies (
                        #[trigger] after[a]).token@ != (#[trigger] after[b]).token@ by {
                            assert(after[a] == before[a]);
                            if b < before.len() {
                                assert(after[b] == before[b]);
                            }
                        }
                    }
                }
            },
        }
        self.entries = entries;
    }

    /// Opens a session for the user under a new random token and returns
    /// the token.
    pub fn open(&mut self, user: User) -> (token: String)
        ensures
            final(self)@ == old(self)@.insert(token@, user@),
    {
        let token = fresh_uuid();
        self.insert(token.clone(), user);
        token
    }

    /// Closes the session under a token. Returns whether there was one.
    pub fn remove(&mut self, token: &str) -> (r: bool)
        ensures
            final(self)@ == old(self)@.remove(token@),
            r == old(self)@.contains_key(token@),
    {
        proof {
            use_type_invariant(&*self);
            lemma_sessions_domain(self.entries@, token@);
        }
        let found = self.position(token);
        let ghost before = self.entries@;
        match found {
            None => {
                proof {
                    assert(sessions_map(before).remove(token@) =~= sessions_map(before));
                }
                false
            },
            Some(i) => {
                let mut entries = Vec::new();
                std::mem::swap(&mut self.entries, &mut entries);
                entries.remove(i);
                proof {
                    let after = entries@;
                    assert(after =~= before.remove(i as int));
                    assert(distinct_tokens(after)) by {
                        assert forall|a: int, b: int| 0 <= a < b < after.len() implies (
                        #[trigger] after[a]).token@ != (#[trigger] after[b]).token@ by {
                            let a0 = if a < i { a } else { a + 1 };
                            let b0 = if b < i { b } else { b + 1 };
                            assert(after[a] == before[a0]);
                            assert(after[b] == before[b0]);
                        }
                    }
                    assert forall|t: Seq<char>|
                        sessions_map(after).contains_key(t) == sessions_map(before).remove(
                            token@,
                        ).contains_key(t) by {
                        lemma_sessions_domain(after, t);
                        lemma_sessions_domain(before, t);
                        if exists|k: int| 0 <= k < after.len() && (#[trigger] after[k]).token@ == t {
                            let k = choose|k: int|
                                0 <= k < after.len() && (#[trigger] after[k]).token@ == t;
                            let k0 = if k < i { k } else { k + 1 };
                            assert(after[k] == before[k0]);
                            assert(before[k0].token@ == t);
                            assert(before[k0].token@ != before[i as int].token@);
                        }
                        if t != token@ && exists|k: int|
                            0 <= k < before.len() && (#[trigger] before[k]).token@ == t {
                            let k = choose|k: int|
                                0 <= k < before.len() && (#[trigger] before[k]).token@ == t;
                            let k1 = if k < i { k } else { k - 1 };
                            assert(after[k1] == before[k]);
                        }
                    }
                    assert forall|t: Seq<char>| sessions_map(after).contains_key(t) implies (
                    #[trigger] sessions_map(after)[t]) == sessions_map(before).remove(token@)[t] by {
                        lemma_sessions_domain(after, t);
                        let k = choose|k: int|
                            0 <= k < after.len() && (#[trigger] after[k]).token@ == t;
                        let k0 = if k < i { k } else { k + 1 };
                        assert(after[k] == before[k0]);
                        lemma_sessions_value(after, k);
                        lemma_sessions_value(before, k0);
                    }
                    assert(sessions_map(after) =~= sessions_map(before).remove(token@));
                }
                self.entries = entries;
                true
            },
        }
    }
}

proof fn lemma_sessions_count(entries: Seq<Session>)
    requires
        distinct_tokens(entries),
    ensures
        sessions_map(entries).dom().finite(),
        sessions_map(entries).dom().len() == entries.len(),
    decreases entries.len(),
{
    if entries.len() > 0 {
        let init = entries.drop_last();
        assert(distinct_tokens(init)) by {
            assert forall|a: int, b: int| 0 <= a < b < init.len() implies (#[trigger] init[a]).token@
                != (#[trigger] init[b]).token@ by {
                assert(init[a] == entries[a]);
                assert(init[b] == entries[b]);
            }
        }
        lemma_sessions_count(init);
        lemma_sessions_domain(init, entries.last().token@);
        if sessions_map(init).contains_key(entries.last().token@) {
            let k = choose|k: int|
                0 <= k < init.len() && (#[trigger] init[k]).token@ == entries.last().token@;
            assert(init[k] == entries[k]);
            assert(entries[k].token@ != entries[entries.len() - 1].token@);
        }
        assert(sessions_map(entries).dom() =~= sessions_map(init).dom().insert(
            entries.last().token@,
        ));
    }
}

} // verus!
