//! The verifier's three tables: registered users, outstanding challenges and
//! open sessions.  Challenges and sessions carry their insertion time and are
//! seen only while their time-to-live has not elapsed; users never expire.

use vstd::prelude::*;
use crate::digits::{Scalar, Element, str_eq};

verus! {

/// User data for the authentication protocol.
#[derive(Debug, PartialEq)]
pub struct User {
    /// The registered public value `y1`.
    pub y1: Element,
    /// The registered public value `y2`.
    pub y2: Element,
}

/// The ghost image of a user record: the digits of its two public values.
pub struct UserV {
    /// The digits of `y1`.
    pub y1: Seq<char>,
    /// The digits of `y2`.
    pub y2: Seq<char>,
}

impl View for User {
    type V = UserV;

    open spec fn view(&self) -> UserV {
        UserV { y1: self.y1@, y2: self.y2@ }
    }
}

impl Clone for User {
    /// A clone carries the same values.
    fn clone(&self) -> (r: Self)
        ensures
            r@ == self@,
    {
        let r = User { y1: self.y1.clone(), y2: self.y2.clone() };
        proof {
            assert(r@ =~= self@);
        }
        r
    }
}

/// Challenge data for the authentication protocol.
#[derive(Debug, PartialEq)]
pub struct Challenge {
    /// The user this challenge belongs to.
    pub user: String,
    /// The challenge scalar sent to the prover.
    pub c: Scalar,
    /// The committed value `r1`.
    pub r1: Element,
    /// The committed value `r2`.
    pub r2: Element,
}

/// The ghost image of a challenge record.
pub struct ChallengeV {
    /// The user this challenge belongs to.
    pub user: Seq<char>,
    /// The digits of the challenge scalar.
    pub c: Seq<char>,
    /// The digits of the committed `r1`.
    pub r1: Seq<char>,
    /// The digits of the committed `r2`.
    pub r2: Seq<char>,
}

impl View for Challenge {
    type V = ChallengeV;

    open spec fn view(&self) -> ChallengeV {
        ChallengeV { user: self.user@, c: self.c@, r1: self.r1@, r2: self.r2@ }
    }
}

impl Clone for Challenge {
    /// A clone carries the same values.
    fn clone(&self) -> (r: Self)
        ensures
            r@ == self@,
    {
        let r = Challenge {
            user: self.user.clone(),
            c: self.c.clone(),
            r1: self.r1.clone(),
            r2: self.r2.clone(),
        };
        proof {
            assert(r@ =~= self@);
        }
        r
    }
}

/// Session data for the authentication protocol.
#[derive(Debug, PartialEq)]
pub struct Session {
    /// The session identifier handed back to the client.
    pub id: String,
}

/// The ghost image of a session record.
pub struct SessionV {
    /// The session identifier.
    pub id: Seq<char>,
}

impl View for Session {
    type V = SessionV;

    open spec fn view(&self) -> SessionV {
        SessionV { id: self.id@ }
    }
}

impl Clone for Session {
    /// A clone carries the same identifier.
    fn clone(&self) -> (r: Self)
        ensures
            r@ == self@,
    {
        let r = Session { id: self.id.clone() };
        proof {
            assert(r@ =~= self@);
        }
        r
    }
}

/// The most recent record stored under a key, or nothing.
pub open spec fn lookup_user(s: Seq<(String, User)>, name: Seq<char>) -> Option<UserV>
    decreases s.len(),
{
    if s.len() == 0 {
        None
    } else if s.last().0@ == name {
        Some(s.last().1@)
    } else {
        lookup_user(s.drop_last(), name)
    }
}

/// The most recent timed record stored under a key, with its insertion time.
pub open spec fn lookup_challenge(s: Seq<(String, Challenge, u64)>, id: Seq<char>) -> Option<
    (ChallengeV, u64),
>
    decreases s.len(),
{
    if s.len() == 0 {
        None
    } else if s.last().0@ == id {
        Some((s.last().1@, s.last().2))
    } else {
        lookup_challenge(s.drop_last(), id)
    }
}

/// The most recent timed session stored under a key, with its insertion time.
pub open spec fn lookup_session(s: Seq<(String, Session, u64)>, key: Seq<char>) -> Option<
    (SessionV, u64),
>
    decreases s.len(),
{
    if s.len() == 0 {
        None
    } else if s.last().0@ == key {
        Some((s.last().1@, s.last().2))
    } else {
        lookup_session(s.drop_last(), key)
    }
}

/// An in-memory store for the three tables, with time-to-live bounds on
/// challenges and sessions measured from insertion.  The caller supplies the
/// current time to the reads and writes of the timed tables.
pub struct MemoryStore {
    /// Registered users, newest record last.
    pub users: Vec<(String, User)>,
    /// Outstanding challenges with their insertion times, newest last.
    pub challenges: Vec<(String, Challenge, u64)>,
    /// Open sessions with their insertion times, newest last.
    pub sessions: Vec<(String, Session, u64)>,
    /// How long an inserted challenge stays visible, in seconds.
    pub challenges_ttl: u64,
    /// How long an inserted session stays visible, in seconds.
    pub sessions_ttl: u64,
}

impl MemoryStore {
    /// The user stored under a name.
    pub open spec fn spec_user(&self, name: Seq<char>) -> Option<UserV> {
        lookup_user(self.users@, name)
    }

    /// The challenge stored under an id, with its insertion time, expired or
    /// not.
    pub open spec fn spec_challenge_at(&self, id: Seq<char>) -> Option<(ChallengeV, u64)> {
        lookup_challenge(self.challenges@, id)
    }

    /// The challenge visible under an id at time `now`: stored and not past
    /// its time-to-live.
    pub open spec fn spec_challenge(&self, id: Seq<char>, now: u64) -> Option<ChallengeV> {
        match self.spec_challenge_at(id) {
            Some((c, at)) => if now < at + self.challenges_ttl {
                Some(c)
            } else {
                None
            },
            None => None,
        }
    }

    /// The session stored under a key, with its insertion time, expired or
    /// not.
    pub open spec fn spec_session_at(&self, key: Seq<char>) -> Option<(SessionV, u64)> {
        lookup_session(self.sessions@, key)
    }

    /// The session visible under a key at time `now`: stored and not past
    /// its time-to-live.
    pub open spec fn spec_session(&self, key: Seq<char>, now: u64) -> Option<SessionV> {
        match self.spec_session_at(key) {
            Some((s, at)) => if now < at + self.sessions_ttl {
                Some(s)
            } else {
                None
            },
            None => None,
        }
    }

    /// Creates a store with the given time-to-live bounds, in seconds.
    pub fn new(challenges_ttl: u64, sessions_ttl: u64) -> (r: MemoryStore)
        ensures
            r.users@.len() == 0,
            r.challenges@.len() == 0,
            r.sessions@.len() == 0,
            r.challenges_ttl == challenges_ttl,
            r.sessions_ttl == sessions_ttl,
    {
        MemoryStore {
            users: Vec::new(),
            challenges: Vec::new(),
            sessions: Vec::new(),
            challenges_ttl,
            sessions_ttl,
        }
    }

    /// Inserts or overwrites the user stored under a name.
    pub fn insert_user(&mut self, username: &str, user: User)
        ensures
            final (self).spec_user(username@) == Some(user@),
            forall|n: Seq<char>|
                n != username@ ==> final (self).spec_user(n) == old(self).spec_user(n),
            final (self).challenges@ == old(self).challenges@,
            final (self).sessions@ == old(self).sessions@,
            final (self).challenges_ttl == old(self).challenges_ttl,
            final (self).sessions_ttl == old(self).sessions_ttl,
    {
        let ghost before = self.users@;
        self.users.push((username.to_owned(), user));
        proof {
            assert(self.users@.drop_last() =~= before);
        }
    }

    /// Looks up a user by exact name.
    pub fn get_user(&self, username: &str) -> (r: Option<User>)
        ensures
            r is Some <==> self.spec_user(username@) is Some,
            r matches Some(u) ==> self.spec_user(username@) == Some(u@),
    {
        let n = self.users.len();
        let mut i: usize = n;
        proof {
            assert(self.users@.take(n as int) =~= self.users@);
        }
        while i > 0
            invariant
                0 <= i <= n,
                n == self.users@.len(),
                lookup_user(self.users@, username@) == lookup_user(
                    self.users@.take(i as int),
                    username@,
                ),
            decreases i,
        {
            let pair = &self.users[i - 1];
            proof {
                assert(self.users@.take(i as int).last() == self.users@[i as int - 1]);
                assert(self.users@.take(i as int).drop_last() =~= self.users@.take(i as int - 1));
            }
            if str_eq(pair.0.as_str(), username) {
                return Some(pair.1.clone());
            }
            i = i - 1;
        }
        None
    }

    /// Inserts the challenge stored under an id, stamped with the current
    /// time.
    pub fn insert_challenge(&mut self, id: &str, challenge: Challenge, now: u64)
        ensures
            final (self).spec_challenge_at(id@) == Some((challenge@, now)),
            forall|n: Seq<char>|
                n != id@ ==> final (self).spec_challenge_at(n) == old(self).spec_challenge_at(n),
            final (self).users@ == old(self).users@,
            final (self).sessions@ == old(self).sessions@,
            final (self).challenges_ttl == old(self).challenges_ttl,
            final (self).sessions_ttl == old(self).sessions_ttl,
    {
        let ghost before = self.challenges@;
        self.challenges.push((id.to_owned(), challenge, now));
        proof {
            assert(self.challenges@.drop_last() =~= before);
        }
    }

    /// Looks up the challenge under an id; absent or expired gives nothing.
    pub fn get_challenge(&self, id: &str, now: u64) -> (r: Option<Challenge>)
        ensures
            r is Some <==> self.spec_challenge(id@, now) is Some,
            r matches Some(c) ==> self.spec_challenge(id@, now) == Some(c@),
    {
        let n = self.challenges.len();
        let mut i: usize = n;
        proof {
            assert(self.challenges@.take(n as int) =~= self.challenges@);
        }
        while i > 0
            invariant
                0 <= i <= n,
                n == self.challenges@.len(),
                lookup_challenge(self.challenges@, id@) == lookup_challenge(
                    self.challenges@.take(i as int),
                    id@,
                ),
            decreases i,
        {
            let entry = &self.challenges[i - 1];
            proof {
                assert(self.challenges@.take(i as int).last() == self.challenges@[i as int - 1]);
                assert(self.challenges@.take(i as int).drop_last() =~= self.challenges@.take(
                    i as int - 1,
                ));
            }
            if str_eq(entry.0.as_str(), id) {
                if now >= entry.2 && now - entry.2 >= self.challenges_ttl {
                    return None;
                }
                return Some(entry.1.clone());
            }
            i = i - 1;
        }
        None
    }

    /// Inserts the session stored under a key, stamped with the current time.
    pub fn insert_session(&mut self, key: &str, session: Session, now: u64)
        ensures
            final (self).spec_session_at(key@) == Some((session@, now)),
            forall|n: Seq<char>|
                n != key@ ==> final (self).spec_session_at(n) == old(self).spec_session_at(n),
            final (self).users@ == old(self).users@,
            final (self).challenges@ == old(self).challenges@,
            final (self).challenges_ttl == old(self).challenges_ttl,
            final (self).sessions_ttl == old(self).sessions_ttl,
    {
        let ghost before = self.sessions@;
        self.sessions.push((key.to_owned(), session, now));
        proof {
            assert(self.sessions@.drop_last() =~= before);
        }
    }

    /// Looks up the session under a key; absent or expired gives nothing.
    pub fn get_session(&self, key: &str, now: u64) -> (r: Option<Session>)
        ensures
            r is Some <==> self.spec_session(key@, now) is Some,
            r matches Some(s) ==> self.spec_session(key@, now) == Some(s@),
    {
        let n = self.sessions.len();
        let mut i: usize = n;
        proof {
            assert(self.sessions@.take(n as int) =~= self.sessions@);
        }
        while i > 0
            invariant
                0 <= i <= n,
                n == self.sessions@.len(),
                lookup_session(self.sessions@, key@) == lookup_session(
                    self.sessions@.take(i as int),
                    key@,
                ),
            decreases i,
        {
            let entry = &self.sessions[i - 1];
            proof {
                assert(self.sessions@.take(i as int).last() == self.sessions@[i as int - 1]);
                assert(self.sessions@.take(i as int).drop_last() =~= self.sessions@.take(
                    i as int - 1,
                ));
            }
            if str_eq(entry.0.as_str(), key) {
                if now >= entry.2 && now - entry.2 >= self.sessions_ttl {
                    return None;
                }
                return Some(entry.1.clone());
            }
            i = i - 1;
        }
        None
    }
}

impl Default for MemoryStore {
    /// The default store: challenges live 300 seconds, sessions 3600.
    fn default() -> (r: Self)
        ensures
            r.users@.len() == 0,
            r.challenges@.len() == 0,
            r.sessions@.len() == 0,
            r.challenges_ttl == 300,
            r.sessions_ttl == 3600,
    {
        MemoryStore::new(300, 3600)
    }
}

} // verus!
