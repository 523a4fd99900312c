//! The in-memory record store: fitness-progress entries and user accounts,
//! each kept in a map from identifier to record.
use std::collections::HashMap;
use vstd::prelude::*;
use vstd::std_specs::iter::IteratorSpec;

verus! {

broadcast use vstd::std_specs::hash::group_hash_axioms;

/// One logged workout of a user.
#[derive(Clone, Debug, PartialEq, Eq)]
pub struct FitnessProgress {
    pub id: u64,
    pub user_id: u64,
    pub workout: String,
    /// Length of the workout, in minutes.
    pub duration: u64,
    /// Unix time, in seconds.
    pub timestamp: i64,
    pub timezone: String,
}

/// A user account; the password is kept and compared as plain text.
#[derive(Clone, Debug, PartialEq, Eq)]
pub struct User {
    pub id: u64,
    pub username: String,
    pub password: String,
    pub timezone: String,
}

/// Every record of the map is stored under its own identifier.
pub open spec fn progresses_keyed_by_id(m: Map<u64, FitnessProgress>) -> bool {
    forall|k: u64| #[trigger] m.contains_key(k) ==> m[k].id == k
}

/// Every record of the map is stored under its own identifier.
pub open spec fn users_keyed_by_id(m: Map<u64, User>) -> bool {
    forall|k: u64| #[trigger] m.contains_key(k) ==> m[k].id == k
}

/// `s` holds each record of `m` exactly once, in some order.
pub open spec fn lists_progresses(s: Seq<FitnessProgress>, m: Map<u64, FitnessProgress>) -> bool {
    &&& forall|i: int|
        0 <= i < s.len() ==> m.contains_key(#[trigger] s[i].id) && m[s[i].id] == s[i]
    &&& forall|i: int, j: int| 0 <= i < j < s.len() ==> s[i].id != s[j].id
    &&& forall|k: u64| #[trigger]
        m.contains_key(k) ==> exists|i: int| 0 <= i < s.len() && s[i].id == k
}

/// `s` holds each record of `m` exactly once, in some order.
pub open spec fn lists_users(s: Seq<User>, m: Map<u64, User>) -> bool {
    &&& forall|i: int|
        0 <= i < s.len() ==> m.contains_key(#[trigger] s[i].id) && m[s[i].id] == s[i]
    &&& forall|i: int, j: int| 0 <= i < j < s.len() ==> s[i].id != s[j].id
    &&& forall|k: u64| #[trigger]
        m.contains_key(k) ==> exists|i: int| 0 <= i < s.len() && s[i].id == k
}

/// Some user of `m` has this username and this password.
pub open spec fn has_credentials(m: Map<u64, User>, username: Seq<char>, password: Seq<char>) -> bool {
    exists|k: u64| #[trigger]
        m.contains_key(k) && m[k].username@ == username && m[k].password@ == password
}

/// At most one user of `m` has this username.
pub open spec fn username_unique(m: Map<u64, User>, username: Seq<char>) -> bool {
    forall|a: u64, b: u64|
        #![trigger m.contains_key(a), m.contains_key(b)]
        m.contains_key(a) && m.contains_key(b) && m[a].username@ == username && m[b].username@
            == username ==> a == b
}

/// `m` after storing each record of `s` under its identifier, in order.
pub open spec fn upserted_progresses(m: Map<u64, FitnessProgress>, s: Seq<FitnessProgress>) -> Map<
    u64,
    FitnessProgress,
>
    decreases s.len(),
{
    if s.len() == 0 {
        m
    } else {
        upserted_progresses(m, s.drop_last()).insert(s.last().id, s.last())
    }
}

/// `m` after storing each account of `s` under its identifier, in order.
pub open spec fn upserted_users(m: Map<u64, User>, s: Seq<User>) -> Map<u64, User>
    decreases s.len(),
{
    if s.len() == 0 {
        m
    } else {
        upserted_users(m, s.drop_last()).insert(s.last().id, s.last())
    }
}

/// The outcome of a login attempt: an unknown user and a wrong password
/// are the same failure.
#[derive(Clone, Copy, Debug, PartialEq, Eq, Structural)]
pub enum LoginOutcome {
    Success,
    Failure,
}

/// Both record collections.
pub struct Database {
    fitness_progresses: HashMap<u64, FitnessProgress>,
    users: HashMap<u64, User>,
}

impl Database {
    /// The fitness-progress records, by identifier.
    pub closed spec fn progresses(&self) -> Map<u64, FitnessProgress> {
        self.fitness_progresses@
    }

    /// The user accounts, by identifier.
    pub closed spec fn accounts(&self) -> Map<u64, User> {
        self.users@
    }

    /// Each record sits under its own identifier.
    pub open spec fn wf(&self) -> bool {
        &&& progresses_keyed_by_id(self.progresses())
        &&& users_keyed_by_id(self.accounts())
    }

    /// A store with no records.
    pub fn new() -> (r: Self)
        ensures
            r.wf(),
            r.progresses() == Map::<u64, FitnessProgress>::empty(),
            r.accounts() == Map::<u64, User>::empty(),
    {
        let r = Database { fitness_progresses: HashMap::new(), users: HashMap::new() };
        assert(r.progresses() =~= Map::<u64, FitnessProgress>::empty());
        assert(r.accounts() =~= Map::<u64, User>::empty());
        r
    }

    /// Stores `fitness_progress` under its identifier, replacing any record
    /// that was there.
    pub fn insert_fitness_progress(&mut self, fitness_progress: FitnessProgress)
        requires
            old(self).wf(),
        ensures
            final(self).wf(),
            final(self).progresses() == old(self).progresses().insert(
                fitness_progress.id,
                fitness_progress,
            ),
            final(self).accounts() == old(self).accounts(),
    {
        let id = fitness_progress.id;
        self.fitness_progresses.insert(id, fitness_progress);
    }

    /// The record stored under `id`, if any.
    pub fn get_fitness_progress(&self, id: &u64) -> (r: Option<&FitnessProgress>)
        requires
            self.wf(),
        ensures
            match r {
                Some(p) => self.progresses().contains_key(*id) && *p == self.progresses()[*id],
                None => !self.progresses().contains_key(*id),
            },
    {
        self.fitness_progresses.get(id)
    }

    /// Removes the record stored under `id`; nothing changes when there is none.
    pub fn delete_fitness_progress(&mut self, id: &u64)
        requires
            old(self).wf(),
        ensures
            final(self).wf(),
            final(self).progresses() == old(self).progresses().remove(*id),
            final(self).accounts() == old(self).accounts(),
    {
        self.fitness_progresses.remove(id);
    }

    /// Same effect as `insert_fitness_progress`: the record replaces whatever
    /// was stored under its identifier, or is added when nothing was.
    pub fn update_fitness_progress(&mut self, fitness_progress: FitnessProgress)
        requires
            old(self).wf(),
        ensures
            final(self).wf(),
            final(self).progresses() == old(self).progresses().insert(
                fitness_progress.id,
                fitness_progress,
            ),
            final(self).accounts() == old(self).accounts(),
    {
        let id = fitness_progress.id;
        self.fitness_progresses.insert(id, fitness_progress);
    }

    /// Stores `user` under its identifier, replacing any account that was
    /// there. Usernames are not checked for uniqueness.
    pub fn insert_user(&mut self, user: User)
        requires
            old(self).wf(),
        ensures
            final(self).wf(),
            final(self).accounts() == old(self).accounts().insert(user.id, user),
            final(self).progresses() == old(self).progresses(),
    {
        let id = user.id;
        self.users.insert(id, user);
    }

    /// Every stored fitness-progress record, each once, in no set order.
    pub fn get_all_fitness_progresses(&self) -> (r: Vec<&FitnessProgress>)
        requires
            self.wf(),
        ensures
            lists_progresses(r@.map_values(|p: &FitnessProgress| *p), self.progresses()),
    {
        let ghost m = self.progresses();
        let ghost keys = self.fitness_progresses.keys().remaining().unref();
        let mut out: Vec<&FitnessProgress> = Vec::new();
        for k in it: self.fitness_progresses.keys()
            invariant
                self.wf(),
                m == self.progresses(),
                keys == it.seq().unref(),
                it.seq().unref().to_set() == m.dom(),
                it.seq().unref().no_duplicates(),
                out@.len() == it.index(),
                forall|i: int|
                    0 <= i < out@.len() ==> *#[trigger] out@[i] == m[keys[i]] && m.contains_key(
                        keys[i],
                    ),
        {
            match self.fitness_progresses.get(k) {
                Some(p) => {
                    out.push(p);
                },
                None => {
                    assert(it.seq().unref().to_set().contains(*k));
                },
            }
        }
        proof {
            let s = out@.map_values(|p: &FitnessProgress| *p);
            assert(s.len() == keys.len());
            assert(forall|i: int| 0 <= i < s.len() ==> s[i] == m[keys[i]]);
            assert forall|k: u64| #[trigger] m.contains_key(k) implies exists|i: int|
                0 <= i < s.len() && s[i].id == k by {
                assert(keys.to_set().contains(k));
                let i = choose|i: int| 0 <= i < keys.len() && keys[i] == k;
                assert(s[i].id == k);
            }
            assert forall|i: int, j: int| 0 <= i < j < s.len() implies s[i].id != s[j].id by {
                assert(keys[i] != keys[j]);
            }
        }
        out
    }

    /// Every stored account, each once, in no set order.
    pub fn get_all_users(&self) -> (r: Vec<&User>)
        requires
            self.wf(),
        ensures
            lists_users(r@.map_values(|u: &User| *u), self.accounts()),
    {
        let ghost m = self.accounts();
        let ghost keys = self.users.keys().remaining().unref();
        let mut out: Vec<&User> = Vec::new();
        for k in it: self.users.keys()
            invariant
                self.wf(),
                m == self.accounts(),
                keys == it.seq().unref(),
                it.seq().unref().to_set() == m.dom(),
                it.seq().unref().no_duplicates(),
                out@.len() == it.index(),
                forall|i: int|
                    0 <= i < out@.len() ==> *#[trigger] out@[i] == m[keys[i]] && m.contains_key(
                        keys[i],
                    ),
        {
            match self.users.get(k) {
                Some(u) => {
                    out.push(u);
                },
                None => {
                    assert(it.seq().unref().to_set().contains(*k));
                },
            }
        }
        proof {
            let s = out@.map_values(|u: &User| *u);
            assert(s.len() == keys.len());
            assert(forall|i: int| 0 <= i < s.len() ==> s[i] == m[keys[i]]);
            assert forall|k: u64| #[trigger] m.contains_key(k) implies exists|i: int|
                0 <= i < s.len() && s[i].id == k by {
                assert(keys.to_set().contains(k));
                let i = choose|i: int| 0 <= i < keys.len() && keys[i] == k;
                assert(s[i].id == k);
            }
            assert forall|i: int, j: int| 0 <= i < j < s.len() implies s[i].id != s[j].id by {
                assert(keys[i] != keys[j]);
            }
        }
        out
    }

    /// The first account met, in no set order, whose username is `username`.
    pub fn get_user_by_name(&self, username: &str) -> (r: Option<&User>)
        requires
            self.wf(),
        ensures
            match r {
                Some(u) => self.accounts().contains_key(u.id) && self.accounts()[u.id] == *u
                    && u.username@ == username@,
                None => forall|k: u64| #[trigger]
                    self.accounts().contains_key(k) ==> self.accounts()[k].username@ != username@,
            },
    {
        let ghost m = self.accounts();
        let ghost keys = self.users.keys().remaining().unref();
        let name: String = username.to_owned();
        for k in it: self.users.keys()
            invariant
                self.wf(),
                keys == it.seq().unref(),
                m == self.accounts(),
                name@ == username@,
                it.seq().unref().to_set() == m.dom(),
                forall|i: int|
                    0 <= i < it.index() ==> m[#[trigger] keys[i]].username@ != username@,
        {
            match self.users.get(k) {
                Some(u) => {
                    if u.username == name {
                        return Some(u);
                    }
                },
                None => {
                    assert(it.seq().unref().to_set().contains(*k));
                },
            }
        }
        proof {
            assert forall|k: u64| #[trigger] m.contains_key(k) implies m[k].username@
                != username@ by {
                assert(keys.to_set().contains(k));
                let i = choose|i: int| 0 <= i < keys.len() && keys[i] == k;
                assert(keys[i] == k);
            }
        }
        None
    }

    /// Checks a username and password: succeeds when the account that
    /// `get_user_by_name` finds has exactly this password. An unknown user and
    /// a wrong password give the same failure.
    pub fn login(&self, username: &str, password: &str) -> (r: LoginOutcome)
        requires
            self.wf(),
        ensures
            r == LoginOutcome::Success ==> has_credentials(self.accounts(), username@, password@),
            username_unique(self.accounts(), username@) ==> (r == LoginOutcome::Success
                <==> has_credentials(self.accounts(), username@, password@)),
    {
        let secret: String = password.to_owned();
        match self.get_user_by_name(username) {
            Some(stored) => {
                if stored.password == secret {
                    LoginOutcome::Success
                } else {
                    LoginOutcome::Failure
                }
            },
            None => LoginOutcome::Failure,
        }
    }

    /// Copies of every record, as the persisted file holds them: each
    /// fitness-progress record once and each account once, in no set order.
    pub fn to_records(&self) -> (r: (Vec<FitnessProgress>, Vec<User>))
        requires
            self.wf(),
        ensures
            lists_progresses(r.0@, self.progresses()),
            lists_users(r.1@, self.accounts()),
    {
        let all = self.get_all_fitness_progresses();
        let ghost ps = all@.map_values(|p: &FitnessProgress| *p);
        let mut progresses: Vec<FitnessProgress> = Vec::new();
        let mut i: usize = 0;
        while i < all.len()
            invariant
                i <= all@.len(),
                ps == all@.map_values(|p: &FitnessProgress| *p),
                progresses@ == ps.take(i as int),
            decreases all@.len() - i,
        {
            progresses.push(copy_progress(all[i]));
            i = i + 1;
            assert(progresses@ =~= ps.take(i as int));
        }
        assert(progresses@ =~= ps);
        let everyone = self.get_all_users();
        let ghost us = everyone@.map_values(|u: &User| *u);
        let mut users: Vec<User> = Vec::new();
        let mut j: usize = 0;
        while j < everyone.len()
            invariant
                j <= everyone@.len(),
                us == everyone@.map_values(|u: &User| *u),
                users@ == us.take(j as int),
            decreases everyone@.len() - j,
        {
            users.push(copy_user(everyone[j]));
            j = j + 1;
            assert(users@ =~= us.take(j as int));
        }
        assert(users@ =~= us);
        (progresses, users)
    }

    /// A store holding the given records, each under its identifier; where
    /// two records share an identifier the later one is kept.
    pub fn from_records(progresses: Vec<FitnessProgress>, users: Vec<User>) -> (r: Self)
        ensures
            r.wf(),
            r.progresses() == upserted_progresses(Map::empty(), progresses@),
            r.accounts() == upserted_users(Map::empty(), users@),
    {
        let mut db = Database::new();
        let ghost ps = progresses@;
        let ghost us = users@;
        let mut i: usize = 0;
        while i < progresses.len()
            invariant
                i <= ps.len(),
                progresses@ == ps,
                db.wf(),
                db.progresses() == upserted_progresses(Map::empty(), ps.take(i as int)),
                db.accounts() == Map::<u64, User>::empty(),
            decreases ps.len() - i,
        {
            db.insert_fitness_progress(copy_progress(&progresses[i]));
            assert(ps.take(i + 1).drop_last() =~= ps.take(i as int));
            i = i + 1;
        }
        assert(ps.take(i as int) =~= ps);
        let mut j: usize = 0;
        while j < users.len()
            invariant
                j <= us.len(),
                users@ == us,
                db.wf(),
                db.progresses() == upserted_progresses(Map::empty(), ps),
                db.accounts() == upserted_users(Map::empty(), us.take(j as int)),
            decreases us.len() - j,
        {
            db.insert_user(copy_user(&users[j]));
            assert(us.take(j + 1).drop_last() =~= us.take(j as int));
            j = j + 1;
        }
        assert(us.take(j as int) =~= us);
        db
    }

    /// The store to start from: the records read back from the persisted
    /// file, or an empty store where there was no file or it could not be
    /// read or parsed.
    pub fn load_or_new(saved: Option<(Vec<FitnessProgress>, Vec<User>)>) -> (r: Self)
        ensures
            r.wf(),
            match saved {
                Some(records) => r.progresses() == upserted_progresses(Map::empty(), records.0@)
                    && r.accounts() == upserted_users(Map::empty(), records.1@),
                None => r.progresses() == Map::<u64, FitnessProgress>::empty() && r.accounts()
                    == Map::<u64, User>::empty(),
            },
    {
        match saved {
            Some(records) => Database::from_records(records.0, records.1),
            None => Database::new(),
        }
    }
}

/// A field-by-field copy of `p`.
fn copy_progress(p: &FitnessProgress) -> (r: FitnessProgress)
    ensures
        r == *p,
{
    FitnessProgress {
        id: p.id,
        user_id: p.user_id,
        workout: p.workout.clone(),
        duration: p.duration,
        timestamp: p.timestamp,
        timezone: p.timezone.clone(),
    }
}

/// A field-by-field copy of `u`.
fn copy_user(u: &User) -> (r: User)
    ensures
        r == *u,
{
    User {
        id: u.id,
        username: u.username.clone(),
        password: u.password.clone(),
        timezone: u.timezone.clone(),
    }
}

} // verus!
