//! Properties of the store that relate several of its operations.
use vstd::prelude::*;

use crate::store::{
    lists_progresses, lists_users, progresses_keyed_by_id, upserted_progresses,
    upserted_users, users_keyed_by_id, Database, FitnessProgress, User,
};

verus! {

/// Last write wins: after any run of creates and updates of one identifier
/// (both store a record the same way), the record stored under it is the
/// last one written.
pub proof fn lemma_last_write_wins(m: Map<u64, FitnessProgress>, writes: Seq<FitnessProgress>, id: u64)
    requires
        writes.len() > 0,
        forall|i: int| 0 <= i < writes.len() ==> (#[trigger] writes[i]).id == id,
    ensures
        upserted_progresses(m, writes).contains_key(id),
        upserted_progresses(m, writes)[id] == writes.last(),
{
    assert(writes.last() == writes[writes.len() - 1]);
}

/// Deleting an identifier that is not stored leaves the records as they were.
pub proof fn lemma_delete_missing_is_noop(m: Map<u64, FitnessProgress>, id: u64)
    requires
        !m.contains_key(id),
    ensures
        m.remove(id) == m,
{
    assert(m.remove(id) =~= m);
}

/// Deleting an identifier twice has the effect of deleting it once.
pub proof fn lemma_delete_twice_is_delete_once(m: Map<u64, FitnessProgress>, id: u64)
    ensures
        m.remove(id).remove(id) == m.remove(id),
{
    assert(m.remove(id).remove(id) =~= m.remove(id));
}

/// Writes of two different identifiers give the same records in either
/// order, so serialising them one after the other loses neither.
pub proof fn lemma_writes_of_distinct_ids_commute(
    m: Map<u64, FitnessProgress>,
    a: FitnessProgress,
    b: FitnessProgress,
)
    requires
        a.id != b.id,
    ensures
        m.insert(a.id, a).insert(b.id, b) == m.insert(b.id, b).insert(a.id, a),
        m.insert(a.id, a).insert(b.id, b)[a.id] == a,
        m.insert(a.id, a).insert(b.id, b)[b.id] == b,
{
    assert(m.insert(a.id, a).insert(b.id, b) =~= m.insert(b.id, b).insert(a.id, a));
}

proof fn lemma_upserted_progresses_of_distinct(s: Seq<FitnessProgress>)
    requires
        forall|i: int, j: int| 0 <= i < j < s.len() ==> s[i].id != s[j].id,
    ensures
        forall|k: u64|
            #[trigger] upserted_progresses(Map::empty(), s).contains_key(k) <==> exists|i: int|
                0 <= i < s.len() && s[i].id == k,
        forall|i: int|
            0 <= i < s.len() ==> upserted_progresses(Map::empty(), s)[#[trigger] s[i].id] == s[i],
    decreases s.len(),
{
    if s.len() > 0 {
        let t = s.drop_last();
        lemma_upserted_progresses_of_distinct(t);
        assert forall|k: u64| #[trigger]
            upserted_progresses(Map::empty(), s).contains_key(k) implies exists|i: int|
            0 <= i < s.len() && s[i].id == k by {
            if k != s.last().id {
                assert(upserted_progresses(Map::empty(), t).contains_key(k));
                let i = choose|i: int| 0 <= i < t.len() && t[i].id == k;
                assert(t[i] == s[i]);
            } else {
                assert(s[s.len() - 1].id == k);
            }
        }
        assert forall|k: u64|
            (exists|i: int| 0 <= i < s.len() && s[i].id == k) implies #[trigger] upserted_progresses(
            Map::empty(),
            s,
        ).contains_key(k) by {
            let i = choose|i: int| 0 <= i < s.len() && s[i].id == k;
            if i < s.len() - 1 {
                assert(t[i].id == k);
            }
        }
        assert forall|i: int| 0 <= i < s.len() implies upserted_progresses(Map::empty(), s)[
            #[trigger] s[i].id] == s[i] by {
            if i < s.len() - 1 {
                assert(t[i] == s[i]);
                assert(s[i].id != s[s.len() - 1].id);
            }
        }
    }
}

proof fn lemma_upserted_users_of_distinct(s: Seq<User>)
    requires
        forall|i: int, j: int| 0 <= i < j < s.len() ==> s[i].id != s[j].id,
    ensures
        forall|k: u64|
            #[trigger] upserted_users(Map::empty(), s).contains_key(k) <==> exists|i: int|
                0 <= i < s.len() && s[i].id == k,
        forall|i: int| 0 <= i < s.len() ==> upserted_users(Map::empty(), s)[#[trigger] s[i].id] == s[i],
    decreases s.len(),
{
    if s.len() > 0 {
        let t = s.drop_last();
        lemma_upserted_users_of_distinct(t);
        assert forall|k: u64| #[trigger]
            upserted_users(Map::empty(), s).contains_key(k) implies exists|i: int|
            0 <= i < s.len() && s[i].id == k by {
            if k != s.last().id {
                assert(upserted_users(Map::empty(), t).contains_key(k));
                let i = choose|i: int| 0 <= i < t.len() && t[i].id == k;
                assert(t[i] == s[i]);
            } else {
                assert(s[s.len() - 1].id == k);
            }
        }
        assert forall|k: u64|
            (exists|i: int| 0 <= i < s.len() && s[i].id == k) implies #[trigger] upserted_users(
            Map::empty(),
            s,
        ).contains_key(k) by {
            let i = choose|i: int| 0 <= i < s.len() && s[i].id == k;
            if i < s.len() - 1 {
                assert(t[i].id == k);
            }
        }
        assert forall|i: int| 0 <= i < s.len() implies upserted_users(Map::empty(), s)[
            #[trigger] s[i].id] == s[i] by {
            if i < s.len() - 1 {
                assert(t[i] == s[i]);
                assert(s[i].id != s[s.len() - 1].id);
            }
        }
    }
}

/// Saving and loading lose nothing: storing again the records that
/// `to_records` lists for a store (as `from_records` does) gives back exactly
/// that store's records.
pub proof fn lemma_records_round_trip(db: Database, progresses: Seq<FitnessProgress>, users: Seq<User>)
    requires
        db.wf(),
        lists_progresses(progresses, db.progresses()),
        lists_users(users, db.accounts()),
    ensures
        upserted_progresses(Map::empty(), progresses) == db.progresses(),
        upserted_users(Map::empty(), users) == db.accounts(),
{
    let mp = db.progresses();
    let mu = db.accounts();
    lemma_upserted_progresses_of_distinct(progresses);
    lemma_upserted_users_of_distinct(users);
    let rp = upserted_progresses(Map::empty(), progresses);
    assert forall|k: u64| rp.contains_key(k) implies mp.contains_key(k) && rp[k] == mp[k] by {
        let i = choose|i: int| 0 <= i < progresses.len() && progresses[i].id == k;
        assert(rp[progresses[i].id] == progresses[i]);
    }
    assert forall|k: u64| mp.contains_key(k) implies rp.contains_key(k) by {
        let i = choose|i: int| 0 <= i < progresses.len() && progresses[i].id == k;
    }
    assert(rp =~= mp);
    let ru = upserted_users(Map::empty(), users);
    assert forall|k: u64| ru.contains_key(k) implies mu.contains_key(k) && ru[k] == mu[k] by {
        let i = choose|i: int| 0 <= i < users.len() && users[i].id == k;
        assert(ru[users[i].id] == users[i]);
    }
    assert forall|k: u64| mu.contains_key(k) implies ru.contains_key(k) by {
        let i = choose|i: int| 0 <= i < users.len() && users[i].id == k;
    }
    assert(ru =~= mu);
}

} // verus!
