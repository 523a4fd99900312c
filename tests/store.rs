use fitness_store::store::{Database, FitnessProgress, LoginOutcome, User};

fn progress(id: u64, workout: &str, duration: u64) -> FitnessProgress {
    FitnessProgress {
        id,
        user_id: 7,
        workout: workout.to_string(),
        duration,
        timestamp: 1_700_000_000,
        timezone: "UTC".to_string(),
    }
}

fn user(id: u64, username: &str, password: &str) -> User {
    User {
        id,
        username: username.to_string(),
        password: password.to_string(),
        timezone: "UTC".to_string(),
    }
}

#[test]
fn new_store_is_empty() {
    let db = Database::new();
    assert!(db.get_all_fitness_progresses().is_empty());
    assert!(db.get_all_users().is_empty());
}

#[test]
fn get_missing_is_not_found() {
    let mut db = Database::new();
    assert!(db.get_fitness_progress(&1).is_none());
    db.insert_fitness_progress(progress(2, "run", 30));
    assert!(db.get_fitness_progress(&1).is_none());
    assert_eq!(db.get_fitness_progress(&2), Some(&progress(2, "run", 30)));
}

#[test]
fn create_and_update_are_both_upserts() {
    let mut db = Database::new();
    db.insert_fitness_progress(progress(1, "run", 30));
    db.update_fitness_progress(progress(1, "swim", 45));
    assert_eq!(db.get_fitness_progress(&1), Some(&progress(1, "swim", 45)));
    db.insert_fitness_progress(progress(1, "row", 20));
    assert_eq!(db.get_fitness_progress(&1), Some(&progress(1, "row", 20)));
    // An update of an identifier never created inserts it.
    db.update_fitness_progress(progress(9, "bike", 60));
    assert_eq!(db.get_fitness_progress(&9), Some(&progress(9, "bike", 60)));
    assert_eq!(db.get_all_fitness_progresses().len(), 2);
}

#[test]
fn delete_is_idempotent() {
    let mut db = Database::new();
    db.insert_fitness_progress(progress(1, "run", 30));
    db.delete_fitness_progress(&5);
    assert_eq!(db.get_all_fitness_progresses().len(), 1);
    db.delete_fitness_progress(&1);
    assert!(db.get_fitness_progress(&1).is_none());
    db.delete_fitness_progress(&1);
    assert!(db.get_all_fitness_progresses().is_empty());
}

#[test]
fn list_holds_every_record_once() {
    let mut db = Database::new();
    for id in 0..10u64 {
        db.insert_fitness_progress(progress(id, "walk", id * 5));
    }
    db.insert_fitness_progress(progress(3, "yoga", 50));
    let mut ids: Vec<u64> = db.get_all_fitness_progresses().iter().map(|p| p.id).collect();
    ids.sort();
    assert_eq!(ids, (0..10u64).collect::<Vec<u64>>());
    let three: Vec<&FitnessProgress> =
        db.get_all_fitness_progresses().into_iter().filter(|p| p.id == 3).collect();
    assert_eq!(three, vec![&progress(3, "yoga", 50)]);
}

#[test]
fn login_checks_username_and_password() {
    let mut db = Database::new();
    db.insert_user(user(1, "a", "p"));
    assert_eq!(db.login("a", "p"), LoginOutcome::Success);
    assert_eq!(db.login("a", "wrong"), LoginOutcome::Failure);
    assert_eq!(db.login("b", "p"), LoginOutcome::Failure);
    assert_eq!(db.login("a", "P"), LoginOutcome::Failure);
    assert_eq!(db.login("a", ""), LoginOutcome::Failure);
}

#[test]
fn get_user_by_name_finds_the_account() {
    let mut db = Database::new();
    db.insert_user(user(1, "alice", "x"));
    db.insert_user(user(2, "bob", "y"));
    assert_eq!(db.get_user_by_name("bob"), Some(&user(2, "bob", "y")));
    assert!(db.get_user_by_name("carol").is_none());
}

#[test]
fn duplicate_usernames_are_accepted() {
    let mut db = Database::new();
    db.insert_user(user(1, "sam", "one"));
    db.insert_user(user(2, "sam", "two"));
    assert_eq!(db.get_all_users().len(), 2);
    let found = db.get_user_by_name("sam").unwrap();
    assert!(found.id == 1 || found.id == 2);
}

#[test]
fn register_replaces_account_with_same_id() {
    let mut db = Database::new();
    db.insert_user(user(1, "a", "p"));
    db.insert_user(user(1, "a", "q"));
    assert_eq!(db.get_all_users().len(), 1);
    assert_eq!(db.login("a", "q"), LoginOutcome::Success);
    assert_eq!(db.login("a", "p"), LoginOutcome::Failure);
}

#[test]
fn records_round_trip() {
    let mut db = Database::new();
    db.insert_fitness_progress(progress(1, "run", 30));
    db.insert_fitness_progress(progress(2, "swim", 45));
    db.insert_user(user(1, "a", "p"));
    let (progresses, users) = db.to_records();
    assert_eq!(progresses.len(), 2);
    assert_eq!(users.len(), 1);
    let back = Database::from_records(progresses, users);
    assert_eq!(back.get_fitness_progress(&1), Some(&progress(1, "run", 30)));
    assert_eq!(back.get_fitness_progress(&2), Some(&progress(2, "swim", 45)));
    assert_eq!(back.get_all_fitness_progresses().len(), 2);
    assert_eq!(back.get_user_by_name("a"), Some(&user(1, "a", "p")));
}

#[test]
fn from_records_keeps_the_later_of_equal_ids() {
    let db = Database::from_records(
        vec![progress(4, "run", 10), progress(4, "swim", 20)],
        vec![],
    );
    assert_eq!(db.get_all_fitness_progresses().len(), 1);
    assert_eq!(db.get_fitness_progress(&4), Some(&progress(4, "swim", 20)));
}

#[test]
fn edge_values_are_kept() {
    let mut db = Database::new();
    let p = FitnessProgress {
        id: u64::MAX,
        user_id: u64::MAX,
        workout: String::new(),
        duration: u64::MAX,
        timestamp: i64::MIN,
        timezone: String::new(),
    };
    db.insert_fitness_progress(p.clone());
    let (progresses, users) = db.to_records();
    let back = Database::from_records(progresses, users);
    assert_eq!(back.get_fitness_progress(&u64::MAX), Some(&p));
}

#[test]
fn interleaved_writes_of_distinct_ids_all_survive() {
    let mut db = Database::new();
    for round in 0..50u64 {
        db.insert_fitness_progress(progress(2 * round, "run", round));
        db.update_fitness_progress(progress(2 * round + 1, "swim", round));
        db.insert_user(user(round, "u", "p"));
    }
    assert_eq!(db.get_all_fitness_progresses().len(), 100);
    assert_eq!(db.get_all_users().len(), 50);
    assert_eq!(db.get_fitness_progress(&99), Some(&progress(99, "swim", 49)));
    let (progresses, users) = db.to_records();
    let back = Database::from_records(progresses, users);
    assert_eq!(back.get_all_fitness_progresses().len(), 100);
    assert_eq!(back.get_fitness_progress(&98), Some(&progress(98, "run", 49)));
}

#[test]
fn startup_without_a_file_is_empty() {
    let db = Database::load_or_new(None);
    assert!(db.get_all_fitness_progresses().is_empty());
    assert!(db.get_all_users().is_empty());
    let db = Database::load_or_new(Some((vec![progress(3, "run", 12)], vec![user(1, "a", "p")])));
    assert_eq!(db.get_fitness_progress(&3), Some(&progress(3, "run", 12)));
    assert_eq!(db.login("a", "p"), LoginOutcome::Success);
}
