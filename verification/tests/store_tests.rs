//! The storage actor: table operations, the linked user/account indexes,
//! and the monotonic snapshot-merge rule.

use eggmon::events::{DatabaseEvent, DatabaseReply};
use eggmon::records::{ContractGradeSpec, ContractSpec};
use eggmon::store::{build_link_indexes, Database};

fn add_account(db: &mut Database, ei: &str, user: i64) {
    let reply = db.handle_event(
        DatabaseEvent::AccountAdd {
            ei: ei.to_string(),
            user,
        },
        0,
    );
    assert!(matches!(reply, DatabaseReply::Flag(true)));
}

#[test]
fn account_registration_links_both_indexes() {
    let mut db = Database::new();
    add_account(&mut db, "EI0000000000000001", 10);
    add_account(&mut db, "EI0000000000000002", 10);
    add_account(&mut db, "EI0000000000000001", 20);

    let a = db.query_account("EI0000000000000001").unwrap();
    assert_eq!(a.ei, "EI0000000000000001");
    assert!(!a.disabled);
    assert_eq!(a.last_fetch, 0);

    let u = db.query_user(10).unwrap();
    assert_eq!(u.accounts, vec!["EI0000000000000001", "EI0000000000000002"]);

    let m = db.query_account_map("EI0000000000000001").unwrap();
    assert_eq!(m.users, vec![10, 20]);

    // Registering the same pair again changes nothing.
    add_account(&mut db, "EI0000000000000001", 10);
    assert_eq!(db.query_user(10).unwrap().accounts.len(), 2);
    assert_eq!(db.query_account_map("EI0000000000000001").unwrap().users.len(), 2);
}

#[test]
fn account_removal_unlinks_both_indexes_and_keeps_the_row() {
    let mut db = Database::new();
    add_account(&mut db, "EI0000000000000001", 10);
    add_account(&mut db, "EI0000000000000001", 20);

    db.delete_account(10, "EI0000000000000001");

    assert_eq!(db.query_user(10).unwrap().accounts.len(), 0);
    assert_eq!(db.query_account_map("EI0000000000000001").unwrap().users, vec![20]);
    // The account row itself survives.
    assert!(db.query_account("EI0000000000000001").is_some());

    // Removing a link that is not there is a no-op.
    db.delete_account(10, "EI0000000000000001");
    assert_eq!(db.query_account_map("EI0000000000000001").unwrap().users, vec![20]);
}

#[test]
fn account_queries_by_user() {
    let mut db = Database::new();
    add_account(&mut db, "EI0000000000000001", 10);
    add_account(&mut db, "EI0000000000000002", 10);
    let accounts = db.query_ei(10);
    assert_eq!(accounts.len(), 2);
    assert_eq!(accounts[0].ei, "EI0000000000000001");
    assert_eq!(accounts[1].ei, "EI0000000000000002");
    assert!(db.query_ei(99).is_empty());
}

#[test]
fn account_status_and_flags() {
    let mut db = Database::new();
    add_account(&mut db, "EI0000000000000001", 10);
    db.set_account_status("EI0000000000000001", 500, false);
    assert_eq!(db.query_account("EI0000000000000001").unwrap().last_fetch, 500);

    db.set_account_nickname("EI0000000000000001", "farmer");
    assert_eq!(
        db.query_account("EI0000000000000001").unwrap().nickname,
        Some("farmer".to_string())
    );

    db.set_account_contract_trace("EI0000000000000001", true);
    assert!(db.query_account("EI0000000000000001").unwrap().contract_trace);

    db.account_timestamp_reset("EI0000000000000001");
    assert_eq!(db.query_account("EI0000000000000001").unwrap().last_fetch, 0);
}

#[test]
fn disabling_twice_is_a_no_op() {
    let mut db = Database::new();
    add_account(&mut db, "EI0000000000000001", 10);
    db.account_status_reset("EI0000000000000001", true);
    let once = db.query_account("EI0000000000000001").unwrap();
    assert!(once.disabled);
    db.account_status_reset("EI0000000000000001", true);
    let twice = db.query_account("EI0000000000000001").unwrap();
    assert_eq!(once.disabled, twice.disabled);
    assert_eq!(once.last_fetch, twice.last_fetch);
    assert_eq!(once.nickname, twice.nickname);
}

#[test]
fn missions_insert_query_and_mark() {
    let mut db = Database::new();
    db.insert_spaceship("m1", "Henerprise", 1, "EI0000000000000001", 1000);
    db.insert_spaceship("m2", "Galeggtica", 0, "EI0000000000000001", 2000);
    db.insert_spaceship("m3", "BCR", 0, "EI0000000000000002", 1500);
    // A duplicate id is left untouched.
    db.insert_spaceship("m1", "other", 2, "EI0000000000000009", 9999);
    assert_eq!(db.query_spaceship_by_id("m1").unwrap().name, "Henerprise");

    let due = db.query_spaceship_by_time(1500);
    assert_eq!(due.len(), 2);
    assert_eq!(due[0].id, "m1");
    assert_eq!(due[1].id, "m3");

    db.mark_spaceship("m1");
    assert!(db.query_spaceship_by_id("m1").unwrap().notified);
    let due_after = db.query_spaceship_by_time(1500);
    assert_eq!(due_after.len(), 1);
    assert_eq!(due_after[0].id, "m3");

    let mine = db.query_spaceship_by_ei("EI0000000000000001");
    assert_eq!(mine.len(), 2);
    // Latest landing first.
    assert_eq!(mine[0].id, "m2");
    assert_eq!(mine[1].id, "m1");

    db.account_mission_reset("EI0000000000000001", 1);
    assert!(!db.query_spaceship_by_id("m1").unwrap().notified);
}

#[test]
fn mission_listing_caps_at_the_six_latest() {
    let mut db = Database::new();
    for k in 0..8 {
        db.insert_spaceship(&format!("m{k}"), "ship", 0, "EI0000000000000001", 100 + k);
    }
    let mine = db.query_spaceship_by_ei("EI0000000000000001");
    assert_eq!(mine.len(), 6);
    let lands: Vec<i64> = mine.iter().map(|m| m.land).collect();
    // The six latest, latest first; the two earliest are dropped.
    assert_eq!(lands, vec![107, 106, 105, 104, 103, 102]);
}

#[test]
fn monotonic_merge_favors_progress_in_either_order() {
    // Snapshot A: amount 100 observed at 10; snapshot B: amount 90 observed
    // at 20. Whatever the arrival order, A wins: progress never decreases.
    let mut db = Database::new();
    let existed = db.contract_cache_insert("c1", "room", vec![1], 100, false, 10, true);
    assert!(!existed);
    let existed = db.contract_cache_insert("c1", "room", vec![2], 90, false, 20, true);
    assert!(existed);
    let cache = db.query_contract_cache("c1", "room").unwrap();
    assert_eq!(cache.progress, 100);
    assert_eq!(cache.timestamp, 10);
    assert_eq!(cache.body, vec![1]);

    let mut db2 = Database::new();
    db2.contract_cache_insert("c1", "room", vec![2], 90, false, 20, true);
    db2.contract_cache_insert("c1", "room", vec![1], 100, false, 10, true);
    let cache2 = db2.query_contract_cache("c1", "room").unwrap();
    assert_eq!(cache2.progress, 100);
    assert_eq!(cache2.timestamp, 10);
    assert_eq!(cache2.body, vec![1]);
}

#[test]
fn cache_merge_accepts_equal_progress_only_with_newer_clock() {
    let mut db = Database::new();
    db.contract_cache_insert("c1", "room", vec![1], 100, false, 10, true);
    // Same progress, older clock: rejected.
    db.contract_cache_insert("c1", "room", vec![2], 100, false, 5, true);
    assert_eq!(db.query_contract_cache("c1", "room").unwrap().timestamp, 10);
    // Same progress, newer clock: accepted.
    db.contract_cache_insert("c1", "room", vec![3], 100, true, 30, true);
    let c = db.query_contract_cache("c1", "room").unwrap();
    assert_eq!(c.timestamp, 30);
    assert!(c.cleared);
    // An unguarded write always lands.
    db.contract_cache_insert("c1", "room", vec![4], 1, false, 1, false);
    assert_eq!(db.query_contract_cache("c1", "room").unwrap().progress, 1);
}

#[test]
fn cache_timestamp_reset() {
    let mut db = Database::new();
    db.contract_cache_insert("c1", "room", vec![1], 100, false, 10, true);
    db.update_contract_cache_timestamp("c1", "room", 0);
    assert_eq!(db.query_contract_cache_timestamp("c1", "room"), Some(0));
    assert_eq!(db.query_contract_cache_timestamp("c1", "nowhere"), None);
}

#[test]
fn contract_participations() {
    let mut db = Database::new();
    db.insert_user_contract("c1", "roomA", "EI0000000000000001", false);
    db.insert_user_contract("c1", "roomA", "EI0000000000000002", false);
    db.set_contract_start_time("c1", "roomA", 777);
    assert_eq!(
        db.query_single_contract("c1", "EI0000000000000001").unwrap().start_time,
        Some(777)
    );

    // Moving one account to another room borrows that room's start time
    // from rows that already know it (none here).
    db.set_contract("c1", "EI0000000000000001", "roomB", true);
    let c = db.query_single_contract("c1", "EI0000000000000001").unwrap();
    assert_eq!(c.room, "roomB");
    assert!(c.finished);
    assert_eq!(c.start_time, None);

    let mine = db.query_contract("EI0000000000000002");
    assert_eq!(mine.len(), 1);
    assert_eq!(mine[0].room, "roomA");
}

#[test]
fn contract_spec_inserted_once() {
    let mut db = Database::new();
    let spec = ContractSpec {
        id: "c1".to_string(),
        max_coop_size: 10,
        token_time_raw: 42,
        grades: vec![ContractGradeSpec { grade: 5, length_raw: 1, goal1_raw: 2, goal3_raw: 3 }],
    };
    assert!(db.insert_contract_spec(spec));
    let again = ContractSpec {
        id: "c1".to_string(),
        max_coop_size: 99,
        token_time_raw: 0,
        grades: Vec::new(),
    };
    assert!(!db.insert_contract_spec(again));
    let stored = db.query_contract_spec("c1").unwrap();
    assert_eq!(stored.max_coop_size, 10);
    assert_eq!(stored.get(5).unwrap().goal3_raw, 3);
    assert!(stored.get(1).is_none());
}

#[test]
fn subscriptions_lifecycle() {
    let mut db = Database::new();
    // First subscribe creates the row.
    db.modify_subscribe("c1", "room", 10, false);
    db.modify_subscribe("c1", "room", 20, false);
    // Subscribing again changes nothing.
    db.modify_subscribe("c1", "room", 10, false);
    let s = db.query_subscribe_single("c1", "room").unwrap();
    assert_eq!(s.users, vec![10, 20]);
    assert_eq!(s.est, 0);
    assert!(!s.notified);

    // An unsubscribe of an unknown room creates nothing.
    db.modify_subscribe("c2", "room", 10, true);
    assert!(db.query_subscribe_single("c2", "room").is_none());

    db.modify_subscribe("c1", "room", 10, true);
    assert_eq!(db.query_subscribe_single("c1", "room").unwrap().users, vec![20]);

    db.update_subscribe_est("c1", "room", 5000);
    assert_eq!(db.query_subscribe_single("c1", "room").unwrap().est, 5000);

    // Due when the estimate lies strictly before the deadline and no notice
    // has gone out yet.
    assert_eq!(db.query_subscribe(5000).len(), 0);
    assert_eq!(db.query_subscribe(5001).len(), 1);

    db.update_subscribe_notified("c1", "room");
    assert!(db.query_subscribe_single("c1", "room").unwrap().notified);
    // Terminal: never fetched as due again.
    assert_eq!(db.query_subscribe(999999).len(), 0);
}

#[test]
fn link_indexes_rebuilt_from_raw_rows() {
    let rows = vec![
        ("EI0000000000000001".to_string(), 10),
        ("EI0000000000000001".to_string(), 20),
        ("EI0000000000000002".to_string(), 10),
        // A repeated pair collapses.
        ("EI0000000000000001".to_string(), 10),
    ];
    let (users, maps) = build_link_indexes(rows);
    assert_eq!(users.len(), 2);
    let u10 = users.iter().find(|u| u.id == 10).unwrap();
    assert_eq!(u10.accounts, vec!["EI0000000000000001", "EI0000000000000002"]);
    let u20 = users.iter().find(|u| u.id == 20).unwrap();
    assert_eq!(u20.accounts, vec!["EI0000000000000001"]);
    assert_eq!(maps.len(), 2);
    let m1 = maps.iter().find(|m| m.ei == "EI0000000000000001").unwrap();
    assert_eq!(m1.users, vec![10, 20]);
    let m2 = maps.iter().find(|m| m.ei == "EI0000000000000002").unwrap();
    assert_eq!(m2.users, vec![10]);
}

#[test]
fn account_caches_upsert() {
    let mut db = Database::new();
    db.insert_account_cache("EI0000000000000001", "status text", 100);
    let c = db.query_account_cache("EI0000000000000001").unwrap();
    assert_eq!(c.cache, "status text");
    assert_eq!(c.timestamp, 100);
    db.insert_account_cache("EI0000000000000001", "newer", 200);
    let c = db.query_account_cache("EI0000000000000001").unwrap();
    assert_eq!(c.cache, "newer");
    assert_eq!(c.timestamp, 200);
    assert!(db.query_account_cache("EI0000000000000002").is_none());
}

#[test]
fn handle_event_commands_route_to_the_tables() {
    let mut db = Database::new();
    add_account(&mut db, "EI0000000000000001", 10);

    let reply = db.handle_event(
        DatabaseEvent::AccountUpdate { ei: "EI0000000000000001".to_string(), disabled: true },
        999,
    );
    assert!(matches!(reply, DatabaseReply::Empty));
    let a = db.query_account("EI0000000000000001").unwrap();
    assert!(a.disabled);
    assert_eq!(a.last_fetch, 999);

    db.handle_event(
        DatabaseEvent::MissionAdd {
            id: "m1".to_string(),
            name: "Henerprise".to_string(),
            duration_type: 1,
            belong: "EI0000000000000001".to_string(),
            land: 1200,
        },
        999,
    );
    match db.handle_event(DatabaseEvent::MissionQuery { deadline: 1500 }, 999) {
        DatabaseReply::Ships(v) => {
            assert_eq!(v.len(), 1);
            assert_eq!(v[0].id, "m1");
        }
        _ => panic!("wrong reply shape"),
    }

    match db.handle_event(
        DatabaseEvent::MissionQueryByUser { id: 10, query_recent: true },
        1000,
    ) {
        DatabaseReply::AccountShips(v) => {
            assert_eq!(v.len(), 1);
            assert_eq!(v[0].account.ei, "EI0000000000000001");
            // Lands 200 seconds after `now`: within the next hour.
            assert_eq!(v[0].missions.len(), 1);
        }
        _ => panic!("wrong reply shape"),
    }

    match db.handle_event(
        DatabaseEvent::SubscribeNew("c1".to_string(), "room".to_string(), 10),
        1000,
    ) {
        DatabaseReply::Empty => {}
        _ => panic!("wrong reply shape"),
    }
    match db.handle_event(DatabaseEvent::SubscribeFetch(Some(1)), 1000) {
        DatabaseReply::Subscribes(v) => assert_eq!(v.len(), 1),
        _ => panic!("wrong reply shape"),
    }
}
