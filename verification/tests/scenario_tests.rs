//! One full poll-and-notify pass: a due account is polled, its fresh
//! mission lands in storage un-notified, the cache picks it up, and the
//! drain at landing time flips the notice flag with exactly one chat target.

use eggmon::cache::EventCache;
use eggmon::events::{DatabaseEvent, DatabaseReply};
use eggmon::records::SpaceShip;
use eggmon::schedule::{due_accounts, new_missions, plan_fetch_record};
use eggmon::store::Database;
use eggmon::types::{MissionSnapshot, QueryError, Spaceship, SpaceShipInfo};

#[test]
fn one_poll_round_end_to_end() {
    let now: i64 = 1_000_000;
    let fetch_period: i64 = 1800;
    let ei = "EI0000000000000001";
    let chat: i64 = 424242;

    // A registered account whose last fetch lies 2000 seconds back is due.
    let mut db = Database::new();
    db.handle_event(DatabaseEvent::AccountAdd { ei: ei.to_string(), user: chat }, now);
    db.set_account_status(ei, now - 2000, false);

    let due = due_accounts(&db.query_all_account(), now, fetch_period);
    assert_eq!(due.len(), 1);
    assert_eq!(due[0].ei, ei);

    // The remote snapshot reports one mission, not yet landed.
    let snapshot = vec![SpaceShipInfo::from_mission(MissionSnapshot {
        ship: Spaceship::Henerprise,
        identifier: "mission-1".to_string(),
        duration_type: 1,
        duration_seconds: 120,
        start_time: now,
    })];
    let known = db.query_spaceship_by_ei(ei);
    let fresh = new_missions(&known, snapshot, now);
    assert_eq!(fresh.len(), 1);
    for m in &fresh {
        db.handle_event(
            DatabaseEvent::MissionAdd {
                id: m.id().to_string(),
                name: m.name().to_string(),
                duration_type: m.duration_type(),
                belong: ei.to_string(),
                land: m.land(),
            },
            now,
        );
    }
    let record = plan_fetch_record(&Ok::<(), QueryError>(()), now).unwrap();
    db.set_account_status(ei, record.last_fetch, record.disable);

    // After the round: the mission is on file and not yet notified.
    let stored = db.query_spaceship_by_id("mission-1").unwrap();
    assert_eq!(stored.land, now + 120);
    assert!(!stored.notified);
    assert_eq!(db.query_account(ei).unwrap().last_fetch, now);

    // Refill the deferred-event cache from storage, then drain once the
    // landing time has passed.
    let mut cache: EventCache<SpaceShip> = EventCache::new();
    cache.refill(db.query_spaceship_by_time(now + 600));
    let nothing_yet = cache.drain_due(now + 119);
    assert!(nothing_yet.is_empty());
    let landed = cache.drain_due(now + 121);
    assert_eq!(landed.len(), 1);
    assert_eq!(landed[0].id, "mission-1");

    // Exactly one aggregated message is planned, to the one chat mapped to
    // the account.
    let plan = eggmon::schedule::plan_mission_notifications(&landed, &db);
    assert_eq!(plan.len(), 1);
    assert_eq!(plan[0].chat, chat);
    assert_eq!(plan[0].missions.len(), 1);

    // Delivering the notice flips the flag exactly once.
    for mission in &landed {
        db.handle_event(DatabaseEvent::MissionUpdated { id: mission.id.clone() }, now + 121);
    }
    assert!(db.query_spaceship_by_id("mission-1").unwrap().notified);

    // Exactly one chat target is mapped to the account: the message plan
    // reaches every subscriber once.
    let targets = match db.handle_event(
        DatabaseEvent::AccountQueryUsers { ei: ei.to_string() },
        now + 121,
    ) {
        DatabaseReply::OptMap(Some(m)) => m.users,
        _ => panic!("missing reverse-index row"),
    };
    assert_eq!(targets, vec![chat]);

    // A later drain returns nothing: the event came out exactly once.
    cache.refill(db.query_spaceship_by_time(now + 600));
    assert!(cache.drain_due(now + 600).is_empty());
}
