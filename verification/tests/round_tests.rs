//! The composed per-round plans: one account's poll step, the subscriber
//! loop's command handling, and the per-chat notification grouping.

use eggmon::cache::EventCache;
use eggmon::events::DatabaseEvent;
use eggmon::migrate::convert_duration;
use eggmon::records::{Account, SpaceShip, SubscribeInfo};
use eggmon::schedule::{
    handle_subscriber_command, iter_spaceships, plan_account_round, plan_mission_notifications,
    plan_subscribe_notifications, plan_subscription_poll, AccountSnapshot,
    ContractSubscriberEvent, SubscriptionStep,
};
use eggmon::store::Database;
use eggmon::types::{MissionSnapshot, QueryError, Spaceship, SpaceShipInfo};

fn account(ei: &str, nickname: Option<&str>) -> Account {
    Account {
        ei: ei.to_string(),
        nickname: nickname.map(|n| n.to_string()),
        last_fetch: 0,
        disabled: false,
        contract_trace: false,
    }
}

fn mission(id: &str, launched: i64, duration: i64) -> SpaceShipInfo {
    SpaceShipInfo::from_mission(MissionSnapshot {
        ship: Spaceship::Voyegger,
        identifier: id.to_string(),
        duration_type: 1,
        duration_seconds: duration,
        start_time: launched,
    })
}

#[test]
fn a_successful_round_plans_inserts_and_bookkeeping() {
    let now = 5000;
    let acc = account("EI0000000000000001", Some("alice"));
    let on_file: Vec<SpaceShip> = Vec::new();
    let snap = AccountSnapshot {
        user_name: Some("alice-renamed".to_string()),
        missions: vec![mission("m1", now, 100), mission("m2", 0, 10)],
    };
    let plan = plan_account_round(&acc, &on_file, Ok(snap), now);
    assert_eq!(plan.insert_missions.len(), 1);
    assert_eq!(plan.insert_missions[0].id(), "m1");
    assert_eq!(plan.nickname_update.as_deref(), Some("alice-renamed"));
    let rec = plan.record.unwrap();
    assert_eq!(rec.last_fetch, now);
    assert!(!rec.disable);
    assert!(!plan.report_failure);
}

#[test]
fn an_unchanged_nickname_is_not_persisted() {
    let acc = account("EI0000000000000001", Some("alice"));
    let snap = AccountSnapshot { user_name: Some("alice".to_string()), missions: Vec::new() };
    let plan = plan_account_round(&acc, &Vec::new(), Ok(snap), 1);
    assert!(plan.nickname_update.is_none());
}

#[test]
fn failed_rounds_are_isolated_and_classified() {
    let now = 5000;
    let acc = account("EI0000000000000001", None);
    let rejected = plan_account_round(
        &acc,
        &Vec::new(),
        Err(QueryError::User("rejected".to_string())),
        now,
    );
    assert!(rejected.insert_missions.is_empty());
    assert!(rejected.report_failure);
    let rec = rejected.record.unwrap();
    assert!(rec.disable);
    assert_eq!(rec.last_fetch, now);

    let transport = plan_account_round(
        &acc,
        &Vec::new(),
        Err(QueryError::System("timeout".to_string())),
        now,
    );
    assert!(transport.record.is_none());
    assert!(transport.report_failure);
}

#[test]
fn subscriber_commands_drive_the_timers_and_cache() {
    let mut cache: EventCache<SubscribeInfo> = EventCache::new();
    cache.insert(SubscribeInfo {
        id: "c".to_string(),
        room: "r".to_string(),
        users: vec![1],
        est: 100,
        notified: false,
    });

    let tick = handle_subscriber_command(&mut cache, &ContractSubscriberEvent::NewContract, 0);
    assert!(tick.reset_query_timer && tick.reset_refresh_timer && !tick.exit);
    assert_eq!(cache.bucket_count(), 1);

    let tick = handle_subscriber_command(
        &mut cache,
        &ContractSubscriberEvent::RefreshCache { invalidate: false },
        0,
    );
    assert!(!tick.reset_query_timer && tick.reset_refresh_timer);
    assert_eq!(cache.bucket_count(), 1);

    let tick = handle_subscriber_command(
        &mut cache,
        &ContractSubscriberEvent::InsertCache { user: 7, notify_times: vec![30, 60, 90] },
        1000,
    );
    assert!(!tick.reset_refresh_timer && !tick.exit);
    assert_eq!(cache.bucket_count(), 4);
    let due = cache.drain_due(1090);
    assert_eq!(due.len(), 4);
    let synthetic: Vec<&SubscribeInfo> = due.iter().filter(|s| s.id == "synthetic").collect();
    assert_eq!(synthetic.len(), 3);
    assert!(synthetic.iter().all(|s| s.users == vec![7]));
    let ests: Vec<i64> = synthetic.iter().map(|s| s.est).collect();
    assert_eq!(ests, vec![1030, 1060, 1090]);

    let tick = handle_subscriber_command(
        &mut cache,
        &ContractSubscriberEvent::RefreshCache { invalidate: true },
        0,
    );
    assert!(tick.reset_refresh_timer);
    assert_eq!(cache.bucket_count(), 0);

    let tick = handle_subscriber_command(&mut cache, &ContractSubscriberEvent::Exit, 0);
    assert!(tick.exit);
}

#[test]
fn notifications_group_one_entry_per_chat() {
    let mut db = Database::new();
    db.handle_event(
        DatabaseEvent::AccountAdd { ei: "EI0000000000000001".to_string(), user: 10 },
        0,
    );
    db.handle_event(
        DatabaseEvent::AccountAdd { ei: "EI0000000000000001".to_string(), user: 20 },
        0,
    );
    db.handle_event(
        DatabaseEvent::AccountAdd { ei: "EI0000000000000002".to_string(), user: 20 },
        0,
    );

    let due = vec![
        SpaceShip {
            id: "m1".to_string(),
            name: "a".to_string(),
            duration_type: 0,
            belong: "EI0000000000000001".to_string(),
            land: 100,
            notified: false,
        },
        SpaceShip {
            id: "m2".to_string(),
            name: "b".to_string(),
            duration_type: 0,
            belong: "EI0000000000000002".to_string(),
            land: 100,
            notified: false,
        },
    ];
    let plan = plan_mission_notifications(&due, &db);
    assert_eq!(plan.len(), 2);
    // Chat 10 tracks only the first account; chat 20 both. Each chat gets
    // exactly one aggregated entry.
    let for_10 = plan.iter().find(|p| p.chat == 10).unwrap();
    let ids10: Vec<&str> = for_10.missions.iter().map(|m| m.id.as_str()).collect();
    assert_eq!(ids10, vec!["m1"]);
    let for_20 = plan.iter().find(|p| p.chat == 20).unwrap();
    let ids20: Vec<&str> = for_20.missions.iter().map(|m| m.id.as_str()).collect();
    assert_eq!(ids20, vec!["m1", "m2"]);
    // A mission of an unmapped account reaches nobody.
    let orphan = vec![SpaceShip {
        id: "m3".to_string(),
        name: "c".to_string(),
        duration_type: 0,
        belong: "EI0000000000000009".to_string(),
        land: 100,
        notified: false,
    }];
    assert!(plan_mission_notifications(&orphan, &db).is_empty());
}

#[test]
fn mission_listing_order() {
    let ships: Vec<SpaceShip> = ["m1", "m2", "m3"]
        .iter()
        .map(|id| SpaceShip {
            id: id.to_string(),
            name: "n".to_string(),
            duration_type: 0,
            belong: "e".to_string(),
            land: 0,
            notified: false,
        })
        .collect();
    let fwd = iter_spaceships(ships.clone(), false);
    let ids: Vec<&str> = fwd.iter().map(|m| m.id.as_str()).collect();
    assert_eq!(ids, vec!["m1", "m2", "m3"]);
    let rev = iter_spaceships(ships, true);
    let ids: Vec<&str> = rev.iter().map(|m| m.id.as_str()).collect();
    assert_eq!(ids, vec!["m3", "m2", "m1"]);
}

#[test]
fn subscription_poll_steps() {
    let now = 1_000_000;
    let sub = SubscribeInfo {
        id: "c".to_string(),
        room: "r".to_string(),
        users: vec![7],
        est: now + 600,  // interval 1200
        notified: false,
    };
    assert_eq!(plan_subscription_poll(&sub, false, 0, now), SubscriptionStep::SkipNoSpec);
    assert_eq!(
        plan_subscription_poll(&sub, true, now - 100, now),
        SubscriptionStep::SkipFresh
    );
    assert_eq!(plan_subscription_poll(&sub, true, now - 1200, now), SubscriptionStep::Fetch);
    let empty = SubscribeInfo { users: Vec::new(), ..sub };
    assert_eq!(
        plan_subscription_poll(&empty, true, now - 1200, now),
        SubscriptionStep::SkipEmpty
    );
}

#[test]
fn finished_contracts_group_one_notice_per_chat() {
    let subs = vec![
        SubscribeInfo {
            id: "c1".to_string(),
            room: "r1".to_string(),
            users: vec![10, 20],
            est: 100,
            notified: false,
        },
        SubscribeInfo {
            id: "c2".to_string(),
            room: "r2".to_string(),
            users: vec![20],
            est: 100,
            notified: false,
        },
        // Nobody left: discarded silently.
        SubscribeInfo {
            id: "c3".to_string(),
            room: "r3".to_string(),
            users: Vec::new(),
            est: 100,
            notified: false,
        },
    ];
    let plan = plan_subscribe_notifications(&subs);
    assert_eq!(plan.len(), 2);
    let for_10 = plan.iter().find(|p| p.chat == 10).unwrap();
    assert_eq!(for_10.rooms.len(), 1);
    assert_eq!(for_10.rooms[0].id, "c1");
    let for_20 = plan.iter().find(|p| p.chat == 20).unwrap();
    let rooms: Vec<&str> = for_20.rooms.iter().map(|r| r.id.as_str()).collect();
    assert_eq!(rooms, vec!["c1", "c2"]);
}

#[test]
fn duration_words_map_to_their_classes() {
    assert_eq!(convert_duration("short"), 0);
    assert_eq!(convert_duration("long"), 1);
    assert_eq!(convert_duration("epic"), 2);
    assert_eq!(convert_duration("tutorial"), 3);
    assert_eq!(convert_duration("whatever"), 4);
}
