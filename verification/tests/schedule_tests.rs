//! The schedulers' decision rules: poll-due selection, backpressure, fetch
//! bookkeeping, the adaptive cadence, and estimate updates.

use eggmon::records::{Account, SpaceShip, SubscribeInfo};
use eggmon::schedule::{
    cache_is_recent, calc_contract_fetch_interval, decide_est_update, due_accounts,
    is_account_due, new_missions, nickname_changed, plan_fetch_record, should_refetch,
    should_skip_backpressure, ScoreOutcome,
};
use eggmon::types::{MissionSnapshot, QueryError, SpaceShipInfo, Spaceship};

fn account(ei: &str, last_fetch: i64, disabled: bool, contract_trace: bool) -> Account {
    Account {
        ei: ei.to_string(),
        nickname: None,
        last_fetch,
        disabled,
        contract_trace,
    }
}

fn sub_at(est: i64) -> SubscribeInfo {
    SubscribeInfo {
        id: "c".to_string(),
        room: "r".to_string(),
        users: vec![1],
        est,
        notified: false,
    }
}

#[test]
fn adaptive_cadence_matches_the_table() {
    // For est - now of 30 h, 10 h, 2 h and 10 min the interval is exactly
    // 4 h, 2 h, 1 h and 20 min.
    let now = 1_000_000;
    assert_eq!(calc_contract_fetch_interval(now, &sub_at(now + 30 * 3600)), 4 * 3600);
    assert_eq!(calc_contract_fetch_interval(now, &sub_at(now + 10 * 3600)), 2 * 3600);
    assert_eq!(calc_contract_fetch_interval(now, &sub_at(now + 2 * 3600)), 3600);
    assert_eq!(calc_contract_fetch_interval(now, &sub_at(now + 600)), 1200);
}

#[test]
fn adaptive_cadence_boundaries() {
    let now = 0;
    // Exactly 24 h away is not "more than a day".
    assert_eq!(calc_contract_fetch_interval(now, &sub_at(86400)), 7200);
    assert_eq!(calc_contract_fetch_interval(now, &sub_at(86401)), 14400);
    assert_eq!(calc_contract_fetch_interval(now, &sub_at(21600)), 3600);
    assert_eq!(calc_contract_fetch_interval(now, &sub_at(3600)), 1200);
    // An estimate already in the past polls at the fastest cadence.
    assert_eq!(calc_contract_fetch_interval(now, &sub_at(-500)), 1200);
}

#[test]
fn refetch_only_after_the_interval() {
    let now = 1_000_000;
    let s = sub_at(now + 600);  // interval 1200
    assert!(should_refetch(now, now - 1200, &s));
    assert!(!should_refetch(now, now - 1199, &s));
    // A missing cache row reads as timestamp zero, which is long stale.
    assert!(should_refetch(now, 0, &s));
}

#[test]
fn read_through_freshness() {
    assert!(cache_is_recent(1000, 400, 600));
    assert!(!cache_is_recent(1000, 399, 600));
    assert!(cache_is_recent(1000, 1000, 0));
}

#[test]
fn poll_round_skips_disabled_and_fresh_accounts() {
    let now = 10_000;
    let period = 1800;
    assert!(is_account_due(&account("EI0000000000000001", now - 1800, false, false), now, period));
    assert!(!is_account_due(&account("EI0000000000000001", now - 1799, false, false), now, period));
    // A disabled account is never contacted, however stale.
    assert!(!is_account_due(&account("EI0000000000000001", 0, true, false), now, period));
    assert!(!is_account_due(&account("EI0000000000000001", 0, true, true), now, period));
}

#[test]
fn contract_tracing_forces_a_refresh_floor() {
    let now = 100_000;
    let period = 1_000_000;  // never due by period alone
    assert!(is_account_due(&account("EI0000000000000001", now - 14401, false, true), now, period));
    assert!(!is_account_due(&account("EI0000000000000001", now - 14400, false, true), now, period));
    assert!(!is_account_due(&account("EI0000000000000001", now - 14401, false, false), now, period));
}

#[test]
fn due_selection_never_contains_a_disabled_account() {
    let now = 10_000;
    let accounts = vec![
        account("EI0000000000000001", 0, false, false),
        account("EI0000000000000002", 0, true, false),
        account("EI0000000000000003", now, false, false),
    ];
    let due = due_accounts(&accounts, now, 1800);
    assert_eq!(due.len(), 1);
    assert_eq!(due[0].ei, "EI0000000000000001");
}

fn ship(id: &str, notified: bool) -> SpaceShip {
    SpaceShip {
        id: id.to_string(),
        name: "n".to_string(),
        duration_type: 0,
        belong: "EI0000000000000001".to_string(),
        land: 100,
        notified,
    }
}

#[test]
fn backpressure_at_three_pending() {
    assert!(!should_skip_backpressure(&vec![ship("a", false), ship("b", false)]));
    assert!(should_skip_backpressure(&vec![
        ship("a", false),
        ship("b", false),
        ship("c", false)
    ]));
    assert!(!should_skip_backpressure(&vec![
        ship("a", true),
        ship("b", false),
        ship("c", false)
    ]));
}

#[test]
fn fetch_bookkeeping_by_outcome() {
    let now = 555;
    let ok: Result<(), QueryError> = Ok(());
    let rec = plan_fetch_record(&ok, now).unwrap();
    assert_eq!(rec.last_fetch, now);
    assert!(!rec.disable);

    let rejected: Result<(), QueryError> = Err(QueryError::User("bad account".to_string()));
    let rec = plan_fetch_record(&rejected, now).unwrap();
    assert_eq!(rec.last_fetch, now);
    assert!(rec.disable);

    // A transport fault leaves the fetch clock alone, so the account is
    // retried promptly rather than waiting a full period.
    let transport: Result<(), QueryError> = Err(QueryError::System("timeout".to_string()));
    assert!(plan_fetch_record(&transport, now).is_none());
    let data: Result<(), QueryError> = Err(QueryError::Other("bad payload".to_string()));
    assert!(plan_fetch_record(&data, now).is_none());
}

#[test]
fn nickname_changes() {
    assert!(nickname_changed(&None, "alice"));
    assert!(nickname_changed(&Some("alice".to_string()), "bob"));
    assert!(!nickname_changed(&Some("alice".to_string()), "alice"));
}

fn snapshot_mission(id: &str, launched: i64, duration: i64) -> SpaceShipInfo {
    SpaceShipInfo::from_mission(MissionSnapshot {
        ship: Spaceship::Henerprise,
        identifier: id.to_string(),
        duration_type: 1,
        duration_seconds: duration,
        start_time: launched,
    })
}

#[test]
fn only_fresh_unlanded_missions_are_inserted() {
    let now = 1000;
    let known = vec![ship("m1", false)];
    let snapshot = vec![
        snapshot_mission("m1", 900, 500),   // already on file
        snapshot_mission("m2", 900, 500),   // new, lands at 1400
        snapshot_mission("m3", 100, 500),   // already landed at 600
        snapshot_mission("m4", 1000, 1),    // lands at 1001: still flying
    ];
    let fresh = new_missions(&known, snapshot, now);
    let ids: Vec<&str> = fresh.iter().map(|m| m.id()).collect();
    assert_eq!(ids, vec!["m2", "m4"]);
}

#[test]
fn estimate_updates_respect_the_tolerance() {
    // More than thirty seconds of movement is persisted and announced.
    let up = decide_est_update(1000, &ScoreOutcome::Normal(1031)).unwrap();
    assert_eq!(up.est, 1031);
    assert!(up.notify);
    let down = decide_est_update(1000, &ScoreOutcome::Normal(969)).unwrap();
    assert_eq!(down.est, 969);
    assert!(down.notify);
    // Movement within the tolerance is ignored.
    assert!(decide_est_update(1000, &ScoreOutcome::Normal(1030)).is_none());
    assert!(decide_est_update(1000, &ScoreOutcome::Normal(970)).is_none());
    // An out-of-time verdict is stored silently, however close.
    let oot = decide_est_update(1000, &ScoreOutcome::OutOfTime(1001)).unwrap();
    assert_eq!(oot.est, 1001);
    assert!(!oot.notify);
}
