//! Grades, the completion-level classification, the request builders, the
//! migration chain, and the configuration surface.

use eggmon::config::{Config, Telegram};
use eggmon::coop::{CompletionLevel, CoopFlags, PlayerGrade};
use eggmon::migrate::{current_version, migration_path, split_ship_row, version_chain};
use eggmon::request::{
    build_basic_info, build_coop_status_request, build_first_contract_request, get_missions,
    ArtifactsDb, Backup, FirstContactResponse, Platform, ANONYMOUS_USER,
};
use eggmon::types::{MissionSnapshot, SpaceShipInfo, Spaceship};

fn flags(cleared: bool, reporting: bool, goals: bool) -> CoopFlags {
    CoopFlags {
        cleared_for_exit: cleared,
        all_members_reporting: reporting,
        all_goals_achieved: goals,
    }
}

#[test]
fn completion_levels_in_order() {
    assert_eq!(CompletionLevel::from_status(&flags(true, false, false), false), CompletionLevel::Cleared);
    assert_eq!(CompletionLevel::from_status(&flags(false, true, false), false), CompletionLevel::Cleared);
    assert_eq!(CompletionLevel::from_status(&flags(false, false, true), false), CompletionLevel::Completed);
    assert_eq!(CompletionLevel::from_status(&flags(false, false, false), true), CompletionLevel::OnTrack);
    assert_eq!(CompletionLevel::from_status(&flags(false, false, false), false), CompletionLevel::NotTrack);
}

#[test]
fn completion_level_readouts() {
    assert_eq!(CompletionLevel::NotTrack.emoji(), "🔴");
    assert_eq!(CompletionLevel::OnTrack.emoji(), "🟡");
    assert_eq!(CompletionLevel::Completed.emoji(), "🟢");
    assert_eq!(CompletionLevel::Cleared.emoji(), "✅");
    assert!(CompletionLevel::Completed.is_finished());
    assert!(CompletionLevel::Cleared.is_finished());
    assert!(!CompletionLevel::OnTrack.is_finished());
    assert!(CompletionLevel::Cleared.is_cleared());
    assert!(!CompletionLevel::Completed.is_cleared());
}

#[test]
fn grades_from_stored_indexes() {
    assert_eq!(PlayerGrade::from_index(1), PlayerGrade::GradeC);
    assert_eq!(PlayerGrade::from_index(5), PlayerGrade::GradeAaa);
    assert_eq!(PlayerGrade::from_index(0), PlayerGrade::GradeUnset);
    assert_eq!(PlayerGrade::from_index(99), PlayerGrade::GradeUnset);
    assert_eq!(PlayerGrade::GradeAa.grade_str(), "AA");
    assert_eq!(PlayerGrade::GradeUnset.grade_str(), "N/A");
}

#[test]
fn request_headers_carry_the_fixed_client_identity() {
    let info = build_basic_info(Some("EI0000000000000001".to_string()));
    assert_eq!(info.ei_user_id.as_deref(), Some("EI0000000000000001"));
    assert_eq!(info.client_version, Some(70));
    assert_eq!(info.version.as_deref(), Some("1.35.1"));
    assert_eq!(info.build.as_deref(), Some("111313"));
    assert_eq!(info.platform.as_deref(), Some("IOS"));
    assert_eq!(info.country, None);
    assert_eq!(info.language, None);
    assert_eq!(info.debug, Some(false));

    let anon = build_basic_info(None);
    assert_eq!(anon.ei_user_id.as_deref(), Some(""));
}

#[test]
fn coop_status_requests_default_to_the_anonymous_account() {
    let r = build_coop_status_request("contract-x", "room-y", None);
    assert_eq!(r.contract_identifier.as_deref(), Some("contract-x"));
    assert_eq!(r.coop_identifier.as_deref(), Some("room-y"));
    assert_eq!(r.user_id.as_deref(), Some(ANONYMOUS_USER));
    assert_eq!(r.user_id.as_deref(), Some("EI6291940968235008"));
    assert_eq!(r.client_version, Some(70));
    let named = build_coop_status_request("c", "r", Some("EI0000000000000001".to_string()));
    assert_eq!(named.user_id.as_deref(), Some("EI0000000000000001"));
    assert_eq!(
        named.rinfo.unwrap().ei_user_id.as_deref(),
        Some("EI0000000000000001")
    );
}

#[test]
fn first_contact_requests() {
    let r = build_first_contract_request("EI0000000000000001".to_string());
    assert_eq!(r.ei_user_id.as_deref(), Some("EI0000000000000001"));
    assert_eq!(r.device_id.as_deref(), Some("egginc-bot"));
    assert_eq!(r.user_id, None);
    assert_eq!(r.platform, Some(Platform::Ios));
    assert_eq!(r.rinfo.unwrap().ei_user_id.as_deref(), Some(""));
}

#[test]
fn missions_extracted_from_a_first_contact_response() {
    let resp = FirstContactResponse {
        backup: Some(Backup {
            user_name: Some("alice".to_string()),
            artifacts_db: Some(ArtifactsDb {
                mission_infos: vec![MissionSnapshot {
                    ship: Spaceship::Atreggies,
                    identifier: "m1".to_string(),
                    duration_type: 2,
                    duration_seconds: 4 * 86400,
                    start_time: 1000,
                }],
            }),
        }),
    };
    let missions = get_missions(resp).unwrap();
    assert_eq!(missions.len(), 1);
    assert_eq!(missions[0].id(), "m1");
    assert_eq!(missions[0].name(), "Atreggies Henliner");
    assert_eq!(missions[0].land(), 4 * 86400 + 1000);

    assert!(get_missions(FirstContactResponse { backup: None }).is_none());
    assert!(get_missions(FirstContactResponse {
        backup: Some(Backup { user_name: None, artifacts_db: None })
    })
    .is_none());
}

#[test]
fn ship_names() {
    assert_eq!(SpaceShipInfo::ship_friendly_name(Spaceship::ChickenOne), "Chicken One");
    assert_eq!(SpaceShipInfo::ship_friendly_name(Spaceship::MilleniumChicken), "Quintillion Chicken");
    assert_eq!(SpaceShipInfo::ship_friendly_name(Spaceship::Chickfiant), "Defihent");
    let m = SpaceShipInfo::from_mission(MissionSnapshot {
        ship: Spaceship::Bcr,
        identifier: "x".to_string(),
        duration_type: 0,
        duration_seconds: 60,
        start_time: 40,
    });
    assert_eq!(m.name(), "BCR");
    assert!(m.is_landed(101));
    assert!(!m.is_landed(100));
}

#[test]
fn migration_chain_is_ordered_data() {
    assert_eq!(version_chain(), vec!["1", "2", "3", "4", "5", "6", "7", "8"]);
    assert_eq!(current_version(), "8");
    assert_eq!(migration_path("1").unwrap(), vec!["2", "3", "4", "5", "6", "7", "8"]);
    assert_eq!(migration_path("6").unwrap(), vec!["7", "8"]);
    // A store already at the head has nothing to run.
    assert_eq!(migration_path("8").unwrap(), Vec::<&str>::new());
    // A marker from a newer program must not be touched.
    assert!(migration_path("9").is_none());
    assert!(migration_path("").is_none());
}

#[test]
fn oldest_schema_rows_split_into_class_and_name() {
    assert_eq!(split_ship_row("EPIC Henerprise"), Some((2, "Henerprise".to_string())));
    assert_eq!(split_ship_row("short BCR"), Some((0, "BCR".to_string())));
    assert_eq!(split_ship_row("Long Chicken One"), Some((1, "Chicken One".to_string())));
    assert_eq!(split_ship_row("tutorial x"), Some((3, "x".to_string())));
    assert_eq!(split_ship_row("weird Name x"), Some((4, "Name x".to_string())));
    assert_eq!(split_ship_row("nospace"), None);
}

#[test]
fn configuration_surface() {
    let config = Config::new(
        vec![100, 200],
        Telegram::new(Some("https://example.invalid".to_string()), "example-key".to_string()),
    );
    assert_eq!(config.admin(), &[100, 200]);
    assert_eq!(config.telegram().api_key(), "example-key");
    assert_eq!(
        config.telegram().api_server().map(|s| s.as_str()),
        Some("https://example.invalid")
    );
    let bare = Config::new(Vec::new(), Telegram::new(None, "k".to_string()));
    assert!(bare.telegram().api_server().is_none());
}
