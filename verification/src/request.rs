//! Remote-protocol requests and responses reduced to plain values. Framing
//! and wire encoding (the binary protocol, compression, base64) are the
//! protocol client's business and stay opaque to the core; these builders
//! pin down exactly which fields every request carries.

use vstd::prelude::*;

use crate::types::{MissionSnapshot, SpaceShipInfo, SpaceShipInfoV, Spaceship, spec_ship_name};

verus! {

/// The client version number every request reports.
pub const CLIENT_VERSION: u32 = 70;

/// The account id used for anonymous room queries.
pub const ANONYMOUS_USER: &'static str = "EI6291940968235008";

/// The client platform a request can report.
#[derive(Clone, Copy, PartialEq, Eq, Structural, Debug)]
pub enum Platform {
    Droid,
    Ios,
}

/// The common header of every remote request.
pub struct BasicRequestInfo {
    pub ei_user_id: Option<String>,
    pub client_version: Option<u32>,
    pub version: Option<String>,
    pub build: Option<String>,
    pub platform: Option<String>,
    pub country: Option<String>,
    pub language: Option<String>,
    pub debug: Option<bool>,
}

/// Build the common request header: a fixed client identity plus the
/// account id, which defaults to empty.
pub fn build_basic_info(ei: Option<String>) -> (r: BasicRequestInfo)
    ensures
        r.ei_user_id matches Some(u) && u@ == (match ei {
            Some(e) => e@,
            None => Seq::<char>::empty(),
        }),
        r.client_version == Some(CLIENT_VERSION),
        r.version matches Some(v) && v@ == "1.35.1"@,
        r.build matches Some(b) && b@ == "111313"@,
        r.platform matches Some(p) && p@ == "IOS"@,
        r.country is None,
        r.language is None,
        r.debug == Some(false),
{
    let user: String = match ei {
        Some(e) => e,
        None => String::new(),
    };
    BasicRequestInfo {
        ei_user_id: Some(user),
        client_version: Some(CLIENT_VERSION),
        version: Some("1.35.1".to_owned()),
        build: Some("111313".to_owned()),
        platform: Some("IOS".to_owned()),
        country: None,
        language: None,
        debug: Some(false),
    }
}

/// A room-status request.
pub struct CoopStatusRequest {
    pub rinfo: Option<BasicRequestInfo>,
    pub contract_identifier: Option<String>,
    pub coop_identifier: Option<String>,
    pub user_id: Option<String>,
    pub client_version: Option<u32>,
}

/// Build a room-status request; an anonymous account id stands in when the
/// caller supplies none.
pub fn build_coop_status_request(contract_id: &str, coop_id: &str, ei: Option<String>) -> (r:
    CoopStatusRequest)
    ensures
        r.rinfo matches Some(info) && (info.ei_user_id matches Some(u) && u@ == (match ei {
            Some(e) => e@,
            None => ANONYMOUS_USER@,
        })) && info.client_version == Some(CLIENT_VERSION),
        r.contract_identifier matches Some(c) && c@ == contract_id@,
        r.coop_identifier matches Some(c) && c@ == coop_id@,
        r.user_id matches Some(u) && u@ == (match ei {
            Some(e) => e@,
            None => ANONYMOUS_USER@,
        }),
        r.client_version == Some(CLIENT_VERSION),
{
    let user: String = match ei {
        Some(e) => e,
        None => ANONYMOUS_USER.to_owned(),
    };
    let user2 = user.clone();
    CoopStatusRequest {
        rinfo: Some(build_basic_info(Some(user))),
        contract_identifier: Some(contract_id.to_owned()),
        coop_identifier: Some(coop_id.to_owned()),
        user_id: Some(user2),
        client_version: Some(CLIENT_VERSION),
    }
}

/// A first-contact request: the full account state of one player.
pub struct FirstContactRequest {
    pub rinfo: Option<BasicRequestInfo>,
    pub ei_user_id: Option<String>,
    pub user_id: Option<String>,
    pub game_services_id: Option<String>,
    pub device_id: Option<String>,
    pub username: Option<String>,
    pub client_version: Option<u32>,
    pub platform: Option<Platform>,
}

/// Build a first-contact request for one account.
pub fn build_first_contract_request(ei: String) -> (r: FirstContactRequest)
    ensures
        r.rinfo matches Some(info) && (info.ei_user_id matches Some(u) && u@
            == Seq::<char>::empty()),
        r.ei_user_id matches Some(u) && u@ == ei@,
        r.user_id is None,
        r.game_services_id is None,
        r.device_id matches Some(d) && d@ == "egginc-bot"@,
        r.username is None,
        r.client_version == Some(CLIENT_VERSION),
        r.platform == Some(Platform::Ios),
{
    FirstContactRequest {
        rinfo: Some(build_basic_info(None)),
        ei_user_id: Some(ei),
        user_id: None,
        game_services_id: None,
        device_id: Some("egginc-bot".to_owned()),
        username: None,
        client_version: Some(CLIENT_VERSION),
        platform: Some(Platform::Ios),
    }
}

/// The artifacts section of a first-contact response: the mission log.
pub struct ArtifactsDb {
    pub mission_infos: Vec<MissionSnapshot>,
}

/// The saved-game section of a first-contact response, reduced to what the
/// poll scheduler reads.
pub struct Backup {
    pub user_name: Option<String>,
    pub artifacts_db: Option<ArtifactsDb>,
}

/// A decoded first-contact response.
pub struct FirstContactResponse {
    pub backup: Option<Backup>,
}

/// How one decoded mission looks once tracked.
pub open spec fn spec_mission_info(m: MissionSnapshot) -> SpaceShipInfoV {
    SpaceShipInfoV {
        name: spec_ship_name(m.ship),
        id: m.identifier@,
        duration_type: m.duration_type,
        duration: m.duration_seconds,
        launched: m.start_time,
    }
}

/// The tracked form of a whole mission log.
pub open spec fn spec_mission_infos(ms: Seq<MissionSnapshot>) -> Seq<SpaceShipInfoV>
    decreases ms.len(),
{
    if ms.len() == 0 {
        Seq::empty()
    } else {
        spec_mission_infos(ms.drop_last()).push(spec_mission_info(ms.last()))
    }
}

/// The mission log of a first-contact response, in tracked form; `None`
/// when the response carries no saved game or no artifacts section.
pub fn get_missions(data: FirstContactResponse) -> (r: Option<Vec<SpaceShipInfo>>)
    ensures
        match r {
            Some(v) => (data.backup matches Some(b) && b.artifacts_db matches Some(db)
                && v.deep_view() == spec_mission_infos(db.mission_infos@)),
            None => data.backup is None || (data.backup matches Some(b) && b.artifacts_db
                is None),
        },
{
    let backup = match data.backup {
        Some(b) => b,
        None => {
            return None;
        },
    };
    let db = match backup.artifacts_db {
        Some(db) => db,
        None => {
            return None;
        },
    };
    let ghost ms = db.mission_infos@;
    let mut rest = db.mission_infos;
    let mut out: Vec<SpaceShipInfo> = Vec::new();
    let ghost mut i: int = 0;
    proof {
        assert(ms.take(0) =~= Seq::<MissionSnapshot>::empty());
        assert(out.deep_view() =~= spec_mission_infos(ms.take(0)));
    }
    while rest.len() > 0
        invariant
            0 <= i,
            i + rest@.len() == ms.len(),
            rest@ == ms.skip(i),
            out.deep_view() == spec_mission_infos(ms.take(i)),
        decreases rest.len(),
    {
        let ghost rest0 = rest@;
        let m = rest.remove(0);
        proof {
            assert(rest@ =~= ms.skip(i + 1));
            assert(m == ms[i]);
            assert(ms.take(i + 1).drop_last() =~= ms.take(i));
            assert(ms.take(i + 1).last() == ms[i]);
        }
        let info = SpaceShipInfo::from_mission(m);
        let ghost out0 = out.deep_view();
        out.push(info);
        proof {
            assert(info@ =~= spec_mission_info(ms[i]));
            assert(out.deep_view() =~~= out0.push(spec_mission_info(ms[i])));
        }
        proof {
            i = i + 1;
        }
    }
    proof {
        assert(ms.skip(i).len() == 0);
        assert(i == ms.len());
        assert(ms.take(ms.len() as int) =~= ms);
    }
    Some(out)
}

} // verus!
