//! Mission snapshots as the schedulers see them, the poll-failure taxonomy,
//! and plain-text rendering of timestamps and durations.

use std::fmt::Write;

use vstd::prelude::*;

verus! {

/// The ship classes a mission can fly.
#[derive(Clone, Copy, PartialEq, Eq, Structural, Debug)]
pub enum Spaceship {
    ChickenOne,
    ChickenNine,
    ChickenHeavy,
    Bcr,
    MilleniumChicken,
    CorellihenCorvette,
    Galeggtica,
    Chickfiant,
    Voyegger,
    Henerprise,
    Atreggies,
}

/// The display name of each ship class.
pub open spec fn spec_ship_name(ship: Spaceship) -> Seq<char> {
    match ship {
        Spaceship::ChickenOne => "Chicken One"@,
        Spaceship::ChickenNine => "Chicken Nine"@,
        Spaceship::ChickenHeavy => "Chicken Heavy"@,
        Spaceship::Bcr => "BCR"@,
        Spaceship::MilleniumChicken => "Quintillion Chicken"@,
        Spaceship::CorellihenCorvette => "Cornish-Hen Corvette"@,
        Spaceship::Galeggtica => "Galeggtica"@,
        Spaceship::Chickfiant => "Defihent"@,
        Spaceship::Voyegger => "Voyegger"@,
        Spaceship::Henerprise => "Henerprise"@,
        Spaceship::Atreggies => "Atreggies Henliner"@,
    }
}

/// One mission as decoded from a remote first-contact snapshot, reduced to
/// the plain values the schedulers read.
pub struct MissionSnapshot {
    pub ship: Spaceship,
    pub identifier: String,
    pub duration_type: i64,
    pub duration_seconds: i64,
    pub start_time: i64,
}

/// The abstract value of a [`SpaceShipInfo`].
#[verifier::ext_equal]
pub ghost struct SpaceShipInfoV {
    pub name: Seq<char>,
    pub id: Seq<char>,
    pub duration_type: i64,
    pub duration: i64,
    pub launched: i64,
}

/// One spaceship mission as tracked by the poll scheduler.
pub struct SpaceShipInfo {
    pub name: String,
    pub id: String,
    pub duration_type: i64,
    pub duration: i64,
    pub launched: i64,
}

impl View for SpaceShipInfo {
    type V = SpaceShipInfoV;

    open spec fn view(&self) -> SpaceShipInfoV {
        SpaceShipInfoV {
            name: self.name@,
            id: self.id@,
            duration_type: self.duration_type,
            duration: self.duration,
            launched: self.launched,
        }
    }
}

impl DeepView for SpaceShipInfo {
    type V = SpaceShipInfoV;

    open spec fn deep_view(&self) -> SpaceShipInfoV {
        self@
    }
}

impl SpaceShipInfo {
    /// Build the tracked form of one decoded mission: the ship class turns
    /// into its display name, and the timing fields carry over.
    pub fn from_mission(value: MissionSnapshot) -> (r: SpaceShipInfo)
        ensures
            r@.name == spec_ship_name(value.ship),
            r@.id == value.identifier@,
            r@.duration_type == value.duration_type,
            r@.duration == value.duration_seconds,
            r@.launched == value.start_time,
    {
        SpaceShipInfo {
            name: Self::ship_friendly_name(value.ship).to_owned(),
            id: value.identifier,
            duration_type: value.duration_type,
            duration: value.duration_seconds,
            launched: value.start_time,
        }
    }

    pub fn id(&self) -> (r: &str)
        ensures
            r@ == self@.id,
    {
        self.id.as_str()
    }

    pub fn name(&self) -> (r: &str)
        ensures
            r@ == self@.name,
    {
        self.name.as_str()
    }

    pub fn duration(&self) -> (r: i64)
        ensures
            r == self@.duration,
    {
        self.duration
    }

    pub fn duration_type(&self) -> (r: i64)
        ensures
            r == self@.duration_type,
    {
        self.duration_type
    }

    pub fn launched(&self) -> (r: i64)
        ensures
            r == self@.launched,
    {
        self.launched
    }

    /// When the mission lands: launch time plus flight duration.
    pub fn land(&self) -> (r: i64)
        requires
            i64::MIN <= self@.duration + self@.launched <= i64::MAX,
        ensures
            r == self@.duration + self@.launched,
    {
        self.duration() + self.launched()
    }

    /// Whether the mission has already landed at time `now`.
    pub fn is_landed(&self, now: i64) -> (r: bool)
        requires
            i64::MIN <= self@.duration + self@.launched <= i64::MAX,
        ensures
            r == (now > self@.duration + self@.launched),
    {
        now > self.land()
    }

    /// The display name of a ship class.
    pub fn ship_friendly_name(ship: Spaceship) -> (r: &'static str)
        ensures
            r@ == spec_ship_name(ship),
    {
        match ship {
            Spaceship::ChickenOne => "Chicken One",
            Spaceship::ChickenNine => "Chicken Nine",
            Spaceship::ChickenHeavy => "Chicken Heavy",
            Spaceship::Bcr => "BCR",
            Spaceship::MilleniumChicken => "Quintillion Chicken",
            Spaceship::CorellihenCorvette => "Cornish-Hen Corvette",
            Spaceship::Galeggtica => "Galeggtica",
            Spaceship::Chickfiant => "Defihent",
            Spaceship::Voyegger => "Voyegger",
            Spaceship::Henerprise => "Henerprise",
            Spaceship::Atreggies => "Atreggies Henliner",
        }
    }
}

/// Why a remote fetch failed. `System` is a transport fault (retry later,
/// account stays enabled); `User` means the backend rejected the account
/// (disable it); `Other` is a malformed response, treated like a transport
/// fault. Each carries a human-readable description.
pub enum QueryError {
    System(String),
    User(String),
    Other(String),
}

impl QueryError {
    /// True exactly on a backend rejection.
    pub fn is_user_error(&self) -> (r: bool)
        ensures
            r == (self is User),
    {
        match self {
            QueryError::User(_) => true,
            _ => false,
        }
    }

    /// True exactly on a transport fault.
    pub fn is_system_error(&self) -> (r: bool)
        ensures
            r == (self is System),
    {
        match self {
            QueryError::System(_) => true,
            _ => false,
        }
    }

    /// The short label used in operator-facing messages.
    pub fn err_type(&self) -> (r: &'static str)
        ensures
            r@ == (match self {
                QueryError::System(_) => "system"@,
                QueryError::User(_) => "user"@,
                QueryError::Other(_) => "other"@,
            }),
    {
        match self {
            QueryError::System(_) => "system",
            QueryError::User(_) => "user",
            QueryError::Other(_) => "other",
        }
    }
}

/// What rendering `timestamp` in the bot's home time zone with format `fmt`
/// yields. The rendering depends on the arguments alone: the zone's offset
/// table is compiled into the time-zone crate.
pub uninterp spec fn taipei_fmt_of(timestamp: i64, fmt: Seq<char>) -> Seq<char>;

/// The timestamps the calendar can represent: chrono's `DateTime::MIN_UTC`
/// (1 January -262143, 00:00:00) through `DateTime::MAX_UTC` (31 December
/// 262142, 23:59:59), as unix seconds. `DateTime::from_timestamp` returns
/// `Some` exactly on this range.
pub open spec fn timestamp_in_range(timestamp: i64) -> bool {
    -8334601228800 <= timestamp <= 8210266876799
}

/// The two renderings the library asks for: the full date-and-time form and
/// the compact file-name form.
pub open spec fn known_time_format(fmt: Seq<char>) -> bool {
    fmt == "%Y-%m-%d %H:%M:%S"@ || fmt == "%Y%m%d-%H%M%S"@
}

/// Relies on chrono's `DateTime::from_timestamp` (`Some` exactly when the
/// day count is representable, i.e. on [`timestamp_in_range`]),
/// `DateTime::with_timezone` with chrono-tz's compiled Asia/Taipei table,
/// and `DelayedFormat`'s `Display`, written into a buffer so that a format
/// string chrono cannot parse comes back as `None` instead of aborting. The
/// two formats named by [`known_time_format`] consist of plain numeric and
/// literal items, which never fail on a representable instant.
#[verifier::external_body]
fn taipei_render(timestamp: i64, fmt: &str) -> (r: Option<String>)
    ensures
        r matches Some(s) ==> s@ == taipei_fmt_of(timestamp, fmt@),
        !timestamp_in_range(timestamp) ==> r is None,
        timestamp_in_range(timestamp) && known_time_format(fmt@) ==> r is Some,
{
    match chrono::DateTime::from_timestamp(timestamp, 0) {
        Some(t) => {
            let mut out = String::new();
            match write!(out, "{}", t.with_timezone(&chrono_tz::Asia::Taipei).format(fmt)) {
                Ok(()) => Some(out),
                Err(_) => None,
            }
        },
        None => None,
    }
}

/// Render `timestamp` with format `fmt` in the bot's home time zone;
/// `"N/A"` when the timestamp is out of the calendar's range or the format
/// string is one chrono cannot parse.
pub fn timestamp_fmt(timestamp: i64, fmt: &str) -> (r: String)
    ensures
        r@ == taipei_fmt_of(timestamp, fmt@) || r@ == "N/A"@,
        !timestamp_in_range(timestamp) ==> r@ == "N/A"@,
        timestamp_in_range(timestamp) && known_time_format(fmt@) ==> r@ == taipei_fmt_of(
            timestamp,
            fmt@,
        ),
{
    match taipei_render(timestamp, fmt) {
        Some(s) => s,
        None => "N/A".to_owned(),
    }
}

/// Render `timestamp` as a full date and time in the bot's home time zone;
/// `"N/A"` exactly when the timestamp is out of the calendar's range.
pub fn timestamp_to_string(timestamp: i64) -> (r: String)
    ensures
        timestamp_in_range(timestamp) ==> r@ == taipei_fmt_of(
            timestamp,
            "%Y-%m-%d %H:%M:%S"@,
        ),
        !timestamp_in_range(timestamp) ==> r@ == "N/A"@,
{
    timestamp_fmt(timestamp, "%Y-%m-%d %H:%M:%S")
}

/// The decimal digits of `n`, most significant first.
pub open spec fn dec_str(n: nat) -> Seq<char>
    decreases n,
{
    let digit = seq![digit_char((n % 10) as int)];
    if n < 10 {
        digit
    } else {
        dec_str(n / 10) + digit
    }
}

/// The character for one decimal digit.
pub open spec fn digit_char(d: int) -> char {
    if d == 0 {
        '0'
    } else if d == 1 {
        '1'
    } else if d == 2 {
        '2'
    } else if d == 3 {
        '3'
    } else if d == 4 {
        '4'
    } else if d == 5 {
        '5'
    } else if d == 6 {
        '6'
    } else if d == 7 {
        '7'
    } else if d == 8 {
        '8'
    } else {
        '9'
    }
}

/// Render `n` in decimal.
pub fn u64_to_string(n: u64) -> (r: String)
    ensures
        r@ == dec_str(n as nat),
    decreases n,
{
    let digit: &'static str = match n % 10 {
        0 => "0",
        1 => "1",
        2 => "2",
        3 => "3",
        4 => "4",
        5 => "5",
        6 => "6",
        7 => "7",
        8 => "8",
        _ => "9",
    };
    proof {
        reveal_strlit("0");
        reveal_strlit("1");
        reveal_strlit("2");
        reveal_strlit("3");
        reveal_strlit("4");
        reveal_strlit("5");
        reveal_strlit("6");
        reveal_strlit("7");
        reveal_strlit("8");
        reveal_strlit("9");
        assert(digit@ =~= seq![digit_char((n % 10) as int)]);
    }
    if n < 10 {
        digit.to_owned()
    } else {
        let mut s = u64_to_string(n / 10);
        s.append(digit);
        proof {
            assert(s@ =~= dec_str(n as nat));
        }
        s
    }
}

/// A duration in compact form: optional whole days, then hours, minutes and
/// seconds, each with its unit letter. Anything negative reads as zero.
pub open spec fn spec_delta_short(seconds: int) -> Seq<char> {
    if seconds < 0 {
        "0h0m0s"@
    } else {
        let days = seconds / 86400;
        let h = (seconds / 3600) % 24;
        let m = (seconds / 60) % 60;
        let sec = seconds % 60;
        (if days > 0 {
            dec_str(days as nat) + "d"@
        } else {
            Seq::empty()
        }) + dec_str(h as nat) + "h"@ + dec_str(m as nat) + "m"@ + dec_str(sec as nat) + "s"@
    }
}

/// Render a duration in seconds compactly, e.g. for "time left" readouts.
pub fn fmt_time_delta_short(seconds: i64) -> (r: String)
    ensures
        r@ == spec_delta_short(seconds as int),
{
    proof {
        reveal_strlit("0h0m0s");
        reveal_strlit("d");
        reveal_strlit("h");
        reveal_strlit("m");
        reveal_strlit("s");
    }
    if seconds < 0 {
        return "0h0m0s".to_owned();
    }
    let n = seconds as u64;
    let days = n / 86400;
    let h = (n / 3600) % 24;
    let m = (n / 60) % 60;
    let sec = n % 60;
    let mut out = String::new();
    if days > 0 {
        let ds = u64_to_string(days);
        out.append(ds.as_str());
        out.append("d");
    }
    let hs = u64_to_string(h);
    out.append(hs.as_str());
    out.append("h");
    let ms = u64_to_string(m);
    out.append(ms.as_str());
    out.append("m");
    let ss = u64_to_string(sec);
    out.append(ss.as_str());
    out.append("s");
    proof {
        assert(out@ =~= spec_delta_short(seconds as int));
    }
    out
}

/// Two-digit zero-padded decimal.
pub open spec fn two_digits(n: nat) -> Seq<char> {
    if n < 10 {
        "0"@ + dec_str(n)
    } else {
        dec_str(n)
    }
}

/// A duration in long form: "N day(s), " when at least a day, then
/// colon-separated zero-padded hours, minutes and seconds.
pub open spec fn spec_delta_long(seconds: int) -> Seq<char> {
    let days = seconds / 86400;
    let h = (seconds / 3600) % 24;
    let m = (seconds / 60) % 60;
    let sec = seconds % 60;
    (if days > 0 {
        dec_str(days as nat) + (if days > 1 {
            " days, "@
        } else {
            " day, "@
        })
    } else {
        Seq::empty()
    }) + two_digits(h as nat) + ":"@ + two_digits(m as nat) + ":"@ + two_digits(sec as nat)
}

/// Render a non-negative duration in seconds in long form.
pub fn fmt_time_delta(seconds: i64) -> (r: String)
    requires
        seconds >= 0,
    ensures
        r@ == spec_delta_long(seconds as int),
{
    proof {
        reveal_strlit(" days, ");
        reveal_strlit(" day, ");
        reveal_strlit(":");
        reveal_strlit("0");
    }
    let n = seconds as u64;
    let days = n / 86400;
    let h = (n / 3600) % 24;
    let m = (n / 60) % 60;
    let sec = n % 60;
    let mut out = String::new();
    if days > 0 {
        let ds = u64_to_string(days);
        out.append(ds.as_str());
        if days > 1 {
            out.append(" days, ");
        } else {
            out.append(" day, ");
        }
    }
    if h < 10 {
        out.append("0");
    }
    let hs = u64_to_string(h);
    out.append(hs.as_str());
    out.append(":");
    if m < 10 {
        out.append("0");
    }
    let ms = u64_to_string(m);
    out.append(ms.as_str());
    out.append(":");
    if sec < 10 {
        out.append("0");
    }
    let ss = u64_to_string(sec);
    out.append(ss.as_str());
    proof {
        assert(out@ =~= spec_delta_long(seconds as int));
    }
    out
}

} // verus!
