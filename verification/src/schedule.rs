//! The per-tick decision rules of the two schedulers: which accounts a poll
//! round visits, what a fetch outcome does to an account, which missions in
//! a snapshot are new, the subscription scheduler's adaptive refetch
//! cadence, and when a revised completion estimate is persisted.
//!
//! The event loops themselves (timers, channels, spawned rounds) live in the
//! runtime shell; every decision they take comes from here.

use vstd::prelude::*;

use crate::records::{Account, AccountV, SpaceShip, SpaceShipV, SubscribeInfo};
use crate::store::{accounts_with_disabled, ids_contain};
use crate::types::{QueryError, SpaceShipInfo, SpaceShipInfoV};

verus! {

/// The forced-refresh floor for contract-tracking accounts: even without
/// pending missions they are refetched after four hours.
pub const CONTRACT_TRACE_FLOOR: i64 = 14400;

/// How many un-notified missions put an account under backpressure.
pub const BACKPRESSURE_LIMIT: usize = 3;

/// Whether a poll round at `now` visits this account: never when disabled,
/// else when its fetch period has elapsed, or when it traces contracts and
/// has gone stale past the forced-refresh floor.
pub open spec fn spec_account_due(a: AccountV, now: i64, fetch_period: i64) -> bool {
    !a.disabled && (now - a.last_fetch >= fetch_period || (a.contract_trace && now - a.last_fetch
        > CONTRACT_TRACE_FLOOR))
}

/// Decide whether a poll round at `now` visits `account`.
pub fn is_account_due(account: &Account, now: i64, fetch_period: i64) -> (r: bool)
    ensures
        r == spec_account_due(account@, now, fetch_period),
        r ==> !account@.disabled,
{
    if account.disabled {
        return false;
    }
    let elapsed: i128 = (now as i128) - (account.last_fetch as i128);
    elapsed >= (fetch_period as i128) || (account.contract_trace && elapsed > (
    CONTRACT_TRACE_FLOOR as i128))
}

/// The accounts a poll round visits, in table order.
pub open spec fn spec_due_accounts(s: Seq<AccountV>, now: i64, fetch_period: i64) -> Seq<AccountV>
    decreases s.len(),
{
    if s.len() == 0 {
        Seq::empty()
    } else {
        let rest = spec_due_accounts(s.drop_last(), now, fetch_period);
        if spec_account_due(s.last(), now, fetch_period) {
            rest.push(s.last())
        } else {
            rest
        }
    }
}

/// Select the accounts a poll round at `now` visits. No disabled account is
/// ever selected.
pub fn due_accounts(accounts: &Vec<Account>, now: i64, fetch_period: i64) -> (r: Vec<Account>)
    ensures
        r.deep_view() == spec_due_accounts(accounts.deep_view(), now, fetch_period),
        forall|k: int| 0 <= k < r.deep_view().len() ==> !(#[trigger] r.deep_view()[k]).disabled,
{
    let mut out: Vec<Account> = Vec::new();
    let mut i: usize = 0;
    proof {
        assert(accounts.deep_view().take(0) =~= Seq::<AccountV>::empty());
        assert(out.deep_view() =~= Seq::<AccountV>::empty());
    }
    while i < accounts.len()
        invariant
            i <= accounts.len(),
            out.deep_view() == spec_due_accounts(
                accounts.deep_view().take(i as int),
                now,
                fetch_period,
            ),
        decreases accounts.len() - i,
    {
        proof {
            let s = accounts.deep_view();
            assert(s.take(i + 1).drop_last() =~= s.take(i as int));
            assert(s.take(i + 1).last() == s[i as int]);
        }
        if is_account_due(&accounts[i], now, fetch_period) {
            let elem = accounts[i].clone();
            let ghost out0 = out.deep_view();
            out.push(elem);
            proof {
                assert(out.deep_view() =~~= out0.push(accounts.deep_view()[i as int]));
            }
        }
        i += 1;
    }
    proof {
        assert(accounts.deep_view().take(accounts@.len() as int) =~= accounts.deep_view());
        lemma_due_accounts_enabled(accounts.deep_view(), now, fetch_period);
    }
    out
}

/// Everything a due-accounts selection returns is enabled.
proof fn lemma_due_accounts_enabled(s: Seq<AccountV>, now: i64, fetch_period: i64)
    ensures
        forall|k: int|
            0 <= k < spec_due_accounts(s, now, fetch_period).len() ==> !(
            #[trigger] spec_due_accounts(s, now, fetch_period)[k]).disabled,
    decreases s.len(),
{
    if s.len() > 0 {
        lemma_due_accounts_enabled(s.drop_last(), now, fetch_period);
    }
}

/// How many missions of a list still await their landing notice.
pub open spec fn count_unnotified(s: Seq<SpaceShipV>) -> int
    decreases s.len(),
{
    if s.len() == 0 {
        0
    } else {
        count_unnotified(s.drop_last()) + (if s.last().notified {
            0int
        } else {
            1int
        })
    }
}

/// Backpressure: skip an account whose mission list already holds three or
/// more un-notified missions, instead of piling on more remote fetches.
pub fn should_skip_backpressure(missions: &Vec<SpaceShip>) -> (r: bool)
    ensures
        r == (count_unnotified(missions.deep_view()) >= BACKPRESSURE_LIMIT),
{
    let mut pending: usize = 0;
    let mut i: usize = 0;
    proof {
        assert(missions.deep_view().take(0) =~= Seq::<SpaceShipV>::empty());
    }
    while i < missions.len()
        invariant
            i <= missions.len(),
            pending == count_unnotified(missions.deep_view().take(i as int)),
            pending <= i,
        decreases missions.len() - i,
    {
        proof {
            let s = missions.deep_view();
            assert(s.take(i + 1).drop_last() =~= s.take(i as int));
            assert(s.take(i + 1).last() == s[i as int]);
        }
        if !missions[i].notified {
            pending += 1;
        }
        i += 1;
    }
    proof {
        assert(missions.deep_view().take(missions@.len() as int) =~= missions.deep_view());
    }
    pending >= BACKPRESSURE_LIMIT
}

/// What to record after one fetch attempt: the new fetch time and whether
/// to disable the account, or nothing at all.
pub struct FetchRecord {
    pub last_fetch: i64,
    pub disable: bool,
}

/// Plan the bookkeeping after a fetch attempt at `now`. The fetch time moves
/// only when the backend answered at all: a success or a rejection sets it
/// to `now` (a rejection also disables the account, a success never does); a
/// transport fault or a malformed response leaves the account untouched so
/// it is retried promptly.
pub fn plan_fetch_record(outcome: &Result<(), QueryError>, now: i64) -> (r: Option<FetchRecord>)
    ensures
        match outcome {
            Ok(_) => r matches Some(rec) && rec.last_fetch == now && !rec.disable,
            Err(e) => match e {
                QueryError::User(_) => r matches Some(rec) && rec.last_fetch == now
                    && rec.disable,
                QueryError::System(_) => r is None,
                QueryError::Other(_) => r is None,
            },
        },
{
    match outcome {
        Ok(_) => Some(FetchRecord { last_fetch: now, disable: false }),
        Err(e) => match e {
            QueryError::User(_) => Some(FetchRecord { last_fetch: now, disable: true }),
            QueryError::System(_) => None,
            QueryError::Other(_) => None,
        },
    }
}

/// Whether a freshly fetched display name differs from the stored one (a
/// first observation counts as a change).
pub fn nickname_changed(stored: &Option<String>, fetched: &str) -> (r: bool)
    ensures
        r == (match stored {
            Some(n) => n@ != fetched@,
            None => true,
        }),
{
    match stored {
        Some(n) => !crate::records::str_eq(n.as_str(), fetched),
        None => true,
    }
}

/// The missions of a snapshot that are new to the store and have not landed
/// yet, in snapshot order.
pub open spec fn spec_new_missions(
    known: Seq<SpaceShipV>,
    snapshot: Seq<SpaceShipInfoV>,
    now: i64,
) -> Seq<SpaceShipInfoV>
    decreases snapshot.len(),
{
    if snapshot.len() == 0 {
        Seq::empty()
    } else {
        let rest = spec_new_missions(known, snapshot.drop_last(), now);
        let m = snapshot.last();
        if !crate::store::has_ship(known, m.id) && m.duration + m.launched > now {
            rest.push(m)
        } else {
            rest
        }
    }
}

/// Select the snapshot missions worth inserting: not on file yet and not
/// yet landed at `now`.
pub fn new_missions(known: &Vec<SpaceShip>, snapshot: Vec<SpaceShipInfo>, now: i64) -> (r: Vec<
    SpaceShipInfo,
>)
    ensures
        r.deep_view() == spec_new_missions(known.deep_view(), snapshot.deep_view(), now),
{
    let ghost snap = snapshot.deep_view();
    let mut out: Vec<SpaceShipInfo> = Vec::new();
    let mut rest = snapshot;
    let ghost mut i: int = 0;
    proof {
        assert(snap.take(0) =~= Seq::<SpaceShipInfoV>::empty());
        assert(out.deep_view() =~= spec_new_missions(known.deep_view(), snap.take(0), now));
    }
    while rest.len() > 0
        invariant
            0 <= i,
            i + rest@.len() == snap.len(),
            rest.deep_view() == snap.skip(i),
            out.deep_view() == spec_new_missions(known.deep_view(), snap.take(i), now),
        decreases rest.len(),
    {
        let ghost rest0 = rest@;
        let ghost rest0d = rest.deep_view();
        let m = rest.remove(0);
        proof {
            assert(rest.deep_view() =~~= snap.skip(i + 1)) by {
                assert forall|j: int| 0 <= j < rest@.len() implies rest.deep_view()[j] == snap.skip(
                    i + 1,
                )[j] by {
                    assert(rest@[j] == rest0[j + 1]);
                    assert(rest.deep_view()[j] == rest0d[j + 1]);
                    assert(rest0d[j + 1] == snap.skip(i)[j + 1]);
                    assert(snap.skip(i)[j + 1] == snap.skip(i + 1)[j]);
                }
            }
            assert(m.deep_view() == rest0d[0]);
            assert(m@ == snap[i]);
            assert(snap.take(i + 1).drop_last() =~= snap.take(i));
            assert(snap.take(i + 1).last() == snap[i]);
        }
        let known_already = ship_known(known, m.id());
        let landed = (m.duration() as i128) + (m.launched() as i128) <= (now as i128);
        if !known_already && !landed {
            let ghost out0 = out.deep_view();
            out.push(m);
            proof {
                assert(out.deep_view() =~~= out0.push(snap[i]));
            }
        }
        proof {
            i = i + 1;
        }
    }
    proof {
        assert(snap.skip(i).len() == 0);
        assert(i == snap.len());
        assert(snap.take(snap.len() as int) =~= snap);
    }
    out
}

/// Whether a mission id is already on file.
fn ship_known(known: &Vec<SpaceShip>, id: &str) -> (r: bool)
    ensures
        r == crate::store::has_ship(known.deep_view(), id@),
{
    let mut i: usize = 0;
    while i < known.len()
        invariant
            i <= known.len(),
            forall|j: int| 0 <= j < i ==> known.deep_view()[j].id != id@,
        decreases known.len() - i,
    {
        if crate::records::str_eq(known[i].id.as_str(), id) {
            proof {
                assert(known.deep_view()[i as int].id == id@);
            }
            return true;
        }
        i += 1;
    }
    false
}

/// The subscription scheduler's adaptive cadence: how long after the last
/// snapshot a room is left alone, by how far away its estimated completion
/// lies. Four hours beyond a day out, two hours beyond six hours, one hour
/// beyond one hour, twenty minutes inside the last hour.
pub open spec fn spec_fetch_interval(diff: int) -> i64 {
    if diff > 86400 {
        14400
    } else if diff > 21600 {
        7200
    } else if diff > 3600 {
        3600
    } else {
        1200
    }
}

/// The adaptive refetch interval of one subscription at `current_time`.
pub fn calc_contract_fetch_interval(current_time: i64, subscribe: &SubscribeInfo) -> (r: i64)
    ensures
        r == spec_fetch_interval(subscribe.est - current_time),
{
    let diff: i128 = (subscribe.est() as i128) - (current_time as i128);
    if diff > 86400 {
        14400
    } else if diff > 21600 {
        7200
    } else if diff > 3600 {
        3600
    } else {
        1200
    }
}

/// Whether a subscription is actually refetched at `now`: only when the
/// cached snapshot is older than the adaptive interval.
pub fn should_refetch(now: i64, cache_timestamp: i64, subscribe: &SubscribeInfo) -> (r: bool)
    ensures
        r == (now - cache_timestamp >= spec_fetch_interval(subscribe.est - now)),
{
    let interval = calc_contract_fetch_interval(now, subscribe);
    (now as i128) - (cache_timestamp as i128) >= (interval as i128)
}

/// What the poll round does with one subscription.
#[derive(Clone, Copy, PartialEq, Eq, Structural, Debug)]
pub enum SubscriptionStep {
    /// No static metadata for the contract: nothing can be scored.
    SkipNoSpec,
    /// The cached snapshot is younger than the adaptive interval.
    SkipFresh,
    /// Nobody subscribes to the room any more.
    SkipEmpty,
    /// Fetch the room and run the engine.
    Fetch,
}

/// Decide what the subscription poll round does with one room at `now`:
/// skip without metadata, skip while the cached snapshot is fresh enough for
/// the adaptive cadence, skip a room nobody subscribes to, else fetch.
pub fn plan_subscription_poll(
    subscribe: &SubscribeInfo,
    has_spec_row: bool,
    cache_timestamp: i64,
    now: i64,
) -> (r: SubscriptionStep)
    ensures
        r == (if !has_spec_row {
            SubscriptionStep::SkipNoSpec
        } else if now - cache_timestamp < spec_fetch_interval(subscribe.est - now) {
            SubscriptionStep::SkipFresh
        } else if subscribe.users@.len() == 0 {
            SubscriptionStep::SkipEmpty
        } else {
            SubscriptionStep::Fetch
        }),
{
    if !has_spec_row {
        SubscriptionStep::SkipNoSpec
    } else if !should_refetch(now, cache_timestamp, subscribe) {
        SubscriptionStep::SkipFresh
    } else if subscribe.users.len() == 0 {
        SubscriptionStep::SkipEmpty
    } else {
        SubscriptionStep::Fetch
    }
}

/// One chat's aggregated contract-completion notice.
pub struct SubscriberNotice {
    pub chat: i64,
    pub rooms: Vec<SubscribeInfo>,
}

/// The abstract value of a [`SubscriberNotice`].
#[verifier::ext_equal]
pub ghost struct SubscriberNoticeV {
    pub chat: i64,
    pub rooms: Seq<crate::records::SubscribeInfoV>,
}

impl View for SubscriberNotice {
    type V = SubscriberNoticeV;

    open spec fn view(&self) -> SubscriberNoticeV {
        SubscriberNoticeV { chat: self.chat, rooms: self.rooms.deep_view() }
    }
}

impl DeepView for SubscriberNotice {
    type V = SubscriberNoticeV;

    open spec fn deep_view(&self) -> SubscriberNoticeV {
        self@
    }
}

/// The drained subscriptions chat `chat` hears about, in drain order.
pub open spec fn rooms_for_chat(subs: Seq<crate::records::SubscribeInfoV>, chat: i64) -> Seq<
    crate::records::SubscribeInfoV,
>
    decreases subs.len(),
{
    if subs.len() == 0 {
        Seq::empty()
    } else {
        let rest = rooms_for_chat(subs.drop_last(), chat);
        if subs.last().users.contains(chat) {
            rest.push(subs.last())
        } else {
            rest
        }
    }
}

/// Some of the first `n` drained subscriptions list `chat`.
pub open spec fn chat_in_subs_prefix(
    subs: Seq<crate::records::SubscribeInfoV>,
    chat: i64,
    n: int,
) -> bool {
    exists|k: int| 0 <= k < n && subs[k].users.contains(chat)
}

/// A chat hears about finished contracts exactly when it subscribes to one
/// of the drained rooms.
pub proof fn lemma_subscriber_hears_iff(subs: Seq<crate::records::SubscribeInfoV>, chat: i64)
    ensures
        rooms_for_chat(subs, chat).len() > 0 <==> chat_in_subs_prefix(
            subs,
            chat,
            subs.len() as int,
        ),
    decreases subs.len(),
{
    if subs.len() > 0 {
        lemma_subscriber_hears_iff(subs.drop_last(), chat);
        let front = subs.drop_last();
        assert(forall|k: int| 0 <= k < front.len() ==> front[k] == subs[k]);
        if subs.last().users.contains(chat) {
            assert(chat_in_subs_prefix(subs, chat, subs.len() as int)) by {
                assert(subs[subs.len() - 1].users.contains(chat));
            }
        } else {
            assert(chat_in_subs_prefix(subs, chat, subs.len() as int) <==> chat_in_subs_prefix(
                front,
                chat,
                front.len() as int,
            )) by {
                if chat_in_subs_prefix(subs, chat, subs.len() as int) {
                    let k = choose|k: int|
                        0 <= k < subs.len() && subs[k].users.contains(chat);
                    assert(k < front.len());
                    assert(front[k].users.contains(chat));
                }
                if chat_in_subs_prefix(front, chat, front.len() as int) {
                    let k = choose|k: int|
                        0 <= k < front.len() && front[k].users.contains(chat);
                    assert(subs[k].users.contains(chat));
                }
            }
        }
    }
}

/// Group the drained finished contracts into one aggregated notice per
/// subscribing chat: every listed chat gets exactly one entry carrying
/// exactly its rooms, and no chat appears twice. A subscription with no
/// subscribers left reaches nobody and is simply discarded.
pub fn plan_subscribe_notifications(subs: &Vec<SubscribeInfo>) -> (r: Vec<SubscriberNotice>)
    ensures
        forall|i: int, j: int|
            0 <= i < j < r.deep_view().len() ==> r.deep_view()[i].chat != r.deep_view()[j].chat,
        forall|i: int|
            0 <= i < r.deep_view().len() ==> (#[trigger] r.deep_view()[i]).rooms
                == rooms_for_chat(subs.deep_view(), r.deep_view()[i].chat) && r.deep_view()[
                i
            ].rooms.len() > 0,
        forall|c: i64|
            rooms_for_chat(subs.deep_view(), c).len() > 0 ==> exists|i: int|
                0 <= i < r.deep_view().len() && r.deep_view()[i].chat == c,
{
    let ghost subv = subs.deep_view();

    // First pass: every subscribing chat, once.
    let mut chats: Vec<i64> = Vec::new();
    let mut i: usize = 0;
    while i < subs.len()
        invariant
            subv == subs.deep_view(),
            i <= subs@.len(),
            forall|x: int, y: int| 0 <= x < y < chats@.len() ==> chats@[x] != chats@[y],
            forall|c: i64| chats@.contains(c) <==> chat_in_subs_prefix(subv, c, i as int),
        decreases subs.len() - i,
    {
        let row = &subs[i];
        let mut j: usize = 0;
        while j < row.users.len()
            invariant
                subv == subs.deep_view(),
                i < subs@.len(),
                row == subs@[i as int],
                j <= row.users@.len(),
                forall|x: int, y: int| 0 <= x < y < chats@.len() ==> chats@[x] != chats@[y],
                forall|c: i64|
                    chats@.contains(c) <==> (chat_in_subs_prefix(subv, c, i as int) || exists|jj:
                        int| 0 <= jj < j && row.users@[jj] == c),
            decreases row.users.len() - j,
        {
            let u = row.users[j];
            let seen = ids_contain(&chats, u);
            if !seen {
                let ghost chats0 = chats@;
                chats.push(u);
                proof {
                    assert forall|c: i64| chats@.contains(c) implies (chat_in_subs_prefix(
                        subv,
                        c,
                        i as int,
                    ) || exists|jj: int| 0 <= jj <= j && row.users@[jj] == c) by {
                        let w = choose|w: int| 0 <= w < chats@.len() && chats@[w] == c;
                        if w < chats0.len() {
                            assert(chats0.contains(c)) by {
                                assert(chats0[w] == c);
                            }
                        } else {
                            assert(c == u);
                            assert(row.users@[j as int] == c);
                        }
                    }
                    assert forall|c: i64|
                        (chat_in_subs_prefix(subv, c, i as int) || exists|jj: int|
                            0 <= jj <= j && row.users@[jj] == c) implies chats@.contains(c) by {
                        if c == u {
                            assert(chats@[chats@.len() - 1] == c);
                        } else if chat_in_subs_prefix(subv, c, i as int) || exists|jj: int|
                            0 <= jj < j && row.users@[jj] == c {
                            assert(chats0.contains(c));
                            let w = choose|w: int| 0 <= w < chats0.len() && chats0[w] == c;
                            assert(chats@[w] == c);
                        } else {
                            let jj = choose|jj: int| 0 <= jj <= j && row.users@[jj] == c;
                            assert(jj == j);
                            assert(false);
                        }
                    }
                    assert forall|x: int, y: int|
                        0 <= x < y < chats@.len() implies chats@[x] != chats@[y] by {
                        if y == chats@.len() - 1 {
                            assert(chats@[x] == chats0[x]);
                            if chats@[x] == u {
                                assert(chats0.contains(u)) by {
                                    assert(chats0[x] == u);
                                }
                            }
                        }
                    }
                }
            } else {
                proof {
                    assert(exists|jj: int| 0 <= jj <= j && row.users@[jj] == u) by {
                        assert(row.users@[j as int] == u);
                    }
                }
            }
            j += 1;
        }
        proof {
            assert forall|c: i64|
                chat_in_subs_prefix(subv, c, i + 1) implies (chat_in_subs_prefix(subv, c, i as int)
                || subv[i as int].users.contains(c)) by {
                let k = choose|k: int| 0 <= k < i + 1 && subv[k].users.contains(c);
            }
            assert forall|c: i64|
                (chat_in_subs_prefix(subv, c, i as int) || subv[i as int].users.contains(
                    c,
                )) implies chat_in_subs_prefix(subv, c, i + 1) by {
                if subv[i as int].users.contains(c) {
                    assert(subv[i as int].users.contains(c));
                }
            }
            assert(forall|c: i64|
                (exists|jj: int| 0 <= jj < row.users@.len() && row.users@[jj] == c)
                    <==> subv[i as int].users.contains(c));
        }
        i += 1;
    }

    // Second pass: one entry per chat, carrying exactly its rooms.
    let mut out: Vec<SubscriberNotice> = Vec::new();
    let mut k: usize = 0;
    while k < chats.len()
        invariant
            subv == subs.deep_view(),
            k <= chats@.len(),
            forall|x: int, y: int| 0 <= x < y < chats@.len() ==> chats@[x] != chats@[y],
            forall|c: i64| chats@.contains(c) <==> chat_in_subs_prefix(subv, c, subv.len() as int),
            out.deep_view().len() == k,
            forall|x: int| 0 <= x < k ==> (#[trigger] out.deep_view()[x]).chat == chats@[x],
            forall|x: int|
                0 <= x < k ==> (#[trigger] out.deep_view()[x]).rooms == rooms_for_chat(
                    subv,
                    chats@[x],
                ),
        decreases chats.len() - k,
    {
        let chat = chats[k];
        let mut rooms: Vec<SubscribeInfo> = Vec::new();
        let mut m: usize = 0;
        proof {
            assert(subv.take(0) =~= Seq::<crate::records::SubscribeInfoV>::empty());
            assert(rooms.deep_view() =~= rooms_for_chat(subv.take(0), chat));
        }
        while m < subs.len()
            invariant
                subv == subs.deep_view(),
                m <= subs@.len(),
                rooms.deep_view() == rooms_for_chat(subv.take(m as int), chat),
            decreases subs.len() - m,
        {
            proof {
                assert(subv.take(m + 1).drop_last() =~= subv.take(m as int));
                assert(subv.take(m + 1).last() == subv[m as int]);
            }
            if ids_contain(&subs[m].users, chat) {
                let elem = subs[m].clone();
                let ghost rooms0 = rooms.deep_view();
                rooms.push(elem);
                proof {
                    assert(rooms.deep_view() =~~= rooms0.push(subv[m as int]));
                }
            }
            m += 1;
        }
        proof {
            assert(subv.take(subv.len() as int) =~= subv);
        }
        let ghost out0 = out.deep_view();
        out.push(SubscriberNotice { chat, rooms });
        proof {
            assert(out.deep_view() =~~= out0.push(
                SubscriberNoticeV { chat, rooms: rooms_for_chat(subv, chat) },
            ));
        }
        k += 1;
    }
    proof {
        assert forall|c: i64| rooms_for_chat(subv, c).len() > 0 implies exists|x: int|
            0 <= x < out.deep_view().len() && out.deep_view()[x].chat == c by {
            lemma_subscriber_hears_iff(subv, c);
            assert(chats@.contains(c));
            let w = choose|w: int| 0 <= w < chats@.len() && chats@[w] == c;
            assert(out.deep_view()[w].chat == c);
        }
        assert forall|x: int| 0 <= x < out.deep_view().len() implies (
        #[trigger] out.deep_view()[x]).rooms.len() > 0 by {
            let c = out.deep_view()[x].chat;
            lemma_subscriber_hears_iff(subv, c);
            assert(chats@.contains(c)) by {
                assert(chats@[x] == c);
            }
        }
    }
    out
}

/// The read-through freshness test: a cached room snapshot may stand in for
/// a remote fetch while it is at most `period` seconds old.
pub fn cache_is_recent(now: i64, cached_at: i64, period: i64) -> (r: bool)
    ensures
        r == (now - cached_at <= period),
{
    (now as i128) - (cached_at as i128) <= (period as i128)
}

/// What the score engine reported for one room: a normal run with a fresh
/// completion estimate, or that the goal is unreachable inside the contract
/// window, with the time it would actually take.
pub enum ScoreOutcome {
    Normal(i64),
    OutOfTime(i64),
}

/// How a poll result changes a stored completion estimate.
pub struct EstUpdate {
    /// The estimate to persist.
    pub est: i64,
    /// Whether subscribers are told about the revised time.
    pub notify: bool,
}

/// The tolerance inside which a revised estimate is not worth persisting.
pub const EST_TOLERANCE: i64 = 30;

/// Decide what to do with a fresh score-engine result for a room whose
/// stored estimate is `stored_est`. A normal result is persisted, and
/// announced, only when it moved by more than the tolerance; an out-of-time
/// result is stored silently as the new estimate.
pub fn decide_est_update(stored_est: i64, outcome: &ScoreOutcome) -> (r: Option<EstUpdate>)
    ensures
        match outcome {
            ScoreOutcome::Normal(est) => {
                if stored_est - *est > EST_TOLERANCE || *est - stored_est > EST_TOLERANCE {
                    r matches Some(u) && u.est == *est && u.notify
                } else {
                    r is None
                }
            },
            ScoreOutcome::OutOfTime(est) => r matches Some(u) && u.est == *est && !u.notify,
        },
{
    match outcome {
        ScoreOutcome::Normal(est) => {
            let diff: i128 = (stored_est as i128) - (*est as i128);
            if diff > (EST_TOLERANCE as i128) || -diff > (EST_TOLERANCE as i128) {
                Some(EstUpdate { est: *est, notify: true })
            } else {
                None
            }
        },
        ScoreOutcome::OutOfTime(est) => Some(EstUpdate { est: *est, notify: false }),
    }
}

/// What the remote fetch of one account produced, reduced to plain values.
pub struct AccountSnapshot {
    /// The display name the backend reports.
    pub user_name: Option<String>,
    /// The account's mission log.
    pub missions: Vec<SpaceShipInfo>,
}

/// Everything one per-account poll step decides once the fetch attempt has
/// returned. The fetch itself, and delivering the resulting messages, happen
/// outside; the plan is applied through the storage commands.
pub struct AccountRoundPlan {
    /// Fresh, not-yet-landed missions to insert and announce. A non-empty
    /// list also forces the cache-refill timer to fire early.
    pub insert_missions: Vec<SpaceShipInfo>,
    /// A changed display name to persist and announce.
    pub nickname_update: Option<String>,
    /// The fetch bookkeeping, when the backend answered at all.
    pub record: Option<FetchRecord>,
    /// Whether to tell the account's chats that the fetch failed.
    pub report_failure: bool,
}

/// Plan one per-account poll step at `now` from the fetch outcome: insert
/// exactly the snapshot's fresh un-landed missions, persist a changed
/// nickname, move the fetch clock only when the backend answered (disabling
/// the account on a rejection), and report any failure to the account's
/// chats. One bad account never affects its siblings: every outcome yields a
/// plan.
pub fn plan_account_round(
    account: &Account,
    missions_on_file: &Vec<SpaceShip>,
    outcome: Result<AccountSnapshot, QueryError>,
    now: i64,
) -> (r: AccountRoundPlan)
    ensures
        match outcome {
            Ok(snap) => {
                &&& r.insert_missions.deep_view() == spec_new_missions(
                    missions_on_file.deep_view(),
                    snap.missions.deep_view(),
                    now,
                )
                &&& (match snap.user_name {
                    Some(n) => {
                        if account@.nickname != Some(n@) {
                            r.nickname_update matches Some(u) && u@ == n@
                        } else {
                            r.nickname_update is None
                        }
                    },
                    None => r.nickname_update is None,
                })
                &&& r.record matches Some(rec) && rec.last_fetch == now && !rec.disable
                &&& !r.report_failure
            },
            Err(e) => {
                &&& r.insert_missions.deep_view() == Seq::<SpaceShipInfoV>::empty()
                &&& r.nickname_update is None
                &&& (match e {
                    QueryError::User(_) => r.record matches Some(rec) && rec.last_fetch == now
                        && rec.disable,
                    QueryError::System(_) => r.record is None,
                    QueryError::Other(_) => r.record is None,
                })
                &&& r.report_failure
            },
        },
{
    match outcome {
        Ok(snap) => {
            let nickname_update = match snap.user_name {
                Some(n) => {
                    if nickname_changed(&account.nickname, n.as_str()) {
                        Some(n)
                    } else {
                        None
                    }
                },
                None => None,
            };
            AccountRoundPlan {
                insert_missions: new_missions(missions_on_file, snap.missions, now),
                nickname_update,
                record: Some(FetchRecord { last_fetch: now, disable: false }),
                report_failure: false,
            }
        },
        Err(e) => {
            let record = plan_fetch_record(&Err::<(), QueryError>(e), now);
            let empty: Vec<SpaceShipInfo> = Vec::new();
            proof {
                assert(empty.deep_view() =~= Seq::<SpaceShipInfoV>::empty());
            }
            AccountRoundPlan {
                insert_missions: empty,
                nickname_update: None,
                record,
                report_failure: true,
            }
        },
    }
}

/// A list of subscription rows as mathematical values.
pub open spec fn subs_deep(s: Seq<SubscribeInfo>) -> Seq<crate::records::SubscribeInfoV> {
    s.map_values(|x: SubscribeInfo| x.deep_view())
}

/// A command into the contract-subscription scheduler's loop.
pub enum ContractSubscriberEvent {
    /// A room was just subscribed: poll and refill at once instead of
    /// waiting out the running periods.
    NewContract,
    /// Refill the cache now; optionally throw the current contents away
    /// first (the admin cache-repair command).
    RefreshCache { invalidate: bool },
    /// Inject synthetic subscriptions for `user`, due at the given offsets
    /// from now (a test hook for the admin surface).
    InsertCache { user: i64, notify_times: Vec<i64> },
    /// Stop the loop.
    Exit,
}

/// What one scheduler tick does with its timers after a command.
pub struct SubscriberTick {
    /// Fire the remote-poll timer immediately.
    pub reset_query_timer: bool,
    /// Fire the cache-refresh timer immediately.
    pub reset_refresh_timer: bool,
    /// Leave the loop.
    pub exit: bool,
}

/// The synthetic subscriptions injected by the admin test hook: one per
/// offset, all for `user`, due at `now` plus the offset, identified by the
/// offset's position.
pub open spec fn spec_fake_subscribes(user: i64, times: Seq<i64>, now: i64) -> Seq<
    crate::records::SubscribeInfoV,
>
    decreases times.len(),
{
    if times.len() == 0 {
        Seq::empty()
    } else {
        spec_fake_subscribes(user, times.drop_last(), now).push(
            crate::records::SubscribeInfoV {
                id: "synthetic"@,
                room: crate::types::dec_str((times.len() - 1) as nat),
                users: seq![user],
                est: spec_clamped_add(now, times.last()),
                notified: false,
            },
        )
    }
}

/// Saturating addition on timestamps.
pub open spec fn spec_clamped_add(a: i64, b: i64) -> i64 {
    if a + b > i64::MAX {
        i64::MAX
    } else if a + b < i64::MIN {
        i64::MIN
    } else {
        (a + b) as i64
    }
}

/// Apply one command to the subscription scheduler's cache and say which
/// timers to fire: a fresh subscription forces both an immediate poll and an
/// immediate refill, a cache-repair command optionally clears the cache and
/// refills, the test hook files its synthetic rooms, and `Exit` stops the
/// loop.
pub fn handle_subscriber_command(
    cache: &mut crate::cache::EventCache<SubscribeInfo>,
    event: &ContractSubscriberEvent,
    now: i64,
) -> (r: SubscriberTick)
    requires
        old(cache).wf(),
    ensures
        final(cache).wf(),
        match event {
            ContractSubscriberEvent::NewContract => r.reset_query_timer && r.reset_refresh_timer
                && !r.exit && final(cache).view_buckets() == old(cache).view_buckets(),
            ContractSubscriberEvent::RefreshCache { invalidate } => !r.reset_query_timer
                && r.reset_refresh_timer && !r.exit && final(cache).view_buckets() == (
            if *invalidate {
                Seq::<(i64, Seq<SubscribeInfo>)>::empty()
            } else {
                old(cache).view_buckets()
            }),
            ContractSubscriberEvent::InsertCache { user, notify_times } => !r.reset_query_timer
                && !r.reset_refresh_timer && !r.exit && exists|fakes: Seq<SubscribeInfo>|
                subs_deep(fakes) == spec_fake_subscribes(*user, notify_times@, now)
                    && final(cache).view_buckets() == crate::cache::refill_events(
                    old(cache).view_buckets(),
                    fakes,
                ),
            ContractSubscriberEvent::Exit => r.exit && final(cache).view_buckets() == old(
                cache,
            ).view_buckets(),
        },
{
    match event {
        ContractSubscriberEvent::NewContract => SubscriberTick {
            reset_query_timer: true,
            reset_refresh_timer: true,
            exit: false,
        },
        ContractSubscriberEvent::RefreshCache { invalidate } => {
            if *invalidate {
                cache.clear();
            }
            SubscriberTick { reset_query_timer: false, reset_refresh_timer: true, exit: false }
        },
        ContractSubscriberEvent::InsertCache { user, notify_times } => {
            let fakes = fake_subscribes(*user, notify_times, now);
            let ghost fakes_seq = fakes@;
            let ghost fakes_dv = fakes.deep_view();
            cache.refill(fakes);
            proof {
                assert(subs_deep(fakes_seq) =~= fakes_dv);
            }
            SubscriberTick { reset_query_timer: false, reset_refresh_timer: false, exit: false }
        },
        ContractSubscriberEvent::Exit => SubscriberTick {
            reset_query_timer: false,
            reset_refresh_timer: false,
            exit: true,
        },
    }
}

/// Build the synthetic subscriptions of the admin test hook.
fn fake_subscribes(user: i64, notify_times: &Vec<i64>, now: i64) -> (r: Vec<SubscribeInfo>)
    ensures
        r.deep_view() == spec_fake_subscribes(user, notify_times@, now),
{
    let mut out: Vec<SubscribeInfo> = Vec::new();
    let mut i: usize = 0;
    proof {
        assert(notify_times@.take(0) =~= Seq::<i64>::empty());
        assert(out.deep_view() =~= spec_fake_subscribes(user, notify_times@.take(0), now));
    }
    while i < notify_times.len()
        invariant
            i <= notify_times.len(),
            out.deep_view() == spec_fake_subscribes(user, notify_times@.take(i as int), now),
        decreases notify_times.len() - i,
    {
        proof {
            assert(notify_times@.take(i + 1).drop_last() =~= notify_times@.take(i as int));
            assert(notify_times@.take(i + 1).last() == notify_times@[i as int]);
        }
        let offset = notify_times[i];
        let est = clamped_add(now, offset);
        let mut users: Vec<i64> = Vec::new();
        users.push(user);
        proof {
            assert(users@ =~= seq![user]);
        }
        let room = crate::types::u64_to_string(i as u64);
        let row = SubscribeInfo {
            id: "synthetic".to_owned(),
            room,
            users,
            est,
            notified: false,
        };
        let ghost out0 = out.deep_view();
        out.push(row);
        proof {
            assert(out.deep_view() =~~= out0.push(
                spec_fake_subscribes(user, notify_times@.take(i + 1), now).last(),
            ));
            assert(out.deep_view() =~~= spec_fake_subscribes(
                user,
                notify_times@.take(i + 1),
                now,
            ));
        }
        i += 1;
    }
    proof {
        assert(notify_times@.take(notify_times@.len() as int) =~= notify_times@);
    }
    out
}

/// Saturating addition on timestamps.
fn clamped_add(a: i64, b: i64) -> (r: i64)
    ensures
        r == spec_clamped_add(a, b),
{
    let wide: i128 = (a as i128) + (b as i128);
    if wide > (i64::MAX as i128) {
        i64::MAX
    } else if wide < (i64::MIN as i128) {
        i64::MIN
    } else {
        wide as i64
    }
}

/// Walk a mission list most-recent-first when showing "recent" missions,
/// oldest-first otherwise.
pub fn iter_spaceships(spaceships: Vec<SpaceShip>, recent: bool) -> (r: Vec<SpaceShip>)
    ensures
        recent ==> r.deep_view() == spaceships.deep_view().reverse(),
        !recent ==> r == spaceships,
{
    if !recent {
        return spaceships;
    }
    let n = spaceships.len();
    let mut rest = spaceships;
    let mut out: Vec<SpaceShip> = Vec::new();
    let ghost full = rest.deep_view();
    while rest.len() > 0
        invariant
            rest@.len() + out@.len() == full.len(),
            rest.deep_view() == full.take(rest@.len() as int),
            forall|j: int|
                0 <= j < out@.len() ==> #[trigger] out.deep_view()[j] == full[full.len() - 1 - j],
        decreases rest.len(),
    {
        let ghost rest0 = rest.deep_view();
        let last = match rest.pop() {
            Some(x) => x,
            None => {
                proof {
                    assert(false);
                }
                return out;
            },
        };
        proof {
            assert(last.deep_view() == rest0.last());
            assert(rest.deep_view() =~~= full.take(rest@.len() as int));
        }
        let ghost out0 = out.deep_view();
        out.push(last);
        proof {
            assert(out.deep_view() =~~= out0.push(rest0.last()));
        }
    }
    proof {
        assert(out.deep_view() =~~= full.reverse());
    }
    out
}

/// One chat's aggregated landing notice: every due mission of the accounts
/// mapped to that chat.
pub struct ChatNotification {
    pub chat: i64,
    pub missions: Vec<SpaceShip>,
}

/// The abstract value of a [`ChatNotification`].
#[verifier::ext_equal]
pub ghost struct ChatNotificationV {
    pub chat: i64,
    pub missions: Seq<SpaceShipV>,
}

impl View for ChatNotification {
    type V = ChatNotificationV;

    open spec fn view(&self) -> ChatNotificationV {
        ChatNotificationV { chat: self.chat, missions: self.missions.deep_view() }
    }
}

impl DeepView for ChatNotification {
    type V = ChatNotificationV;

    open spec fn deep_view(&self) -> ChatNotificationV {
        self@
    }
}

/// The due missions chat `chat` hears about: those whose account the chat is
/// mapped to, in drain order.
pub open spec fn missions_for_chat(
    due: Seq<SpaceShipV>,
    maps: Seq<crate::records::AccountMapV>,
    chat: i64,
) -> Seq<SpaceShipV>
    decreases due.len(),
{
    if due.len() == 0 {
        Seq::empty()
    } else {
        let rest = missions_for_chat(due.drop_last(), maps, chat);
        if crate::store::map_links_user(maps, due.last().belong, chat) {
            rest.push(due.last())
        } else {
            rest
        }
    }
}

/// Some of the first `n` due missions belong to an account of `chat`.
pub open spec fn chat_in_prefix(
    due: Seq<SpaceShipV>,
    maps: Seq<crate::records::AccountMapV>,
    chat: i64,
    n: int,
) -> bool {
    exists|k: int| 0 <= k < n && crate::store::map_links_user(maps, due[k].belong, chat)
}

/// A chat hears something exactly when one of the due missions belongs to
/// one of its accounts.
pub proof fn lemma_chat_hears_iff(
    due: Seq<SpaceShipV>,
    maps: Seq<crate::records::AccountMapV>,
    chat: i64,
)
    ensures
        missions_for_chat(due, maps, chat).len() > 0 <==> chat_in_prefix(
            due,
            maps,
            chat,
            due.len() as int,
        ),
    decreases due.len(),
{
    if due.len() > 0 {
        lemma_chat_hears_iff(due.drop_last(), maps, chat);
        let front = due.drop_last();
        assert(forall|k: int| 0 <= k < front.len() ==> front[k] == due[k]);
        if crate::store::map_links_user(maps, due.last().belong, chat) {
            assert(chat_in_prefix(due, maps, chat, due.len() as int)) by {
                assert(crate::store::map_links_user(
                    maps,
                    due[due.len() - 1].belong,
                    chat,
                ));
            }
        } else {
            assert(chat_in_prefix(due, maps, chat, due.len() as int) <==> chat_in_prefix(
                front,
                maps,
                chat,
                front.len() as int,
            )) by {
                if chat_in_prefix(due, maps, chat, due.len() as int) {
                    let k = choose|k: int|
                        0 <= k < due.len() && crate::store::map_links_user(
                            maps,
                            due[k].belong,
                            chat,
                        );
                    assert(k < front.len());
                    assert(crate::store::map_links_user(maps, front[k].belong, chat));
                }
                if chat_in_prefix(front, maps, chat, front.len() as int) {
                    let k = choose|k: int|
                        0 <= k < front.len() && crate::store::map_links_user(
                            maps,
                            front[k].belong,
                            chat,
                        );
                    assert(crate::store::map_links_user(maps, due[k].belong, chat));
                }
            }
        }
    }
}

/// Whether `chat` is mapped to account `belong`.
fn chat_linked(db: &crate::store::Database, belong: &str, chat: i64) -> (r: bool)
    requires
        db.wf(),
    ensures
        r == crate::store::map_links_user(db.account_maps.deep_view(), belong@, chat),
{
    let maps = Ghost(db.account_maps.deep_view());
    match db.query_account_map(belong) {
        Some(row) => {
            let present = ids_contain(&row.users, chat);
            proof {
                let k = choose|k: int| 0 <= k < maps@.len() && maps@[k] == row@;
                assert(maps@[k].ei == belong@);
                if present {
                    assert(crate::store::map_links_user(maps@, belong@, chat)) by {
                        assert(maps@[k].users.contains(chat));
                    }
                } else {
                    if crate::store::map_links_user(maps@, belong@, chat) {
                        let w = choose|w: int|
                            0 <= w < maps@.len() && maps@[w].ei == belong@
                                && maps@[w].users.contains(chat);
                        if w != k {
                            assert(false);
                        }
                    }
                }
            }
            present
        },
        None => {
            proof {
                if crate::store::map_links_user(maps@, belong@, chat) {
                    let w = choose|w: int|
                        0 <= w < maps@.len() && maps@[w].ei == belong@ && maps@[w].users.contains(
                            chat,
                        );
                    assert(false);
                }
            }
            false
        },
    }
}

/// Group the drained missions into one aggregated notice per chat: every
/// chat mapped to a due mission's account gets exactly one entry carrying
/// exactly its accounts' due missions, and no chat appears twice.
pub fn plan_mission_notifications(due: &Vec<SpaceShip>, db: &crate::store::Database) -> (r: Vec<
    ChatNotification,
>)
    requires
        db.wf(),
    ensures
        forall|i: int, j: int|
            0 <= i < j < r.deep_view().len() ==> r.deep_view()[i].chat != r.deep_view()[j].chat,
        forall|i: int|
            0 <= i < r.deep_view().len() ==> (#[trigger] r.deep_view()[i]).missions
                == missions_for_chat(
                due.deep_view(),
                db.account_maps.deep_view(),
                r.deep_view()[i].chat,
            ) && r.deep_view()[i].missions.len() > 0,
        forall|c: i64|
            missions_for_chat(due.deep_view(), db.account_maps.deep_view(), c).len() > 0
                ==> exists|i: int| 0 <= i < r.deep_view().len() && r.deep_view()[i].chat == c,
{
    let ghost duev = due.deep_view();
    let ghost maps = db.account_maps.deep_view();

    // First pass: collect every chat mapped to a due mission's account, each
    // once.
    let mut chats: Vec<i64> = Vec::new();
    let mut i: usize = 0;
    while i < due.len()
        invariant
            db.wf(),
            duev == due.deep_view(),
            maps == db.account_maps.deep_view(),
            i <= due@.len(),
            forall|x: int, y: int| 0 <= x < y < chats@.len() ==> chats@[x] != chats@[y],
            forall|c: i64| chats@.contains(c) <==> chat_in_prefix(duev, maps, c, i as int),
        decreases due.len() - i,
    {
        let ghost belong = duev[i as int].belong;
        match db.query_account_map(due[i].belong.as_str()) {
            Some(row) => {
                proof {
                    let k = choose|k: int| 0 <= k < maps.len() && maps[k] == row@;
                    assert(maps[k].ei == belong);
                }
                let mut j: usize = 0;
                while j < row.users.len()
                    invariant
                        db.wf(),
                        duev == due.deep_view(),
                        maps == db.account_maps.deep_view(),
                        i < due@.len(),
                        belong == duev[i as int].belong,
                        maps.contains(row@),
                        row@.ei == belong,
                        j <= row.users@.len(),
                        forall|x: int, y: int| 0 <= x < y < chats@.len() ==> chats@[x]
                            != chats@[y],
                        forall|c: i64|
                            chats@.contains(c) <==> (chat_in_prefix(duev, maps, c, i as int)
                                || exists|jj: int| 0 <= jj < j && row.users@[jj] == c),
                    decreases row.users.len() - j,
                {
                    let u = row.users[j];
                    let seen = ids_contain(&chats, u);
                    if !seen {
                        let ghost chats0 = chats@;
                        chats.push(u);
                        proof {
                            assert forall|c: i64| chats@.contains(c) implies (chat_in_prefix(
                                duev,
                                maps,
                                c,
                                i as int,
                            ) || exists|jj: int| 0 <= jj <= j && row.users@[jj] == c) by {
                                let w = choose|w: int| 0 <= w < chats@.len() && chats@[w] == c;
                                if w < chats0.len() {
                                    assert(chats0.contains(c)) by {
                                        assert(chats0[w] == c);
                                    }
                                } else {
                                    assert(c == u);
                                    assert(row.users@[j as int] == c);
                                }
                            }
                            assert forall|c: i64|
                                (chat_in_prefix(duev, maps, c, i as int) || exists|jj: int|
                                    0 <= jj <= j && row.users@[jj] == c) implies chats@.contains(
                                c,
                            ) by {
                                if c == u {
                                    assert(chats@[chats@.len() - 1] == c);
                                } else if chat_in_prefix(duev, maps, c, i as int) || exists|jj:
                                    int| 0 <= jj < j && row.users@[jj] == c {
                                    assert(chats0.contains(c));
                                    let w = choose|w: int|
                                        0 <= w < chats0.len() && chats0[w] == c;
                                    assert(chats@[w] == c);
                                } else {
                                    let jj = choose|jj: int|
                                        0 <= jj <= j && row.users@[jj] == c;
                                    assert(jj == j);
                                    assert(false);
                                }
                            }
                            assert forall|x: int, y: int|
                                0 <= x < y < chats@.len() implies chats@[x] != chats@[y] by {
                                if y == chats@.len() - 1 {
                                    assert(chats@[x] == chats0[x]);
                                    if chats@[x] == u {
                                        assert(chats0.contains(u)) by {
                                            assert(chats0[x] == u);
                                        }
                                    }
                                }
                            }
                        }
                    } else {
                        proof {
                            assert(exists|jj: int| 0 <= jj <= j && row.users@[jj] == u) by {
                                assert(row.users@[j as int] == u);
                            }
                        }
                    }
                    j += 1;
                }
                proof {
                    lemma_prefix_step(duev, maps, i as int, row@);
                }
            },
            None => {
                proof {
                    assert forall|c: i64| chat_in_prefix(duev, maps, c, i + 1) implies
                        chat_in_prefix(duev, maps, c, i as int) by {
                        let k = choose|k: int|
                            0 <= k < i + 1 && crate::store::map_links_user(
                                maps,
                                duev[k].belong,
                                c,
                            );
                        if k == i {
                            let w = choose|w: int|
                                0 <= w < maps.len() && maps[w].ei == belong
                                    && maps[w].users.contains(c);
                            assert(false);
                        }
                    }
                }
            },
        }
        i += 1;
    }
    proof {
        assert(i == duev.len());
    }

    // Second pass: one entry per collected chat, carrying exactly its due
    // missions.
    let mut out: Vec<ChatNotification> = Vec::new();
    let mut k: usize = 0;
    while k < chats.len()
        invariant
            db.wf(),
            duev == due.deep_view(),
            maps == db.account_maps.deep_view(),
            k <= chats@.len(),
            forall|x: int, y: int| 0 <= x < y < chats@.len() ==> chats@[x] != chats@[y],
            forall|c: i64| chats@.contains(c) <==> chat_in_prefix(duev, maps, c, duev.len() as int),
            out.deep_view().len() == k,
            forall|x: int| 0 <= x < k ==> (#[trigger] out.deep_view()[x]).chat == chats@[x],
            forall|x: int|
                0 <= x < k ==> (#[trigger] out.deep_view()[x]).missions == missions_for_chat(
                    duev,
                    maps,
                    chats@[x],
                ),
        decreases chats.len() - k,
    {
        let chat = chats[k];
        let mut missions: Vec<SpaceShip> = Vec::new();
        let mut m: usize = 0;
        proof {
            assert(duev.take(0) =~= Seq::<SpaceShipV>::empty());
            assert(missions.deep_view() =~= missions_for_chat(duev.take(0), maps, chat));
        }
        while m < due.len()
            invariant
                db.wf(),
                duev == due.deep_view(),
                maps == db.account_maps.deep_view(),
                m <= due@.len(),
                missions.deep_view() == missions_for_chat(duev.take(m as int), maps, chat),
            decreases due.len() - m,
        {
            proof {
                assert(duev.take(m + 1).drop_last() =~= duev.take(m as int));
                assert(duev.take(m + 1).last() == duev[m as int]);
            }
            if chat_linked(db, due[m].belong.as_str(), chat) {
                let elem = due[m].clone();
                let ghost missions0 = missions.deep_view();
                missions.push(elem);
                proof {
                    assert(missions.deep_view() =~~= missions0.push(duev[m as int]));
                }
            }
            m += 1;
        }
        proof {
            assert(duev.take(duev.len() as int) =~= duev);
            lemma_chat_hears_iff(duev, maps, chat);
            assert(chats@.contains(chat)) by {
                assert(chats@[k as int] == chat);
            }
        }
        let ghost out0 = out.deep_view();
        out.push(ChatNotification { chat, missions });
        proof {
            assert(out.deep_view() =~~= out0.push(
                ChatNotificationV { chat, missions: missions_for_chat(duev, maps, chat) },
            ));
        }
        k += 1;
    }
    proof {
        assert forall|c: i64|
            missions_for_chat(duev, maps, c).len() > 0 implies exists|x: int|
            0 <= x < out.deep_view().len() && out.deep_view()[x].chat == c by {
            lemma_chat_hears_iff(duev, maps, c);
            assert(chats@.contains(c));
            let w = choose|w: int| 0 <= w < chats@.len() && chats@[w] == c;
            assert(out.deep_view()[w].chat == c);
        }
        assert forall|x: int| 0 <= x < out.deep_view().len() implies (
        #[trigger] out.deep_view()[x]).missions.len() > 0 by {
            let c = out.deep_view()[x].chat;
            lemma_chat_hears_iff(duev, maps, c);
            assert(chats@.contains(c)) by {
                assert(chats@[x] == c);
            }
        }
    }
    out
}

/// After processing one due mission whose account has reverse-index row
/// `row`, the collected-chat condition advances by one mission.
proof fn lemma_prefix_step(
    duev: Seq<SpaceShipV>,
    maps: Seq<crate::records::AccountMapV>,
    i: int,
    row: crate::records::AccountMapV,
)
    requires
        crate::store::unique_maps(maps),
        0 <= i < duev.len(),
        maps.contains(row),
        row.ei == duev[i].belong,
    ensures
        forall|c: i64|
            chat_in_prefix(duev, maps, c, i + 1) <==> (chat_in_prefix(duev, maps, c, i)
                || row.users.contains(c)),
{
    let k = choose|k: int| 0 <= k < maps.len() && maps[k] == row;
    assert forall|c: i64| chat_in_prefix(duev, maps, c, i + 1) implies (chat_in_prefix(
        duev,
        maps,
        c,
        i,
    ) || row.users.contains(c)) by {
        let w = choose|w: int|
            0 <= w < i + 1 && crate::store::map_links_user(maps, duev[w].belong, c);
        if w == i {
            let x = choose|x: int|
                0 <= x < maps.len() && maps[x].ei == duev[i].belong && maps[x].users.contains(c);
            if x != k {
                assert(maps[k].ei == duev[i].belong);
                assert(false);
            }
        }
    }
    assert forall|c: i64| (chat_in_prefix(duev, maps, c, i) || row.users.contains(c)) implies
        chat_in_prefix(duev, maps, c, i + 1) by {
        if row.users.contains(c) {
            assert(maps[k].ei == duev[i].belong && maps[k].users.contains(c));
            assert(crate::store::map_links_user(maps, duev[i].belong, c));
        }
    }
}

/// Account-disable idempotence: disabling an account that is already
/// disabled (more generally, writing a flag a row already carries) leaves
/// the account table exactly as it was.
pub proof fn lemma_disable_idempotent(s: Seq<AccountV>, ei: Seq<char>, disabled: bool)
    requires
        forall|k: int| 0 <= k < s.len() && s[k].ei == ei ==> #[trigger] s[k].disabled == disabled,
    ensures
        accounts_with_disabled(s, ei, disabled) == s,
{
    assert(accounts_with_disabled(s, ei, disabled) =~= s) by {
        assert forall|k: int| 0 <= k < s.len() implies accounts_with_disabled(s, ei, disabled)[k]
            == s[k] by {
            if s[k].ei == ei {
                assert(AccountV { disabled: disabled, ..s[k] } =~= s[k]);
            }
        }
    }
}

/// And in particular: applying the same disable twice is the same as
/// applying it once.
pub proof fn lemma_disable_twice(s: Seq<AccountV>, ei: Seq<char>, disabled: bool)
    ensures
        accounts_with_disabled(accounts_with_disabled(s, ei, disabled), ei, disabled)
            == accounts_with_disabled(s, ei, disabled),
{
    let once = accounts_with_disabled(s, ei, disabled);
    assert forall|k: int| 0 <= k < once.len() && once[k].ei == ei implies #[trigger] once[k].disabled
        == disabled by {
        assert(once[k] == (if s[k].ei == ei {
            AccountV { disabled: disabled, ..s[k] }
        } else {
            s[k]
        }));
    }
    lemma_disable_idempotent(once, ei, disabled);
}

} // verus!
