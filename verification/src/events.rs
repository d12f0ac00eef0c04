//! The storage actor's command surface: a typed command enum, the reply
//! values, and the dispatcher that applies one command to the store.
//!
//! The runtime shell owns the channel plumbing (a bounded multi-producer
//! queue with optional one-shot replies); everything it may do to the store
//! is [`Database::handle_event`], whose contract ties every command to the
//! verified table operation it performs.

use vstd::prelude::*;

use crate::records::{
    Account, AccountMap, AccountV, Contract, ContractCache, ContractSpec, SpaceShip, SpaceShipV,
    SubscribeInfo, User,
};
use crate::store::{
    Database, MISSION_CAP, capped_by_land, accounts_after_insert, accounts_with_disabled,
    accounts_with_nickname,
    accounts_with_status, accounts_with_timestamp, accounts_with_trace, caches_after_upsert,
    caches_with_timestamp, contracts_after_insert, contracts_after_set, contracts_of,
    count_belong, delete_applies, due_ships, due_subscribes, contracts_with_start_time,
    has_account, has_cache, has_contract, has_ship, has_spec, has_subscribe, has_user,
    index_of_cache, index_of_contract, index_of_user, maps_after_delete, maps_after_insert,
    query_ei_post, ships_after_insert, ships_of, ships_with_notified, subscribes_after_modify,
    subscribes_with_est, subscribes_with_notified, users_after_delete, users_after_insert,
};
use crate::records::{ContractCacheV, ContractV, UserV};

verus! {

/// One account together with (a selection of) its missions.
pub struct AccountMissions {
    pub account: Account,
    pub missions: Vec<SpaceShip>,
}

/// The abstract value of an [`AccountMissions`].
#[verifier::ext_equal]
pub ghost struct AccountMissionsV {
    pub account: AccountV,
    pub missions: Seq<SpaceShipV>,
}

impl View for AccountMissions {
    type V = AccountMissionsV;

    open spec fn view(&self) -> AccountMissionsV {
        AccountMissionsV { account: self.account@, missions: self.missions.deep_view() }
    }
}

impl DeepView for AccountMissions {
    type V = AccountMissionsV;

    open spec fn deep_view(&self) -> AccountMissionsV {
        self@
    }
}

/// The missions landing within the next hour after `now` whose notice is
/// still owed, in table order.
pub open spec fn recent_ships(s: Seq<SpaceShipV>, now: i64) -> Seq<SpaceShipV>
    decreases s.len(),
{
    if s.len() == 0 {
        Seq::empty()
    } else {
        let rest = recent_ships(s.drop_last(), now);
        if s.last().land > now && s.last().land - now <= 3600 && !s.last().notified {
            rest.push(s.last())
        } else {
            rest
        }
    }
}

/// What the per-user mission listing returns: one entry per account of the
/// user, each carrying that account's capped listing (at most
/// [`MISSION_CAP`] latest-landing missions, latest first), optionally
/// filtered down to the soon-landing unnotified ones.
pub open spec fn mission_query_by_user_post(
    users: Seq<UserV>,
    accounts: Seq<AccountV>,
    ships: Seq<SpaceShipV>,
    id: i64,
    recent: bool,
    now: i64,
    rdv: Seq<AccountMissionsV>,
) -> bool {
    if !has_user(users, id) {
        rdv.len() == 0
    } else {
        let u = users[index_of_user(users, id)];
        &&& rdv.len() == u.accounts.len()
        &&& forall|k: int|
            0 <= k < rdv.len() ==> #[trigger] rdv[k].account.ei == u.accounts[k]
                && accounts.contains(rdv[k].account) && exists|c: Seq<SpaceShipV>|
                capped_by_land(ships_of(ships, rdv[k].account.ei), c, MISSION_CAP as int)
                    && rdv[k].missions == (if recent {
                    recent_ships(c, now)
                } else {
                    c
                })
    }
}

/// A command to the storage actor. Mirrors the actor's channel protocol;
/// commands that carry a one-shot reply channel at runtime are answered here
/// through [`DatabaseReply`].
pub enum DatabaseEvent {
    AccountAdd { ei: String, user: i64 },
    UserQueryAll,
    AccountQuery { id: Option<i64> },
    AccountQueryUsers { ei: String },
    AccountQueryEI { ei: String },
    UserRemoveAccount { user: i64, ei: String },
    AccountUpdate { ei: String, disabled: bool },
    AccountContractUpdate { ei: String, enabled: bool },
    AccountNameUpdate { ei: String, name: String },
    AccountTimestampReset { ei: String },
    AccountMissionReset { ei: String, limit: usize },
    AccountStatusReset { ei: String, disabled: bool },
    MissionAdd { id: String, name: String, duration_type: i64, belong: String, land: i64 },
    MissionQuery { deadline: i64 },
    MissionQueryByUser { id: i64, query_recent: bool },
    MissionQueryByAccount { ei: String },
    MissionUpdated { id: String },
    MissionSingleQuery { identifier: String },
    ContractQuerySingle { id: String, ei: String },
    ContractQuerySpec { id: String },
    AccountQueryContract { ei: String },
    AccountInsertContract { id: String, room: String, ei: String, finished: bool },
    ContractUpdate { id: String, room: String, ei: String, finished: bool },
    ContractStartTimeUpdate { id: String, room: String, start_time: i64 },
    ContractCacheQuery { id: String, room: String },
    ContractCacheTimestampQuery { id: String, room: String },
    ContractCacheInsert {
        id: String,
        room: String,
        cache: Vec<u8>,
        progress: u64,
        cleared: bool,
        timestamp: Option<i64>,
        guarded: bool,
    },
    ContractCacheUpdateTimestamp { id: String, room: String },
    ContractSpecInsert(ContractSpec),
    SubscribeNew(String, String, i64),
    SubscribeFetch(Option<i64>),
    SubscribeTimestampUpdate(String, String, i64),
    SubscribeNotified(String, String),
    SubscribeSingleFetch(String, String),
    SubscribeDel(String, String, i64),
    Terminate,
}

/// The actor's answer to one command; `Empty` for fire-and-forget commands.
pub enum DatabaseReply {
    Empty,
    Flag(bool),
    Accounts(Vec<Account>),
    OptAccount(Option<Account>),
    Users(Vec<User>),
    OptMap(Option<AccountMap>),
    Ships(Vec<SpaceShip>),
    OptShip(Option<SpaceShip>),
    AccountShips(Vec<AccountMissions>),
    OptContract(Option<Contract>),
    Contracts(Vec<Contract>),
    OptSpec(Option<ContractSpec>),
    OptCache(Option<ContractCache>),
    OptTimestamp(Option<i64>),
    Subscribes(Vec<SubscribeInfo>),
    OptSubscribe(Option<SubscribeInfo>),
}

/// The three account/link tables stay untouched.
pub open spec fn frame_links(pre: Database, post: Database) -> bool {
    &&& post.accounts == pre.accounts
    &&& post.users == pre.users
    &&& post.account_maps == pre.account_maps
}

/// Everything outside the account table and the two link indexes stays
/// untouched.
pub open spec fn frame_outside_links(pre: Database, post: Database) -> bool {
    &&& post.spaceships == pre.spaceships
    &&& post.contracts == pre.contracts
    &&& post.contract_specs == pre.contract_specs
    &&& post.contract_caches == pre.contract_caches
    &&& post.subscribes == pre.subscribes
    &&& post.account_caches == pre.account_caches
}

/// Only the account table may change.
pub open spec fn frame_all_but_accounts(pre: Database, post: Database) -> bool {
    &&& post.users == pre.users
    &&& post.account_maps == pre.account_maps
    &&& frame_outside_links(pre, post)
}

/// Only the mission table may change.
pub open spec fn frame_all_but_ships(pre: Database, post: Database) -> bool {
    &&& frame_links(pre, post)
    &&& post.contracts == pre.contracts
    &&& post.contract_specs == pre.contract_specs
    &&& post.contract_caches == pre.contract_caches
    &&& post.subscribes == pre.subscribes
    &&& post.account_caches == pre.account_caches
}

/// Only the participation table may change.
pub open spec fn frame_all_but_contracts(pre: Database, post: Database) -> bool {
    &&& frame_links(pre, post)
    &&& post.spaceships == pre.spaceships
    &&& post.contract_specs == pre.contract_specs
    &&& post.contract_caches == pre.contract_caches
    &&& post.subscribes == pre.subscribes
    &&& post.account_caches == pre.account_caches
}

/// Only the contract-metadata table may change.
pub open spec fn frame_all_but_specs(pre: Database, post: Database) -> bool {
    &&& frame_links(pre, post)
    &&& post.spaceships == pre.spaceships
    &&& post.contracts == pre.contracts
    &&& post.contract_caches == pre.contract_caches
    &&& post.subscribes == pre.subscribes
    &&& post.account_caches == pre.account_caches
}

/// Only the snapshot-cache table may change.
pub open spec fn frame_all_but_caches(pre: Database, post: Database) -> bool {
    &&& frame_links(pre, post)
    &&& post.spaceships == pre.spaceships
    &&& post.contracts == pre.contracts
    &&& post.contract_specs == pre.contract_specs
    &&& post.subscribes == pre.subscribes
    &&& post.account_caches == pre.account_caches
}

/// Only the subscription table may change.
pub open spec fn frame_all_but_subscribes(pre: Database, post: Database) -> bool {
    &&& frame_links(pre, post)
    &&& post.spaceships == pre.spaceships
    &&& post.contracts == pre.contracts
    &&& post.contract_specs == pre.contract_specs
    &&& post.contract_caches == pre.contract_caches
    &&& post.account_caches == pre.account_caches
}

/// What applying `event` at time `now` does to the store and answers.
pub open spec fn handle_event_spec(
    pre: Database,
    post: Database,
    event: DatabaseEvent,
    now: i64,
    reply: DatabaseReply,
) -> bool {
    match event {
        DatabaseEvent::AccountAdd { ei, user } => {
            &&& post.accounts.deep_view() == accounts_after_insert(
                pre.accounts.deep_view(),
                ei@,
            )
            &&& post.account_maps.deep_view() == maps_after_insert(
                pre.account_maps.deep_view(),
                ei@,
                user,
            )
            &&& post.users.deep_view() == users_after_insert(pre.users.deep_view(), user, ei@)
            &&& frame_outside_links(pre, post)
            &&& reply == DatabaseReply::Flag(true)
        },
        DatabaseEvent::UserQueryAll => {
            &&& post == pre
            &&& reply matches DatabaseReply::Users(v) && v.deep_view() == pre.users.deep_view()
        },
        DatabaseEvent::AccountQuery { id } => {
            &&& post == pre
            &&& match id {
                Some(user) => reply matches DatabaseReply::Accounts(v) && (!has_user(
                    pre.users.deep_view(),
                    user,
                ) ==> v.deep_view() == Seq::<AccountV>::empty()) && (has_user(
                    pre.users.deep_view(),
                    user,
                ) ==> query_ei_post(
                    pre.users.deep_view(),
                    pre.accounts.deep_view(),
                    user,
                    v.deep_view(),
                )),
                None => reply matches DatabaseReply::Accounts(v) && v.deep_view()
                    == pre.accounts.deep_view(),
            }
        },
        DatabaseEvent::AccountQueryUsers { ei } => {
            &&& post == pre
            &&& reply matches DatabaseReply::OptMap(m) && (match m {
                Some(m) => pre.account_maps.deep_view().contains(m@) && m@.ei == ei@,
                None => forall|k: int|
                    0 <= k < pre.account_maps.deep_view().len()
                        ==> pre.account_maps.deep_view()[k].ei != ei@,
            })
        },
        DatabaseEvent::AccountQueryEI { ei } => {
            &&& post == pre
            &&& reply matches DatabaseReply::OptAccount(a) && (match a {
                Some(a) => pre.accounts.deep_view().contains(a@) && a@.ei == ei@,
                None => !has_account(pre.accounts.deep_view(), ei@),
            })
        },
        DatabaseEvent::UserRemoveAccount { user, ei } => {
            &&& delete_applies(pre.users.deep_view(), pre.account_maps.deep_view(), user, ei@)
                ==> post.users.deep_view() == users_after_delete(
                pre.users.deep_view(),
                user,
                ei@,
            ) && post.account_maps.deep_view() == maps_after_delete(
                pre.account_maps.deep_view(),
                ei@,
                user,
            )
            &&& !delete_applies(pre.users.deep_view(), pre.account_maps.deep_view(), user, ei@)
                ==> post.users == pre.users && post.account_maps == pre.account_maps
            &&& post.accounts == pre.accounts
            &&& frame_outside_links(pre, post)
            &&& reply == DatabaseReply::Empty
        },
        DatabaseEvent::AccountUpdate { ei, disabled } => {
            &&& post.accounts.deep_view() == accounts_with_status(
                pre.accounts.deep_view(),
                ei@,
                now,
                disabled,
            )
            &&& frame_all_but_accounts(pre, post)
            &&& reply == DatabaseReply::Empty
        },
        DatabaseEvent::AccountContractUpdate { ei, enabled } => {
            &&& post.accounts.deep_view() == accounts_with_trace(
                pre.accounts.deep_view(),
                ei@,
                enabled,
            )
            &&& frame_all_but_accounts(pre, post)
            &&& reply == DatabaseReply::Empty
        },
        DatabaseEvent::AccountNameUpdate { ei, name } => {
            &&& post.accounts.deep_view() == accounts_with_nickname(
                pre.accounts.deep_view(),
                ei@,
                name@,
            )
            &&& frame_all_but_accounts(pre, post)
            &&& reply == DatabaseReply::Empty
        },
        DatabaseEvent::AccountTimestampReset { ei } => {
            &&& post.accounts.deep_view() == accounts_with_timestamp(
                pre.accounts.deep_view(),
                ei@,
                0,
            )
            &&& frame_all_but_accounts(pre, post)
            &&& reply == DatabaseReply::Empty
        },
        DatabaseEvent::AccountMissionReset { ei, limit } => {
            &&& post.spaceships.deep_view().len() == pre.spaceships.deep_view().len()
            &&& forall|k: int|
                0 <= k < pre.spaceships.deep_view().len()
                    ==> #[trigger] post.spaceships.deep_view()[k] == (if pre.spaceships.deep_view()[k].belong
                    == ei@ && count_belong(pre.spaceships.deep_view(), ei@, k) < limit {
                    SpaceShipV { notified: false, ..pre.spaceships.deep_view()[k] }
                } else {
                    pre.spaceships.deep_view()[k]
                })
            &&& frame_all_but_ships(pre, post)
            &&& reply == DatabaseReply::Empty
        },
        DatabaseEvent::AccountStatusReset { ei, disabled } => {
            &&& post.accounts.deep_view() == accounts_with_disabled(
                pre.accounts.deep_view(),
                ei@,
                disabled,
            )
            &&& frame_all_but_accounts(pre, post)
            &&& reply == DatabaseReply::Empty
        },
        DatabaseEvent::MissionAdd { id, name, duration_type, belong, land } => {
            &&& post.spaceships.deep_view() == ships_after_insert(
                pre.spaceships.deep_view(),
                SpaceShipV {
                    id: id@,
                    name: name@,
                    duration_type: duration_type,
                    belong: belong@,
                    land: land,
                    notified: false,
                },
            )
            &&& frame_all_but_ships(pre, post)
            &&& reply == DatabaseReply::Empty
        },
        DatabaseEvent::MissionQuery { deadline } => {
            &&& post == pre
            &&& reply matches DatabaseReply::Ships(v) && v.deep_view() == due_ships(
                pre.spaceships.deep_view(),
                deadline,
            )
        },
        DatabaseEvent::MissionQueryByUser { id, query_recent } => {
            &&& post == pre
            &&& reply matches DatabaseReply::AccountShips(v) && mission_query_by_user_post(
                pre.users.deep_view(),
                pre.accounts.deep_view(),
                pre.spaceships.deep_view(),
                id,
                query_recent,
                now,
                v.deep_view(),
            )
        },
        DatabaseEvent::MissionQueryByAccount { ei } => {
            &&& post == pre
            &&& reply matches DatabaseReply::Ships(v) && capped_by_land(
                ships_of(pre.spaceships.deep_view(), ei@),
                v.deep_view(),
                MISSION_CAP as int,
            )
        },
        DatabaseEvent::MissionUpdated { id } => {
            &&& post.spaceships.deep_view() == ships_with_notified(
                pre.spaceships.deep_view(),
                id@,
            )
            &&& frame_all_but_ships(pre, post)
            &&& reply == DatabaseReply::Empty
        },
        DatabaseEvent::MissionSingleQuery { identifier } => {
            &&& post == pre
            &&& reply matches DatabaseReply::OptShip(s) && (match s {
                Some(s) => pre.spaceships.deep_view().contains(s@) && s@.id == identifier@,
                None => !has_ship(pre.spaceships.deep_view(), identifier@),
            })
        },
        DatabaseEvent::ContractQuerySingle { id, ei } => {
            &&& post == pre
            &&& reply matches DatabaseReply::OptContract(c) && (match c {
                Some(c) => pre.contracts.deep_view().contains(c@) && c@.id == id@ && c@.belong
                    == ei@,
                None => !has_contract(pre.contracts.deep_view(), id@, ei@),
            })
        },
        DatabaseEvent::ContractQuerySpec { id } => {
            &&& post == pre
            &&& reply matches DatabaseReply::OptSpec(c) && (match c {
                Some(c) => pre.contract_specs.deep_view().contains(c@) && c@.id == id@,
                None => !has_spec(pre.contract_specs.deep_view(), id@),
            })
        },
        DatabaseEvent::AccountQueryContract { ei } => {
            &&& post == pre
            &&& reply matches DatabaseReply::Contracts(v) && v.deep_view() == contracts_of(
                pre.contracts.deep_view(),
                ei@,
            )
        },
        DatabaseEvent::AccountInsertContract { id, room, ei, finished } => {
            if has_contract(pre.contracts.deep_view(), id@, ei@) {
                let c = pre.contracts.deep_view()[index_of_contract(
                    pre.contracts.deep_view(),
                    id@,
                    ei@,
                )];
                let changed = c.finished != finished || c.room != room@;
                &&& changed ==> post.contracts.deep_view() == contracts_after_set(
                    pre.contracts.deep_view(),
                    id@,
                    ei@,
                    room@,
                    finished,
                )
                &&& !changed ==> post.contracts == pre.contracts
                &&& frame_all_but_contracts(pre, post)
                &&& reply == DatabaseReply::Flag(changed)
            } else {
                &&& post.contracts.deep_view() == contracts_after_insert(
                    pre.contracts.deep_view(),
                    ContractV {
                        id: id@,
                        room: room@,
                        belong: ei@,
                        start_time: None,
                        finished: finished,
                    },
                )
                &&& frame_all_but_contracts(pre, post)
                &&& reply == DatabaseReply::Flag(true)
            }
        },
        DatabaseEvent::ContractUpdate { id, room, ei, finished } => {
            &&& post.contracts.deep_view() == contracts_after_set(
                pre.contracts.deep_view(),
                id@,
                ei@,
                room@,
                finished,
            )
            &&& frame_all_but_contracts(pre, post)
            &&& reply == DatabaseReply::Empty
        },
        DatabaseEvent::ContractStartTimeUpdate { id, room, start_time } => {
            &&& post.contracts.deep_view() == contracts_with_start_time(
                pre.contracts.deep_view(),
                id@,
                room@,
                start_time,
            )
            &&& frame_all_but_contracts(pre, post)
            &&& reply == DatabaseReply::Empty
        },
        DatabaseEvent::ContractCacheQuery { id, room } => {
            &&& post == pre
            &&& reply matches DatabaseReply::OptCache(c) && (match c {
                Some(c) => pre.contract_caches.deep_view().contains(c@) && c@.id == id@ && c@.room
                    == room@,
                None => !has_cache(pre.contract_caches.deep_view(), id@, room@),
            })
        },
        DatabaseEvent::ContractCacheTimestampQuery { id, room } => {
            &&& post == pre
            &&& reply matches DatabaseReply::OptTimestamp(t) && (match t {
                Some(t) => has_cache(pre.contract_caches.deep_view(), id@, room@)
                    && pre.contract_caches.deep_view()[index_of_cache(
                    pre.contract_caches.deep_view(),
                    id@,
                    room@,
                )].timestamp == t,
                None => !has_cache(pre.contract_caches.deep_view(), id@, room@),
            })
        },
        DatabaseEvent::ContractCacheInsert { id, room, cache, progress, cleared, timestamp, guarded } => {
            &&& post.contract_caches.deep_view() == caches_after_upsert(
                pre.contract_caches.deep_view(),
                ContractCacheV {
                    id: id@,
                    room: room@,
                    body: cache@,
                    progress: progress,
                    timestamp: (match timestamp {
                        Some(t) => t,
                        None => now,
                    }),
                    cleared: cleared,
                },
                guarded,
            )
            &&& frame_all_but_caches(pre, post)
            &&& reply == DatabaseReply::Flag(
                has_cache(pre.contract_caches.deep_view(), id@, room@),
            )
        },
        DatabaseEvent::ContractCacheUpdateTimestamp { id, room } => {
            &&& post.contract_caches.deep_view() == caches_with_timestamp(
                pre.contract_caches.deep_view(),
                id@,
                room@,
                0,
            )
            &&& frame_all_but_caches(pre, post)
            &&& reply == DatabaseReply::Empty
        },
        DatabaseEvent::ContractSpecInsert(spec) => {
            let fresh = !has_spec(pre.contract_specs.deep_view(), spec@.id);
            &&& fresh ==> post.contract_specs.deep_view() == pre.contract_specs.deep_view().push(
                spec@,
            )
            &&& !fresh ==> post.contract_specs == pre.contract_specs
            &&& frame_all_but_specs(pre, post)
            &&& reply == DatabaseReply::Flag(fresh)
        },
        DatabaseEvent::SubscribeNew(id, room, user) => {
            &&& post.subscribes.deep_view() == subscribes_after_modify(
                pre.subscribes.deep_view(),
                id@,
                room@,
                user,
                false,
            )
            &&& frame_all_but_subscribes(pre, post)
            &&& reply == DatabaseReply::Empty
        },
        DatabaseEvent::SubscribeFetch(timestamp) => {
            &&& post == pre
            &&& reply matches DatabaseReply::Subscribes(v) && v.deep_view() == due_subscribes(
                pre.subscribes.deep_view(),
                (match timestamp {
                    Some(t) => t,
                    None => now,
                }),
            )
        },
        DatabaseEvent::SubscribeTimestampUpdate(id, room, est) => {
            &&& post.subscribes.deep_view() == subscribes_with_est(
                pre.subscribes.deep_view(),
                id@,
                room@,
                est,
            )
            &&& frame_all_but_subscribes(pre, post)
            &&& reply == DatabaseReply::Empty
        },
        DatabaseEvent::SubscribeNotified(id, room) => {
            &&& post.subscribes.deep_view() == subscribes_with_notified(
                pre.subscribes.deep_view(),
                id@,
                room@,
            )
            &&& frame_all_but_subscribes(pre, post)
            &&& reply == DatabaseReply::Empty
        },
        DatabaseEvent::SubscribeSingleFetch(id, room) => {
            &&& post == pre
            &&& reply matches DatabaseReply::OptSubscribe(c) && (match c {
                Some(c) => pre.subscribes.deep_view().contains(c@) && c@.id == id@ && c@.room
                    == room@,
                None => !has_subscribe(pre.subscribes.deep_view(), id@, room@),
            })
        },
        DatabaseEvent::SubscribeDel(id, room, user) => {
            &&& post.subscribes.deep_view() == subscribes_after_modify(
                pre.subscribes.deep_view(),
                id@,
                room@,
                user,
                true,
            )
            &&& frame_all_but_subscribes(pre, post)
            &&& reply == DatabaseReply::Empty
        },
        DatabaseEvent::Terminate => false,
    }
}

impl Database {
    /// One account listing with either all or only the soon-landing
    /// unnotified missions of each account.
    pub fn mission_query_by_user(&self, id: i64, query_recent: bool, now: i64) -> (r: Vec<
        AccountMissions,
    >)
        requires
            self.wf(),
        ensures
            mission_query_by_user_post(
                self.users.deep_view(),
                self.accounts.deep_view(),
                self.spaceships.deep_view(),
                id,
                query_recent,
                now,
                r.deep_view(),
            ),
    {
        let accounts = self.query_ei(id);
        let mut out: Vec<AccountMissions> = Vec::new();
        let mut k: usize = 0;
        proof {
            assert(out.deep_view() =~= Seq::<AccountMissionsV>::empty());
            if !has_user(self.users.deep_view(), id) {
                assert(accounts.deep_view().len() == 0) by {
                    if accounts.deep_view().len() > 0 {
                        assert(accounts.deep_view() != Seq::<AccountV>::empty());
                    }
                }
            }
        }
        while k < accounts.len()
            invariant
                self.wf(),
                k <= accounts.len(),
                out.deep_view().len() == k,
                forall|j: int|
                    0 <= j < k ==> #[trigger] out.deep_view()[j].account
                        == accounts.deep_view()[j] && exists|c: Seq<SpaceShipV>|
                        capped_by_land(
                            ships_of(self.spaceships.deep_view(), accounts.deep_view()[j].ei),
                            c,
                            MISSION_CAP as int,
                        ) && out.deep_view()[j].missions == (if query_recent {
                            recent_ships(c, now)
                        } else {
                            c
                        }),
            decreases accounts.len() - k,
        {
            let account = accounts[k].clone();
            let all = self.query_spaceship_by_ei(account.ei.as_str());
            let ghost capped = all.deep_view();
            let missions = if query_recent {
                recent_filter(all, now)
            } else {
                all
            };
            let ghost out0 = out.deep_view();
            out.push(AccountMissions { account, missions });
            proof {
                assert(out.deep_view() =~~= out0.push(
                    AccountMissionsV {
                        account: accounts.deep_view()[k as int],
                        missions: (if query_recent {
                            recent_ships(capped, now)
                        } else {
                            capped
                        }),
                    },
                ));
                assert(capped_by_land(
                    ships_of(self.spaceships.deep_view(), accounts.deep_view()[k as int].ei),
                    capped,
                    MISSION_CAP as int,
                ));
            }
            k += 1;
        }
        out
    }

    /// Apply one command to the store at time `now` and produce its answer.
    /// `Terminate` never reaches the store: the actor loop stops on it.
    pub fn handle_event(&mut self, event: DatabaseEvent, now: i64) -> (reply: DatabaseReply)
        requires
            old(self).wf(),
            !(event is Terminate),
        ensures
            final(self).wf(),
            handle_event_spec(*old(self), *final(self), event, now, reply),
    {
        match event {
            DatabaseEvent::AccountAdd { ei, user } => {
                let r = self.insert_account(ei.as_str(), user);
                DatabaseReply::Flag(r)
            },
            DatabaseEvent::UserQueryAll => DatabaseReply::Users(self.query_all_user()),
            DatabaseEvent::AccountQuery { id } => match id {
                Some(user) => DatabaseReply::Accounts(self.query_ei(user)),
                None => DatabaseReply::Accounts(self.query_all_account()),
            },
            DatabaseEvent::AccountQueryUsers { ei } => DatabaseReply::OptMap(
                self.query_account_map(ei.as_str()),
            ),
            DatabaseEvent::AccountQueryEI { ei } => DatabaseReply::OptAccount(
                self.query_account(ei.as_str()),
            ),
            DatabaseEvent::UserRemoveAccount { user, ei } => {
                self.delete_account(user, ei.as_str());
                DatabaseReply::Empty
            },
            DatabaseEvent::AccountUpdate { ei, disabled } => {
                self.set_account_status(ei.as_str(), now, disabled);
                DatabaseReply::Empty
            },
            DatabaseEvent::AccountContractUpdate { ei, enabled } => {
                self.set_account_contract_trace(ei.as_str(), enabled);
                DatabaseReply::Empty
            },
            DatabaseEvent::AccountNameUpdate { ei, name } => {
                self.set_account_nickname(ei.as_str(), name.as_str());
                DatabaseReply::Empty
            },
            DatabaseEvent::AccountTimestampReset { ei } => {
                self.account_timestamp_reset(ei.as_str());
                DatabaseReply::Empty
            },
            DatabaseEvent::AccountMissionReset { ei, limit } => {
                self.account_mission_reset(ei.as_str(), limit);
                DatabaseReply::Empty
            },
            DatabaseEvent::AccountStatusReset { ei, disabled } => {
                self.account_status_reset(ei.as_str(), disabled);
                DatabaseReply::Empty
            },
            DatabaseEvent::MissionAdd { id, name, duration_type, belong, land } => {
                self.insert_spaceship(
                    id.as_str(),
                    name.as_str(),
                    duration_type,
                    belong.as_str(),
                    land,
                );
                DatabaseReply::Empty
            },
            DatabaseEvent::MissionQuery { deadline } => DatabaseReply::Ships(
                self.query_spaceship_by_time(deadline),
            ),
            DatabaseEvent::MissionQueryByUser { id, query_recent } => DatabaseReply::AccountShips(
                self.mission_query_by_user(id, query_recent, now),
            ),
            DatabaseEvent::MissionQueryByAccount { ei } => DatabaseReply::Ships(
                self.query_spaceship_by_ei(ei.as_str()),
            ),
            DatabaseEvent::MissionUpdated { id } => {
                self.mark_spaceship(id.as_str());
                DatabaseReply::Empty
            },
            DatabaseEvent::MissionSingleQuery { identifier } => DatabaseReply::OptShip(
                self.query_spaceship_by_id(identifier.as_str()),
            ),
            DatabaseEvent::ContractQuerySingle { id, ei } => DatabaseReply::OptContract(
                self.query_single_contract(id.as_str(), ei.as_str()),
            ),
            DatabaseEvent::ContractQuerySpec { id } => DatabaseReply::OptSpec(
                self.query_contract_spec(id.as_str()),
            ),
            DatabaseEvent::AccountQueryContract { ei } => DatabaseReply::Contracts(
                self.query_contract(ei.as_str()),
            ),
            DatabaseEvent::AccountInsertContract { id, room, ei, finished } => {
                match self.query_single_contract(id.as_str(), ei.as_str()) {
                    Some(c) => {
                        proof {
                            let ps = self.contracts.deep_view();
                            let k = index_of_contract(ps, id@, ei@);
                            assert(has_contract(ps, id@, ei@)) by {
                                let w = choose|w: int|
                                    0 <= w < ps.len() && ps[w] == c@;
                                assert(ps[w].id == id@ && ps[w].belong == ei@);
                            }
                            assert(0 <= k < ps.len() && ps[k].id == id@ && ps[k].belong == ei@)
                                by {
                                let w = choose|w: int|
                                    0 <= w < ps.len() && ps[w].id == id@ && ps[w].belong == ei@;
                                assert(ps[w].id == id@ && ps[w].belong == ei@);
                            }
                            assert(ps[k] == c@) by {
                                let w = choose|w: int|
                                    0 <= w < ps.len() && ps[w] == c@;
                                assert(ps[w].id == id@ && ps[w].belong == ei@);
                                if w != k {
                                    assert(false);
                                }
                            }
                        }
                        let changed = c.finished != finished || !crate::records::str_eq(
                            c.room.as_str(),
                            room.as_str(),
                        );
                        if changed {
                            self.set_contract(id.as_str(), ei.as_str(), room.as_str(), finished);
                        }
                        DatabaseReply::Flag(changed)
                    },
                    None => {
                        self.insert_user_contract(
                            id.as_str(),
                            room.as_str(),
                            ei.as_str(),
                            finished,
                        );
                        DatabaseReply::Flag(true)
                    },
                }
            },
            DatabaseEvent::ContractUpdate { id, room, ei, finished } => {
                self.set_contract(id.as_str(), ei.as_str(), room.as_str(), finished);
                DatabaseReply::Empty
            },
            DatabaseEvent::ContractStartTimeUpdate { id, room, start_time } => {
                self.set_contract_start_time(id.as_str(), room.as_str(), start_time);
                DatabaseReply::Empty
            },
            DatabaseEvent::ContractCacheQuery { id, room } => DatabaseReply::OptCache(
                self.query_contract_cache(id.as_str(), room.as_str()),
            ),
            DatabaseEvent::ContractCacheTimestampQuery { id, room } => DatabaseReply::OptTimestamp(
                self.query_contract_cache_timestamp(id.as_str(), room.as_str()),
            ),
            DatabaseEvent::ContractCacheInsert {
                id,
                room,
                cache,
                progress,
                cleared,
                timestamp,
                guarded,
            } => {
                let ts = match timestamp {
                    Some(t) => t,
                    None => now,
                };
                let existed = self.contract_cache_insert(
                    id.as_str(),
                    room.as_str(),
                    cache,
                    progress,
                    cleared,
                    ts,
                    guarded,
                );
                DatabaseReply::Flag(existed)
            },
            DatabaseEvent::ContractCacheUpdateTimestamp { id, room } => {
                self.update_contract_cache_timestamp(id.as_str(), room.as_str(), 0);
                DatabaseReply::Empty
            },
            DatabaseEvent::ContractSpecInsert(spec) => {
                let fresh = self.insert_contract_spec(spec);
                DatabaseReply::Flag(fresh)
            },
            DatabaseEvent::SubscribeNew(id, room, user) => {
                self.modify_subscribe(id.as_str(), room.as_str(), user, false);
                DatabaseReply::Empty
            },
            DatabaseEvent::SubscribeFetch(timestamp) => {
                let ts = match timestamp {
                    Some(t) => t,
                    None => now,
                };
                DatabaseReply::Subscribes(self.query_subscribe(ts))
            },
            DatabaseEvent::SubscribeTimestampUpdate(id, room, est) => {
                self.update_subscribe_est(id.as_str(), room.as_str(), est);
                DatabaseReply::Empty
            },
            DatabaseEvent::SubscribeNotified(id, room) => {
                self.update_subscribe_notified(id.as_str(), room.as_str());
                DatabaseReply::Empty
            },
            DatabaseEvent::SubscribeSingleFetch(id, room) => DatabaseReply::OptSubscribe(
                self.query_subscribe_single(id.as_str(), room.as_str()),
            ),
            DatabaseEvent::SubscribeDel(id, room, user) => {
                self.modify_subscribe(id.as_str(), room.as_str(), user, true);
                DatabaseReply::Empty
            },
            DatabaseEvent::Terminate => {
                proof {
                    assert(false);
                }
                DatabaseReply::Empty
            },
        }
    }
}

/// Filter a mission list down to those landing within the next hour after
/// `now` whose notice is still owed.
fn recent_filter(ships: Vec<SpaceShip>, now: i64) -> (r: Vec<SpaceShip>)
    ensures
        r.deep_view() == recent_ships(ships.deep_view(), now),
{
    let mut out: Vec<SpaceShip> = Vec::new();
    let mut i: usize = 0;
    proof {
        assert(ships.deep_view().take(0) =~= Seq::<SpaceShipV>::empty());
        assert(out.deep_view() =~= Seq::<SpaceShipV>::empty());
    }
    while i < ships.len()
        invariant
            i <= ships.len(),
            out.deep_view() == recent_ships(ships.deep_view().take(i as int), now),
        decreases ships.len() - i,
    {
        proof {
            let s = ships.deep_view();
            assert(s.take(i + 1).drop_last() =~= s.take(i as int));
            assert(s.take(i + 1).last() == s[i as int]);
        }
        let row = &ships[i];
        let recent = (row.land as i128) > (now as i128) && (row.land as i128) - (now as i128)
            <= 3600 && !row.notified;
        if recent {
            let elem = row.clone();
            let ghost out0 = out.deep_view();
            out.push(elem);
            proof {
                assert(out.deep_view() =~~= out0.push(ships.deep_view()[i as int]));
            }
        }
        i += 1;
    }
    proof {
        assert(ships.deep_view().take(ships@.len() as int) =~= ships.deep_view());
    }
    out
}

} // verus!
