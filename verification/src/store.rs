//! The storage actor's state and its command semantics.
//!
//! A single task owns the store; everything else reaches it through a typed
//! command enum ([`DatabaseEvent`]), so mutations are totally ordered. The
//! state transitions themselves are pure and are verified here; executing
//! them against the embedded relational store is the runtime shell's job.
//!
//! Key invariants, kept by every operation ([`Database::wf`]):
//! - each table is keyed (no two rows share a primary key);
//! - the two user/account link indexes are symmetric: an account appears in
//!   a user's list exactly when that user appears in the account's list;
//! - every account named by a user's list has a row in the account table.

use vstd::multiset::Multiset;
use vstd::prelude::*;

use crate::records::{
    Account, AccountCache, AccountCacheV, AccountMap, AccountMapV, AccountV, Contract,
    ContractCache, ContractCacheV, ContractSpec, ContractSpecV, ContractV, SpaceShip, SpaceShipV,
    SubscribeInfo, SubscribeInfoV, User, UserV, str_eq,
};

verus! {

/// No two accounts share a key.
pub open spec fn unique_accounts(s: Seq<AccountV>) -> bool {
    forall|i: int, j: int| 0 <= i < j < s.len() ==> s[i].ei != s[j].ei
}

/// No two users share an id.
pub open spec fn unique_users(s: Seq<UserV>) -> bool {
    forall|i: int, j: int| 0 <= i < j < s.len() ==> s[i].id != s[j].id
}

/// No two reverse-index rows share an account key.
pub open spec fn unique_maps(s: Seq<AccountMapV>) -> bool {
    forall|i: int, j: int| 0 <= i < j < s.len() ==> s[i].ei != s[j].ei
}

/// No two missions share an id.
pub open spec fn unique_ships(s: Seq<SpaceShipV>) -> bool {
    forall|i: int, j: int| 0 <= i < j < s.len() ==> s[i].id != s[j].id
}

/// One participation row per (contract, account).
pub open spec fn unique_contracts(s: Seq<ContractV>) -> bool {
    forall|i: int, j: int|
        0 <= i < j < s.len() ==> !(s[i].id == s[j].id && s[i].belong == s[j].belong)
}

/// One metadata row per contract.
pub open spec fn unique_specs(s: Seq<ContractSpecV>) -> bool {
    forall|i: int, j: int| 0 <= i < j < s.len() ==> s[i].id != s[j].id
}

/// One snapshot row per (contract, room).
pub open spec fn unique_caches(s: Seq<ContractCacheV>) -> bool {
    forall|i: int, j: int|
        0 <= i < j < s.len() ==> !(s[i].id == s[j].id && s[i].room == s[j].room)
}

/// One subscription row per (contract, room).
pub open spec fn unique_subscribes(s: Seq<SubscribeInfoV>) -> bool {
    forall|i: int, j: int|
        0 <= i < j < s.len() ==> !(s[i].id == s[j].id && s[i].room == s[j].room)
}

/// One status-cache row per account.
pub open spec fn unique_account_caches(s: Seq<AccountCacheV>) -> bool {
    forall|i: int, j: int| 0 <= i < j < s.len() ==> s[i].ei != s[j].ei
}

/// A sequence without repeated elements.
pub open spec fn distinct_seq<A>(s: Seq<A>) -> bool {
    forall|i: int, j: int| 0 <= i < j < s.len() ==> s[i] != s[j]
}

/// There is an account row keyed `ei`.
pub open spec fn has_account(s: Seq<AccountV>, ei: Seq<char>) -> bool {
    exists|k: int| 0 <= k < s.len() && s[k].ei == ei
}

/// The reverse index maps `ei` to a row that lists `user`.
pub open spec fn map_links_user(maps: Seq<AccountMapV>, ei: Seq<char>, user: i64) -> bool {
    exists|k: int| 0 <= k < maps.len() && maps[k].ei == ei && maps[k].users.contains(user)
}

/// The forward index has a row for `id` that lists `ei`.
pub open spec fn user_links_account(users: Seq<UserV>, id: i64, ei: Seq<char>) -> bool {
    exists|k: int| 0 <= k < users.len() && users[k].id == id && users[k].accounts.contains(ei)
}

/// The two link indexes agree: every account in a user's list maps back to
/// that user, and every user in an account's list lists that account.
pub open spec fn links_consistent(users: Seq<UserV>, maps: Seq<AccountMapV>) -> bool {
    &&& forall|i: int, j: int|
        0 <= i < users.len() && 0 <= j < users[i].accounts.len() ==> map_links_user(
            maps,
            #[trigger] users[i].accounts[j],
            users[i].id,
        )
    &&& forall|i: int, j: int|
        0 <= i < maps.len() && 0 <= j < maps[i].users.len() ==> user_links_account(
            users,
            #[trigger] maps[i].users[j],
            maps[i].ei,
        )
}

/// Every account named by a user's list has a row in the account table.
pub open spec fn user_accounts_exist(users: Seq<UserV>, accounts: Seq<AccountV>) -> bool {
    forall|i: int, j: int|
        0 <= i < users.len() && 0 <= j < users[i].accounts.len() ==> has_account(
            accounts,
            #[trigger] users[i].accounts[j],
        )
}

/// There is a reverse-index row keyed `ei`.
pub open spec fn has_map(maps: Seq<AccountMapV>, ei: Seq<char>) -> bool {
    exists|k: int| 0 <= k < maps.len() && maps[k].ei == ei
}

/// Every account row has a reverse-index row.
pub open spec fn accounts_have_maps(accounts: Seq<AccountV>, maps: Seq<AccountMapV>) -> bool {
    forall|i: int| 0 <= i < accounts.len() ==> has_map(maps, #[trigger] accounts[i].ei)
}

/// Every reverse-index row has an account row.
pub open spec fn maps_have_accounts(maps: Seq<AccountMapV>, accounts: Seq<AccountV>) -> bool {
    forall|i: int| 0 <= i < maps.len() ==> has_account(accounts, #[trigger] maps[i].ei)
}

/// A reverse-index row with `user` added, if absent.
pub open spec fn map_with_user(m: AccountMapV, user: i64) -> AccountMapV {
    if m.users.contains(user) {
        m
    } else {
        AccountMapV { users: m.users.push(user), ..m }
    }
}

/// A user row with `ei` added, if absent.
pub open spec fn user_with_account(u: UserV, ei: Seq<char>) -> UserV {
    if u.accounts.contains(ei) {
        u
    } else {
        UserV { accounts: u.accounts.push(ei), ..u }
    }
}

/// The reverse index after registering `user` for `ei`.
pub open spec fn maps_after_insert(maps: Seq<AccountMapV>, ei: Seq<char>, user: i64) -> Seq<
    AccountMapV,
> {
    if has_map(maps, ei) {
        maps.map_values(
            |m: AccountMapV|
                if m.ei == ei {
                    map_with_user(m, user)
                } else {
                    m
                },
        )
    } else {
        maps.push(AccountMapV { ei: ei, users: seq![user] })
    }
}

/// The forward index after registering `ei` for `user`.
pub open spec fn users_after_insert(users: Seq<UserV>, user: i64, ei: Seq<char>) -> Seq<UserV> {
    if exists|k: int| 0 <= k < users.len() && users[k].id == user {
        users.map_values(
            |u: UserV|
                if u.id == user {
                    user_with_account(u, ei)
                } else {
                    u
                },
        )
    } else {
        users.push(UserV { id: user, accounts: seq![ei] })
    }
}

/// The account table after registering `ei`: unchanged if present, else one
/// fresh enabled row.
pub open spec fn accounts_after_insert(accounts: Seq<AccountV>, ei: Seq<char>) -> Seq<AccountV> {
    if has_account(accounts, ei) {
        accounts
    } else {
        accounts.push(
            AccountV {
                ei: ei,
                nickname: None,
                last_fetch: 0,
                disabled: false,
                contract_trace: false,
            },
        )
    }
}

/// The index of the user row keyed `id` (meaningful only when one exists).
pub open spec fn index_of_user(users: Seq<UserV>, id: i64) -> int {
    choose|k: int| 0 <= k < users.len() && users[k].id == id
}

/// The index of the reverse-index row keyed `ei` (meaningful only when one
/// exists).
pub open spec fn index_of_map(maps: Seq<AccountMapV>, ei: Seq<char>) -> int {
    choose|k: int| 0 <= k < maps.len() && maps[k].ei == ei
}

/// The index of `x` in `s` (meaningful only when `s` contains `x`).
pub open spec fn index_of_elem<A>(s: Seq<A>, x: A) -> int {
    choose|j: int| 0 <= j < s.len() && s[j] == x
}

/// There is a user row keyed `id`.
pub open spec fn has_user(users: Seq<UserV>, id: i64) -> bool {
    exists|k: int| 0 <= k < users.len() && users[k].id == id
}

/// Whether unregistering `ei` from `user` changes anything: both link rows
/// must exist.
pub open spec fn delete_applies(users: Seq<UserV>, maps: Seq<AccountMapV>, user: i64, ei: Seq<
    char,
>) -> bool {
    has_user(users, user) && has_map(maps, ei)
}

/// The forward index after unregistering `ei` from `user`.
pub open spec fn users_after_delete(pu: Seq<UserV>, user: i64, ei: Seq<char>) -> Seq<UserV> {
    let k = index_of_user(pu, user);
    if pu[k].accounts.contains(ei) {
        pu.update(
            k,
            UserV { accounts: pu[k].accounts.remove(index_of_elem(pu[k].accounts, ei)), ..pu[k] },
        )
    } else {
        pu
    }
}

/// The reverse index after unregistering `user` from `ei`.
pub open spec fn maps_after_delete(pm: Seq<AccountMapV>, ei: Seq<char>, user: i64) -> Seq<
    AccountMapV,
> {
    let k = index_of_map(pm, ei);
    if pm[k].users.contains(user) {
        pm.update(
            k,
            AccountMapV { users: pm[k].users.remove(index_of_elem(pm[k].users, user)), ..pm[k] },
        )
    } else {
        pm
    }
}

/// Removing the only occurrence of `x` from a duplicate-free sequence keeps
/// it duplicate-free, drops `x`, and keeps everything else.
proof fn lemma_remove_distinct<A>(s: Seq<A>, j: int)
    requires
        distinct_seq(s),
        0 <= j < s.len(),
    ensures
        distinct_seq(s.remove(j)),
        !s.remove(j).contains(s[j]),
        forall|y: A| y != s[j] ==> (s.remove(j).contains(y) <==> s.contains(y)),
{
    let t = s.remove(j);
    assert forall|x: int, y: int| 0 <= x < y < t.len() implies t[x] != t[y] by {
        assert(t[x] == (if x < j {
            s[x]
        } else {
            s[x + 1]
        }));
        assert(t[y] == (if y < j {
            s[y]
        } else {
            s[y + 1]
        }));
    }
    assert forall|x: int| 0 <= x < t.len() implies t[x] != s[j] by {
        assert(t[x] == (if x < j {
            s[x]
        } else {
            s[x + 1]
        }));
    }
    assert forall|y: A| y != s[j] && s.contains(y) implies t.contains(y) by {
        let m = choose|m: int| 0 <= m < s.len() && s[m] == y;
        if m < j {
            assert(t[m] == y);
        } else {
            assert(t[m - 1] == y);
        }
    }
    assert forall|y: A| y != s[j] && t.contains(y) implies s.contains(y) by {
        let m = choose|m: int| 0 <= m < t.len() && t[m] == y;
        assert(t[m] == (if m < j {
            s[m]
        } else {
            s[m + 1]
        }));
    }
}

/// The position of `x` in a list of strings, if present.
pub fn index_of_string(v: &Vec<String>, x: &str) -> (r: Option<usize>)
    ensures
        match r {
            Some(j) => j < v.deep_view().len() && v.deep_view()[j as int] == x@,
            None => !v.deep_view().contains(x@),
        },
{
    let mut i: usize = 0;
    while i < v.len()
        invariant
            i <= v.len(),
            forall|j: int| 0 <= j < i ==> v.deep_view()[j] != x@,
        decreases v.len() - i,
    {
        if str_eq(v[i].as_str(), x) {
            proof {
                assert(v.deep_view()[i as int] == x@);
            }
            return Some(i);
        }
        i += 1;
    }
    None
}

/// The position of `x` in a list of chat ids, if present.
pub fn index_of_id(v: &Vec<i64>, x: i64) -> (r: Option<usize>)
    ensures
        match r {
            Some(j) => j < v@.len() && v@[j as int] == x,
            None => !v@.contains(x),
        },
{
    let mut i: usize = 0;
    while i < v.len()
        invariant
            i <= v.len(),
            forall|j: int| 0 <= j < i ==> v@[j] != x,
        decreases v.len() - i,
    {
        if v[i] == x {
            return Some(i);
        }
        i += 1;
    }
    None
}

/// Whether `x` occurs in a list of chat ids.
pub fn ids_contain(v: &Vec<i64>, x: i64) -> (r: bool)
    ensures
        r == v@.contains(x),
{
    let mut i: usize = 0;
    while i < v.len()
        invariant
            i <= v.len(),
            forall|j: int| 0 <= j < i ==> v@[j] != x,
        decreases v.len() - i,
    {
        if v[i] == x {
            return true;
        }
        i += 1;
    }
    false
}

/// Whether `x` occurs in a list of strings.
pub fn strings_contain(v: &Vec<String>, x: &str) -> (r: bool)
    ensures
        r == v.deep_view().contains(x@),
{
    let mut i: usize = 0;
    while i < v.len()
        invariant
            i <= v.len(),
            forall|j: int| 0 <= j < i ==> v.deep_view()[j] != x@,
        decreases v.len() - i,
    {
        if str_eq(v[i].as_str(), x) {
            proof {
                assert(v.deep_view()[i as int] == x@);
            }
            return true;
        }
        i += 1;
    }
    false
}

/// The storage actor's state: one in-memory image of the relational tables.
pub struct Database {
    pub accounts: Vec<Account>,
    pub users: Vec<User>,
    pub account_maps: Vec<AccountMap>,
    pub spaceships: Vec<SpaceShip>,
    pub contracts: Vec<Contract>,
    pub contract_specs: Vec<ContractSpec>,
    pub contract_caches: Vec<ContractCache>,
    pub subscribes: Vec<SubscribeInfo>,
    pub account_caches: Vec<AccountCache>,
}

impl Database {
    /// Well-formedness: keyed tables, duplicate-free link lists, symmetric
    /// link indexes, and no dangling account reference.
    pub open spec fn wf(self) -> bool {
        &&& unique_accounts(self.accounts.deep_view())
        &&& unique_users(self.users.deep_view())
        &&& unique_maps(self.account_maps.deep_view())
        &&& unique_ships(self.spaceships.deep_view())
        &&& unique_contracts(self.contracts.deep_view())
        &&& unique_specs(self.contract_specs.deep_view())
        &&& unique_caches(self.contract_caches.deep_view())
        &&& unique_subscribes(self.subscribes.deep_view())
        &&& unique_account_caches(self.account_caches.deep_view())
        &&& forall|i: int|
            0 <= i < self.users.deep_view().len() ==> distinct_seq(
                #[trigger] self.users.deep_view()[i].accounts,
            )
        &&& forall|i: int|
            0 <= i < self.account_maps.deep_view().len() ==> distinct_seq(
                #[trigger] self.account_maps.deep_view()[i].users,
            )
        &&& forall|i: int|
            0 <= i < self.subscribes.deep_view().len() ==> distinct_seq(
                #[trigger] self.subscribes.deep_view()[i].users,
            )
        &&& links_consistent(self.users.deep_view(), self.account_maps.deep_view())
        &&& user_accounts_exist(self.users.deep_view(), self.accounts.deep_view())
        &&& accounts_have_maps(self.accounts.deep_view(), self.account_maps.deep_view())
        &&& maps_have_accounts(self.account_maps.deep_view(), self.accounts.deep_view())
    }

    /// An empty store.
    pub fn new() -> (r: Database)
        ensures
            r.wf(),
            r.accounts.deep_view() == Seq::<AccountV>::empty(),
            r.users.deep_view() == Seq::<UserV>::empty(),
            r.account_maps.deep_view() == Seq::<AccountMapV>::empty(),
            r.spaceships.deep_view() == Seq::<SpaceShipV>::empty(),
            r.contracts.deep_view() == Seq::<ContractV>::empty(),
            r.contract_specs.deep_view() == Seq::<ContractSpecV>::empty(),
            r.contract_caches.deep_view() == Seq::<ContractCacheV>::empty(),
            r.subscribes.deep_view() == Seq::<SubscribeInfoV>::empty(),
            r.account_caches.deep_view() == Seq::<AccountCacheV>::empty(),
    {
        let r = Database {
            accounts: Vec::new(),
            users: Vec::new(),
            account_maps: Vec::new(),
            spaceships: Vec::new(),
            contracts: Vec::new(),
            contract_specs: Vec::new(),
            contract_caches: Vec::new(),
            subscribes: Vec::new(),
            account_caches: Vec::new(),
        };
        proof {
            assert(r.accounts.deep_view() =~= Seq::<AccountV>::empty());
            assert(r.users.deep_view() =~= Seq::<UserV>::empty());
            assert(r.account_maps.deep_view() =~= Seq::<AccountMapV>::empty());
            assert(r.spaceships.deep_view() =~= Seq::<SpaceShipV>::empty());
            assert(r.contracts.deep_view() =~= Seq::<ContractV>::empty());
            assert(r.contract_specs.deep_view() =~= Seq::<ContractSpecV>::empty());
            assert(r.contract_caches.deep_view() =~= Seq::<ContractCacheV>::empty());
            assert(r.subscribes.deep_view() =~= Seq::<SubscribeInfoV>::empty());
            assert(r.account_caches.deep_view() =~= Seq::<AccountCacheV>::empty());
        }
        r
    }

    /// Index of the account row keyed `ei`.
    fn find_account(&self, ei: &str) -> (r: Option<usize>)
        ensures
            match r {
                Some(i) => i < self.accounts.deep_view().len()
                    && self.accounts.deep_view()[i as int].ei == ei@,
                None => !has_account(self.accounts.deep_view(), ei@),
            },
    {
        let mut i: usize = 0;
        while i < self.accounts.len()
            invariant
                i <= self.accounts.len(),
                forall|j: int| 0 <= j < i ==> self.accounts.deep_view()[j].ei != ei@,
            decreases self.accounts.len() - i,
        {
            if str_eq(self.accounts[i].ei.as_str(), ei) {
                return Some(i);
            }
            i += 1;
        }
        None
    }

    /// Index of the user row keyed `user`.
    fn find_user(&self, user: i64) -> (r: Option<usize>)
        ensures
            match r {
                Some(i) => i < self.users.deep_view().len()
                    && self.users.deep_view()[i as int].id == user,
                None => forall|k: int|
                    0 <= k < self.users.deep_view().len()
                        ==> self.users.deep_view()[k].id != user,
            },
    {
        let mut i: usize = 0;
        while i < self.users.len()
            invariant
                i <= self.users.len(),
                forall|j: int| 0 <= j < i ==> self.users.deep_view()[j].id != user,
            decreases self.users.len() - i,
        {
            if self.users[i].id == user {
                return Some(i);
            }
            i += 1;
        }
        None
    }

    /// Index of the reverse-index row keyed `ei`.
    fn find_map(&self, ei: &str) -> (r: Option<usize>)
        ensures
            match r {
                Some(i) => i < self.account_maps.deep_view().len()
                    && self.account_maps.deep_view()[i as int].ei == ei@,
                None => forall|k: int|
                    0 <= k < self.account_maps.deep_view().len()
                        ==> self.account_maps.deep_view()[k].ei != ei@,
            },
    {
        let mut i: usize = 0;
        while i < self.account_maps.len()
            invariant
                i <= self.account_maps.len(),
                forall|j: int| 0 <= j < i ==> self.account_maps.deep_view()[j].ei != ei@,
            decreases self.account_maps.len() - i,
        {
            if str_eq(self.account_maps[i].ei.as_str(), ei) {
                return Some(i);
            }
            i += 1;
        }
        None
    }

    /// Copy of the account row keyed `ei`, if any.
    pub fn query_account(&self, ei: &str) -> (r: Option<Account>)
        ensures
            match r {
                Some(a) => self.accounts.deep_view().contains(a@) && a@.ei == ei@,
                None => !has_account(self.accounts.deep_view(), ei@),
            },
    {
        match self.find_account(ei) {
            Some(i) => {
                let a = self.accounts[i].clone();
                proof {
                    assert(self.accounts.deep_view().contains(a@)) by {
                        assert(self.accounts.deep_view()[i as int] == a@);
                    }
                }
                Some(a)
            },
            None => None,
        }
    }

    /// Copies of all account rows.
    pub fn query_all_account(&self) -> (r: Vec<Account>)
        ensures
            r.deep_view() == self.accounts.deep_view(),
    {
        let mut out: Vec<Account> = Vec::new();
        let mut i: usize = 0;
        while i < self.accounts.len()
            invariant
                i <= self.accounts.len(),
                out.deep_view() =~= self.accounts.deep_view().take(i as int),
            decreases self.accounts.len() - i,
        {
            let elem = self.accounts[i].clone();
            proof {
                assert(out.deep_view().len() == out@.len());
            }
            out.push(elem);
            proof {
                assert(out.deep_view() =~~= self.accounts.deep_view().take(i + 1));
            }
            i += 1;
        }
        proof {
            assert(self.accounts.deep_view().take(self.accounts@.len() as int)
                =~= self.accounts.deep_view());
        }
        out
    }

    /// Copy of the user row keyed `user`, if any.
    pub fn query_user(&self, user: i64) -> (r: Option<User>)
        ensures
            match r {
                Some(u) => self.users.deep_view().contains(u@) && u@.id == user,
                None => forall|k: int|
                    0 <= k < self.users.deep_view().len()
                        ==> self.users.deep_view()[k].id != user,
            },
    {
        match self.find_user(user) {
            Some(i) => {
                let u = self.users[i].clone();
                proof {
                    assert(self.users.deep_view().contains(u@)) by {
                        assert(self.users.deep_view()[i as int] == u@);
                    }
                }
                Some(u)
            },
            None => None,
        }
    }

    /// Copies of all user rows.
    pub fn query_all_user(&self) -> (r: Vec<User>)
        ensures
            r.deep_view() == self.users.deep_view(),
    {
        let mut out: Vec<User> = Vec::new();
        let mut i: usize = 0;
        while i < self.users.len()
            invariant
                i <= self.users.len(),
                out.deep_view() =~= self.users.deep_view().take(i as int),
            decreases self.users.len() - i,
        {
            let elem = self.users[i].clone();
            proof {
                assert(out.deep_view().len() == out@.len());
            }
            out.push(elem);
            proof {
                assert(out.deep_view() =~~= self.users.deep_view().take(i + 1));
            }
            i += 1;
        }
        proof {
            assert(self.users.deep_view().take(self.users@.len() as int)
                =~= self.users.deep_view());
        }
        out
    }

    /// Register account `ei` for chat `user`: create the account row and its
    /// reverse-index row when first seen, and link the two indexes
    /// symmetrically.
    pub fn insert_account(&mut self, ei: &str, user: i64) -> (r: bool)
        requires
            old(self).wf(),
        ensures
            final(self).wf(),
            r == true,
            final(self).accounts.deep_view() == accounts_after_insert(
                old(self).accounts.deep_view(),
                ei@,
            ),
            final(self).account_maps.deep_view() == maps_after_insert(
                old(self).account_maps.deep_view(),
                ei@,
                user,
            ),
            final(self).users.deep_view() == users_after_insert(
                old(self).users.deep_view(),
                user,
                ei@,
            ),
            final(self).spaceships == old(self).spaceships,
            final(self).contracts == old(self).contracts,
            final(self).contract_specs == old(self).contract_specs,
            final(self).contract_caches == old(self).contract_caches,
            final(self).subscribes == old(self).subscribes,
            final(self).account_caches == old(self).account_caches,
    {
        let ghost pre = *old(self);
        match self.find_account(ei) {
            None => {
                self.accounts.push(
                    Account {
                        ei: ei.to_owned(),
                        nickname: None,
                        last_fetch: 0,
                        disabled: false,
                        contract_trace: false,
                    },
                );
                let mut fresh_users: Vec<i64> = Vec::new();
                fresh_users.push(user);
                proof {
                    assert(fresh_users@ =~= seq![user]);
                }
                self.account_maps.push(AccountMap { ei: ei.to_owned(), users: fresh_users });
                proof {
                    assert(self.accounts.deep_view() =~~= accounts_after_insert(
                        pre.accounts.deep_view(),
                        ei@,
                    ));
                    assert(!has_map(pre.account_maps.deep_view(), ei@)) by {
                        if has_map(pre.account_maps.deep_view(), ei@) {
                            let k = choose|k: int|
                                0 <= k < pre.account_maps.deep_view().len()
                                    && pre.account_maps.deep_view()[k].ei == ei@;
                            assert(has_account(pre.accounts.deep_view(), ei@));
                        }
                    }
                    assert(self.account_maps.deep_view() =~~= maps_after_insert(
                        pre.account_maps.deep_view(),
                        ei@,
                        user,
                    ));
                }
            },
            Some(ai) => {
                match self.find_map(ei) {
                    Some(mi) => {
                        let present = ids_contain(&self.account_maps[mi].users, user);
                        if !present {
                            self.account_maps[mi].users.push(user);
                        }
                        proof {
                            assert(has_map(pre.account_maps.deep_view(), ei@)) by {
                                assert(pre.account_maps.deep_view()[mi as int].ei == ei@);
                            }
                            assert(self.account_maps.deep_view() =~~= maps_after_insert(
                                pre.account_maps.deep_view(),
                                ei@,
                                user,
                            )) by {
                                let post = self.account_maps.deep_view();
                                let want = maps_after_insert(
                                    pre.account_maps.deep_view(),
                                    ei@,
                                    user,
                                );
                                assert forall|k: int| 0 <= k < post.len() implies post[k]
                                    == want[k] by {
                                    if k != mi {
                                        assert(pre.account_maps.deep_view()[k].ei != ei@);
                                    }
                                }
                            }
                            assert(self.accounts.deep_view() =~~= accounts_after_insert(
                                pre.accounts.deep_view(),
                                ei@,
                            ));
                        }
                    },
                    None => {
                        proof {
                            assert(has_account(pre.accounts.deep_view(), ei@)) by {
                                assert(pre.accounts.deep_view()[ai as int].ei == ei@);
                            }
                            assert(false);
                        }
                    },
                }
            },
        }
        let ghost mid_users = self.users.deep_view();
        match self.find_user(user) {
            Some(ui) => {
                let present = strings_contain(&self.users[ui].accounts, ei);
                if !present {
                    self.users[ui].accounts.push(ei.to_owned());
                    proof {
                        assert(self.users.deep_view()[ui as int].accounts =~~= mid_users[ui as int]
                            .accounts.push(ei@));
                    }
                }
                proof {
                    assert(self.users.deep_view() =~~= users_after_insert(mid_users, user, ei@))
                        by {
                        let post = self.users.deep_view();
                        let want = users_after_insert(mid_users, user, ei@);
                        assert(exists|k: int|
                            0 <= k < mid_users.len() && mid_users[k].id == user) by {
                            assert(mid_users[ui as int].id == user);
                        }
                        assert forall|k: int| 0 <= k < post.len() implies post[k] == want[k] by {
                            if k != ui {
                                assert(mid_users[k].id != user);
                            } else {
                                assert(post[k] =~= user_with_account(mid_users[k], ei@));
                            }
                        }
                    }
                }
            },
            None => {
                let mut fresh_accounts: Vec<String> = Vec::new();
                fresh_accounts.push(ei.to_owned());
                proof {
                    assert(fresh_accounts.deep_view() =~= seq![ei@]);
                }
                self.users.push(User { id: user, accounts: fresh_accounts });
                proof {
                    assert(self.users.deep_view() =~~= users_after_insert(mid_users, user, ei@));
                }
            },
        }
        proof {
            lemma_insert_account_wf(pre, *self, ei@, user);
        }
        true
    }

    /// Persist a newly observed nickname for `ei`.
    pub fn set_account_nickname(&mut self, ei: &str, nickname: &str)
        requires
            old(self).wf(),
        ensures
            final(self).wf(),
            final(self).accounts.deep_view() == accounts_with_nickname(
                old(self).accounts.deep_view(),
                ei@,
                nickname@,
            ),
            final(self).users == old(self).users,
            final(self).account_maps == old(self).account_maps,
            final(self).spaceships == old(self).spaceships,
            final(self).contracts == old(self).contracts,
            final(self).contract_specs == old(self).contract_specs,
            final(self).contract_caches == old(self).contract_caches,
            final(self).subscribes == old(self).subscribes,
            final(self).account_caches == old(self).account_caches,
    {
        let ghost pre = *old(self);
        match self.find_account(ei) {
            Some(i) => {
                self.accounts[i].nickname = Some(nickname.to_owned());
                proof {
                    assert(self.accounts.deep_view() =~~= accounts_with_nickname(
                        pre.accounts.deep_view(),
                        ei@,
                        nickname@,
                    )) by {
                        assert forall|k: int|
                            0 <= k < pre.accounts.deep_view().len() && k != i implies pre.accounts.deep_view()[k].ei
                            != ei@ by {}
                    }
                }
            },
            None => {
                proof {
                    assert(self.accounts.deep_view() =~~= accounts_with_nickname(
                        pre.accounts.deep_view(),
                        ei@,
                        nickname@,
                    ));
                }
            },
        }
        proof {
            lemma_wf_accounts_keys(pre, *self);
        }
    }

    /// Record the outcome of a poll: the fetch time and whether the remote
    /// backend rejected the account.
    pub fn set_account_status(&mut self, ei: &str, last: i64, disabled: bool)
        requires
            old(self).wf(),
        ensures
            final(self).wf(),
            final(self).accounts.deep_view() == accounts_with_status(
                old(self).accounts.deep_view(),
                ei@,
                last,
                disabled,
            ),
            final(self).users == old(self).users,
            final(self).account_maps == old(self).account_maps,
            final(self).spaceships == old(self).spaceships,
            final(self).contracts == old(self).contracts,
            final(self).contract_specs == old(self).contract_specs,
            final(self).contract_caches == old(self).contract_caches,
            final(self).subscribes == old(self).subscribes,
            final(self).account_caches == old(self).account_caches,
    {
        let ghost pre = *old(self);
        match self.find_account(ei) {
            Some(i) => {
                self.accounts[i].last_fetch = last;
                self.accounts[i].disabled = disabled;
                proof {
                    assert(self.accounts.deep_view() =~~= accounts_with_status(
                        pre.accounts.deep_view(),
                        ei@,
                        last,
                        disabled,
                    ));
                }
            },
            None => {
                proof {
                    assert(self.accounts.deep_view() =~~= accounts_with_status(
                        pre.accounts.deep_view(),
                        ei@,
                        last,
                        disabled,
                    ));
                }
            },
        }
        proof {
            lemma_wf_accounts_keys(pre, *self);
        }
    }

    /// Turn contract scanning on or off for `ei`.
    pub fn set_account_contract_trace(&mut self, ei: &str, enabled: bool)
        requires
            old(self).wf(),
        ensures
            final(self).wf(),
            final(self).accounts.deep_view() == accounts_with_trace(
                old(self).accounts.deep_view(),
                ei@,
                enabled,
            ),
            final(self).users == old(self).users,
            final(self).account_maps == old(self).account_maps,
            final(self).spaceships == old(self).spaceships,
            final(self).contracts == old(self).contracts,
            final(self).contract_specs == old(self).contract_specs,
            final(self).contract_caches == old(self).contract_caches,
            final(self).subscribes == old(self).subscribes,
            final(self).account_caches == old(self).account_caches,
    {
        let ghost pre = *old(self);
        match self.find_account(ei) {
            Some(i) => {
                self.accounts[i].contract_trace = enabled;
                proof {
                    assert(self.accounts.deep_view() =~~= accounts_with_trace(
                        pre.accounts.deep_view(),
                        ei@,
                        enabled,
                    ));
                }
            },
            None => {
                proof {
                    assert(self.accounts.deep_view() =~~= accounts_with_trace(
                        pre.accounts.deep_view(),
                        ei@,
                        enabled,
                    ));
                }
            },
        }
        proof {
            lemma_wf_accounts_keys(pre, *self);
        }
    }

    /// Clear the poll clock of `ei`, so the next round fetches it at once.
    pub fn account_timestamp_reset(&mut self, ei: &str)
        requires
            old(self).wf(),
        ensures
            final(self).wf(),
            final(self).accounts.deep_view() == accounts_with_timestamp(
                old(self).accounts.deep_view(),
                ei@,
                0,
            ),
            final(self).users == old(self).users,
            final(self).account_maps == old(self).account_maps,
            final(self).spaceships == old(self).spaceships,
            final(self).contracts == old(self).contracts,
            final(self).contract_specs == old(self).contract_specs,
            final(self).contract_caches == old(self).contract_caches,
            final(self).subscribes == old(self).subscribes,
            final(self).account_caches == old(self).account_caches,
    {
        let ghost pre = *old(self);
        match self.find_account(ei) {
            Some(i) => {
                self.accounts[i].last_fetch = 0;
                proof {
                    assert(self.accounts.deep_view() =~~= accounts_with_timestamp(
                        pre.accounts.deep_view(),
                        ei@,
                        0,
                    ));
                }
            },
            None => {
                proof {
                    assert(self.accounts.deep_view() =~~= accounts_with_timestamp(
                        pre.accounts.deep_view(),
                        ei@,
                        0,
                    ));
                }
            },
        }
        proof {
            lemma_wf_accounts_keys(pre, *self);
        }
    }

    /// Enable or disable `ei` without touching its poll clock. Disabling an
    /// already-disabled account leaves the table exactly as it was.
    pub fn account_status_reset(&mut self, ei: &str, disabled: bool)
        requires
            old(self).wf(),
        ensures
            final(self).wf(),
            final(self).accounts.deep_view() == accounts_with_disabled(
                old(self).accounts.deep_view(),
                ei@,
                disabled,
            ),
            final(self).users == old(self).users,
            final(self).account_maps == old(self).account_maps,
            final(self).spaceships == old(self).spaceships,
            final(self).contracts == old(self).contracts,
            final(self).contract_specs == old(self).contract_specs,
            final(self).contract_caches == old(self).contract_caches,
            final(self).subscribes == old(self).subscribes,
            final(self).account_caches == old(self).account_caches,
    {
        let ghost pre = *old(self);
        match self.find_account(ei) {
            Some(i) => {
                self.accounts[i].disabled = disabled;
                proof {
                    assert(self.accounts.deep_view() =~~= accounts_with_disabled(
                        pre.accounts.deep_view(),
                        ei@,
                        disabled,
                    ));
                }
            },
            None => {
                proof {
                    assert(self.accounts.deep_view() =~~= accounts_with_disabled(
                        pre.accounts.deep_view(),
                        ei@,
                        disabled,
                    ));
                }
            },
        }
        proof {
            lemma_wf_accounts_keys(pre, *self);
        }
    }

    /// Unregister account `ei` from chat `user`: drop the link from both
    /// indexes together. The account row itself stays. When either link row
    /// is missing, nothing changes.
    pub fn delete_account(&mut self, user: i64, ei: &str)
        requires
            old(self).wf(),
        ensures
            final(self).wf(),
            delete_applies(
                old(self).users.deep_view(),
                old(self).account_maps.deep_view(),
                user,
                ei@,
            ) ==> final(self).users.deep_view() == users_after_delete(
                old(self).users.deep_view(),
                user,
                ei@,
            ) && final(self).account_maps.deep_view() == maps_after_delete(
                old(self).account_maps.deep_view(),
                ei@,
                user,
            ),
            !delete_applies(
                old(self).users.deep_view(),
                old(self).account_maps.deep_view(),
                user,
                ei@,
            ) ==> final(self).users == old(self).users && final(self).account_maps == old(
                self,
            ).account_maps,
            final(self).accounts == old(self).accounts,
            final(self).spaceships == old(self).spaceships,
            final(self).contracts == old(self).contracts,
            final(self).contract_specs == old(self).contract_specs,
            final(self).contract_caches == old(self).contract_caches,
            final(self).subscribes == old(self).subscribes,
            final(self).account_caches == old(self).account_caches,
    {
        let ghost pre = *old(self);
        let ghost pu = pre.users.deep_view();
        let ghost pm = pre.account_maps.deep_view();
        let ui = match self.find_user(user) {
            Some(u) => u,
            None => {
                return ;
            },
        };
        let mi = match self.find_map(ei) {
            Some(m) => m,
            None => {
                return ;
            },
        };
        proof {
            assert(index_of_user(pu, user) == ui) by {
                assert(pu[ui as int].id == user);
                let k = index_of_user(pu, user);
                assert(0 <= k < pu.len() && pu[k].id == user);
                if k != ui {
                    assert(false);
                }
            }
            assert(index_of_map(pm, ei@) == mi) by {
                assert(pm[mi as int].ei == ei@);
                let k = index_of_map(pm, ei@);
                assert(0 <= k < pm.len() && pm[k].ei == ei@);
                if k != mi {
                    assert(false);
                }
            }
        }
        match index_of_string(&self.users[ui].accounts, ei) {
            Some(j) => {
                self.users[ui].accounts.remove(j);
                proof {
                    assert(index_of_elem(pu[ui as int].accounts, ei@) == j) by {
                        let k = index_of_elem(pu[ui as int].accounts, ei@);
                        assert(0 <= k < pu[ui as int].accounts.len()
                            && pu[ui as int].accounts[k] == ei@);
                        if k != j {
                            assert(distinct_seq(pu[ui as int].accounts));
                            assert(false);
                        }
                    }
                    assert(self.users.deep_view() =~~= users_after_delete(pu, user, ei@));
                }
            },
            None => {
                proof {
                    assert(self.users.deep_view() =~~= users_after_delete(pu, user, ei@));
                }
            },
        }
        match index_of_id(&self.account_maps[mi].users, user) {
            Some(j) => {
                self.account_maps[mi].users.remove(j);
                proof {
                    assert(index_of_elem(pm[mi as int].users, user) == j) by {
                        let k = index_of_elem(pm[mi as int].users, user);
                        assert(0 <= k < pm[mi as int].users.len() && pm[mi as int].users[k]
                            == user);
                        if k != j {
                            assert(distinct_seq(pm[mi as int].users));
                            assert(false);
                        }
                    }
                    assert(self.account_maps.deep_view() =~~= maps_after_delete(pm, ei@, user));
                }
            },
            None => {
                proof {
                    assert(self.account_maps.deep_view() =~~= maps_after_delete(pm, ei@, user));
                }
            },
        }
        proof {
            lemma_delete_account_wf(pre, *self, user, ei@);
        }
    }

    /// Copies of the account rows registered by `user`, in the order of the
    /// user's own list.
    pub fn query_ei(&self, user: i64) -> (r: Vec<Account>)
        requires
            self.wf(),
        ensures
            !has_user(self.users.deep_view(), user) ==> r.deep_view() == Seq::<AccountV>::empty(),
            has_user(self.users.deep_view(), user) ==> query_ei_post(
                self.users.deep_view(),
                self.accounts.deep_view(),
                user,
                r.deep_view(),
            ),
    {
        let mut out: Vec<Account> = Vec::new();
        let ui = match self.find_user(user) {
            Some(u) => u,
            None => {
                proof {
                    assert(out.deep_view() =~= Seq::<AccountV>::empty());
                    assert(!has_user(self.users.deep_view(), user));
                }
                return out;
            },
        };
        proof {
            assert(index_of_user(self.users.deep_view(), user) == ui) by {
                assert(self.users.deep_view()[ui as int].id == user);
                let k = index_of_user(self.users.deep_view(), user);
                assert(0 <= k < self.users.deep_view().len()
                    && self.users.deep_view()[k].id == user);
                if k != ui {
                    assert(false);
                }
            }
            assert(has_user(self.users.deep_view(), user)) by {
                assert(self.users.deep_view()[ui as int].id == user);
            }
        }
        let ghost u = self.users.deep_view()[ui as int];
        let n = self.users[ui].accounts.len();
        let mut k: usize = 0;
        while k < n
            invariant
                self.wf(),
                ui < self.users.deep_view().len(),
                u == self.users.deep_view()[ui as int],
                n == u.accounts.len(),
                k <= n,
                out.deep_view().len() == k,
                forall|j: int|
                    0 <= j < k ==> #[trigger] out.deep_view()[j].ei == u.accounts[j]
                        && self.accounts.deep_view().contains(out.deep_view()[j]),
            decreases n - k,
        {
            let ei_k: &String = &self.users[ui].accounts[k];
            proof {
                assert(u.accounts[k as int] == ei_k@);
                assert(has_account(self.accounts.deep_view(), ei_k@)) by {
                    assert(user_accounts_exist(
                        self.users.deep_view(),
                        self.accounts.deep_view(),
                    ));
                    assert(self.users.deep_view()[ui as int].accounts[k as int] == ei_k@);
                }
            }
            match self.find_account(ei_k.as_str()) {
                Some(ai) => {
                    let a = self.accounts[ai].clone();
                    proof {
                        assert(self.accounts.deep_view().contains(a@)) by {
                            assert(self.accounts.deep_view()[ai as int] == a@);
                        }
                        assert(a@.ei == u.accounts[k as int]);
                    }
                    let ghost out0 = out.deep_view();
                    out.push(a);
                    proof {
                        assert(out.deep_view() =~~= out0.push(a@));
                    }
                },
                None => {
                    proof {
                        assert(false);
                    }
                },
            }
            k += 1;
        }
        proof {
            assert(query_ei_post(
                self.users.deep_view(),
                self.accounts.deep_view(),
                user,
                out.deep_view(),
            ));
        }
        out
    }

    /// Record a newly observed mission. A mission id already on file is left
    /// untouched.
    pub fn insert_spaceship(&mut self, id: &str, name: &str, duration: i64, belong: &str, land: i64)
        requires
            old(self).wf(),
        ensures
            final(self).wf(),
            final(self).spaceships.deep_view() == ships_after_insert(
                old(self).spaceships.deep_view(),
                SpaceShipV {
                    id: id@,
                    name: name@,
                    duration_type: duration,
                    belong: belong@,
                    land: land,
                    notified: false,
                },
            ),
            final(self).accounts == old(self).accounts,
            final(self).users == old(self).users,
            final(self).account_maps == old(self).account_maps,
            final(self).contracts == old(self).contracts,
            final(self).contract_specs == old(self).contract_specs,
            final(self).contract_caches == old(self).contract_caches,
            final(self).subscribes == old(self).subscribes,
            final(self).account_caches == old(self).account_caches,
    {
        let ghost pre = *old(self);
        match self.find_ship(id) {
            Some(_) => {
                proof {
                    assert(has_ship(pre.spaceships.deep_view(), id@));
                }
            },
            None => {
                self.spaceships.push(
                    SpaceShip {
                        id: id.to_owned(),
                        name: name.to_owned(),
                        duration_type: duration,
                        belong: belong.to_owned(),
                        land: land,
                        notified: false,
                    },
                );
                proof {
                    assert(self.spaceships.deep_view() =~~= pre.spaceships.deep_view().push(
                        SpaceShipV {
                            id: id@,
                            name: name@,
                            duration_type: duration,
                            belong: belong@,
                            land: land,
                            notified: false,
                        },
                    ));
                }
            },
        }
        proof {
            assert(unique_ships(self.spaceships.deep_view())) by {
                let ps = pre.spaceships.deep_view();
                let qs = self.spaceships.deep_view();
                if !has_ship(ps, id@) {
                    assert forall|i: int, j: int| 0 <= i < j < qs.len() implies qs[i].id
                        != qs[j].id by {
                        if j == qs.len() - 1 {
                            assert(qs[i] == ps[i]);
                        }
                    }
                }
            }
            lemma_wf_outside_links(pre, *self);
        }
    }

    /// Index of the mission row keyed `id`.
    fn find_ship(&self, id: &str) -> (r: Option<usize>)
        ensures
            match r {
                Some(i) => i < self.spaceships.deep_view().len()
                    && self.spaceships.deep_view()[i as int].id == id@,
                None => !has_ship(self.spaceships.deep_view(), id@),
            },
    {
        let mut i: usize = 0;
        while i < self.spaceships.len()
            invariant
                i <= self.spaceships.len(),
                forall|j: int| 0 <= j < i ==> self.spaceships.deep_view()[j].id != id@,
            decreases self.spaceships.len() - i,
        {
            if str_eq(self.spaceships[i].id.as_str(), id) {
                return Some(i);
            }
            i += 1;
        }
        None
    }

    /// Copies of every mission due at or before `deadline` whose landing
    /// notice has not yet been delivered.
    pub fn query_spaceship_by_time(&self, deadline: i64) -> (r: Vec<SpaceShip>)
        ensures
            r.deep_view() == due_ships(self.spaceships.deep_view(), deadline),
    {
        let mut out: Vec<SpaceShip> = Vec::new();
        let mut i: usize = 0;
        proof {
            assert(self.spaceships.deep_view().take(0) =~= Seq::<SpaceShipV>::empty());
            assert(out.deep_view() =~= Seq::<SpaceShipV>::empty());
        }
        while i < self.spaceships.len()
            invariant
                i <= self.spaceships.len(),
                out.deep_view() == due_ships(
                    self.spaceships.deep_view().take(i as int),
                    deadline,
                ),
            decreases self.spaceships.len() - i,
        {
            proof {
                lemma_due_ships_take_step(self.spaceships.deep_view(), deadline, i as int);
            }
            let row = &self.spaceships[i];
            if row.land <= deadline && !row.notified {
                let elem = row.clone();
                let ghost out0 = out.deep_view();
                out.push(elem);
                proof {
                    assert(out.deep_view() =~~= out0.push(
                        self.spaceships.deep_view()[i as int],
                    ));
                }
            }
            i += 1;
        }
        proof {
            assert(self.spaceships.deep_view().take(self.spaceships@.len() as int)
                =~= self.spaceships.deep_view());
        }
        out
    }

    /// Copy of the mission row keyed `id`, if any.
    pub fn query_spaceship_by_id(&self, id: &str) -> (r: Option<SpaceShip>)
        ensures
            match r {
                Some(s) => self.spaceships.deep_view().contains(s@) && s@.id == id@,
                None => !has_ship(self.spaceships.deep_view(), id@),
            },
    {
        match self.find_ship(id) {
            Some(i) => {
                let s = self.spaceships[i].clone();
                proof {
                    assert(self.spaceships.deep_view().contains(s@)) by {
                        assert(self.spaceships.deep_view()[i as int] == s@);
                    }
                }
                Some(s)
            },
            None => None,
        }
    }

    /// The listing of account `ei`: at most [`MISSION_CAP`] of its missions,
    /// those landing latest, latest first.
    pub fn query_spaceship_by_ei(&self, ei: &str) -> (r: Vec<SpaceShip>)
        ensures
            capped_by_land(
                ships_of(self.spaceships.deep_view(), ei@),
                r.deep_view(),
                MISSION_CAP as int,
            ),
    {
        let ghost all = ships_of(self.spaceships.deep_view(), ei@);
        let full = self.all_spaceships_of(ei);
        let mut sorted = sort_by_land_desc(full);
        let ghost sortedv = sorted.deep_view();
        proof {
            sortedv.to_multiset_ensures();
            all.to_multiset_ensures();
        }
        if sorted.len() > MISSION_CAP {
            sorted.truncate(MISSION_CAP);
            proof {
                assert(sorted.deep_view() =~~= sortedv.take(MISSION_CAP as int));
            }
        } else {
            proof {
                assert(sorted.deep_view() =~~= sortedv.take(sortedv.len() as int));
            }
        }
        proof {
            let cap: int = if sortedv.len() <= MISSION_CAP {
                sortedv.len() as int
            } else {
                MISSION_CAP as int
            };
            let kept = sortedv.take(cap);
            let dropped = sortedv.skip(cap);
            assert(sorted.deep_view() =~~= kept);
            lemma_take_skip_to_multiset(sortedv, cap);
            kept.to_multiset_ensures();
            dropped.to_multiset_ensures();
            assert forall|x: SpaceShipV| #[trigger] kept.to_multiset().count(x) < all.to_multiset().count(
                x,
            ) implies forall|k: int| 0 <= k < kept.len() ==> x.land <= (#[trigger] kept[k]).land by {
                assert(dropped.to_multiset().count(x) > 0);
                assert(dropped.contains(x));
                let w = choose|w: int| 0 <= w < dropped.len() && dropped[w] == x;
                assert(sortedv[cap + w] == x);
                assert forall|k: int| 0 <= k < kept.len() implies x.land <= (
                #[trigger] kept[k]).land by {
                    assert(kept[k] == sortedv[k]);
                    assert(sortedv[k].land >= sortedv[cap + w].land);
                }
            }
        }
        sorted
    }

    /// Copies of every mission belonging to `ei`, in table order.
    fn all_spaceships_of(&self, ei: &str) -> (r: Vec<SpaceShip>)
        ensures
            r.deep_view() == ships_of(self.spaceships.deep_view(), ei@),
    {
        let mut out: Vec<SpaceShip> = Vec::new();
        let mut i: usize = 0;
        proof {
            assert(self.spaceships.deep_view().take(0) =~= Seq::<SpaceShipV>::empty());
            assert(out.deep_view() =~= Seq::<SpaceShipV>::empty());
        }
        while i < self.spaceships.len()
            invariant
                i <= self.spaceships.len(),
                out.deep_view() == ships_of(self.spaceships.deep_view().take(i as int), ei@),
            decreases self.spaceships.len() - i,
        {
            proof {
                lemma_ships_of_take_step(self.spaceships.deep_view(), ei@, i as int);
            }
            let is_mine = str_eq(self.spaceships[i].belong.as_str(), ei);
            if is_mine {
                let elem = self.spaceships[i].clone();
                let ghost out0 = out.deep_view();
                out.push(elem);
                proof {
                    assert(out.deep_view() =~~= out0.push(
                        self.spaceships.deep_view()[i as int],
                    ));
                }
            }
            i += 1;
        }
        proof {
            assert(self.spaceships.deep_view().take(self.spaceships@.len() as int)
                =~= self.spaceships.deep_view());
        }
        out
    }

    /// Record that the landing notice for mission `id` went out. The flag
    /// only ever goes from false to true.
    pub fn mark_spaceship(&mut self, id: &str)
        requires
            old(self).wf(),
        ensures
            final(self).wf(),
            final(self).spaceships.deep_view() == ships_with_notified(
                old(self).spaceships.deep_view(),
                id@,
            ),
            final(self).accounts == old(self).accounts,
            final(self).users == old(self).users,
            final(self).account_maps == old(self).account_maps,
            final(self).contracts == old(self).contracts,
            final(self).contract_specs == old(self).contract_specs,
            final(self).contract_caches == old(self).contract_caches,
            final(self).subscribes == old(self).subscribes,
            final(self).account_caches == old(self).account_caches,
    {
        let ghost pre = *old(self);
        match self.find_ship(id) {
            Some(i) => {
                self.spaceships[i].notified = true;
                proof {
                    assert(self.spaceships.deep_view() =~~= ships_with_notified(
                        pre.spaceships.deep_view(),
                        id@,
                    ));
                }
            },
            None => {
                proof {
                    assert(self.spaceships.deep_view() =~~= ships_with_notified(
                        pre.spaceships.deep_view(),
                        id@,
                    ));
                }
            },
        }
        proof {
            assert(unique_ships(self.spaceships.deep_view())) by {
                assert(forall|k: int|
                    0 <= k < pre.spaceships.deep_view().len()
                        ==> #[trigger] self.spaceships.deep_view()[k].id
                        == pre.spaceships.deep_view()[k].id);
            }
            lemma_wf_outside_links(pre, *self);
        }
    }

    /// Undo delivered-notice marks for up to `limit` of `ei`'s missions,
    /// walking the table in order (a test hook for the admin surface).
    pub fn account_mission_reset(&mut self, ei: &str, limit: usize)
        requires
            old(self).wf(),
        ensures
            final(self).wf(),
            final(self).spaceships.deep_view().len() == old(self).spaceships.deep_view().len(),
            forall|k: int|
                0 <= k < old(self).spaceships.deep_view().len()
                    ==> #[trigger] final(self).spaceships.deep_view()[k] == (if old(
                    self,
                ).spaceships.deep_view()[k].belong == ei@ && count_belong(
                    old(self).spaceships.deep_view(),
                    ei@,
                    k,
                ) < limit {
                    SpaceShipV { notified: false, ..old(self).spaceships.deep_view()[k] }
                } else {
                    old(self).spaceships.deep_view()[k]
                }),
            final(self).accounts == old(self).accounts,
            final(self).users == old(self).users,
            final(self).account_maps == old(self).account_maps,
            final(self).contracts == old(self).contracts,
            final(self).contract_specs == old(self).contract_specs,
            final(self).contract_caches == old(self).contract_caches,
            final(self).subscribes == old(self).subscribes,
            final(self).account_caches == old(self).account_caches,
    {
        let ghost pre = *old(self);
        let ghost ps = pre.spaceships.deep_view();
        let mut i: usize = 0;
        let mut hit: usize = 0;
        while i < self.spaceships.len()
            invariant
                pre.wf(),
                i <= self.spaceships.len(),
                self.spaceships.deep_view().len() == ps.len(),
                i <= ps.len(),
                hit == (if count_belong(ps, ei@, i as int) < limit {
                    count_belong(ps, ei@, i as int)
                } else {
                    limit as int
                }),
                forall|k: int|
                    0 <= k < i ==> #[trigger] self.spaceships.deep_view()[k] == (if ps[k].belong
                        == ei@ && count_belong(ps, ei@, k) < limit {
                        SpaceShipV { notified: false, ..ps[k] }
                    } else {
                        ps[k]
                    }),
                forall|k: int| i <= k < ps.len() ==> #[trigger] self.spaceships.deep_view()[k]
                    == ps[k],
                self.accounts == pre.accounts,
                self.users == pre.users,
                self.account_maps == pre.account_maps,
                self.contracts == pre.contracts,
                self.contract_specs == pre.contract_specs,
                self.contract_caches == pre.contract_caches,
                self.subscribes == pre.subscribes,
                self.account_caches == pre.account_caches,
            decreases self.spaceships.len() - i,
        {
            let ghost dv0 = self.spaceships.deep_view();
            let is_mine = str_eq(self.spaceships[i].belong.as_str(), ei);
            proof {
                assert(dv0[i as int] == ps[i as int]);
                assert(count_belong(ps, ei@, i + 1) == count_belong(ps, ei@, i as int) + (
                if ps[i as int].belong == ei@ {
                    1int
                } else {
                    0int
                }));
            }
            if is_mine && hit < limit {
                self.spaceships[i].notified = false;
                proof {
                    assert(self.spaceships.deep_view() =~~= dv0.update(
                        i as int,
                        SpaceShipV { notified: false, ..ps[i as int] },
                    ));
                }
                hit += 1;
            }
            i += 1;
        }
        proof {
            assert(unique_ships(self.spaceships.deep_view())) by {
                assert(forall|k: int|
                    0 <= k < ps.len() ==> #[trigger] self.spaceships.deep_view()[k].id
                        == ps[k].id);
            }
            lemma_wf_outside_links(pre, *self);
        }
    }

    /// Copy of the reverse-index row keyed `ei`, if any.
    pub fn query_account_map(&self, ei: &str) -> (r: Option<AccountMap>)
        ensures
            match r {
                Some(m) => self.account_maps.deep_view().contains(m@) && m@.ei == ei@,
                None => forall|k: int|
                    0 <= k < self.account_maps.deep_view().len()
                        ==> self.account_maps.deep_view()[k].ei != ei@,
            },
    {
        match self.find_map(ei) {
            Some(i) => {
                let m = self.account_maps[i].clone();
                proof {
                    assert(self.account_maps.deep_view().contains(m@)) by {
                        assert(self.account_maps.deep_view()[i as int] == m@);
                    }
                }
                Some(m)
            },
            None => None,
        }
    }

    /// Index of the participation row keyed (`id`, `belong`).
    fn find_contract(&self, id: &str, belong: &str) -> (r: Option<usize>)
        ensures
            match r {
                Some(i) => i < self.contracts.deep_view().len()
                    && self.contracts.deep_view()[i as int].id == id@
                    && self.contracts.deep_view()[i as int].belong == belong@,
                None => !has_contract(self.contracts.deep_view(), id@, belong@),
            },
    {
        let mut i: usize = 0;
        while i < self.contracts.len()
            invariant
                i <= self.contracts.len(),
                forall|j: int|
                    0 <= j < i ==> !(#[trigger] self.contracts.deep_view()[j].id == id@
                        && self.contracts.deep_view()[j].belong == belong@),
            decreases self.contracts.len() - i,
        {
            if str_eq(self.contracts[i].id.as_str(), id) && str_eq(
                self.contracts[i].belong.as_str(),
                belong,
            ) {
                return Some(i);
            }
            i += 1;
        }
        None
    }

    /// Copy of the participation row keyed (`id`, `ei`), if any.
    pub fn query_single_contract(&self, id: &str, ei: &str) -> (r: Option<Contract>)
        ensures
            match r {
                Some(c) => self.contracts.deep_view().contains(c@) && c@.id == id@ && c@.belong
                    == ei@,
                None => !has_contract(self.contracts.deep_view(), id@, ei@),
            },
    {
        match self.find_contract(id, ei) {
            Some(i) => {
                let c = self.contracts[i].clone();
                proof {
                    assert(self.contracts.deep_view().contains(c@)) by {
                        assert(self.contracts.deep_view()[i as int] == c@);
                    }
                }
                Some(c)
            },
            None => None,
        }
    }

    /// Record a fresh participation row with no start time. A row already
    /// keyed (`id`, `ei`) is left untouched.
    pub fn insert_user_contract(&mut self, id: &str, room: &str, ei: &str, finished: bool)
        requires
            old(self).wf(),
        ensures
            final(self).wf(),
            final(self).contracts.deep_view() == contracts_after_insert(
                old(self).contracts.deep_view(),
                ContractV {
                    id: id@,
                    room: room@,
                    belong: ei@,
                    start_time: None,
                    finished: finished,
                },
            ),
            final(self).accounts == old(self).accounts,
            final(self).users == old(self).users,
            final(self).account_maps == old(self).account_maps,
            final(self).spaceships == old(self).spaceships,
            final(self).contract_specs == old(self).contract_specs,
            final(self).contract_caches == old(self).contract_caches,
            final(self).subscribes == old(self).subscribes,
            final(self).account_caches == old(self).account_caches,
    {
        let ghost pre = *old(self);
        match self.find_contract(id, ei) {
            Some(_) => {
                proof {
                    assert(has_contract(pre.contracts.deep_view(), id@, ei@));
                }
            },
            None => {
                self.contracts.push(
                    Contract {
                        id: id.to_owned(),
                        room: room.to_owned(),
                        belong: ei.to_owned(),
                        start_time: None,
                        finished: finished,
                    },
                );
                proof {
                    assert(self.contracts.deep_view() =~~= pre.contracts.deep_view().push(
                        ContractV {
                            id: id@,
                            room: room@,
                            belong: ei@,
                            start_time: None,
                            finished: finished,
                        },
                    ));
                }
            },
        }
        proof {
            assert(unique_contracts(self.contracts.deep_view())) by {
                let ps = pre.contracts.deep_view();
                let qs = self.contracts.deep_view();
                if !has_contract(ps, id@, ei@) {
                    assert forall|i: int, j: int| 0 <= i < j < qs.len() implies !(qs[i].id
                        == qs[j].id && qs[i].belong == qs[j].belong) by {
                        if j == qs.len() - 1 {
                            assert(qs[i] == ps[i]);
                        }
                    }
                }
            }
            lemma_wf_outside_links(pre, *self);
        }
    }

    /// The start time already recorded by any row of room (`id`, `room`).
    fn donor_start(&self, id: &str, room: &str) -> (r: Option<i64>)
        ensures
            r == donor_start_time(self.contracts.deep_view(), id@, room@),
    {
        let ghost s = self.contracts.deep_view();
        let mut i: usize = 0;
        proof {
            assert(s.skip(0) =~= s);
        }
        while i < self.contracts.len()
            invariant
                i <= self.contracts.len(),
                s == self.contracts.deep_view(),
                donor_start_time(s, id@, room@) == donor_start_time(
                    s.skip(i as int),
                    id@,
                    room@,
                ),
            decreases self.contracts.len() - i,
        {
            proof {
                assert(s.skip(i as int)[0] == s[i as int]);
                assert(s.skip(i as int).drop_first() =~= s.skip(i + 1));
            }
            let row = &self.contracts[i];
            let hit = str_eq(row.id.as_str(), id) && str_eq(row.room.as_str(), room);
            if hit {
                match row.start_time {
                    Some(t) => {
                        return Some(t);
                    },
                    None => {},
                }
            }
            i += 1;
        }
        proof {
            assert(s.skip(s.len() as int) =~= Seq::<ContractV>::empty());
        }
        None
    }

    /// Update participation row (`id`, `ei`): set the room and the finished
    /// flag, and borrow the room's start time from whichever row already
    /// knows it. Without such a row nothing changes.
    pub fn set_contract(&mut self, id: &str, ei: &str, room: &str, finished: bool)
        requires
            old(self).wf(),
        ensures
            final(self).wf(),
            final(self).contracts.deep_view() == contracts_after_set(
                old(self).contracts.deep_view(),
                id@,
                ei@,
                room@,
                finished,
            ),
            final(self).accounts == old(self).accounts,
            final(self).users == old(self).users,
            final(self).account_maps == old(self).account_maps,
            final(self).spaceships == old(self).spaceships,
            final(self).contract_specs == old(self).contract_specs,
            final(self).contract_caches == old(self).contract_caches,
            final(self).subscribes == old(self).subscribes,
            final(self).account_caches == old(self).account_caches,
    {
        let ghost pre = *old(self);
        let ghost ps = pre.contracts.deep_view();
        let start = self.donor_start(id, room);
        match self.find_contract(id, ei) {
            Some(i) => {
                proof {
                    assert(index_of_contract(ps, id@, ei@) == i) by {
                        assert(ps[i as int].id == id@ && ps[i as int].belong == ei@);
                        let k = index_of_contract(ps, id@, ei@);
                        assert(0 <= k < ps.len() && ps[k].id == id@ && ps[k].belong == ei@);
                        if k != i {
                            assert(false);
                        }
                    }
                    assert(has_contract(ps, id@, ei@)) by {
                        assert(ps[i as int].id == id@ && ps[i as int].belong == ei@);
                    }
                }
                self.contracts[i].room = room.to_owned();
                self.contracts[i].finished = finished;
                self.contracts[i].start_time = start;
                proof {
                    assert(self.contracts.deep_view() =~~= contracts_after_set(
                        ps,
                        id@,
                        ei@,
                        room@,
                        finished,
                    ));
                }
            },
            None => {
                proof {
                    assert(self.contracts.deep_view() =~~= contracts_after_set(
                        ps,
                        id@,
                        ei@,
                        room@,
                        finished,
                    ));
                }
            },
        }
        proof {
            assert(unique_contracts(self.contracts.deep_view())) by {
                assert(forall|k: int|
                    0 <= k < ps.len() ==> #[trigger] self.contracts.deep_view()[k].id == ps[k].id
                        && self.contracts.deep_view()[k].belong == ps[k].belong);
            }
            lemma_wf_outside_links(pre, *self);
        }
    }

    /// Fill in the start time of room (`id`, `room`) on every participation
    /// row that does not know it yet.
    pub fn set_contract_start_time(&mut self, id: &str, room: &str, start: i64)
        requires
            old(self).wf(),
        ensures
            final(self).wf(),
            final(self).contracts.deep_view() == contracts_with_start_time(
                old(self).contracts.deep_view(),
                id@,
                room@,
                start,
            ),
            final(self).accounts == old(self).accounts,
            final(self).users == old(self).users,
            final(self).account_maps == old(self).account_maps,
            final(self).spaceships == old(self).spaceships,
            final(self).contract_specs == old(self).contract_specs,
            final(self).contract_caches == old(self).contract_caches,
            final(self).subscribes == old(self).subscribes,
            final(self).account_caches == old(self).account_caches,
    {
        let ghost pre = *old(self);
        let ghost ps = pre.contracts.deep_view();
        let mut i: usize = 0;
        while i < self.contracts.len()
            invariant
                pre.wf(),
                i <= ps.len(),
                self.contracts.deep_view().len() == ps.len(),
                forall|k: int|
                    0 <= k < i ==> #[trigger] self.contracts.deep_view()[k] == (if ps[k].id == id@
                        && ps[k].room == room@ && ps[k].start_time is None {
                        ContractV { start_time: Some(start), ..ps[k] }
                    } else {
                        ps[k]
                    }),
                forall|k: int| i <= k < ps.len() ==> #[trigger] self.contracts.deep_view()[k]
                    == ps[k],
                self.accounts == pre.accounts,
                self.users == pre.users,
                self.account_maps == pre.account_maps,
                self.spaceships == pre.spaceships,
                self.contract_specs == pre.contract_specs,
                self.contract_caches == pre.contract_caches,
                self.subscribes == pre.subscribes,
                self.account_caches == pre.account_caches,
            decreases self.contracts.len() - i,
        {
            let ghost dv0 = self.contracts.deep_view();
            proof {
                assert(dv0[i as int] == ps[i as int]);
            }
            let row = &self.contracts[i];
            let hit = str_eq(row.id.as_str(), id) && str_eq(row.room.as_str(), room)
                && row.start_time.is_none();
            if hit {
                self.contracts[i].start_time = Some(start);
                proof {
                    assert(self.contracts.deep_view() =~~= dv0.update(
                        i as int,
                        ContractV { start_time: Some(start), ..ps[i as int] },
                    ));
                }
            }
            i += 1;
        }
        proof {
            assert(self.contracts.deep_view() =~~= contracts_with_start_time(
                ps,
                id@,
                room@,
                start,
            ));
            assert(unique_contracts(self.contracts.deep_view())) by {
                assert(forall|k: int|
                    0 <= k < ps.len() ==> #[trigger] self.contracts.deep_view()[k].id == ps[k].id
                        && self.contracts.deep_view()[k].belong == ps[k].belong);
            }
            lemma_wf_outside_links(pre, *self);
        }
    }

    /// Copies of the participation rows of account `ei`.
    pub fn query_contract(&self, ei: &str) -> (r: Vec<Contract>)
        ensures
            r.deep_view() == contracts_of(self.contracts.deep_view(), ei@),
    {
        let mut out: Vec<Contract> = Vec::new();
        let mut i: usize = 0;
        proof {
            assert(self.contracts.deep_view().take(0) =~= Seq::<ContractV>::empty());
            assert(out.deep_view() =~= Seq::<ContractV>::empty());
        }
        while i < self.contracts.len()
            invariant
                i <= self.contracts.len(),
                out.deep_view() == contracts_of(self.contracts.deep_view().take(i as int), ei@),
            decreases self.contracts.len() - i,
        {
            proof {
                let s = self.contracts.deep_view();
                assert(s.take(i + 1).drop_last() =~= s.take(i as int));
                assert(s.take(i + 1).last() == s[i as int]);
            }
            if str_eq(self.contracts[i].belong.as_str(), ei) {
                let elem = self.contracts[i].clone();
                let ghost out0 = out.deep_view();
                out.push(elem);
                proof {
                    assert(out.deep_view() =~~= out0.push(self.contracts.deep_view()[i as int]));
                }
            }
            i += 1;
        }
        proof {
            assert(self.contracts.deep_view().take(self.contracts@.len() as int)
                =~= self.contracts.deep_view());
        }
        out
    }

    /// Index of the metadata row keyed `id`.
    fn find_spec(&self, id: &str) -> (r: Option<usize>)
        ensures
            match r {
                Some(i) => i < self.contract_specs.deep_view().len()
                    && self.contract_specs.deep_view()[i as int].id == id@,
                None => !has_spec(self.contract_specs.deep_view(), id@),
            },
    {
        let mut i: usize = 0;
        while i < self.contract_specs.len()
            invariant
                i <= self.contract_specs.len(),
                forall|j: int| 0 <= j < i ==> self.contract_specs.deep_view()[j].id != id@,
            decreases self.contract_specs.len() - i,
        {
            if str_eq(self.contract_specs[i].id.as_str(), id) {
                return Some(i);
            }
            i += 1;
        }
        None
    }

    /// Copy of the metadata row keyed `id`, if any.
    pub fn query_contract_spec(&self, id: &str) -> (r: Option<ContractSpec>)
        ensures
            match r {
                Some(c) => self.contract_specs.deep_view().contains(c@) && c@.id == id@,
                None => !has_spec(self.contract_specs.deep_view(), id@),
            },
    {
        match self.find_spec(id) {
            Some(i) => {
                let c = self.contract_specs[i].clone();
                proof {
                    assert(self.contract_specs.deep_view().contains(c@)) by {
                        assert(self.contract_specs.deep_view()[i as int] == c@);
                    }
                }
                Some(c)
            },
            None => None,
        }
    }

    /// Record immutable contract metadata once. Returns false, changing
    /// nothing, when the contract is already on file.
    pub fn insert_contract_spec(&mut self, spec: ContractSpec) -> (r: bool)
        requires
            old(self).wf(),
        ensures
            final(self).wf(),
            r == !has_spec(old(self).contract_specs.deep_view(), spec@.id),
            r ==> final(self).contract_specs.deep_view() == old(
                self,
            ).contract_specs.deep_view().push(spec@),
            !r ==> final(self).contract_specs == old(self).contract_specs,
            final(self).accounts == old(self).accounts,
            final(self).users == old(self).users,
            final(self).account_maps == old(self).account_maps,
            final(self).spaceships == old(self).spaceships,
            final(self).contracts == old(self).contracts,
            final(self).contract_caches == old(self).contract_caches,
            final(self).subscribes == old(self).subscribes,
            final(self).account_caches == old(self).account_caches,
    {
        let ghost pre = *old(self);
        match self.find_spec(spec.id.as_str()) {
            Some(_) => {
                proof {
                    assert(has_spec(pre.contract_specs.deep_view(), spec@.id));
                }
                false
            },
            None => {
                self.contract_specs.push(spec);
                proof {
                    assert(self.contract_specs.deep_view() =~~= pre.contract_specs.deep_view()
                        .push(spec@));
                    assert(unique_specs(self.contract_specs.deep_view())) by {
                        let ps = pre.contract_specs.deep_view();
                        let qs = self.contract_specs.deep_view();
                        assert forall|i: int, j: int| 0 <= i < j < qs.len() implies qs[i].id
                            != qs[j].id by {
                            if j == qs.len() - 1 {
                                assert(qs[i] == ps[i]);
                            }
                        }
                    }
                    lemma_wf_outside_links(pre, *self);
                }
                true
            },
        }
    }

    /// Index of the snapshot row keyed (`id`, `room`).
    fn find_cache(&self, id: &str, room: &str) -> (r: Option<usize>)
        ensures
            match r {
                Some(i) => i < self.contract_caches.deep_view().len()
                    && self.contract_caches.deep_view()[i as int].id == id@
                    && self.contract_caches.deep_view()[i as int].room == room@,
                None => !has_cache(self.contract_caches.deep_view(), id@, room@),
            },
    {
        let mut i: usize = 0;
        while i < self.contract_caches.len()
            invariant
                i <= self.contract_caches.len(),
                forall|j: int|
                    0 <= j < i ==> !(#[trigger] self.contract_caches.deep_view()[j].id == id@
                        && self.contract_caches.deep_view()[j].room == room@),
            decreases self.contract_caches.len() - i,
        {
            if str_eq(self.contract_caches[i].id.as_str(), id) && str_eq(
                self.contract_caches[i].room.as_str(),
                room,
            ) {
                return Some(i);
            }
            i += 1;
        }
        None
    }

    /// Copy of the snapshot row keyed (`id`, `room`), if any.
    pub fn query_contract_cache(&self, id: &str, room: &str) -> (r: Option<ContractCache>)
        ensures
            match r {
                Some(c) => self.contract_caches.deep_view().contains(c@) && c@.id == id@ && c@.room
                    == room@,
                None => !has_cache(self.contract_caches.deep_view(), id@, room@),
            },
    {
        match self.find_cache(id, room) {
            Some(i) => {
                let c = self.contract_caches[i].clone();
                proof {
                    assert(self.contract_caches.deep_view().contains(c@)) by {
                        assert(self.contract_caches.deep_view()[i as int] == c@);
                    }
                }
                Some(c)
            },
            None => None,
        }
    }

    /// The observation clock of snapshot (`id`, `room`), if one is on file.
    pub fn query_contract_cache_timestamp(&self, id: &str, room: &str) -> (r: Option<i64>)
        requires
            self.wf(),
        ensures
            match r {
                Some(t) => has_cache(self.contract_caches.deep_view(), id@, room@)
                    && self.contract_caches.deep_view()[index_of_cache(
                    self.contract_caches.deep_view(),
                    id@,
                    room@,
                )].timestamp == t,
                None => !has_cache(self.contract_caches.deep_view(), id@, room@),
            },
    {
        match self.find_cache(id, room) {
            Some(i) => {
                proof {
                    let s = self.contract_caches.deep_view();
                    assert(has_cache(s, id@, room@)) by {
                        assert(s[i as int].id == id@ && s[i as int].room == room@);
                    }
                    assert(index_of_cache(s, id@, room@) == i) by {
                        let k = index_of_cache(s, id@, room@);
                        assert(0 <= k < s.len() && s[k].id == id@ && s[k].room == room@);
                        if k != i {
                            assert(false);
                        }
                    }
                }
                Some(self.contract_caches[i].timestamp)
            },
            None => None,
        }
    }

    /// Store a freshly observed snapshot for room (`id`, `room`). A first
    /// snapshot is always stored (returning false); afterwards the row is
    /// replaced only when the merge rule accepts the newcomer, or when the
    /// caller asked for an unguarded write (returning true either way).
    pub fn contract_cache_insert(
        &mut self,
        id: &str,
        room: &str,
        body: Vec<u8>,
        progress: u64,
        cleared: bool,
        timestamp: i64,
        guarded: bool,
    ) -> (r: bool)
        requires
            old(self).wf(),
        ensures
            final(self).wf(),
            r == has_cache(old(self).contract_caches.deep_view(), id@, room@),
            final(self).contract_caches.deep_view() == caches_after_upsert(
                old(self).contract_caches.deep_view(),
                ContractCacheV {
                    id: id@,
                    room: room@,
                    body: body@,
                    progress: progress,
                    timestamp: timestamp,
                    cleared: cleared,
                },
                guarded,
            ),
            final(self).accounts == old(self).accounts,
            final(self).users == old(self).users,
            final(self).account_maps == old(self).account_maps,
            final(self).spaceships == old(self).spaceships,
            final(self).contracts == old(self).contracts,
            final(self).contract_specs == old(self).contract_specs,
            final(self).subscribes == old(self).subscribes,
            final(self).account_caches == old(self).account_caches,
    {
        let ghost pre = *old(self);
        let ghost ps = pre.contract_caches.deep_view();
        let ghost row = ContractCacheV {
            id: id@,
            room: room@,
            body: body@,
            progress: progress,
            timestamp: timestamp,
            cleared: cleared,
        };
        let existed: bool;
        match self.find_cache(id, room) {
            Some(i) => {
                existed = true;
                proof {
                    assert(has_cache(ps, id@, room@)) by {
                        assert(ps[i as int].id == id@ && ps[i as int].room == room@);
                    }
                    assert(index_of_cache(ps, id@, room@) == i) by {
                        let k = index_of_cache(ps, id@, room@);
                        assert(0 <= k < ps.len() && ps[k].id == id@ && ps[k].room == room@);
                        if k != i {
                            assert(false);
                        }
                    }
                }
                let accept = !guarded || cache_accepts(
                    self.contract_caches[i].progress,
                    self.contract_caches[i].timestamp,
                    progress,
                    timestamp,
                );
                if accept {
                    self.contract_caches[i].body = body;
                    self.contract_caches[i].progress = progress;
                    self.contract_caches[i].timestamp = timestamp;
                    self.contract_caches[i].cleared = cleared;
                    proof {
                        assert(self.contract_caches.deep_view()[i as int] =~= row);
                        assert(self.contract_caches.deep_view() =~~= caches_after_upsert(
                            ps,
                            row,
                            guarded,
                        ));
                    }
                } else {
                    proof {
                        assert(self.contract_caches.deep_view() =~~= caches_after_upsert(
                            ps,
                            row,
                            guarded,
                        ));
                    }
                }
            },
            None => {
                existed = false;
                self.contract_caches.push(
                    ContractCache {
                        id: id.to_owned(),
                        room: room.to_owned(),
                        body,
                        progress,
                        timestamp,
                        cleared,
                    },
                );
                proof {
                    assert(self.contract_caches.deep_view() =~~= ps.push(row));
                    assert(caches_after_upsert(ps, row, guarded) == ps.push(row));
                }
            },
        }
        proof {
            assert(unique_caches(self.contract_caches.deep_view())) by {
                let qs = self.contract_caches.deep_view();
                if !has_cache(ps, id@, room@) {
                    assert forall|x: int, y: int| 0 <= x < y < qs.len() implies !(qs[x].id
                        == qs[y].id && qs[x].room == qs[y].room) by {
                        if y == qs.len() - 1 {
                            assert(qs[x] == ps[x]);
                        }
                    }
                } else {
                    assert(forall|k: int|
                        0 <= k < ps.len() ==> #[trigger] qs[k].id == ps[k].id && qs[k].room
                            == ps[k].room);
                }
            }
            lemma_wf_outside_links(pre, *self);
        }
        existed
    }

    /// Reset the observation clock of snapshot (`id`, `room`), so the next
    /// poll refetches it.
    pub fn update_contract_cache_timestamp(&mut self, id: &str, room: &str, timestamp: i64)
        requires
            old(self).wf(),
        ensures
            final(self).wf(),
            final(self).contract_caches.deep_view() == caches_with_timestamp(
                old(self).contract_caches.deep_view(),
                id@,
                room@,
                timestamp,
            ),
            final(self).accounts == old(self).accounts,
            final(self).users == old(self).users,
            final(self).account_maps == old(self).account_maps,
            final(self).spaceships == old(self).spaceships,
            final(self).contracts == old(self).contracts,
            final(self).contract_specs == old(self).contract_specs,
            final(self).subscribes == old(self).subscribes,
            final(self).account_caches == old(self).account_caches,
    {
        let ghost pre = *old(self);
        let ghost ps = pre.contract_caches.deep_view();
        match self.find_cache(id, room) {
            Some(i) => {
                self.contract_caches[i].timestamp = timestamp;
                proof {
                    assert(self.contract_caches.deep_view() =~~= caches_with_timestamp(
                        ps,
                        id@,
                        room@,
                        timestamp,
                    ));
                }
            },
            None => {
                proof {
                    assert(self.contract_caches.deep_view() =~~= caches_with_timestamp(
                        ps,
                        id@,
                        room@,
                        timestamp,
                    ));
                }
            },
        }
        proof {
            assert(unique_caches(self.contract_caches.deep_view())) by {
                assert(forall|k: int|
                    0 <= k < ps.len() ==> #[trigger] self.contract_caches.deep_view()[k].id
                        == ps[k].id && self.contract_caches.deep_view()[k].room == ps[k].room);
            }
            lemma_wf_outside_links(pre, *self);
        }
    }

    /// Index of the subscription row keyed (`id`, `room`).
    fn find_subscribe(&self, id: &str, room: &str) -> (r: Option<usize>)
        ensures
            match r {
                Some(i) => i < self.subscribes.deep_view().len()
                    && self.subscribes.deep_view()[i as int].id == id@
                    && self.subscribes.deep_view()[i as int].room == room@,
                None => !has_subscribe(self.subscribes.deep_view(), id@, room@),
            },
    {
        let mut i: usize = 0;
        while i < self.subscribes.len()
            invariant
                i <= self.subscribes.len(),
                forall|j: int|
                    0 <= j < i ==> !(#[trigger] self.subscribes.deep_view()[j].id == id@
                        && self.subscribes.deep_view()[j].room == room@),
            decreases self.subscribes.len() - i,
        {
            if str_eq(self.subscribes[i].id.as_str(), id) && str_eq(
                self.subscribes[i].room.as_str(),
                room,
            ) {
                return Some(i);
            }
            i += 1;
        }
        None
    }

    /// Copy of the subscription row keyed (`id`, `room`), if any.
    pub fn query_subscribe_single(&self, id: &str, room: &str) -> (r: Option<SubscribeInfo>)
        ensures
            match r {
                Some(c) => self.subscribes.deep_view().contains(c@) && c@.id == id@ && c@.room
                    == room@,
                None => !has_subscribe(self.subscribes.deep_view(), id@, room@),
            },
    {
        match self.find_subscribe(id, room) {
            Some(i) => {
                let c = self.subscribes[i].clone();
                proof {
                    assert(self.subscribes.deep_view().contains(c@)) by {
                        assert(self.subscribes.deep_view()[i as int] == c@);
                    }
                }
                Some(c)
            },
            None => None,
        }
    }

    /// Copies of every not-yet-notified subscription whose estimate lies
    /// before `timestamp`.
    pub fn query_subscribe(&self, timestamp: i64) -> (r: Vec<SubscribeInfo>)
        ensures
            r.deep_view() == due_subscribes(self.subscribes.deep_view(), timestamp),
    {
        let mut out: Vec<SubscribeInfo> = Vec::new();
        let mut i: usize = 0;
        proof {
            assert(self.subscribes.deep_view().take(0) =~= Seq::<SubscribeInfoV>::empty());
            assert(out.deep_view() =~= Seq::<SubscribeInfoV>::empty());
        }
        while i < self.subscribes.len()
            invariant
                i <= self.subscribes.len(),
                out.deep_view() == due_subscribes(
                    self.subscribes.deep_view().take(i as int),
                    timestamp,
                ),
            decreases self.subscribes.len() - i,
        {
            proof {
                let s = self.subscribes.deep_view();
                assert(s.take(i + 1).drop_last() =~= s.take(i as int));
                assert(s.take(i + 1).last() == s[i as int]);
            }
            let row = &self.subscribes[i];
            if !row.notified && row.est < timestamp {
                let elem = row.clone();
                let ghost out0 = out.deep_view();
                out.push(elem);
                proof {
                    assert(out.deep_view() =~~= out0.push(self.subscribes.deep_view()[i as int]));
                }
            }
            i += 1;
        }
        proof {
            assert(self.subscribes.deep_view().take(self.subscribes@.len() as int)
                =~= self.subscribes.deep_view());
        }
        out
    }

    /// Subscribe (`is_del` false) or unsubscribe (`is_del` true) chat `user`
    /// on room (`id`, `room`). A first subscribe creates the row.
    pub fn modify_subscribe(&mut self, id: &str, room: &str, user: i64, is_del: bool)
        requires
            old(self).wf(),
        ensures
            final(self).wf(),
            final(self).subscribes.deep_view() == subscribes_after_modify(
                old(self).subscribes.deep_view(),
                id@,
                room@,
                user,
                is_del,
            ),
            final(self).accounts == old(self).accounts,
            final(self).users == old(self).users,
            final(self).account_maps == old(self).account_maps,
            final(self).spaceships == old(self).spaceships,
            final(self).contracts == old(self).contracts,
            final(self).contract_specs == old(self).contract_specs,
            final(self).contract_caches == old(self).contract_caches,
            final(self).account_caches == old(self).account_caches,
    {
        let ghost pre = *old(self);
        let ghost ps = pre.subscribes.deep_view();
        match self.find_subscribe(id, room) {
            Some(i) => {
                proof {
                    assert(has_subscribe(ps, id@, room@)) by {
                        assert(ps[i as int].id == id@ && ps[i as int].room == room@);
                    }
                    assert(index_of_subscribe(ps, id@, room@) == i) by {
                        let k = index_of_subscribe(ps, id@, room@);
                        assert(0 <= k < ps.len() && ps[k].id == id@ && ps[k].room == room@);
                        if k != i {
                            assert(false);
                        }
                    }
                }
                if is_del {
                    match index_of_id(&self.subscribes[i].users, user) {
                        Some(j) => {
                            proof {
                                assert(index_of_elem(ps[i as int].users, user) == j) by {
                                    let k = index_of_elem(ps[i as int].users, user);
                                    assert(0 <= k < ps[i as int].users.len()
                                        && ps[i as int].users[k] == user);
                                    if k != j {
                                        assert(distinct_seq(ps[i as int].users));
                                        assert(false);
                                    }
                                }
                            }
                            self.subscribes[i].users.remove(j);
                            proof {
                                assert(self.subscribes.deep_view() =~~= subscribes_after_modify(
                                    ps,
                                    id@,
                                    room@,
                                    user,
                                    is_del,
                                ));
                            }
                        },
                        None => {
                            proof {
                                assert(self.subscribes.deep_view() =~~= subscribes_after_modify(
                                    ps,
                                    id@,
                                    room@,
                                    user,
                                    is_del,
                                ));
                            }
                        },
                    }
                } else {
                    let present = ids_contain(&self.subscribes[i].users, user);
                    if !present {
                        self.subscribes[i].users.push(user);
                    }
                    proof {
                        assert(self.subscribes.deep_view() =~~= subscribes_after_modify(
                            ps,
                            id@,
                            room@,
                            user,
                            is_del,
                        ));
                    }
                }
            },
            None => {
                if !is_del {
                    let mut users: Vec<i64> = Vec::new();
                    users.push(user);
                    proof {
                        assert(users@ =~= seq![user]);
                    }
                    self.subscribes.push(
                        SubscribeInfo {
                            id: id.to_owned(),
                            room: room.to_owned(),
                            users,
                            est: 0,
                            notified: false,
                        },
                    );
                }
                proof {
                    assert(self.subscribes.deep_view() =~~= subscribes_after_modify(
                        ps,
                        id@,
                        room@,
                        user,
                        is_del,
                    ));
                }
            },
        }
        proof {
            lemma_modify_subscribe_wf(pre, *self, id@, room@, user, is_del);
        }
    }

    /// Persist a revised completion estimate for room (`id`, `room`).
    pub fn update_subscribe_est(&mut self, id: &str, room: &str, est: i64)
        requires
            old(self).wf(),
        ensures
            final(self).wf(),
            final(self).subscribes.deep_view() == subscribes_with_est(
                old(self).subscribes.deep_view(),
                id@,
                room@,
                est,
            ),
            final(self).accounts == old(self).accounts,
            final(self).users == old(self).users,
            final(self).account_maps == old(self).account_maps,
            final(self).spaceships == old(self).spaceships,
            final(self).contracts == old(self).contracts,
            final(self).contract_specs == old(self).contract_specs,
            final(self).contract_caches == old(self).contract_caches,
            final(self).account_caches == old(self).account_caches,
    {
        let ghost pre = *old(self);
        let ghost ps = pre.subscribes.deep_view();
        match self.find_subscribe(id, room) {
            Some(i) => {
                self.subscribes[i].est = est;
                proof {
                    assert(self.subscribes.deep_view() =~~= subscribes_with_est(
                        ps,
                        id@,
                        room@,
                        est,
                    ));
                }
            },
            None => {
                proof {
                    assert(self.subscribes.deep_view() =~~= subscribes_with_est(
                        ps,
                        id@,
                        room@,
                        est,
                    ));
                }
            },
        }
        proof {
            assert(unique_subscribes(self.subscribes.deep_view())) by {
                assert(forall|k: int|
                    0 <= k < ps.len() ==> #[trigger] self.subscribes.deep_view()[k].id == ps[k].id
                        && self.subscribes.deep_view()[k].room == ps[k].room);
            }
            assert forall|k: int| 0 <= k < self.subscribes.deep_view().len() implies distinct_seq(
                #[trigger] self.subscribes.deep_view()[k].users,
            ) by {
                assert(self.subscribes.deep_view()[k].users == ps[k].users);
            }
            lemma_wf_outside_links(pre, *self);
        }
    }

    /// Record that the completion notice for room (`id`, `room`) went out.
    /// The mark is terminal: no operation ever clears it.
    pub fn update_subscribe_notified(&mut self, id: &str, room: &str)
        requires
            old(self).wf(),
        ensures
            final(self).wf(),
            final(self).subscribes.deep_view() == subscribes_with_notified(
                old(self).subscribes.deep_view(),
                id@,
                room@,
            ),
            final(self).accounts == old(self).accounts,
            final(self).users == old(self).users,
            final(self).account_maps == old(self).account_maps,
            final(self).spaceships == old(self).spaceships,
            final(self).contracts == old(self).contracts,
            final(self).contract_specs == old(self).contract_specs,
            final(self).contract_caches == old(self).contract_caches,
            final(self).account_caches == old(self).account_caches,
    {
        let ghost pre = *old(self);
        let ghost ps = pre.subscribes.deep_view();
        match self.find_subscribe(id, room) {
            Some(i) => {
                self.subscribes[i].notified = true;
                proof {
                    assert(self.subscribes.deep_view() =~~= subscribes_with_notified(
                        ps,
                        id@,
                        room@,
                    ));
                }
            },
            None => {
                proof {
                    assert(self.subscribes.deep_view() =~~= subscribes_with_notified(
                        ps,
                        id@,
                        room@,
                    ));
                }
            },
        }
        proof {
            assert(unique_subscribes(self.subscribes.deep_view())) by {
                assert(forall|k: int|
                    0 <= k < ps.len() ==> #[trigger] self.subscribes.deep_view()[k].id == ps[k].id
                        && self.subscribes.deep_view()[k].room == ps[k].room);
            }
            assert forall|k: int| 0 <= k < self.subscribes.deep_view().len() implies distinct_seq(
                #[trigger] self.subscribes.deep_view()[k].users,
            ) by {
                assert(self.subscribes.deep_view()[k].users == ps[k].users);
            }
            lemma_wf_outside_links(pre, *self);
        }
    }

    /// Index of the status-cache row keyed `ei`.
    fn find_account_cache(&self, ei: &str) -> (r: Option<usize>)
        ensures
            match r {
                Some(i) => i < self.account_caches.deep_view().len()
                    && self.account_caches.deep_view()[i as int].ei == ei@,
                None => !has_account_cache(self.account_caches.deep_view(), ei@),
            },
    {
        let mut i: usize = 0;
        while i < self.account_caches.len()
            invariant
                i <= self.account_caches.len(),
                forall|j: int| 0 <= j < i ==> self.account_caches.deep_view()[j].ei != ei@,
            decreases self.account_caches.len() - i,
        {
            if str_eq(self.account_caches[i].ei.as_str(), ei) {
                return Some(i);
            }
            i += 1;
        }
        None
    }

    /// Copy of the status-cache row keyed `ei`, if any.
    pub fn query_account_cache(&self, ei: &str) -> (r: Option<AccountCache>)
        ensures
            match r {
                Some(c) => self.account_caches.deep_view().contains(c@) && c@.ei == ei@,
                None => !has_account_cache(self.account_caches.deep_view(), ei@),
            },
    {
        match self.find_account_cache(ei) {
            Some(i) => {
                let c = self.account_caches[i].clone();
                proof {
                    assert(self.account_caches.deep_view().contains(c@)) by {
                        assert(self.account_caches.deep_view()[i as int] == c@);
                    }
                }
                Some(c)
            },
            None => None,
        }
    }

    /// Store the freshly rendered status text for `ei`, stamped `now`.
    pub fn insert_account_cache(&mut self, ei: &str, cache: &str, now: i64)
        requires
            old(self).wf(),
        ensures
            final(self).wf(),
            final(self).account_caches.deep_view() == account_caches_after_upsert(
                old(self).account_caches.deep_view(),
                ei@,
                cache@,
                now,
            ),
            final(self).accounts == old(self).accounts,
            final(self).users == old(self).users,
            final(self).account_maps == old(self).account_maps,
            final(self).spaceships == old(self).spaceships,
            final(self).contracts == old(self).contracts,
            final(self).contract_specs == old(self).contract_specs,
            final(self).contract_caches == old(self).contract_caches,
            final(self).subscribes == old(self).subscribes,
    {
        let ghost pre = *old(self);
        let ghost ps = pre.account_caches.deep_view();
        match self.find_account_cache(ei) {
            Some(i) => {
                self.account_caches[i].cache = cache.to_owned();
                self.account_caches[i].timestamp = now;
                proof {
                    assert(has_account_cache(ps, ei@)) by {
                        assert(ps[i as int].ei == ei@);
                    }
                    assert(self.account_caches.deep_view() =~~= account_caches_after_upsert(
                        ps,
                        ei@,
                        cache@,
                        now,
                    ));
                }
            },
            None => {
                self.account_caches.push(
                    AccountCache { ei: ei.to_owned(), cache: cache.to_owned(), timestamp: now },
                );
                proof {
                    assert(self.account_caches.deep_view() =~~= account_caches_after_upsert(
                        ps,
                        ei@,
                        cache@,
                        now,
                    ));
                }
            },
        }
        proof {
            assert(unique_account_caches(self.account_caches.deep_view())) by {
                let qs = self.account_caches.deep_view();
                if !has_account_cache(ps, ei@) {
                    assert forall|x: int, y: int| 0 <= x < y < qs.len() implies qs[x].ei
                        != qs[y].ei by {
                        if y == qs.len() - 1 {
                            assert(qs[x] == ps[x]);
                        }
                    }
                } else {
                    assert(forall|k: int|
                        0 <= k < ps.len() ==> #[trigger] qs[k].ei == ps[k].ei);
                }
            }
            lemma_wf_outside_links(pre, *self);
        }
    }
}

/// The merge gate for contract snapshots: progress weighs more than the
/// clock (see [`spec_cache_accepts`]).
pub fn cache_accepts(
    old_progress: u64,
    old_timestamp: i64,
    new_progress: u64,
    new_timestamp: i64,
) -> (r: bool)
    ensures
        r == spec_cache_accepts(old_progress, old_timestamp, new_progress, new_timestamp),
{
    new_progress > old_progress || (new_progress == old_progress && new_timestamp >= old_timestamp)
}

/// Monotonic cache merge: when two snapshots of one fresh room arrive in
/// either order, the one with more progress ends up stored and the other is
/// rejected — even when the losing snapshot carries the newer observation
/// clock. A slow stale fetch from one member can never clobber a fresher
/// result another member already recorded.
pub proof fn lemma_monotonic_merge(s: Seq<ContractCacheV>, a: ContractCacheV, b: ContractCacheV)
    requires
        unique_caches(s),
        !has_cache(s, a.id, a.room),
        b.id == a.id,
        b.room == a.room,
        a.progress > b.progress,
    ensures
        caches_after_upsert(caches_after_upsert(s, a, true), b, true) == s.push(a),
        caches_after_upsert(caches_after_upsert(s, b, true), a, true) == s.push(a),
{
    let n = s.len() as int;
    // First order: the higher-progress snapshot lands, the other bounces.
    assert(caches_after_upsert(s, a, true) == s.push(a));
    let sa = s.push(a);
    assert(has_cache(sa, b.id, b.room)) by {
        assert(sa[n].id == b.id && sa[n].room == b.room);
    }
    assert(index_of_cache(sa, b.id, b.room) == n) by {
        let k = index_of_cache(sa, b.id, b.room);
        assert(0 <= k < sa.len() && sa[k].id == b.id && sa[k].room == b.room);
        if k < n {
            assert(sa[k] == s[k]);
            assert(has_cache(s, a.id, a.room));
        }
    }
    assert(!spec_cache_accepts(a.progress, a.timestamp, b.progress, b.timestamp));
    assert(caches_after_upsert(sa, b, true) == sa);

    // Second order: the lower-progress snapshot lands first and is then
    // overwritten.
    assert(caches_after_upsert(s, b, true) == s.push(b)) by {
        assert(!has_cache(s, b.id, b.room));
    }
    let sb = s.push(b);
    assert(has_cache(sb, a.id, a.room)) by {
        assert(sb[n].id == a.id && sb[n].room == a.room);
    }
    assert(index_of_cache(sb, a.id, a.room) == n) by {
        let k = index_of_cache(sb, a.id, a.room);
        assert(0 <= k < sb.len() && sb[k].id == a.id && sb[k].room == a.room);
        if k < n {
            assert(sb[k] == s[k]);
            assert(has_cache(s, a.id, a.room));
        }
    }
    assert(spec_cache_accepts(b.progress, b.timestamp, a.progress, a.timestamp));
    assert(caches_after_upsert(sb, a, true) == sb.update(n, a));
    assert(sb.update(n, a) =~= s.push(a));
}

/// The merge rule never lets stored progress decrease: whatever snapshot
/// arrives, the progress of an already-cached room goes up or stays.
pub proof fn lemma_merge_progress_monotone(
    s: Seq<ContractCacheV>,
    row: ContractCacheV,
    k: int,
)
    requires
        unique_caches(s),
        has_cache(s, row.id, row.room),
        0 <= k < s.len(),
        s[k].id == row.id,
        s[k].room == row.room,
    ensures
        caches_after_upsert(s, row, true).len() == s.len(),
        caches_after_upsert(s, row, true)[k].progress >= s[k].progress,
{
    let i = index_of_cache(s, row.id, row.room);
    assert(0 <= i < s.len() && s[i].id == row.id && s[i].room == row.room) by {
        let w = choose|w: int| 0 <= w < s.len() && s[w].id == row.id && s[w].room == row.room;
        assert(s[w].id == row.id && s[w].room == row.room);
    }
    assert(i == k) by {
        if i != k {
            assert(false);
        }
    }
}

/// Changing one subscription row in a way that keeps its key and keeps its
/// user list duplicate-free keeps the store well formed.
proof fn lemma_modify_subscribe_wf(
    pre: Database,
    post: Database,
    id: Seq<char>,
    room: Seq<char>,
    user: i64,
    is_del: bool,
)
    requires
        pre.wf(),
        post.subscribes.deep_view() == subscribes_after_modify(
            pre.subscribes.deep_view(),
            id,
            room,
            user,
            is_del,
        ),
        post.accounts == pre.accounts,
        post.users == pre.users,
        post.account_maps == pre.account_maps,
        post.spaceships == pre.spaceships,
        post.contracts == pre.contracts,
        post.contract_specs == pre.contract_specs,
        post.contract_caches == pre.contract_caches,
        post.account_caches == pre.account_caches,
    ensures
        post.wf(),
{
    let ps = pre.subscribes.deep_view();
    let qs = post.subscribes.deep_view();
    assert(unique_subscribes(qs)) by {
        if has_subscribe(ps, id, room) {
            assert(forall|k: int|
                0 <= k < ps.len() ==> #[trigger] qs[k].id == ps[k].id && qs[k].room
                    == ps[k].room);
        } else if !is_del {
            assert forall|x: int, y: int| 0 <= x < y < qs.len() implies !(qs[x].id == qs[y].id
                && qs[x].room == qs[y].room) by {
                if y == qs.len() - 1 {
                    assert(qs[x] == ps[x]);
                }
            }
        }
    }
    assert forall|k: int| 0 <= k < qs.len() implies distinct_seq(#[trigger] qs[k].users) by {
        if has_subscribe(ps, id, room) {
            let i = index_of_subscribe(ps, id, room);
            assert(0 <= i < ps.len() && ps[i].id == id && ps[i].room == room) by {
                let w = choose|w: int| 0 <= w < ps.len() && ps[w].id == id && ps[w].room == room;
                assert(ps[w].id == id && ps[w].room == room);
            }
            if k != i {
                assert(qs[k] == ps[k]);
            } else {
                if is_del && ps[i].users.contains(user) {
                    let j = index_of_elem(ps[i].users, user);
                    assert(0 <= j < ps[i].users.len() && ps[i].users[j] == user) by {
                        let w = choose|w: int|
                            0 <= w < ps[i].users.len() && ps[i].users[w] == user;
                        assert(ps[i].users[w] == user);
                    }
                    lemma_remove_distinct(ps[i].users, j);
                } else if !is_del && !ps[i].users.contains(user) {
                    let s = ps[i].users.push(user);
                    assert forall|x: int, y: int| 0 <= x < y < s.len() implies s[x] != s[y] by {
                        if y == s.len() - 1 {
                            assert(s[x] == ps[i].users[x]);
                            if s[x] == user {
                                assert(ps[i].users.contains(user));
                            }
                        }
                    }
                }
            }
        } else {
            if k < ps.len() {
                assert(qs[k] == ps[k]);
            } else {
                assert(qs[k].users =~= seq![user]);
            }
        }
    }
    assert(post.accounts.deep_view() == pre.accounts.deep_view());
    assert(post.users.deep_view() == pre.users.deep_view());
    assert(post.account_maps.deep_view() == pre.account_maps.deep_view());
    assert(post.spaceships.deep_view() == pre.spaceships.deep_view());
    assert(post.contracts.deep_view() == pre.contracts.deep_view());
    assert(post.contract_specs.deep_view() == pre.contract_specs.deep_view());
    assert(post.contract_caches.deep_view() == pre.contract_caches.deep_view());
    assert(post.account_caches.deep_view() == pre.account_caches.deep_view());
}

/// Row-wise extension of the reverse index: keys in place, user lists only
/// grow.
pub open spec fn maps_extend(pm: Seq<AccountMapV>, qm: Seq<AccountMapV>) -> bool {
    &&& qm.len() >= pm.len()
    &&& forall|k: int| 0 <= k < pm.len() ==> #[trigger] qm[k].ei == pm[k].ei
    &&& forall|k: int, u: i64|
        0 <= k < pm.len() && #[trigger] pm[k].users.contains(u)
            ==> #[trigger] qm[k].users.contains(u)
}

/// Row-wise extension of the forward index: ids in place, account lists only
/// grow.
pub open spec fn users_extend(pu: Seq<UserV>, qu: Seq<UserV>) -> bool {
    &&& qu.len() >= pu.len()
    &&& forall|k: int| 0 <= k < pu.len() ==> #[trigger] qu[k].id == pu[k].id
    &&& forall|k: int, e: Seq<char>|
        0 <= k < pu.len() && #[trigger] pu[k].accounts.contains(e)
            ==> #[trigger] qu[k].accounts.contains(e)
}

proof fn lemma_maps_after_insert_extends(pm: Seq<AccountMapV>, ei: Seq<char>, user: i64)
    ensures
        maps_extend(pm, maps_after_insert(pm, ei, user)),
{
    let qm = maps_after_insert(pm, ei, user);
    assert forall|k: int, u: i64|
        0 <= k < pm.len() && #[trigger] pm[k].users.contains(u) implies #[trigger] qm[k].users.contains(
        u,
    ) by {
        if has_map(pm, ei) && pm[k].ei == ei && !pm[k].users.contains(user) {
            let j = choose|j: int| 0 <= j < pm[k].users.len() && pm[k].users[j] == u;
            assert(qm[k].users[j] == u);
        }
    }
}

proof fn lemma_users_after_insert_extends(pu: Seq<UserV>, user: i64, ei: Seq<char>)
    ensures
        users_extend(pu, users_after_insert(pu, user, ei)),
{
    let qu = users_after_insert(pu, user, ei);
    assert forall|k: int, e: Seq<char>|
        0 <= k < pu.len() && #[trigger] pu[k].accounts.contains(e) implies #[trigger] qu[k].accounts.contains(
        e,
    ) by {
        let has_row = exists|m: int| 0 <= m < pu.len() && pu[m].id == user;
        if has_row && pu[k].id == user && !pu[k].accounts.contains(ei) {
            let j = choose|j: int| 0 <= j < pu[k].accounts.len() && pu[k].accounts[j] == e;
            assert(qu[k].accounts[j] == e);
        }
    }
}

/// The account table with `ei`'s nickname set.
pub open spec fn accounts_with_nickname(s: Seq<AccountV>, ei: Seq<char>, nickname: Seq<
    char,
>) -> Seq<AccountV> {
    s.map_values(
        |a: AccountV|
            if a.ei == ei {
                AccountV { nickname: Some(nickname), ..a }
            } else {
                a
            },
    )
}

/// The account table with `ei`'s fetch time and disabled flag set.
pub open spec fn accounts_with_status(s: Seq<AccountV>, ei: Seq<char>, last: i64, disabled: bool) -> Seq<
    AccountV,
> {
    s.map_values(
        |a: AccountV|
            if a.ei == ei {
                AccountV { last_fetch: last, disabled: disabled, ..a }
            } else {
                a
            },
    )
}

/// The account table with `ei`'s contract-scan flag set.
pub open spec fn accounts_with_trace(s: Seq<AccountV>, ei: Seq<char>, enabled: bool) -> Seq<
    AccountV,
> {
    s.map_values(
        |a: AccountV|
            if a.ei == ei {
                AccountV { contract_trace: enabled, ..a }
            } else {
                a
            },
    )
}

/// The account table with `ei`'s fetch time set.
pub open spec fn accounts_with_timestamp(s: Seq<AccountV>, ei: Seq<char>, last: i64) -> Seq<
    AccountV,
> {
    s.map_values(
        |a: AccountV|
            if a.ei == ei {
                AccountV { last_fetch: last, ..a }
            } else {
                a
            },
    )
}

/// The account table with `ei`'s disabled flag set.
pub open spec fn accounts_with_disabled(s: Seq<AccountV>, ei: Seq<char>, disabled: bool) -> Seq<
    AccountV,
> {
    s.map_values(
        |a: AccountV|
            if a.ei == ei {
                AccountV { disabled: disabled, ..a }
            } else {
                a
            },
    )
}

/// What listing a user's accounts returns: one copied account row per entry
/// of the user's own list, in that order.
pub open spec fn query_ei_post(
    users: Seq<UserV>,
    accounts: Seq<AccountV>,
    user: i64,
    rdv: Seq<AccountV>,
) -> bool {
    let u = users[index_of_user(users, user)];
    &&& rdv.len() == u.accounts.len()
    &&& forall|k: int|
        0 <= k < u.accounts.len() ==> #[trigger] rdv[k].ei == u.accounts[k] && accounts.contains(
            rdv[k],
        )
}

/// How many missions one account listing returns at most.
pub const MISSION_CAP: usize = 6;

/// Landing times never increase along the listing.
pub open spec fn sorted_by_land_desc(s: Seq<SpaceShipV>) -> bool {
    forall|i: int, j: int| 0 <= i < j < s.len() ==> s[i].land >= s[j].land
}

/// The listing the store hands out for one account: at most `cap` of the
/// account's missions, those with the latest landing times, latest first.
/// Among equal landing times the choice is not pinned, exactly as the
/// underlying relational order-and-limit leaves it open.
pub open spec fn capped_by_land(all: Seq<SpaceShipV>, r: Seq<SpaceShipV>, cap: int) -> bool {
    &&& r.len() == (if all.len() <= cap {
        all.len() as int
    } else {
        cap
    })
    &&& sorted_by_land_desc(r)
    &&& forall|x: SpaceShipV| #[trigger] r.to_multiset().count(x) <= all.to_multiset().count(x)
    &&& forall|x: SpaceShipV|
        #[trigger] r.to_multiset().count(x) < all.to_multiset().count(x) ==> forall|k: int|
            0 <= k < r.len() ==> x.land <= (#[trigger] r[k]).land
}

/// Inserting one element anywhere adds exactly it to the bag of elements.
proof fn lemma_insert_to_multiset<A>(s: Seq<A>, i: int, x: A)
    requires
        0 <= i <= s.len(),
    ensures
        s.insert(i, x).to_multiset() == s.to_multiset().insert(x),
{
    let single = seq![x];
    assert(s.insert(i, x) =~= s.take(i) + (single + s.skip(i)));
    vstd::seq_lib::lemma_multiset_commutative(s.take(i), single + s.skip(i));
    vstd::seq_lib::lemma_multiset_commutative(single, s.skip(i));
    assert(s =~= s.take(i) + s.skip(i));
    vstd::seq_lib::lemma_multiset_commutative(s.take(i), s.skip(i));
    assert(single =~= Seq::<A>::empty().push(x));
    Seq::<A>::empty().to_multiset_ensures();
    assert(Seq::<A>::empty().to_multiset() =~= Multiset::<A>::empty());
    assert(single.to_multiset() =~= Multiset::<A>::empty().insert(x));
    assert(s.insert(i, x).to_multiset() =~= s.to_multiset().insert(x));
}

/// A sequence's bag of elements splits at any cut.
proof fn lemma_take_skip_to_multiset<A>(s: Seq<A>, i: int)
    requires
        0 <= i <= s.len(),
    ensures
        s.to_multiset() == s.take(i).to_multiset().add(s.skip(i).to_multiset()),
{
    assert(s =~= s.take(i) + s.skip(i));
    vstd::seq_lib::lemma_multiset_commutative(s.take(i), s.skip(i));
}

/// Sort missions by landing time, latest first.
fn sort_by_land_desc(ships: Vec<SpaceShip>) -> (r: Vec<SpaceShip>)
    ensures
        sorted_by_land_desc(r.deep_view()),
        r.deep_view().to_multiset() == ships.deep_view().to_multiset(),
        r.deep_view().len() == ships.deep_view().len(),
{
    let ghost fullv = ships.deep_view();
    let mut rest = ships;
    let mut sorted: Vec<SpaceShip> = Vec::new();
    let ghost mut i: int = 0;
    proof {
        assert(fullv.take(0) =~= Seq::<SpaceShipV>::empty());
        assert(sorted.deep_view() =~= fullv.take(0));
        fullv.take(0).to_multiset_ensures();
        sorted.deep_view().to_multiset_ensures();
    }
    while rest.len() > 0
        invariant
            0 <= i,
            i + rest@.len() == fullv.len(),
            rest.deep_view() == fullv.skip(i),
            sorted_by_land_desc(sorted.deep_view()),
            sorted.deep_view().to_multiset() == fullv.take(i).to_multiset(),
            sorted.deep_view().len() == i,
        decreases rest.len(),
    {
        let ghost rest0 = rest@;
        let ghost rest0d = rest.deep_view();
        let elem = rest.remove(0);
        proof {
            assert(rest.deep_view() =~~= fullv.skip(i + 1)) by {
                assert forall|j: int| 0 <= j < rest@.len() implies rest.deep_view()[j]
                    == fullv.skip(i + 1)[j] by {
                    assert(rest@[j] == rest0[j + 1]);
                    assert(rest.deep_view()[j] == rest0d[j + 1]);
                    assert(rest0d[j + 1] == fullv.skip(i)[j + 1]);
                    assert(fullv.skip(i)[j + 1] == fullv.skip(i + 1)[j]);
                }
            }
            assert(elem.deep_view() == rest0d[0]);
            assert(elem@ == fullv[i]);
        }
        // The first position whose landing time is strictly earlier.
        let mut pos: usize = 0;
        while pos < sorted.len() && sorted[pos].land >= elem.land
            invariant
                pos <= sorted@.len(),
                forall|j: int|
                    0 <= j < pos ==> (#[trigger] sorted.deep_view()[j]).land >= elem@.land,
            decreases sorted.len() - pos,
        {
            proof {
                assert(sorted.deep_view()[pos as int].land >= elem@.land);
            }
            pos += 1;
        }
        let ghost dv0 = sorted.deep_view();
        sorted.insert(pos, elem);
        proof {
            assert(sorted.deep_view() =~~= dv0.insert(pos as int, fullv[i]));
            lemma_insert_to_multiset(dv0, pos as int, fullv[i]);
            assert(fullv.take(i + 1).drop_last() =~= fullv.take(i));
            assert(fullv.take(i + 1).last() == fullv[i]);
            fullv.take(i).to_multiset_ensures();
            assert(fullv.take(i + 1) =~= fullv.take(i).push(fullv[i]));
            assert(fullv.take(i + 1).to_multiset() =~= fullv.take(i).to_multiset().insert(
                fullv[i],
            ));
            assert(sorted.deep_view().to_multiset() =~= fullv.take(i + 1).to_multiset());
            assert(sorted_by_land_desc(sorted.deep_view())) by {
                let dv = sorted.deep_view();
                assert forall|a: int, b: int| 0 <= a < b < dv.len() implies dv[a].land
                    >= dv[b].land by {
                    assert(dv[a] == (if a < pos {
                        dv0[a]
                    } else if a == pos {
                        fullv[i]
                    } else {
                        dv0[a - 1]
                    }));
                    assert(dv[b] == (if b < pos {
                        dv0[b]
                    } else if b == pos {
                        fullv[i]
                    } else {
                        dv0[b - 1]
                    }));
                    if a < pos && b == pos {
                        assert(dv0[a].land >= fullv[i].land);
                    } else if a == pos && b > pos {
                        assert(pos < dv0.len());
                        assert(fullv[i].land > dv0[pos as int].land);
                        assert(dv0[pos as int].land >= dv0[b - 1].land);
                    } else if a < pos && b > pos {
                        assert(dv0[a].land >= dv0[b - 1].land);
                    }
                }
            }
            dv0.to_multiset_ensures();
            sorted.deep_view().to_multiset_ensures();
        }
        proof {
            i = i + 1;
        }
    }
    proof {
        assert(fullv.skip(i).len() == 0);
        assert(i == fullv.len());
        assert(fullv.take(fullv.len() as int) =~= fullv);
    }
    sorted
}

/// There is a mission row keyed `id`.
pub open spec fn has_ship(s: Seq<SpaceShipV>, id: Seq<char>) -> bool {
    exists|k: int| 0 <= k < s.len() && s[k].id == id
}

/// The mission table after recording `ship`: unchanged when its id is
/// already on file.
pub open spec fn ships_after_insert(s: Seq<SpaceShipV>, ship: SpaceShipV) -> Seq<SpaceShipV> {
    if has_ship(s, ship.id) {
        s
    } else {
        s.push(ship)
    }
}

/// The mission table with `id` marked as notified.
pub open spec fn ships_with_notified(s: Seq<SpaceShipV>, id: Seq<char>) -> Seq<SpaceShipV> {
    s.map_values(
        |ship: SpaceShipV|
            if ship.id == id {
                SpaceShipV { notified: true, ..ship }
            } else {
                ship
            },
    )
}

/// How many of the first `k` missions belong to `ei`.
pub open spec fn count_belong(s: Seq<SpaceShipV>, ei: Seq<char>, k: int) -> int
    decreases k,
{
    if k <= 0 {
        0
    } else {
        count_belong(s, ei, k - 1) + (if s[k - 1].belong == ei {
            1int
        } else {
            0int
        })
    }
}

/// The sub-sequence of missions due at or before `deadline` whose landing
/// notice is still owed, in table order.
pub open spec fn due_ships(s: Seq<SpaceShipV>, deadline: i64) -> Seq<SpaceShipV>
    decreases s.len(),
{
    if s.len() == 0 {
        Seq::empty()
    } else {
        let rest = due_ships(s.drop_last(), deadline);
        if s.last().land <= deadline && !s.last().notified {
            rest.push(s.last())
        } else {
            rest
        }
    }
}

/// The sub-sequence of missions belonging to account `ei`, in table order.
pub open spec fn ships_of(s: Seq<SpaceShipV>, ei: Seq<char>) -> Seq<SpaceShipV>
    decreases s.len(),
{
    if s.len() == 0 {
        Seq::empty()
    } else {
        let rest = ships_of(s.drop_last(), ei);
        if s.last().belong == ei {
            rest.push(s.last())
        } else {
            rest
        }
    }
}

proof fn lemma_due_ships_take_step(s: Seq<SpaceShipV>, deadline: i64, i: int)
    requires
        0 <= i < s.len(),
    ensures
        due_ships(s.take(i + 1), deadline) == (if s[i].land <= deadline && !s[i].notified {
            due_ships(s.take(i), deadline).push(s[i])
        } else {
            due_ships(s.take(i), deadline)
        }),
{
    assert(s.take(i + 1).drop_last() =~= s.take(i));
    assert(s.take(i + 1).last() == s[i]);
    assert(s.take(i + 1).len() == i + 1);
}

proof fn lemma_ships_of_take_step(s: Seq<SpaceShipV>, ei: Seq<char>, i: int)
    requires
        0 <= i < s.len(),
    ensures
        ships_of(s.take(i + 1), ei) == (if s[i].belong == ei {
            ships_of(s.take(i), ei).push(s[i])
        } else {
            ships_of(s.take(i), ei)
        }),
{
    assert(s.take(i + 1).drop_last() =~= s.take(i));
    assert(s.take(i + 1).last() == s[i]);
    assert(s.take(i + 1).len() == i + 1);
}

/// There is a participation row keyed (`id`, `belong`).
pub open spec fn has_contract(s: Seq<ContractV>, id: Seq<char>, belong: Seq<char>) -> bool {
    exists|k: int| 0 <= k < s.len() && s[k].id == id && s[k].belong == belong
}

/// The index of the participation row keyed (`id`, `belong`).
pub open spec fn index_of_contract(s: Seq<ContractV>, id: Seq<char>, belong: Seq<char>) -> int {
    choose|k: int| 0 <= k < s.len() && s[k].id == id && s[k].belong == belong
}

/// The start time already recorded by the first row of room (`id`, `room`)
/// that has one.
pub open spec fn donor_start_time(s: Seq<ContractV>, id: Seq<char>, room: Seq<char>) -> Option<
    i64,
>
    decreases s.len(),
{
    if s.len() == 0 {
        None
    } else if s[0].id == id && s[0].room == room && s[0].start_time is Some {
        s[0].start_time
    } else {
        donor_start_time(s.drop_first(), id, room)
    }
}

/// The participation table after recording a fresh row, when its key is new.
pub open spec fn contracts_after_insert(s: Seq<ContractV>, row: ContractV) -> Seq<ContractV> {
    if has_contract(s, row.id, row.belong) {
        s
    } else {
        s.push(row)
    }
}

/// The participation table after updating row (`id`, `belong`): the room and
/// the finished flag are set, and the start time is borrowed from whichever
/// row of the same room already knows it.
pub open spec fn contracts_after_set(
    s: Seq<ContractV>,
    id: Seq<char>,
    belong: Seq<char>,
    room: Seq<char>,
    finished: bool,
) -> Seq<ContractV> {
    if has_contract(s, id, belong) {
        let k = index_of_contract(s, id, belong);
        s.update(
            k,
            ContractV {
                room: room,
                finished: finished,
                start_time: donor_start_time(s, id, room),
                ..s[k]
            },
        )
    } else {
        s
    }
}

/// The participation table with a room's start time filled in wherever it
/// was still missing.
pub open spec fn contracts_with_start_time(
    s: Seq<ContractV>,
    id: Seq<char>,
    room: Seq<char>,
    start: i64,
) -> Seq<ContractV> {
    s.map_values(
        |c: ContractV|
            if c.id == id && c.room == room && c.start_time is None {
                ContractV { start_time: Some(start), ..c }
            } else {
                c
            },
    )
}

/// The participation rows of account `ei`, in table order.
pub open spec fn contracts_of(s: Seq<ContractV>, ei: Seq<char>) -> Seq<ContractV>
    decreases s.len(),
{
    if s.len() == 0 {
        Seq::empty()
    } else {
        let rest = contracts_of(s.drop_last(), ei);
        if s.last().belong == ei {
            rest.push(s.last())
        } else {
            rest
        }
    }
}

/// There is a metadata row keyed `id`.
pub open spec fn has_spec(s: Seq<ContractSpecV>, id: Seq<char>) -> bool {
    exists|k: int| 0 <= k < s.len() && s[k].id == id
}

/// There is a snapshot row keyed (`id`, `room`).
pub open spec fn has_cache(s: Seq<ContractCacheV>, id: Seq<char>, room: Seq<char>) -> bool {
    exists|k: int| 0 <= k < s.len() && s[k].id == id && s[k].room == room
}

/// The index of the snapshot row keyed (`id`, `room`).
pub open spec fn index_of_cache(s: Seq<ContractCacheV>, id: Seq<char>, room: Seq<char>) -> int {
    choose|k: int| 0 <= k < s.len() && s[k].id == id && s[k].room == room
}

/// The monotonic snapshot-merge rule: progress may never go backwards, and
/// at equal progress the observation clock may not go backwards either. A
/// snapshot with more progress wins even when its clock is older, so a slow
/// stale fetch can never clobber a fresher result.
pub open spec fn spec_cache_accepts(
    old_progress: u64,
    old_timestamp: i64,
    new_progress: u64,
    new_timestamp: i64,
) -> bool {
    new_progress > old_progress || (new_progress == old_progress && new_timestamp
        >= old_timestamp)
}

/// The snapshot table after a guarded upsert of (`id`, `room`).
pub open spec fn caches_after_upsert(
    s: Seq<ContractCacheV>,
    row: ContractCacheV,
    guarded: bool,
) -> Seq<ContractCacheV> {
    if has_cache(s, row.id, row.room) {
        let k = index_of_cache(s, row.id, row.room);
        if !guarded || spec_cache_accepts(s[k].progress, s[k].timestamp, row.progress,
        row.timestamp) {
            s.update(k, row)
        } else {
            s
        }
    } else {
        s.push(row)
    }
}

/// The snapshot table with the observation clock of (`id`, `room`) set.
pub open spec fn caches_with_timestamp(
    s: Seq<ContractCacheV>,
    id: Seq<char>,
    room: Seq<char>,
    timestamp: i64,
) -> Seq<ContractCacheV> {
    s.map_values(
        |c: ContractCacheV|
            if c.id == id && c.room == room {
                ContractCacheV { timestamp: timestamp, ..c }
            } else {
                c
            },
    )
}

/// There is a subscription row keyed (`id`, `room`).
pub open spec fn has_subscribe(s: Seq<SubscribeInfoV>, id: Seq<char>, room: Seq<char>) -> bool {
    exists|k: int| 0 <= k < s.len() && s[k].id == id && s[k].room == room
}

/// The index of the subscription row keyed (`id`, `room`).
pub open spec fn index_of_subscribe(s: Seq<SubscribeInfoV>, id: Seq<char>, room: Seq<
    char,
>) -> int {
    choose|k: int| 0 <= k < s.len() && s[k].id == id && s[k].room == room
}

/// The subscription table after a subscribe (`is_del` false) or unsubscribe
/// (`is_del` true) of `user` on room (`id`, `room`). A first subscribe
/// creates the row with a zero estimate; an unsubscribe of an unknown room
/// changes nothing.
pub open spec fn subscribes_after_modify(
    s: Seq<SubscribeInfoV>,
    id: Seq<char>,
    room: Seq<char>,
    user: i64,
    is_del: bool,
) -> Seq<SubscribeInfoV> {
    if has_subscribe(s, id, room) {
        let k = index_of_subscribe(s, id, room);
        if is_del {
            if s[k].users.contains(user) {
                s.update(
                    k,
                    SubscribeInfoV {
                        users: s[k].users.remove(index_of_elem(s[k].users, user)),
                        ..s[k]
                    },
                )
            } else {
                s
            }
        } else {
            if s[k].users.contains(user) {
                s
            } else {
                s.update(k, SubscribeInfoV { users: s[k].users.push(user), ..s[k] })
            }
        }
    } else {
        if is_del {
            s
        } else {
            s.push(
                SubscribeInfoV { id: id, room: room, users: seq![user], est: 0, notified: false },
            )
        }
    }
}

/// The subscription table with the estimate of (`id`, `room`) set.
pub open spec fn subscribes_with_est(s: Seq<SubscribeInfoV>, id: Seq<char>, room: Seq<char>, est: i64) -> Seq<
    SubscribeInfoV,
> {
    s.map_values(
        |c: SubscribeInfoV|
            if c.id == id && c.room == room {
                SubscribeInfoV { est: est, ..c }
            } else {
                c
            },
    )
}

/// The subscription table with (`id`, `room`) marked notified; the mark is
/// terminal, nothing ever clears it.
pub open spec fn subscribes_with_notified(s: Seq<SubscribeInfoV>, id: Seq<char>, room: Seq<
    char,
>) -> Seq<SubscribeInfoV> {
    s.map_values(
        |c: SubscribeInfoV|
            if c.id == id && c.room == room {
                SubscribeInfoV { notified: true, ..c }
            } else {
                c
            },
    )
}

/// The subscriptions not yet notified whose estimate lies before `deadline`,
/// in table order.
pub open spec fn due_subscribes(s: Seq<SubscribeInfoV>, deadline: i64) -> Seq<SubscribeInfoV>
    decreases s.len(),
{
    if s.len() == 0 {
        Seq::empty()
    } else {
        let rest = due_subscribes(s.drop_last(), deadline);
        if !s.last().notified && s.last().est < deadline {
            rest.push(s.last())
        } else {
            rest
        }
    }
}

/// There is a status-cache row keyed `ei`.
pub open spec fn has_account_cache(s: Seq<AccountCacheV>, ei: Seq<char>) -> bool {
    exists|k: int| 0 <= k < s.len() && s[k].ei == ei
}

/// The status-cache table after an upsert of `ei`.
pub open spec fn account_caches_after_upsert(s: Seq<AccountCacheV>, ei: Seq<char>, cache: Seq<
    char,
>, timestamp: i64) -> Seq<AccountCacheV> {
    if has_account_cache(s, ei) {
        s.map_values(
            |c: AccountCacheV|
                if c.ei == ei {
                    AccountCacheV { cache: cache, timestamp: timestamp, ..c }
                } else {
                    c
                },
        )
    } else {
        s.push(AccountCacheV { ei: ei, cache: cache, timestamp: timestamp })
    }
}

/// A change confined to the account table that keeps every key in place
/// keeps the store well formed.
proof fn lemma_wf_accounts_keys(pre: Database, post: Database)
    requires
        pre.wf(),
        post.accounts.deep_view().len() == pre.accounts.deep_view().len(),
        forall|i: int|
            0 <= i < pre.accounts.deep_view().len() ==> #[trigger] post.accounts.deep_view()[i].ei
                == pre.accounts.deep_view()[i].ei,
        post.users == pre.users,
        post.account_maps == pre.account_maps,
        post.spaceships == pre.spaceships,
        post.contracts == pre.contracts,
        post.contract_specs == pre.contract_specs,
        post.contract_caches == pre.contract_caches,
        post.subscribes == pre.subscribes,
        post.account_caches == pre.account_caches,
    ensures
        post.wf(),
{
    let pa = pre.accounts.deep_view();
    let qa = post.accounts.deep_view();
    assert forall|e: Seq<char>| has_account(pa, e) implies has_account(qa, e) by {
        let k = choose|k: int| 0 <= k < pa.len() && pa[k].ei == e;
        assert(qa[k].ei == e);
    }
    assert(unique_accounts(qa));
    assert(user_accounts_exist(post.users.deep_view(), qa)) by {
        assert forall|i: int, j: int|
            0 <= i < post.users.deep_view().len() && 0 <= j
                < post.users.deep_view()[i].accounts.len() implies has_account(
            qa,
            #[trigger] post.users.deep_view()[i].accounts[j],
        ) by {
            assert(post.users.deep_view() == pre.users.deep_view());
            assert(has_account(pa, pre.users.deep_view()[i].accounts[j]));
        }
    }
    assert(accounts_have_maps(qa, post.account_maps.deep_view())) by {
        assert forall|i: int| 0 <= i < qa.len() implies has_map(
            post.account_maps.deep_view(),
            #[trigger] qa[i].ei,
        ) by {
            assert(post.account_maps.deep_view() == pre.account_maps.deep_view());
            assert(qa[i].ei == pa[i].ei);
            assert(has_map(pre.account_maps.deep_view(), pa[i].ei));
        }
    }
    assert(maps_have_accounts(post.account_maps.deep_view(), qa)) by {
        assert forall|i: int| 0 <= i < post.account_maps.deep_view().len() implies has_account(
            qa,
            #[trigger] post.account_maps.deep_view()[i].ei,
        ) by {
            assert(post.account_maps.deep_view() == pre.account_maps.deep_view());
            assert(has_account(pa, pre.account_maps.deep_view()[i].ei));
        }
    }
    assert(post.users.deep_view() == pre.users.deep_view());
    assert(post.account_maps.deep_view() == pre.account_maps.deep_view());
    assert(post.spaceships.deep_view() == pre.spaceships.deep_view());
    assert(post.contracts.deep_view() == pre.contracts.deep_view());
    assert(post.contract_specs.deep_view() == pre.contract_specs.deep_view());
    assert(post.contract_caches.deep_view() == pre.contract_caches.deep_view());
    assert(post.subscribes.deep_view() == pre.subscribes.deep_view());
    assert(post.account_caches.deep_view() == pre.account_caches.deep_view());
}

/// A change confined to the tables outside the link indexes keeps the store
/// well formed, provided the changed tables stay keyed.
proof fn lemma_wf_outside_links(pre: Database, post: Database)
    requires
        pre.wf(),
        post.accounts == pre.accounts,
        post.users == pre.users,
        post.account_maps == pre.account_maps,
        unique_ships(post.spaceships.deep_view()),
        unique_contracts(post.contracts.deep_view()),
        unique_specs(post.contract_specs.deep_view()),
        unique_caches(post.contract_caches.deep_view()),
        unique_subscribes(post.subscribes.deep_view()),
        unique_account_caches(post.account_caches.deep_view()),
        forall|i: int|
            0 <= i < post.subscribes.deep_view().len() ==> distinct_seq(
                #[trigger] post.subscribes.deep_view()[i].users,
            ),
    ensures
        post.wf(),
{
    assert(post.accounts.deep_view() == pre.accounts.deep_view());
    assert(post.users.deep_view() == pre.users.deep_view());
    assert(post.account_maps.deep_view() == pre.account_maps.deep_view());
}

/// Unregistering an account keeps the store well formed: removing one link
/// from both indexes together preserves their symmetry.
proof fn lemma_delete_account_wf(pre: Database, post: Database, user: i64, ei: Seq<char>)
    requires
        pre.wf(),
        delete_applies(pre.users.deep_view(), pre.account_maps.deep_view(), user, ei),
        post.users.deep_view() == users_after_delete(pre.users.deep_view(), user, ei),
        post.account_maps.deep_view() == maps_after_delete(
            pre.account_maps.deep_view(),
            ei,
            user,
        ),
        post.accounts == pre.accounts,
        post.spaceships == pre.spaceships,
        post.contracts == pre.contracts,
        post.contract_specs == pre.contract_specs,
        post.contract_caches == pre.contract_caches,
        post.subscribes == pre.subscribes,
        post.account_caches == pre.account_caches,
    ensures
        post.wf(),
{
    let pu = pre.users.deep_view();
    let pm = pre.account_maps.deep_view();
    let qu = post.users.deep_view();
    let qm = post.account_maps.deep_view();
    let ku = index_of_user(pu, user);
    let km = index_of_map(pm, ei);
    assert(0 <= ku < pu.len() && pu[ku].id == user) by {
        let w = choose|k: int| 0 <= k < pu.len() && pu[k].id == user;
        assert(pu[w].id == user);
    }
    assert(0 <= km < pm.len() && pm[km].ei == ei) by {
        let w = choose|k: int| 0 <= k < pm.len() && pm[k].ei == ei;
        assert(pm[w].ei == ei);
    }

    // Shape of the changed rows.
    assert(qu.len() == pu.len());
    assert(forall|i: int| 0 <= i < pu.len() && i != ku ==> qu[i] == pu[i]);
    assert(qu[ku].id == user);
    if pu[ku].accounts.contains(ei) {
        let j = index_of_elem(pu[ku].accounts, ei);
        assert(0 <= j < pu[ku].accounts.len() && pu[ku].accounts[j] == ei) by {
            let w = choose|w: int|
                0 <= w < pu[ku].accounts.len() && pu[ku].accounts[w] == ei;
            assert(pu[ku].accounts[w] == ei);
        }
        lemma_remove_distinct(pu[ku].accounts, j);
        assert(qu[ku].accounts == pu[ku].accounts.remove(j));
    } else {
        assert(qu[ku] == pu[ku]);
    }
    assert(distinct_seq(qu[ku].accounts));
    assert(!qu[ku].accounts.contains(ei));
    assert(forall|e: Seq<char>|
        e != ei ==> (qu[ku].accounts.contains(e) <==> pu[ku].accounts.contains(e)));
    assert(forall|e: Seq<char>| qu[ku].accounts.contains(e) ==> pu[ku].accounts.contains(e));

    assert(qm.len() == pm.len());
    assert(forall|i: int| 0 <= i < pm.len() && i != km ==> qm[i] == pm[i]);
    assert(qm[km].ei == ei);
    if pm[km].users.contains(user) {
        let j = index_of_elem(pm[km].users, user);
        assert(0 <= j < pm[km].users.len() && pm[km].users[j] == user) by {
            let w = choose|w: int| 0 <= w < pm[km].users.len() && pm[km].users[w] == user;
            assert(pm[km].users[w] == user);
        }
        lemma_remove_distinct(pm[km].users, j);
        assert(qm[km].users == pm[km].users.remove(j));
    } else {
        assert(qm[km] == pm[km]);
    }
    assert(distinct_seq(qm[km].users));
    assert(!qm[km].users.contains(user));
    assert(forall|u: i64| u != user ==> (qm[km].users.contains(u) <==> pm[km].users.contains(u)));
    assert(forall|u: i64| qm[km].users.contains(u) ==> pm[km].users.contains(u));

    // Keyed tables stay keyed; rows only shrink.
    assert(unique_users(qu)) by {
        assert(forall|i: int| 0 <= i < qu.len() ==> qu[i].id == pu[i].id);
    }
    assert(unique_maps(qm)) by {
        assert(forall|i: int| 0 <= i < qm.len() ==> qm[i].ei == pm[i].ei);
    }
    assert forall|i: int| 0 <= i < qu.len() implies distinct_seq(#[trigger] qu[i].accounts) by {
        if i != ku {
            assert(qu[i] == pu[i]);
        }
    }
    assert forall|i: int| 0 <= i < qm.len() implies distinct_seq(#[trigger] qm[i].users) by {
        if i != km {
            assert(qm[i] == pm[i]);
        }
    }
    assert forall|i: int| 0 <= i < post.subscribes.deep_view().len() implies distinct_seq(
        #[trigger] post.subscribes.deep_view()[i].users,
    ) by {
        assert(post.subscribes.deep_view() == pre.subscribes.deep_view());
    }

    // Symmetry: the removed link vanished from both sides at once; every
    // other link survives on both sides.
    assert(links_consistent(qu, qm)) by {
        assert forall|i: int, j: int|
            0 <= i < qu.len() && 0 <= j < qu[i].accounts.len() implies map_links_user(
            qm,
            #[trigger] qu[i].accounts[j],
            qu[i].id,
        ) by {
            let e = qu[i].accounts[j];
            assert(pu[i].accounts.contains(e)) by {
                if i != ku {
                    assert(qu[i] == pu[i]);
                    assert(pu[i].accounts[j] == e);
                }
            }
            assert(map_links_user(pm, e, pu[i].id)) by {
                let w = choose|w: int| 0 <= w < pu[i].accounts.len() && pu[i].accounts[w] == e;
                assert(map_links_user(pm, pu[i].accounts[w], pu[i].id));
            }
            let k = choose|k: int|
                0 <= k < pm.len() && pm[k].ei == e && pm[k].users.contains(pu[i].id);
            if k == km {
                // This is the row keyed `ei`; the user keeping the link is
                // not the one being unlinked.
                assert(e == ei);
                assert(i != ku) by {
                    if i == ku {
                        assert(qu[ku].accounts.contains(ei)) by {
                            assert(qu[ku].accounts[j] == ei);
                        }
                    }
                }
                assert(pu[i].id != user) by {
                    if pu[i].id == user {
                        assert(i == ku);
                    }
                }
                assert(qm[km].users.contains(pu[i].id));
                assert(qm[km].ei == e);
            } else {
                assert(qm[k] == pm[k]);
            }
            assert(qu[i].id == pu[i].id);
        }
        assert forall|i: int, j: int|
            0 <= i < qm.len() && 0 <= j < qm[i].users.len() implies user_links_account(
            qu,
            #[trigger] qm[i].users[j],
            qm[i].ei,
        ) by {
            let u = qm[i].users[j];
            assert(pm[i].users.contains(u)) by {
                if i != km {
                    assert(qm[i] == pm[i]);
                    assert(pm[i].users[j] == u);
                }
            }
            assert(user_links_account(pu, u, pm[i].ei)) by {
                let w = choose|w: int| 0 <= w < pm[i].users.len() && pm[i].users[w] == u;
                assert(user_links_account(pu, pm[i].users[w], pm[i].ei));
            }
            let k = choose|k: int|
                0 <= k < pu.len() && pu[k].id == u && pu[k].accounts.contains(pm[i].ei);
            if k == ku {
                assert(u == user);
                assert(i != km) by {
                    if i == km {
                        assert(qm[km].users.contains(user)) by {
                            assert(qm[km].users[j] == user);
                        }
                    }
                }
                assert(pm[i].ei != ei) by {
                    if pm[i].ei == ei {
                        assert(i == km);
                    }
                }
                assert(qu[ku].accounts.contains(pm[i].ei));
                assert(qu[ku].id == u);
            } else {
                assert(qu[k] == pu[k]);
            }
            assert(qm[i].ei == pm[i].ei);
        }
    }

    // Remaining references all existed before; the account tables did not
    // change.
    assert(user_accounts_exist(qu, post.accounts.deep_view())) by {
        assert(post.accounts.deep_view() == pre.accounts.deep_view());
        assert forall|i: int, j: int|
            0 <= i < qu.len() && 0 <= j < qu[i].accounts.len() implies has_account(
            pre.accounts.deep_view(),
            #[trigger] qu[i].accounts[j],
        ) by {
            let e = qu[i].accounts[j];
            assert(pu[i].accounts.contains(e)) by {
                if i != ku {
                    assert(qu[i] == pu[i]);
                    assert(pu[i].accounts[j] == e);
                }
            }
            let w = choose|w: int| 0 <= w < pu[i].accounts.len() && pu[i].accounts[w] == e;
            assert(has_account(pre.accounts.deep_view(), pu[i].accounts[w]));
        }
    }
    assert(post.accounts.deep_view() == pre.accounts.deep_view());
    assert(accounts_have_maps(post.accounts.deep_view(), qm)) by {
        assert forall|i: int| 0 <= i < post.accounts.deep_view().len() implies has_map(
            qm,
            #[trigger] post.accounts.deep_view()[i].ei,
        ) by {
            let e = pre.accounts.deep_view()[i].ei;
            assert(has_map(pm, e));
            let w = choose|w: int| 0 <= w < pm.len() && pm[w].ei == e;
            assert(qm[w].ei == e);
        }
    }
    assert(maps_have_accounts(qm, post.accounts.deep_view())) by {
        assert forall|i: int| 0 <= i < qm.len() implies has_account(
            post.accounts.deep_view(),
            #[trigger] qm[i].ei,
        ) by {
            assert(qm[i].ei == pm[i].ei);
            assert(has_account(pre.accounts.deep_view(), pm[i].ei));
        }
    }
    assert(post.spaceships.deep_view() == pre.spaceships.deep_view());
    assert(post.contracts.deep_view() == pre.contracts.deep_view());
    assert(post.contract_specs.deep_view() == pre.contract_specs.deep_view());
    assert(post.contract_caches.deep_view() == pre.contract_caches.deep_view());
    assert(post.account_caches.deep_view() == pre.account_caches.deep_view());
}

/// Registering one account adds its link to both indexes and keeps every
/// link that was already there.
proof fn lemma_insert_account_links(pu: Seq<UserV>, pm: Seq<AccountMapV>, ei: Seq<char>, user: i64)
    ensures
        map_links_user(maps_after_insert(pm, ei, user), ei, user),
        user_links_account(users_after_insert(pu, user, ei), user, ei),
        forall|e: Seq<char>, u: i64|
            map_links_user(pm, e, u) ==> map_links_user(maps_after_insert(pm, ei, user), e, u),
        forall|e: Seq<char>, u: i64|
            user_links_account(pu, u, e) ==> user_links_account(
                users_after_insert(pu, user, ei),
                u,
                e,
            ),
{
    let qm = maps_after_insert(pm, ei, user);
    let qu = users_after_insert(pu, user, ei);
    lemma_maps_after_insert_extends(pm, ei, user);
    lemma_users_after_insert_extends(pu, user, ei);
    assert(map_links_user(qm, ei, user)) by {
        if has_map(pm, ei) {
            let k = choose|k: int| 0 <= k < pm.len() && pm[k].ei == ei;
            assert(qm[k].ei == ei);
            assert(qm[k] == map_with_user(pm[k], user));
            if pm[k].users.contains(user) {
                let j = choose|j: int| 0 <= j < pm[k].users.len() && pm[k].users[j] == user;
                assert(qm[k].users[j] == user);
            } else {
                assert(qm[k].users.last() == user);
            }
        } else {
            assert(qm[qm.len() - 1].ei == ei);
            assert(qm[qm.len() - 1].users =~= seq![user]);
            assert(qm[qm.len() - 1].users[0] == user);
        }
    }
    assert(user_links_account(qu, user, ei)) by {
        if exists|k: int| 0 <= k < pu.len() && pu[k].id == user {
            let k = choose|k: int| 0 <= k < pu.len() && pu[k].id == user;
            assert(qu[k].id == user);
            assert(qu[k] == user_with_account(pu[k], ei));
            if pu[k].accounts.contains(ei) {
                let j = choose|j: int| 0 <= j < pu[k].accounts.len() && pu[k].accounts[j] == ei;
                assert(qu[k].accounts[j] == ei);
            } else {
                assert(qu[k].accounts.last() == ei);
            }
        } else {
            assert(qu[qu.len() - 1].id == user);
            assert(qu[qu.len() - 1].accounts[0] == ei);
        }
    }
    assert forall|e: Seq<char>, u: i64| map_links_user(pm, e, u) implies map_links_user(
        qm,
        e,
        u,
    ) by {
        let k = choose|k: int| 0 <= k < pm.len() && pm[k].ei == e && pm[k].users.contains(u);
        assert(qm[k].ei == e && qm[k].users.contains(u));
    }
    assert forall|e: Seq<char>, u: i64| user_links_account(pu, u, e) implies user_links_account(
        qu,
        u,
        e,
    ) by {
        let k = choose|k: int| 0 <= k < pu.len() && pu[k].id == u && pu[k].accounts.contains(e);
        assert(qu[k].id == u && qu[k].accounts.contains(e));
    }
}

/// Rebuild the two link indexes from raw (account, chat) rows, as the oldest
/// schema's upgrade does. Every pair is registered the way a fresh account
/// registration would be, so the indexes come out keyed, duplicate-free and
/// symmetric, and every input pair stands in both.
pub fn build_link_indexes(rows: Vec<(String, i64)>) -> (r: (Vec<User>, Vec<AccountMap>))
    ensures
        unique_users(r.0.deep_view()),
        unique_maps(r.1.deep_view()),
        forall|i: int|
            0 <= i < r.0.deep_view().len() ==> distinct_seq(
                #[trigger] r.0.deep_view()[i].accounts,
            ),
        forall|i: int|
            0 <= i < r.1.deep_view().len() ==> distinct_seq(#[trigger] r.1.deep_view()[i].users),
        links_consistent(r.0.deep_view(), r.1.deep_view()),
        forall|k: int|
            0 <= k < rows@.len() ==> user_links_account(
                r.0.deep_view(),
                (#[trigger] rows@[k]).1,
                rows@[k].0@,
            ) && map_links_user(r.1.deep_view(), rows@[k].0@, rows@[k].1),
{
    let mut db = Database::new();
    let mut k: usize = 0;
    while k < rows.len()
        invariant
            db.wf(),
            k <= rows@.len(),
            forall|j: int|
                0 <= j < k ==> user_links_account(
                    db.users.deep_view(),
                    (#[trigger] rows@[j]).1,
                    rows@[j].0@,
                ) && map_links_user(db.account_maps.deep_view(), rows@[j].0@, rows@[j].1),
        decreases rows.len() - k,
    {
        let ghost pu = db.users.deep_view();
        let ghost pm = db.account_maps.deep_view();
        db.insert_account(rows[k].0.as_str(), rows[k].1);
        proof {
            lemma_insert_account_links(pu, pm, rows@[k as int].0@, rows@[k as int].1);
        }
        k += 1;
    }
    let Database { users, account_maps, .. } = db;
    (users, account_maps)
}

/// Registering an account keeps the store well formed.
proof fn lemma_insert_account_wf(pre: Database, post: Database, ei: Seq<char>, user: i64)
    requires
        pre.wf(),
        post.accounts.deep_view() == accounts_after_insert(pre.accounts.deep_view(), ei),
        post.account_maps.deep_view() == maps_after_insert(
            pre.account_maps.deep_view(),
            ei,
            user,
        ),
        post.users.deep_view() == users_after_insert(pre.users.deep_view(), user, ei),
        post.spaceships == pre.spaceships,
        post.contracts == pre.contracts,
        post.contract_specs == pre.contract_specs,
        post.contract_caches == pre.contract_caches,
        post.subscribes == pre.subscribes,
        post.account_caches == pre.account_caches,
    ensures
        post.wf(),
{
    let pa = pre.accounts.deep_view();
    let pu = pre.users.deep_view();
    let pm = pre.account_maps.deep_view();
    let qa = post.accounts.deep_view();
    let qu = post.users.deep_view();
    let qm = post.account_maps.deep_view();
    lemma_maps_after_insert_extends(pm, ei, user);
    lemma_users_after_insert_extends(pu, user, ei);

    // The account table: either untouched or extended with a fresh key.
    assert(unique_accounts(qa)) by {
        if !has_account(pa, ei) {
            assert forall|i: int, j: int| 0 <= i < j < qa.len() implies qa[i].ei != qa[j].ei by {
                if j == qa.len() - 1 {
                    assert(qa[i] == pa[i]);
                }
            }
        }
    }
    assert forall|e: Seq<char>| has_account(pa, e) || e == ei implies has_account(qa, e) by {
        if has_account(pa, e) {
            let k = choose|k: int| 0 <= k < pa.len() && pa[k].ei == e;
            assert(qa[k].ei == e);
        } else {
            assert(qa[qa.len() - 1].ei == ei);
        }
    }

    // The reverse index: keys unchanged, or one fresh key not in the table.
    assert(unique_maps(qm)) by {
        if has_map(pm, ei) {
            assert forall|i: int, j: int| 0 <= i < j < qm.len() implies qm[i].ei != qm[j].ei by {
                assert(qm[i].ei == pm[i].ei && qm[j].ei == pm[j].ei);
            }
        } else {
            assert forall|i: int, j: int| 0 <= i < j < qm.len() implies qm[i].ei != qm[j].ei by {
                if j < qm.len() - 1 {
                    assert(qm[i] == pm[i] && qm[j] == pm[j]);
                } else {
                    assert(qm[i] == pm[i]);
                    assert(!(pm[i].ei == ei));
                }
            }
        }
    }
    assert(has_map(qm, ei)) by {
        if has_map(pm, ei) {
            let k = choose|k: int| 0 <= k < pm.len() && pm[k].ei == ei;
            assert(qm[k].ei == ei);
        } else {
            assert(qm[qm.len() - 1].ei == ei);
        }
    }
    assert forall|e: Seq<char>| has_map(pm, e) implies has_map(qm, e) by {
        let k = choose|k: int| 0 <= k < pm.len() && pm[k].ei == e;
        assert(qm[k].ei == e);
    }

    // The forward index: ids unchanged, or one fresh id not in the table.
    assert(unique_users(qu)) by {
        if exists|k: int| 0 <= k < pu.len() && pu[k].id == user {
            assert forall|i: int, j: int| 0 <= i < j < qu.len() implies qu[i].id != qu[j].id by {
                assert(qu[i].id == pu[i].id && qu[j].id == pu[j].id);
            }
        } else {
            assert forall|i: int, j: int| 0 <= i < j < qu.len() implies qu[i].id != qu[j].id by {
                if j < qu.len() - 1 {
                    assert(qu[i] == pu[i] && qu[j] == pu[j]);
                } else {
                    assert(qu[i] == pu[i]);
                }
            }
        }
    }

    // Duplicate-free link lists.
    assert forall|i: int| 0 <= i < qu.len() implies distinct_seq(#[trigger] qu[i].accounts) by {
        if i < pu.len() {
            assert(distinct_seq(pu[i].accounts));
            if qu[i] != pu[i] {
                assert(qu[i] == user_with_account(pu[i], ei));
                assert(!pu[i].accounts.contains(ei));
                let s = pu[i].accounts.push(ei);
                assert forall|x: int, y: int| 0 <= x < y < s.len() implies s[x] != s[y] by {
                    if y == s.len() - 1 {
                        assert(s[x] == pu[i].accounts[x]);
                        if s[x] == ei {
                            assert(pu[i].accounts.contains(ei));
                        }
                    }
                }
            }
        } else {
            assert(qu[i].accounts =~= seq![ei]);
        }
    }
    assert forall|i: int| 0 <= i < qm.len() implies distinct_seq(#[trigger] qm[i].users) by {
        if i < pm.len() {
            assert(distinct_seq(pm[i].users));
            if qm[i] != pm[i] {
                assert(qm[i] == map_with_user(pm[i], user));
                assert(!pm[i].users.contains(user));
                let s = pm[i].users.push(user);
                assert forall|x: int, y: int| 0 <= x < y < s.len() implies s[x] != s[y] by {
                    if y == s.len() - 1 {
                        assert(s[x] == pm[i].users[x]);
                        if s[x] == user {
                            assert(pm[i].users.contains(user));
                        }
                    }
                }
            }
        } else {
            assert(qm[i].users =~= seq![user]);
        }
    }
    assert forall|i: int| 0 <= i < post.subscribes.deep_view().len() implies distinct_seq(
        #[trigger] post.subscribes.deep_view()[i].users,
    ) by {
        assert(post.subscribes.deep_view() == pre.subscribes.deep_view());
    }

    // The new link is present on both sides.
    assert(map_links_user(qm, ei, user)) by {
        if has_map(pm, ei) {
            let k = choose|k: int| 0 <= k < pm.len() && pm[k].ei == ei;
            assert(qm[k].ei == ei);
            assert(qm[k] == map_with_user(pm[k], user));
            if pm[k].users.contains(user) {
                let j = choose|j: int| 0 <= j < pm[k].users.len() && pm[k].users[j] == user;
                assert(qm[k].users[j] == user);
            } else {
                assert(qm[k].users.last() == user);
            }
        } else {
            assert(qm[qm.len() - 1].ei == ei);
            assert(qm[qm.len() - 1].users =~= seq![user]);
            assert(qm[qm.len() - 1].users[0] == user);
        }
    }
    assert(user_links_account(qu, user, ei)) by {
        if exists|k: int| 0 <= k < pu.len() && pu[k].id == user {
            let k = choose|k: int| 0 <= k < pu.len() && pu[k].id == user;
            assert(qu[k].id == user);
            assert(qu[k] == user_with_account(pu[k], ei));
            if pu[k].accounts.contains(ei) {
                let j = choose|j: int| 0 <= j < pu[k].accounts.len() && pu[k].accounts[j] == ei;
                assert(qu[k].accounts[j] == ei);
            } else {
                assert(qu[k].accounts.last() == ei);
            }
        } else {
            assert(qu[qu.len() - 1].id == user);
            assert(qu[qu.len() - 1].accounts[0] == ei);
        }
    }

    // Symmetry of the link indexes.
    assert(links_consistent(qu, qm)) by {
        assert forall|i: int, j: int|
            0 <= i < qu.len() && 0 <= j < qu[i].accounts.len() implies map_links_user(
            qm,
            #[trigger] qu[i].accounts[j],
            qu[i].id,
        ) by {
            let e = qu[i].accounts[j];
            if i < pu.len() {
                if j < pu[i].accounts.len() && qu[i].accounts[j] == pu[i].accounts[j] {
                    assert(map_links_user(pm, pu[i].accounts[j], pu[i].id));
                    let k = choose|k: int|
                        0 <= k < pm.len() && pm[k].ei == e && pm[k].users.contains(pu[i].id);
                    assert(qm[k].ei == e && qm[k].users.contains(pu[i].id));
                } else {
                    // The freshly appended account of an existing user.
                    assert(qu[i] == user_with_account(pu[i], ei));
                    assert(e == ei && qu[i].id == pu[i].id);
                }
            } else {
                assert(qu[i].id == user && qu[i].accounts =~= seq![ei]);
            }
        }
        assert forall|i: int, j: int|
            0 <= i < qm.len() && 0 <= j < qm[i].users.len() implies user_links_account(
            qu,
            #[trigger] qm[i].users[j],
            qm[i].ei,
        ) by {
            let u = qm[i].users[j];
            if i < pm.len() {
                if j < pm[i].users.len() && qm[i].users[j] == pm[i].users[j] {
                    assert(user_links_account(pu, pm[i].users[j], pm[i].ei));
                    let k = choose|k: int|
                        0 <= k < pu.len() && pu[k].id == u && pu[k].accounts.contains(pm[i].ei);
                    assert(qu[k].id == u && qu[k].accounts.contains(pm[i].ei));
                } else {
                    assert(qm[i] == map_with_user(pm[i], user));
                    assert(u == user && qm[i].ei == ei);
                }
            } else {
                assert(qm[i].ei == ei && qm[i].users =~= seq![user]);
                assert(u == user);
            }
        }
    }

    // No dangling references.
    assert(user_accounts_exist(qu, qa)) by {
        assert forall|i: int, j: int|
            0 <= i < qu.len() && 0 <= j < qu[i].accounts.len() implies has_account(
            qa,
            #[trigger] qu[i].accounts[j],
        ) by {
            let e = qu[i].accounts[j];
            if i < pu.len() {
                if j < pu[i].accounts.len() && qu[i].accounts[j] == pu[i].accounts[j] {
                    assert(has_account(pa, e));
                } else {
                    assert(e == ei);
                }
            } else {
                assert(e == ei);
            }
        }
    }
    assert(accounts_have_maps(qa, qm)) by {
        assert forall|i: int| 0 <= i < qa.len() implies has_map(qm, #[trigger] qa[i].ei) by {
            if i < pa.len() {
                assert(has_map(pm, pa[i].ei));
            } else {
                assert(qa[i].ei == ei);
            }
        }
    }
    assert(maps_have_accounts(qm, qa)) by {
        assert forall|i: int| 0 <= i < qm.len() implies has_account(qa, #[trigger] qm[i].ei) by {
            if i < pm.len() {
                assert(qm[i].ei == pm[i].ei);
                assert(has_account(pa, pm[i].ei));
            } else {
                assert(qm[i].ei == ei);
            }
        }
    }

    assert(post.spaceships.deep_view() == pre.spaceships.deep_view());
    assert(post.contracts.deep_view() == pre.contracts.deep_view());
    assert(post.contract_specs.deep_view() == pre.contract_specs.deep_view());
    assert(post.contract_caches.deep_view() == pre.contract_caches.deep_view());
    assert(post.account_caches.deep_view() == pre.account_caches.deep_view());
}

} // verus!
