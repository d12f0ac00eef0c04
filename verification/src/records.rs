//! The rows owned by the storage actor: tracked accounts, the two
//! denormalized user/account link indexes, observed missions, contract
//! participations, immutable contract metadata, the read-through snapshot
//! cache, and contract-completion subscriptions.
//!
//! Each row type carries a mathematical view (`View`/`DeepView`) over which
//! every storage contract is stated.

use vstd::prelude::*;

verus! {

/// Compare two string slices by their character sequences.
pub fn str_eq(a: &str, b: &str) -> (r: bool)
    ensures
        r == (a@ == b@),
{
    let a2: String = a.to_owned();
    let b2: String = b.to_owned();
    a2 == b2
}

/// Clone a byte vector.
pub fn clone_bytes(v: &Vec<u8>) -> (r: Vec<u8>)
    ensures
        r@ == v@,
{
    let mut out: Vec<u8> = Vec::new();
    let mut i: usize = 0;
    while i < v.len()
        invariant
            i <= v.len(),
            out@ =~= v@.take(i as int),
        decreases v.len() - i,
    {
        out.push(v[i]);
        i += 1;
    }
    proof {
        assert(v@.take(v@.len() as int) =~= v@);
    }
    out
}

/// Clone a vector of chat ids.
pub fn clone_ids(v: &Vec<i64>) -> (r: Vec<i64>)
    ensures
        r@ == v@,
{
    let mut out: Vec<i64> = Vec::new();
    let mut i: usize = 0;
    while i < v.len()
        invariant
            i <= v.len(),
            out@ =~= v@.take(i as int),
        decreases v.len() - i,
    {
        out.push(v[i]);
        i += 1;
    }
    proof {
        assert(v@.take(v@.len() as int) =~= v@);
    }
    out
}

/// The abstract value of an [`Account`].
#[verifier::ext_equal]
pub ghost struct AccountV {
    pub ei: Seq<char>,
    pub nickname: Option<Seq<char>>,
    pub last_fetch: i64,
    pub disabled: bool,
    pub contract_trace: bool,
}

/// A tracked remote account.
pub struct Account {
    /// Opaque remote-account key.
    pub ei: String,
    /// Display nickname, once one has been observed.
    pub nickname: Option<String>,
    /// When the account was last successfully contacted (unix seconds).
    pub last_fetch: i64,
    /// A disabled account is never polled.
    pub disabled: bool,
    /// Opt-in to cooperative-contract scanning.
    pub contract_trace: bool,
}

impl View for Account {
    type V = AccountV;

    open spec fn view(&self) -> AccountV {
        AccountV {
            ei: self.ei@,
            nickname: match self.nickname {
                Some(n) => Some(n@),
                None => None,
            },
            last_fetch: self.last_fetch,
            disabled: self.disabled,
            contract_trace: self.contract_trace,
        }
    }
}

impl DeepView for Account {
    type V = AccountV;

    open spec fn deep_view(&self) -> AccountV {
        self@
    }
}

impl Clone for Account {
    fn clone(&self) -> (r: Self)
        ensures
            r@ == self@,
    {
        let r = Account {
            ei: self.ei.clone(),
            nickname: match &self.nickname {
                Some(n) => Some(n.clone()),
                None => None,
            },
            last_fetch: self.last_fetch,
            disabled: self.disabled,
            contract_trace: self.contract_trace,
        };
        proof {
            assert(r@ =~= self@);
        }
        r
    }
}

/// The abstract value of a [`User`].
#[verifier::ext_equal]
pub ghost struct UserV {
    pub id: i64,
    pub accounts: Seq<Seq<char>>,
}

/// One chat user and the accounts registered from that chat.
pub struct User {
    pub id: i64,
    pub accounts: Vec<String>,
}

impl View for User {
    type V = UserV;

    open spec fn view(&self) -> UserV {
        UserV { id: self.id, accounts: self.accounts.deep_view() }
    }
}

impl DeepView for User {
    type V = UserV;

    open spec fn deep_view(&self) -> UserV {
        self@
    }
}

impl Clone for User {
    fn clone(&self) -> (r: Self)
        ensures
            r@ == self@,
    {
        let mut accounts: Vec<String> = Vec::new();
        let mut i: usize = 0;
        while i < self.accounts.len()
            invariant
                i <= self.accounts.len(),
                accounts.deep_view() =~= self.accounts.deep_view().take(i as int),
            decreases self.accounts.len() - i,
        {
            let elem = self.accounts[i].clone();
            proof {
                assert(accounts.deep_view().len() == accounts@.len());
            }
            accounts.push(elem);
            proof {
                assert(accounts.deep_view() =~~= self.accounts.deep_view().take(i + 1));
            }
            i += 1;
        }
        proof {
            assert(self.accounts.deep_view().take(self.accounts@.len() as int)
                =~= self.accounts.deep_view());
        }
        let r = User { id: self.id, accounts };
        proof {
            assert(r@ =~= self@);
        }
        r
    }
}

/// The abstract value of an [`AccountMap`].
#[verifier::ext_equal]
pub ghost struct AccountMapV {
    pub ei: Seq<char>,
    pub users: Seq<i64>,
}

/// The reverse index: one account and every chat id mapped to it.
pub struct AccountMap {
    pub ei: String,
    pub users: Vec<i64>,
}

impl View for AccountMap {
    type V = AccountMapV;

    open spec fn view(&self) -> AccountMapV {
        AccountMapV { ei: self.ei@, users: self.users@ }
    }
}

impl DeepView for AccountMap {
    type V = AccountMapV;

    open spec fn deep_view(&self) -> AccountMapV {
        self@
    }
}

impl Clone for AccountMap {
    fn clone(&self) -> (r: Self)
        ensures
            r@ == self@,
    {
        let r = AccountMap { ei: self.ei.clone(), users: clone_ids(&self.users) };
        proof {
            assert(r@ =~= self@);
        }
        r
    }
}

/// The abstract value of a [`SpaceShip`].
#[verifier::ext_equal]
pub ghost struct SpaceShipV {
    pub id: Seq<char>,
    pub name: Seq<char>,
    pub duration_type: i64,
    pub belong: Seq<char>,
    pub land: i64,
    pub notified: bool,
}

/// One observed spaceship mission.
pub struct SpaceShip {
    /// Remote-unique mission id.
    pub id: String,
    /// Friendly ship name.
    pub name: String,
    /// Duration class, as stored (0 short, 1 long, 2 epic, 3 tutorial, 4 unknown).
    pub duration_type: i64,
    /// The account that launched the mission.
    pub belong: String,
    /// Completion time (unix seconds).
    pub land: i64,
    /// Flips false to true exactly once, when the landing notice is delivered.
    pub notified: bool,
}

impl View for SpaceShip {
    type V = SpaceShipV;

    open spec fn view(&self) -> SpaceShipV {
        SpaceShipV {
            id: self.id@,
            name: self.name@,
            duration_type: self.duration_type,
            belong: self.belong@,
            land: self.land,
            notified: self.notified,
        }
    }
}

impl DeepView for SpaceShip {
    type V = SpaceShipV;

    open spec fn deep_view(&self) -> SpaceShipV {
        self@
    }
}

impl Clone for SpaceShip {
    fn clone(&self) -> (r: Self)
        ensures
            r@ == self@,
    {
        let r = SpaceShip {
            id: self.id.clone(),
            name: self.name.clone(),
            duration_type: self.duration_type,
            belong: self.belong.clone(),
            land: self.land,
            notified: self.notified,
        };
        proof {
            assert(r@ =~= self@);
        }
        r
    }
}

/// The abstract value of a [`Contract`].
#[verifier::ext_equal]
pub ghost struct ContractV {
    pub id: Seq<char>,
    pub room: Seq<char>,
    pub belong: Seq<char>,
    pub start_time: Option<i64>,
    pub finished: bool,
}

/// One account's participation in one contract.
pub struct Contract {
    pub id: String,
    pub room: String,
    pub belong: String,
    /// When the room started, once known (unix seconds).
    pub start_time: Option<i64>,
    pub finished: bool,
}

impl View for Contract {
    type V = ContractV;

    open spec fn view(&self) -> ContractV {
        ContractV {
            id: self.id@,
            room: self.room@,
            belong: self.belong@,
            start_time: self.start_time,
            finished: self.finished,
        }
    }
}

impl DeepView for Contract {
    type V = ContractV;

    open spec fn deep_view(&self) -> ContractV {
        self@
    }
}

impl Clone for Contract {
    fn clone(&self) -> (r: Self)
        ensures
            r@ == self@,
    {
        let r = Contract {
            id: self.id.clone(),
            room: self.room.clone(),
            belong: self.belong.clone(),
            start_time: self.start_time,
            finished: self.finished,
        };
        proof {
            assert(r@ =~= self@);
        }
        r
    }
}

/// Per-grade goal table of a contract. The numeric payloads are kept as
/// opaque 64-bit patterns: the storage layer and the schedulers never
/// interpret them, only the score engine does.
#[derive(Clone, Copy, PartialEq, Eq, Structural)]
pub struct ContractGradeSpec {
    /// Grade index (1 C, 2 B, 3 A, 4 AA, 5 AAA; anything else unset).
    pub grade: i64,
    /// Contract window length payload.
    pub length_raw: u64,
    /// First goal payload.
    pub goal1_raw: u64,
    /// Final goal payload.
    pub goal3_raw: u64,
}

/// The abstract value of a [`ContractSpec`].
#[verifier::ext_equal]
pub ghost struct ContractSpecV {
    pub id: Seq<char>,
    pub max_coop_size: i64,
    pub token_time_raw: u64,
    pub grades: Seq<ContractGradeSpec>,
}

/// Immutable per-contract static metadata. Inserted once, never mutated.
pub struct ContractSpec {
    pub id: String,
    pub max_coop_size: i64,
    /// Token time constant payload, kept opaque.
    pub token_time_raw: u64,
    /// Per-grade goal table.
    pub grades: Vec<ContractGradeSpec>,
}

impl View for ContractSpec {
    type V = ContractSpecV;

    open spec fn view(&self) -> ContractSpecV {
        ContractSpecV {
            id: self.id@,
            max_coop_size: self.max_coop_size,
            token_time_raw: self.token_time_raw,
            grades: self.grades@,
        }
    }
}

impl DeepView for ContractSpec {
    type V = ContractSpecV;

    open spec fn deep_view(&self) -> ContractSpecV {
        self@
    }
}

impl ContractSpec {
    /// The goal table for `grade`, if the contract defines one.
    pub fn get(&self, grade: i64) -> (r: Option<&ContractGradeSpec>)
        ensures
            match r {
                Some(g) => self.grades@.contains(*g) && g.grade == grade,
                None => forall|i: int|
                    0 <= i < self.grades@.len() ==> self.grades@[i].grade != grade,
            },
    {
        let mut i: usize = 0;
        while i < self.grades.len()
            invariant
                i <= self.grades.len(),
                forall|j: int| 0 <= j < i ==> self.grades@[j].grade != grade,
            decreases self.grades.len() - i,
        {
            if self.grades[i].grade == grade {
                return Some(&self.grades[i]);
            }
            i += 1;
        }
        None
    }
}

impl Clone for ContractSpec {
    fn clone(&self) -> (r: Self)
        ensures
            r@ == self@,
    {
        let mut grades: Vec<ContractGradeSpec> = Vec::new();
        let mut i: usize = 0;
        while i < self.grades.len()
            invariant
                i <= self.grades.len(),
                grades@ =~= self.grades@.take(i as int),
            decreases self.grades.len() - i,
        {
            grades.push(self.grades[i]);
            i += 1;
        }
        proof {
            assert(self.grades@.take(self.grades@.len() as int) =~= self.grades@);
        }
        let r = ContractSpec {
            id: self.id.clone(),
            max_coop_size: self.max_coop_size,
            token_time_raw: self.token_time_raw,
            grades,
        };
        proof {
            assert(r@ =~= self@);
        }
        r
    }
}

/// The abstract value of a [`ContractCache`].
#[verifier::ext_equal]
pub ghost struct ContractCacheV {
    pub id: Seq<char>,
    pub room: Seq<char>,
    pub body: Seq<u8>,
    pub progress: u64,
    pub timestamp: i64,
    pub cleared: bool,
}

/// Last known serialized snapshot of one contract room.
pub struct ContractCache {
    pub id: String,
    pub room: String,
    /// The serialized snapshot, opaque to the storage layer.
    pub body: Vec<u8>,
    /// Monotone progress measure decoded from the snapshot by the caller;
    /// the merge rule never lets it decrease.
    pub progress: u64,
    /// Observation time of the snapshot (unix seconds).
    pub timestamp: i64,
    /// Whether the snapshot reported the room cleared for exit.
    pub cleared: bool,
}

impl View for ContractCache {
    type V = ContractCacheV;

    open spec fn view(&self) -> ContractCacheV {
        ContractCacheV {
            id: self.id@,
            room: self.room@,
            body: self.body@,
            progress: self.progress,
            timestamp: self.timestamp,
            cleared: self.cleared,
        }
    }
}

impl DeepView for ContractCache {
    type V = ContractCacheV;

    open spec fn deep_view(&self) -> ContractCacheV {
        self@
    }
}

impl Clone for ContractCache {
    fn clone(&self) -> (r: Self)
        ensures
            r@ == self@,
    {
        let r = ContractCache {
            id: self.id.clone(),
            room: self.room.clone(),
            body: clone_bytes(&self.body),
            progress: self.progress,
            timestamp: self.timestamp,
            cleared: self.cleared,
        };
        proof {
            assert(r@ =~= self@);
        }
        r
    }
}

/// The abstract value of a [`SubscribeInfo`].
#[verifier::ext_equal]
pub ghost struct SubscribeInfoV {
    pub id: Seq<char>,
    pub room: Seq<char>,
    pub users: Seq<i64>,
    pub est: i64,
    pub notified: bool,
}

/// One contract room with its subscribers and estimated completion time.
pub struct SubscribeInfo {
    pub id: String,
    pub room: String,
    /// Subscribing chat ids, kept without duplicates.
    pub users: Vec<i64>,
    /// Estimated completion time (unix seconds); refined by every poll.
    pub est: i64,
    /// Set once the completion notice has gone out; terminal.
    pub notified: bool,
}

impl View for SubscribeInfo {
    type V = SubscribeInfoV;

    open spec fn view(&self) -> SubscribeInfoV {
        SubscribeInfoV {
            id: self.id@,
            room: self.room@,
            users: self.users@,
            est: self.est,
            notified: self.notified,
        }
    }
}

impl DeepView for SubscribeInfo {
    type V = SubscribeInfoV;

    open spec fn deep_view(&self) -> SubscribeInfoV {
        self@
    }
}

impl SubscribeInfo {
    pub fn id(&self) -> (r: &str)
        ensures
            r@ == self.id@,
    {
        self.id.as_str()
    }

    pub fn room(&self) -> (r: &str)
        ensures
            r@ == self.room@,
    {
        self.room.as_str()
    }

    pub fn users(&self) -> (r: &Vec<i64>)
        ensures
            r@ == self.users@,
    {
        &self.users
    }

    pub fn est(&self) -> (r: i64)
        ensures
            r == self.est,
    {
        self.est
    }

    /// Whether `user` already subscribes to this room.
    pub fn check_user(&self, user: i64) -> (r: bool)
        ensures
            r == self.users@.contains(user),
    {
        let mut i: usize = 0;
        while i < self.users.len()
            invariant
                i <= self.users.len(),
                forall|j: int| 0 <= j < i ==> self.users@[j] != user,
            decreases self.users.len() - i,
        {
            if self.users[i] == user {
                return true;
            }
            i += 1;
        }
        false
    }
}

impl Clone for SubscribeInfo {
    fn clone(&self) -> (r: Self)
        ensures
            r@ == self@,
    {
        let r = SubscribeInfo {
            id: self.id.clone(),
            room: self.room.clone(),
            users: clone_ids(&self.users),
            est: self.est,
            notified: self.notified,
        };
        proof {
            assert(r@ =~= self@);
        }
        r
    }
}

/// The abstract value of an [`AccountCache`].
#[verifier::ext_equal]
pub ghost struct AccountCacheV {
    pub ei: Seq<char>,
    pub cache: Seq<char>,
    pub timestamp: i64,
}

/// Cached textual status for one account.
pub struct AccountCache {
    pub ei: String,
    pub cache: String,
    pub timestamp: i64,
}

impl View for AccountCache {
    type V = AccountCacheV;

    open spec fn view(&self) -> AccountCacheV {
        AccountCacheV { ei: self.ei@, cache: self.cache@, timestamp: self.timestamp }
    }
}

impl DeepView for AccountCache {
    type V = AccountCacheV;

    open spec fn deep_view(&self) -> AccountCacheV {
        self@
    }
}

impl Clone for AccountCache {
    fn clone(&self) -> (r: Self)
        ensures
            r@ == self@,
    {
        let r = AccountCache {
            ei: self.ei.clone(),
            cache: self.cache.clone(),
            timestamp: self.timestamp,
        };
        proof {
            assert(r@ =~= self@);
        }
        r
    }
}

} // verus!
