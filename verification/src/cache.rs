//! The time-bucketed deferred-event cache shared by the two schedulers.
//!
//! An ordered map from trigger time (unix seconds) to the set of events due
//! at that moment. Refills merge events in (insert-if-absent per bucket);
//! draining removes and returns every bucket at or before `now`, so the cost
//! of a drain is proportional to what is actually due. Events are held by
//! value and move out exactly once.

use vstd::prelude::*;

verus! {

/// An event the cache can file: it knows its trigger time and an identity
/// by which duplicates within one bucket are recognised.
pub trait CacheEvent: Sized {
    /// The identity of the event (duplicates share it).
    spec fn key(&self) -> (Seq<char>, Seq<char>);

    /// The moment the event becomes due.
    spec fn trigger(&self) -> i64;

    /// Whether two events are the same occurrence.
    fn same_key(&self, other: &Self) -> (r: bool)
        ensures
            r == (self.key() == other.key()),
    ;

    /// The moment the event becomes due.
    fn trigger_time(&self) -> (t: i64)
        ensures
            t == self.trigger(),
    ;
}

/// A contract subscription is filed under its estimated completion time,
/// identified by its room.
impl CacheEvent for crate::records::SubscribeInfo {
    open spec fn key(&self) -> (Seq<char>, Seq<char>) {
        (self.id@, self.room@)
    }

    open spec fn trigger(&self) -> i64 {
        self.est
    }

    fn same_key(&self, other: &Self) -> (r: bool) {
        crate::records::str_eq(self.id.as_str(), other.id.as_str()) && crate::records::str_eq(
            self.room.as_str(),
            other.room.as_str(),
        )
    }

    fn trigger_time(&self) -> (t: i64) {
        self.est
    }
}

/// A mission is filed under its landing time, identified by its id and the
/// account that flew it.
impl CacheEvent for crate::records::SpaceShip {
    open spec fn key(&self) -> (Seq<char>, Seq<char>) {
        (self.id@, self.belong@)
    }

    open spec fn trigger(&self) -> i64 {
        self.land
    }

    fn same_key(&self, other: &Self) -> (r: bool) {
        crate::records::str_eq(self.id.as_str(), other.id.as_str()) && crate::records::str_eq(
            self.belong.as_str(),
            other.belong.as_str(),
        )
    }

    fn trigger_time(&self) -> (t: i64) {
        self.land
    }
}

/// One bucket: every event due at `time`.
pub struct Bucket<T> {
    pub time: i64,
    pub items: Vec<T>,
}

/// The deferred-event cache.
pub struct EventCache<T> {
    pub buckets: Vec<Bucket<T>>,
}

/// A bucket list as a mathematical value.
pub open spec fn buckets_view<T>(bs: Seq<Bucket<T>>) -> Seq<(i64, Seq<T>)> {
    bs.map_values(|b: Bucket<T>| (b.time, b.items@))
}

/// Bucket times strictly increase.
pub open spec fn times_sorted<T>(bs: Seq<(i64, Seq<T>)>) -> bool {
    forall|i: int, j: int| 0 <= i < j < bs.len() ==> bs[i].0 < bs[j].0
}

/// Every event sits in the bucket of its own trigger time, no bucket is
/// empty, and within a bucket no two events share a key.
pub open spec fn buckets_wf<T: CacheEvent>(bs: Seq<(i64, Seq<T>)>) -> bool {
    &&& times_sorted(bs)
    &&& forall|i: int| 0 <= i < bs.len() ==> #[trigger] bs[i].1.len() > 0
    &&& forall|i: int, k: int|
        0 <= i < bs.len() && 0 <= k < bs[i].1.len() ==> (#[trigger] bs[i].1[k]).trigger()
            == bs[i].0
    &&& forall|i: int, a: int, b: int|
        0 <= i < bs.len() && 0 <= a < b < bs[i].1.len() ==> (#[trigger] bs[i].1[a]).key() != (
        #[trigger] bs[i].1[b]).key()
}

/// There is a bucket for time `t`.
pub open spec fn has_time<T>(bs: Seq<(i64, Seq<T>)>, t: i64) -> bool {
    exists|k: int| 0 <= k < bs.len() && bs[k].0 == t
}

/// The index of the bucket for time `t` (meaningful only when one exists).
pub open spec fn index_of_time<T>(bs: Seq<(i64, Seq<T>)>, t: i64) -> int {
    choose|k: int| 0 <= k < bs.len() && bs[k].0 == t
}

/// Whether a bucket already holds an event with identity `key`.
pub open spec fn bucket_has_key<T: CacheEvent>(items: Seq<T>, key: (Seq<char>, Seq<char>)) -> bool {
    exists|k: int| 0 <= k < items.len() && items[k].key() == key
}

/// Where a fresh bucket for time `t` belongs: after every earlier time.
pub open spec fn bucket_pos<T>(bs: Seq<(i64, Seq<T>)>, t: i64) -> int
    decreases bs.len(),
{
    if bs.len() == 0 {
        0
    } else if bs[0].0 < t {
        1 + bucket_pos(bs.drop_first(), t)
    } else {
        0
    }
}

/// The bucket list after filing one event: appended to its time's bucket
/// unless that bucket already holds its key, in a fresh bucket at the sorted
/// position when the time is new.
pub open spec fn insert_event<T: CacheEvent>(bs: Seq<(i64, Seq<T>)>, ev: T) -> Seq<(i64, Seq<T>)> {
    let t = ev.trigger();
    if has_time(bs, t) {
        let k = index_of_time(bs, t);
        if bucket_has_key(bs[k].1, ev.key()) {
            bs
        } else {
            bs.update(k, (t, bs[k].1.push(ev)))
        }
    } else {
        bs.insert(bucket_pos(bs, t), (t, seq![ev]))
    }
}

/// The bucket list after filing a whole batch, in order.
pub open spec fn refill_events<T: CacheEvent>(bs: Seq<(i64, Seq<T>)>, evs: Seq<T>) -> Seq<
    (i64, Seq<T>),
>
    decreases evs.len(),
{
    if evs.len() == 0 {
        bs
    } else {
        insert_event(refill_events(bs, evs.drop_last()), evs.last())
    }
}

/// The buckets strictly after `now`, in order.
pub open spec fn kept_buckets<T>(bs: Seq<(i64, Seq<T>)>, now: i64) -> Seq<(i64, Seq<T>)>
    decreases bs.len(),
{
    if bs.len() == 0 {
        Seq::empty()
    } else {
        let rest = kept_buckets(bs.drop_last(), now);
        if bs.last().0 > now {
            rest.push(bs.last())
        } else {
            rest
        }
    }
}

/// Every event of every bucket at or before `now`, in bucket order.
pub open spec fn due_items<T>(bs: Seq<(i64, Seq<T>)>, now: i64) -> Seq<T>
    decreases bs.len(),
{
    if bs.len() == 0 {
        Seq::empty()
    } else {
        let rest = due_items(bs.drop_last(), now);
        if bs.last().0 <= now {
            rest + bs.last().1
        } else {
            rest
        }
    }
}

/// Every event of every bucket, in bucket order.
pub open spec fn all_items<T>(bs: Seq<(i64, Seq<T>)>) -> Seq<T>
    decreases bs.len(),
{
    if bs.len() == 0 {
        Seq::empty()
    } else {
        all_items(bs.drop_last()) + bs.last().1
    }
}

/// In a sorted bucket list, a scan that saw `i` earlier times and stopped at
/// the end or at a later-or-equal time has found the insertion position.
proof fn lemma_bucket_pos_is<T>(bs: Seq<(i64, Seq<T>)>, t: i64, i: int)
    requires
        0 <= i <= bs.len(),
        forall|j: int| 0 <= j < i ==> bs[j].0 < t,
        i < bs.len() ==> bs[i as int].0 >= t,
    ensures
        bucket_pos(bs, t) == i,
    decreases bs.len(),
{
    if bs.len() == 0 {
    } else if bs[0].0 < t {
        assert(i >= 1);
        lemma_bucket_pos_is(bs.drop_first(), t, i - 1);
    } else {
        assert(i == 0);
    }
}

impl<T: CacheEvent> EventCache<T> {
    /// The cache as a mathematical value: a list of (time, events) buckets.
    pub open spec fn view_buckets(&self) -> Seq<(i64, Seq<T>)> {
        buckets_view(self.buckets@)
    }

    /// The cache invariant.
    pub open spec fn wf(&self) -> bool {
        buckets_wf(self.view_buckets())
    }

    /// An empty cache.
    pub fn new() -> (r: Self)
        ensures
            r.wf(),
            r.view_buckets() == Seq::<(i64, Seq<T>)>::empty(),
    {
        let r = EventCache { buckets: Vec::new() };
        proof {
            assert(r.view_buckets() =~= Seq::<(i64, Seq<T>)>::empty());
        }
        r
    }

    /// Throw everything away (the admin cache-repair path).
    pub fn clear(&mut self)
        ensures
            final(self).wf(),
            final(self).view_buckets() == Seq::<(i64, Seq<T>)>::empty(),
    {
        self.buckets.clear();
        proof {
            assert(self.view_buckets() =~= Seq::<(i64, Seq<T>)>::empty());
        }
    }

    /// How many buckets are filed.
    pub fn bucket_count(&self) -> (r: usize)
        ensures
            r == self.view_buckets().len(),
    {
        self.buckets.len()
    }

    /// File one event under its trigger time, unless that bucket already
    /// holds an event with the same identity.
    pub fn insert(&mut self, ev: T)
        requires
            old(self).wf(),
        ensures
            final(self).wf(),
            final(self).view_buckets() == insert_event(old(self).view_buckets(), ev),
    {
        let ghost bs = self.view_buckets();
        let t = ev.trigger_time();
        let mut i: usize = 0;
        while i < self.buckets.len() && self.buckets[i].time < t
            invariant
                self == old(self),
                t == ev.trigger(),
                i <= self.buckets@.len(),
                forall|j: int| 0 <= j < i ==> #[trigger] buckets_view(self.buckets@)[j].0 < t,
            decreases self.buckets.len() - i,
        {
            i += 1;
        }
        proof {
            lemma_bucket_pos_is(bs, t, i as int);
        }
        if i < self.buckets.len() && self.buckets[i].time == t {
            // The bucket exists; add the event unless its key is taken.
            proof {
                assert(has_time(bs, t)) by {
                    assert(bs[i as int].0 == t);
                }
                assert(index_of_time(bs, t) == i) by {
                    let k = index_of_time(bs, t);
                    assert(0 <= k < bs.len() && bs[k].0 == t);
                    if k != i {
                        assert(false);
                    }
                }
            }
            let mut k: usize = 0;
            let n = self.buckets[i].items.len();
            let mut present = false;
            while k < n
                invariant
                    self == old(self),
                    i < self.buckets@.len(),
                    n == self.buckets@[i as int].items@.len(),
                    k <= n,
                    present == exists|j: int|
                        0 <= j < k && (#[trigger] self.buckets@[i as int].items@[j]).key()
                            == ev.key(),
                decreases n - k,
            {
                if self.buckets[i].items[k].same_key(&ev) {
                    present = true;
                    proof {
                        assert((self.buckets@[i as int].items@[k as int]).key() == ev.key());
                    }
                }
                k += 1;
            }
            proof {
                assert(present == bucket_has_key(bs[i as int].1, ev.key()));
            }
            if !present {
                self.buckets[i].items.push(ev);
                proof {
                    assert(self.view_buckets() =~~= bs.update(
                        i as int,
                        (t, bs[i as int].1.push(ev)),
                    ));
                    lemma_insert_into_bucket_wf(bs, i as int, ev);
                }
            }
        } else {
            // No bucket for this time yet: open one at the sorted position.
            proof {
                assert(!has_time(bs, t)) by {
                    if has_time(bs, t) {
                        let k = index_of_time(bs, t);
                        assert(0 <= k < bs.len() && bs[k].0 == t);
                        if k < i {
                            assert(bs[k].0 < t);
                        } else if k > i {
                            assert(i < bs.len());
                            assert(bs[i as int].0 >= t);
                            assert(bs[i as int].0 < bs[k].0);
                        } else {
                            assert(i < bs.len() && bs[i as int].0 != t);
                        }
                    }
                }
            }
            let mut items: Vec<T> = Vec::new();
            items.push(ev);
            proof {
                assert(items@ =~= seq![ev]);
            }
            self.buckets.insert(i, Bucket { time: t, items });
            proof {
                assert(self.view_buckets() =~~= bs.insert(i as int, (t, seq![ev])));
                lemma_insert_new_bucket_wf(bs, i as int, t, ev);
            }
        }
    }

    /// File a whole batch of events (the periodic refill).
    pub fn refill(&mut self, events: Vec<T>)
        requires
            old(self).wf(),
        ensures
            final(self).wf(),
            final(self).view_buckets() == refill_events(old(self).view_buckets(), events@),
    {
        let ghost evs = events@;
        let mut rest = events;
        let ghost mut i: int = 0;
        while rest.len() > 0
            invariant
                self.wf(),
                0 <= i,
                i + rest@.len() == evs.len(),
                rest@ == evs.skip(i),
                self.view_buckets() == refill_events(old(self).view_buckets(), evs.take(i)),
            decreases rest.len(),
        {
            let ev = rest.remove(0);
            proof {
                assert(ev == evs[i]);
                assert(rest@ =~= evs.skip(i + 1));
                assert(evs.take(i + 1).drop_last() =~= evs.take(i));
                assert(evs.take(i + 1).last() == evs[i]);
            }
            self.insert(ev);
            proof {
                i = i + 1;
            }
        }
        proof {
            assert(evs.take(evs.len() as int) =~= evs);
            assert(evs.skip(i).len() == 0);
            assert(i == evs.len());
        }
    }

    /// Remove and return every event due at or before `now`. The first
    /// bucket decides cheaply whether anything is due at all; what stays is
    /// exactly the strictly-later part of the table.
    pub fn drain_due(&mut self, now: i64) -> (out: Vec<T>)
        requires
            old(self).wf(),
        ensures
            final(self).wf(),
            final(self).view_buckets() == kept_buckets(old(self).view_buckets(), now),
            out@ == due_items(old(self).view_buckets(), now),
    {
        let ghost bs = self.view_buckets();
        let mut i: usize = 0;
        while i < self.buckets.len() && self.buckets[i].time <= now
            invariant
                self == old(self),
                i <= self.buckets@.len(),
                forall|j: int| 0 <= j < i ==> #[trigger] buckets_view(self.buckets@)[j].0 <= now,
            decreases self.buckets.len() - i,
        {
            i += 1;
        }
        proof {
            assert(i < bs.len() ==> bs[i as int].0 > now);
        }
        let mut due = self.buckets.split_off(0);
        let kept = due.split_off(i);
        self.buckets = kept;
        proof {
            assert(buckets_view(due@) =~= bs.take(i as int));
            assert(self.view_buckets() =~= bs.skip(i as int));
            lemma_sorted_split(bs, now, i as int);
        }
        let mut out: Vec<T> = Vec::new();
        let mut k: usize = 0;
        proof {
            assert(bs.take(i as int).take(0) =~= Seq::<(i64, Seq<T>)>::empty());
            assert(out@ =~= all_items(bs.take(i as int).take(0)));
        }
        while k < due.len()
            invariant
                k <= due@.len(),
                buckets_view(due@).len() == bs.take(i as int).len(),
                forall|j: int| k <= j < due@.len() ==> #[trigger] buckets_view(due@)[j]
                    == bs.take(i as int)[j],
                out@ == all_items(bs.take(i as int).take(k as int)),
            decreases due.len() - k,
        {
            proof {
                let p = bs.take(i as int);
                assert(p.take(k + 1).drop_last() =~= p.take(k as int));
                assert(p.take(k + 1).last() == p[k as int]);
                assert(buckets_view(due@)[k as int] == p[k as int]);
            }
            let ghost out0 = out@;
            let ghost due_pre = due@;
            let ghost taken = due@[k as int].items@;
            out.append(&mut due[k].items);
            proof {
                assert(out@ =~= out0 + taken);
                assert forall|j: int| k + 1 <= j < due@.len() implies #[trigger] buckets_view(
                    due@,
                )[j] == bs.take(i as int)[j] by {
                    assert(due@[j] == due_pre[j]);
                    assert(buckets_view(due_pre)[j] == bs.take(i as int)[j]);
                }
            }
            k += 1;
        }
        proof {
            assert(bs.take(i as int).take(bs.take(i as int).len() as int) =~= bs.take(i as int));
            lemma_all_items_of_due(bs, now, i as int);
        }
        out
    }
}

/// Appending a fresh-keyed event to the bucket of its own time keeps the
/// table well formed.
proof fn lemma_insert_into_bucket_wf<T: CacheEvent>(bs: Seq<(i64, Seq<T>)>, i: int, ev: T)
    requires
        buckets_wf(bs),
        0 <= i < bs.len(),
        bs[i].0 == ev.trigger(),
        !bucket_has_key(bs[i].1, ev.key()),
    ensures
        buckets_wf(bs.update(i, (ev.trigger(), bs[i].1.push(ev)))),
{
    let qs = bs.update(i, (ev.trigger(), bs[i].1.push(ev)));
    assert forall|x: int, a: int, b: int|
        0 <= x < qs.len() && 0 <= a < b < qs[x].1.len() implies (#[trigger] qs[x].1[a]).key() != (
    #[trigger] qs[x].1[b]).key() by {
        if x == i {
            if b == qs[x].1.len() - 1 {
                assert(qs[x].1[a] == bs[i].1[a]);
                if bs[i].1[a].key() == ev.key() {
                    assert(bucket_has_key(bs[i].1, ev.key()));
                }
            } else {
                assert(qs[x].1[a] == bs[i].1[a] && qs[x].1[b] == bs[i].1[b]);
            }
        }
    }
    assert forall|x: int, k: int|
        0 <= x < qs.len() && 0 <= k < qs[x].1.len() implies (#[trigger] qs[x].1[k]).trigger()
        == qs[x].0 by {
        if x == i && k == qs[x].1.len() - 1 {
        } else if x == i {
            assert(qs[x].1[k] == bs[i].1[k]);
        }
    }
}

/// Opening a singleton bucket at the sorted position keeps the table well
/// formed.
proof fn lemma_insert_new_bucket_wf<T: CacheEvent>(bs: Seq<(i64, Seq<T>)>, i: int, t: i64, ev: T)
    requires
        buckets_wf(bs),
        0 <= i <= bs.len(),
        t == ev.trigger(),
        forall|j: int| 0 <= j < i ==> bs[j].0 < t,
        i < bs.len() ==> bs[i].0 > t,
    ensures
        buckets_wf(bs.insert(i, (t, seq![ev]))),
{
    let qs = bs.insert(i, (t, seq![ev]));
    assert(qs.len() == bs.len() + 1);
    assert forall|x: int, y: int| 0 <= x < y < qs.len() implies qs[x].0 < qs[y].0 by {
        assert(qs[x] == (if x < i {
            bs[x]
        } else if x == i {
            (t, seq![ev])
        } else {
            bs[x - 1]
        }));
        assert(qs[y] == (if y < i {
            bs[y]
        } else if y == i {
            (t, seq![ev])
        } else {
            bs[y - 1]
        }));
    }
    assert forall|x: int| 0 <= x < qs.len() implies #[trigger] qs[x].1.len() > 0 by {
        assert(qs[x] == (if x < i {
            bs[x]
        } else if x == i {
            (t, seq![ev])
        } else {
            bs[x - 1]
        }));
    }
    assert forall|x: int, k: int|
        0 <= x < qs.len() && 0 <= k < qs[x].1.len() implies (#[trigger] qs[x].1[k]).trigger()
        == qs[x].0 by {
        assert(qs[x] == (if x < i {
            bs[x]
        } else if x == i {
            (t, seq![ev])
        } else {
            bs[x - 1]
        }));
    }
    assert forall|x: int, a: int, b: int|
        0 <= x < qs.len() && 0 <= a < b < qs[x].1.len() implies (#[trigger] qs[x].1[a]).key() != (
    #[trigger] qs[x].1[b]).key() by {
        assert(qs[x] == (if x < i {
            bs[x]
        } else if x == i {
            (t, seq![ev])
        } else {
            bs[x - 1]
        }));
    }
}

/// In a sorted table split at the first time after `now`, the prefix is due
/// and the suffix is kept.
proof fn lemma_sorted_split<T: CacheEvent>(bs: Seq<(i64, Seq<T>)>, now: i64, i: int)
    requires
        buckets_wf(bs),
        0 <= i <= bs.len(),
        forall|j: int| 0 <= j < i ==> bs[j].0 <= now,
        i < bs.len() ==> bs[i].0 > now,
    ensures
        kept_buckets(bs, now) == bs.skip(i),
        buckets_wf(bs.skip(i)),
        buckets_wf(bs.take(i)),
        forall|j: int| i <= j < bs.len() ==> #[trigger] bs[j].0 > now,
    decreases bs.len(),
{
    assert forall|j: int| i <= j < bs.len() implies #[trigger] bs[j].0 > now by {
        if j > i {
            assert(bs[i].0 < bs[j].0);
        }
    }
    if bs.len() == 0 {
        assert(kept_buckets(bs, now) =~= bs.skip(i));
    } else if i == bs.len() {
        // Everything is due: the last bucket is dropped and the rest follows
        // by induction.
        assert(bs.last().0 <= now);
        lemma_sorted_split(bs.drop_last(), now, i - 1);
        assert(bs.drop_last().skip(i - 1) =~= Seq::<(i64, Seq<T>)>::empty());
        assert(kept_buckets(bs, now) =~= bs.skip(i));
    } else {
        assert(bs.last().0 > now);
        if i == bs.len() - 1 {
            lemma_sorted_split(bs.drop_last(), now, i);
            assert(bs.drop_last().skip(i) =~= Seq::<(i64, Seq<T>)>::empty());
            assert(kept_buckets(bs, now) =~= kept_buckets(bs.drop_last(), now).push(bs.last()));
            assert(kept_buckets(bs, now) =~= bs.skip(i));
        } else {
            lemma_sorted_split(bs.drop_last(), now, i);
            assert(kept_buckets(bs.drop_last(), now) == bs.drop_last().skip(i));
            assert(bs.drop_last().skip(i).push(bs.last()) =~= bs.skip(i));
        }
    }
    assert(buckets_wf(bs.skip(i))) by {
        assert(forall|x: int| 0 <= x < bs.skip(i).len() ==> #[trigger] bs.skip(i)[x]
            == bs[x + i]);
    }
    assert(buckets_wf(bs.take(i))) by {
        assert(forall|x: int| 0 <= x < bs.take(i).len() ==> #[trigger] bs.take(i)[x] == bs[x]);
    }
}

/// In a sorted table the counted position really is the boundary: every
/// earlier bucket is earlier, and the bucket at the position (if any) is not.
proof fn lemma_bucket_pos_sorted<T>(bs: Seq<(i64, Seq<T>)>, t: i64)
    requires
        times_sorted(bs),
    ensures
        0 <= bucket_pos(bs, t) <= bs.len(),
        forall|j: int| 0 <= j < bucket_pos(bs, t) ==> bs[j].0 < t,
        bucket_pos(bs, t) < bs.len() ==> bs[bucket_pos(bs, t)].0 >= t,
    decreases bs.len(),
{
    if bs.len() > 0 {
        let rest = bs.drop_first();
        assert(times_sorted(rest)) by {
            assert(forall|x: int| 0 <= x < rest.len() ==> rest[x] == bs[x + 1]);
        }
        lemma_bucket_pos_sorted(rest, t);
        if bs[0].0 < t {
            assert forall|j: int| 0 <= j < bucket_pos(bs, t) implies bs[j].0 < t by {
                if j > 0 {
                    assert(rest[j - 1].0 < t);
                }
            }
        }
    }
}

/// Refill completeness: after filing an event, a bucket for its trigger time
/// exists and holds its identity, and the table is still well formed. (The
/// constructive definition of [`insert_event`] shows directly that nothing
/// else moves.)
pub proof fn lemma_insert_event_presence<T: CacheEvent>(bs: Seq<(i64, Seq<T>)>, ev: T)
    requires
        buckets_wf(bs),
    ensures
        buckets_wf(insert_event(bs, ev)),
        has_time(insert_event(bs, ev), ev.trigger()),
        bucket_has_key(
            insert_event(bs, ev)[index_of_time(insert_event(bs, ev), ev.trigger())].1,
            ev.key(),
        ),
{
    let t = ev.trigger();
    let qs = insert_event(bs, ev);
    if has_time(bs, t) {
        let k = index_of_time(bs, t);
        assert(0 <= k < bs.len() && bs[k].0 == t) by {
            let w = choose|w: int| 0 <= w < bs.len() && bs[w].0 == t;
            assert(bs[w].0 == t);
        }
        if bucket_has_key(bs[k].1, ev.key()) {
            assert(qs == bs);
        } else {
            lemma_insert_into_bucket_wf(bs, k, ev);
            assert(has_time(qs, t)) by {
                assert(qs[k].0 == t);
            }
        }
        assert(index_of_time(qs, t) == k) by {
            let w = choose|w: int| 0 <= w < qs.len() && qs[w].0 == t;
            assert(qs[w].0 == t);
            if w != k {
                assert(bs[w].0 == t && bs[k].0 == t);
                assert(false);
            }
        }
        assert(bucket_has_key(qs[k].1, ev.key())) by {
            if bucket_has_key(bs[k].1, ev.key()) {
                let j = choose|j: int| 0 <= j < bs[k].1.len() && bs[k].1[j].key() == ev.key();
                assert(qs[k].1[j].key() == ev.key());
            } else {
                assert(qs[k].1.last() == ev);
            }
        }
    } else {
        lemma_bucket_pos_sorted(bs, t);
        let p = bucket_pos(bs, t);
        assert(p < bs.len() ==> bs[p].0 > t) by {
            if p < bs.len() && bs[p].0 == t {
                assert(has_time(bs, t));
            }
        }
        lemma_insert_new_bucket_wf(bs, p, t, ev);
        assert(qs[p].0 == t && qs[p].1 == seq![ev]);
        assert(has_time(qs, t));
        assert(index_of_time(qs, t) == p) by {
            let w = choose|w: int| 0 <= w < qs.len() && qs[w].0 == t;
            assert(qs[w].0 == t);
            if w != p {
                assert(qs[w] == (if w < p {
                    bs[w]
                } else {
                    bs[w - 1]
                }));
                assert(has_time(bs, t));
            }
        }
        assert(bucket_has_key(qs[p].1, ev.key())) by {
            assert(qs[p].1[0].key() == ev.key());
        }
    }
}

/// Drain completeness. Draining a well-formed table at `now` partitions its
/// events exactly: every event either comes out of the drain or stays in the
/// kept table, each exactly once; nothing comes out before its trigger time;
/// and everything kept is strictly later than `now`.
pub proof fn lemma_drain_completeness<T: CacheEvent>(bs: Seq<(i64, Seq<T>)>, now: i64)
    requires
        buckets_wf(bs),
    ensures
        all_items(bs).to_multiset() == due_items(bs, now).to_multiset().add(
            all_items(kept_buckets(bs, now)).to_multiset(),
        ),
        forall|k: int|
            0 <= k < due_items(bs, now).len() ==> (#[trigger] due_items(bs, now)[k]).trigger()
                <= now,
        forall|k: int|
            0 <= k < all_items(kept_buckets(bs, now)).len() ==> (#[trigger] all_items(
                kept_buckets(bs, now),
            )[k]).trigger() > now,
    decreases bs.len(),
{
    vstd::seq_lib::lemma_multiset_commutative(all_items(bs.drop_last()), (if bs.len() > 0 {
        bs.last().1
    } else {
        Seq::empty()
    }));
    if bs.len() == 0 {
        assert(all_items(bs).to_multiset() =~= due_items(bs, now).to_multiset().add(
            all_items(kept_buckets(bs, now)).to_multiset(),
        ));
    } else {
        let front = bs.drop_last();
        assert(buckets_wf(front)) by {
            assert(forall|x: int| 0 <= x < front.len() ==> front[x] == bs[x]);
        }
        lemma_drain_completeness(front, now);
        if bs.last().0 <= now {
            assert(due_items(bs, now) == due_items(front, now) + bs.last().1);
            assert(kept_buckets(bs, now) == kept_buckets(front, now));
            vstd::seq_lib::lemma_multiset_commutative(due_items(front, now), bs.last().1);
            assert(all_items(bs).to_multiset() =~= due_items(bs, now).to_multiset().add(
                all_items(kept_buckets(bs, now)).to_multiset(),
            ));
            assert forall|k: int| 0 <= k < due_items(bs, now).len() implies (
            #[trigger] due_items(bs, now)[k]).trigger() <= now by {
                let d = due_items(front, now);
                if k >= d.len() {
                    assert(due_items(bs, now)[k] == bs.last().1[k - d.len()]);
                    assert(bs.last().1[k - d.len()].trigger() == bs.last().0) by {
                        assert(bs[bs.len() - 1].1[k - d.len()].trigger() == bs[bs.len() - 1].0);
                    }
                } else {
                    assert(due_items(bs, now)[k] == d[k]);
                }
            }
        } else {
            assert(due_items(bs, now) == due_items(front, now));
            assert(kept_buckets(bs, now) == kept_buckets(front, now).push(bs.last()));
            let kf = kept_buckets(front, now);
            assert(all_items(kf.push(bs.last())) == all_items(kf.push(bs.last()).drop_last())
                + kf.push(bs.last()).last().1);
            assert(kf.push(bs.last()).drop_last() =~= kf);
            vstd::seq_lib::lemma_multiset_commutative(all_items(kf), bs.last().1);
            assert(all_items(bs).to_multiset() =~= due_items(bs, now).to_multiset().add(
                all_items(kept_buckets(bs, now)).to_multiset(),
            ));
            assert forall|k: int| 0 <= k < all_items(kept_buckets(bs, now)).len() implies (
            #[trigger] all_items(kept_buckets(bs, now))[k]).trigger() > now by {
                let a = all_items(kf);
                assert(all_items(kept_buckets(bs, now)) == a + bs.last().1);
                if k >= a.len() {
                    assert(all_items(kept_buckets(bs, now))[k] == bs.last().1[k - a.len()]);
                    assert(bs.last().1[k - a.len()].trigger() == bs.last().0) by {
                        assert(bs[bs.len() - 1].1[k - a.len()].trigger() == bs[bs.len() - 1].0);
                    }
                } else {
                    assert(all_items(kept_buckets(bs, now))[k] == a[k]);
                }
            }
        }
    }
}

/// When the whole prefix is due, its events are exactly the due items of the
/// table.
proof fn lemma_all_items_of_due<T: CacheEvent>(bs: Seq<(i64, Seq<T>)>, now: i64, i: int)
    requires
        buckets_wf(bs),
        0 <= i <= bs.len(),
        forall|j: int| 0 <= j < i ==> bs[j].0 <= now,
        forall|j: int| i <= j < bs.len() ==> #[trigger] bs[j].0 > now,
    ensures
        all_items(bs.take(i)) == due_items(bs, now),
    decreases bs.len(),
{
    if bs.len() == 0 {
        assert(all_items(bs.take(i)) =~= due_items(bs, now));
    } else if i == bs.len() {
        assert(bs.last().0 <= now);
        lemma_all_items_of_due(bs.drop_last(), now, i - 1);
        assert(bs.take(i) =~= bs);
        assert(bs.drop_last().take(i - 1) =~= bs.drop_last());
        assert(all_items(bs) == all_items(bs.drop_last()) + bs.last().1);
        assert(due_items(bs, now) == due_items(bs.drop_last(), now) + bs.last().1);
    } else {
        assert(bs.last().0 > now);
        lemma_all_items_of_due(bs.drop_last(), now, i);
        assert(bs.take(i) =~= bs.drop_last().take(i));
        assert(due_items(bs, now) == due_items(bs.drop_last(), now));
    }
}

} // verus!
