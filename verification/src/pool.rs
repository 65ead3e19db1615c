//! Pool of idle connections keyed by target address (`host:port`).
//!
//! Connections wait in the order they were returned to the pool; a lookup
//! hands out the oldest one for the target that has been idle for less than
//! the idle limit and discards the stale ones it passes. Times are
//! nanoseconds on a clock chosen by the caller.
//!
//! The connections are kept in one list, each with its target, in the
//! order they came back. A `HashMap` keyed by the target `String` would get
//! no specification from vstd, which models hash-map keys only for integer
//! and `bool` keys (`obeys_key_model`), so a list is what the contracts can
//! speak of; the order per target is the order a per-target queue would
//! keep.
use vstd::prelude::*;

verus! {

/// Warming a target up: after `done` connections opened of the `count`
/// asked for, whether the attempt just made (`connected`) lets warming go
/// on. A connection made counts and warming goes on; the first failure
/// stops it. Returns the connections opened so far when warming goes on.
pub fn warm_step(done: usize, count: usize, connected: bool) -> (r: Option<usize>)
    requires
        done < count,
    ensures
        connected ==> r == Some((done + 1) as usize),
        !connected ==> r is None,
        r matches Some(d) ==> d <= count,
{
    if connected {
        Some(done + 1)
    } else {
        None
    }
}

/// An idle connection as a mathematical value.
pub struct EntryModel<S> {
    pub target: Seq<char>,
    pub stream: S,
    pub idle_since: u64,
}

/// A pool as a mathematical value.
pub struct PoolModel<S> {
    pub entries: Seq<EntryModel<S>>,
    pub max_idle_nanos: nat,
    pub max_per_key: usize,
}

/// A connection idle since `idle_since` has been idle for less than the
/// limit at `now`.
pub open spec fn fresh_at(idle_since: u64, now: u64, max_idle_nanos: nat) -> bool {
    let idle = if now >= idle_since {
        (now - idle_since) as nat
    } else {
        0
    };
    idle < max_idle_nanos
}

/// The entry has been idle for less than the limit at `now`.
pub open spec fn fresh<S>(e: EntryModel<S>, now: u64, max_idle_nanos: nat) -> bool {
    fresh_at(e.idle_since, now, max_idle_nanos)
}

/// The entries for other targets, in order.
pub open spec fn without_target<S>(v: Seq<EntryModel<S>>, t: Seq<char>) -> Seq<EntryModel<S>>
    decreases v.len(),
{
    if v.len() == 0 {
        v
    } else {
        let rest = without_target(v.drop_last(), t);
        if v.last().target == t {
            rest
        } else {
            rest.push(v.last())
        }
    }
}

/// How many entries are for target `t`.
pub open spec fn count_for<S>(v: Seq<EntryModel<S>>, t: Seq<char>) -> nat
    decreases v.len(),
{
    if v.len() == 0 {
        0
    } else {
        count_for(v.drop_last(), t) + if v.last().target == t {
            1nat
        } else {
            0nat
        }
    }
}

/// The entries still fresh at `now`, in order.
pub open spec fn fresh_only<S>(v: Seq<EntryModel<S>>, now: u64, max_idle_nanos: nat) -> Seq<
    EntryModel<S>,
>
    decreases v.len(),
{
    if v.len() == 0 {
        v
    } else {
        let rest = fresh_only(v.drop_last(), now, max_idle_nanos);
        if fresh(v.last(), now, max_idle_nanos) {
            rest.push(v.last())
        } else {
            rest
        }
    }
}

/// The position of the oldest fresh entry for `t`.
pub open spec fn first_fresh<S>(v: Seq<EntryModel<S>>, t: Seq<char>, now: u64, max_idle_nanos: nat) -> Option<int>
    decreases v.len(),
{
    if v.len() == 0 {
        None
    } else {
        match first_fresh(v.drop_last(), t, now, max_idle_nanos) {
            Some(k) => Some(k),
            None => if v.last().target == t && fresh(v.last(), now, max_idle_nanos) {
                Some(v.len() - 1)
            } else {
                None
            },
        }
    }
}

/// A lookup for `t` at `now`: the oldest fresh connection for `t`, with it
/// and the stale ones for `t` before it gone; or none, with every entry for
/// `t` gone (they were all stale).
pub open spec fn get_spec<S>(p: PoolModel<S>, t: Seq<char>, now: u64) -> (Option<S>, Seq<EntryModel<S>>) {
    match first_fresh(p.entries, t, now, p.max_idle_nanos) {
        Some(k) => (
            Some(p.entries[k].stream),
            without_target(p.entries.take(k + 1), t) + p.entries.skip(k + 1),
        ),
        None => (None, without_target(p.entries, t)),
    }
}

/// Returning a connection to the pool at `now`: kept unless the target
/// already has `max_per_key` idle connections.
pub open spec fn put_spec<S>(p: PoolModel<S>, t: Seq<char>, stream: S, now: u64) -> Seq<EntryModel<S>> {
    if count_for(p.entries, t) < p.max_per_key {
        p.entries.push(EntryModel { target: t, stream, idle_since: now })
    } else {
        p.entries
    }
}

/// An idle connection.
struct PoolEntry<S> {
    target: String,
    stream: S,
    idle_since: u64,
}

impl<S> PoolEntry<S> {
    spec fn model(&self) -> EntryModel<S> {
        EntryModel { target: self.target@, stream: self.stream, idle_since: self.idle_since }
    }
}

spec fn entries_model<S>(v: Seq<PoolEntry<S>>) -> Seq<EntryModel<S>> {
    v.map_values(|e: PoolEntry<S>| e.model())
}

/// Pool of idle connections keyed by target address.
pub struct ConnectionPool<S> {
    idle: Vec<PoolEntry<S>>,
    max_idle_nanos: u128,
    max_per_key: usize,
}

impl<S> View for ConnectionPool<S> {
    type V = PoolModel<S>;

    closed spec fn view(&self) -> PoolModel<S> {
        PoolModel {
            entries: entries_model(self.idle@),
            max_idle_nanos: self.max_idle_nanos as nat,
            max_per_key: self.max_per_key,
        }
    }
}

proof fn lemma_without_push<S>(v: Seq<EntryModel<S>>, e: EntryModel<S>, t: Seq<char>)
    ensures
        without_target(v.push(e), t) == if e.target == t {
            without_target(v, t)
        } else {
            without_target(v, t).push(e)
        },
{
    assert(v.push(e).drop_last() =~= v);
}

proof fn lemma_count_push<S>(v: Seq<EntryModel<S>>, e: EntryModel<S>, t: Seq<char>)
    ensures
        count_for(v.push(e), t) == count_for(v, t) + if e.target == t {
            1nat
        } else {
            0nat
        },
{
    assert(v.push(e).drop_last() =~= v);
}

proof fn lemma_fresh_push<S>(v: Seq<EntryModel<S>>, e: EntryModel<S>, now: u64, m: nat)
    ensures
        fresh_only(v.push(e), now, m) == if fresh(e, now, m) {
            fresh_only(v, now, m).push(e)
        } else {
            fresh_only(v, now, m)
        },
{
    assert(v.push(e).drop_last() =~= v);
}

proof fn lemma_first_fresh_none<S>(v: Seq<EntryModel<S>>, t: Seq<char>, now: u64, m: nat)
    requires
        forall|j: int| 0 <= j < v.len() ==> !(v[j].target == t && fresh(v[j], now, m)),
    ensures
        first_fresh(v, t, now, m) is None,
    decreases v.len(),
{
    if v.len() > 0 {
        lemma_first_fresh_none(v.drop_last(), t, now, m);
    }
}

proof fn lemma_first_fresh_is<S>(v: Seq<EntryModel<S>>, t: Seq<char>, now: u64, m: nat, k: int)
    requires
        0 <= k < v.len(),
        v[k].target == t && fresh(v[k], now, m),
        forall|j: int| 0 <= j < k ==> !(v[j].target == t && fresh(v[j], now, m)),
    ensures
        first_fresh(v, t, now, m) == Some(k),
    decreases v.len(),
{
    if k == v.len() - 1 {
        lemma_first_fresh_none(v.drop_last(), t, now, m);
    } else {
        lemma_first_fresh_is(v.drop_last(), t, now, m, k);
    }
}

impl<S> ConnectionPool<S> {
    /// An empty pool that keeps a connection for less than `max_idle_secs`
    /// seconds and at most `max_per_key` connections per target.
    pub fn new(max_idle_secs: u64, max_per_key: usize) -> (r: Self)
        ensures
            r@.entries.len() == 0,
            r@.max_idle_nanos == max_idle_secs as nat * 1_000_000_000,
            r@.max_per_key == max_per_key,
    {
        let r = ConnectionPool {
            idle: Vec::new(),
            max_idle_nanos: max_idle_secs as u128 * 1_000_000_000,
            max_per_key,
        };
        assert(entries_model(r.idle@) =~= Seq::<EntryModel<S>>::empty());
        r
    }

    fn is_fresh(&self, idle_since: u64, now: u64) -> (r: bool)
        ensures
            r == fresh_at(idle_since, now, self.max_idle_nanos as nat),
    {
        let idle: u64 = if now >= idle_since {
            now - idle_since
        } else {
            0
        };
        (idle as u128) < self.max_idle_nanos
    }

    /// Takes the oldest connection to `target` that has been idle for less
    /// than the limit, dropping the stale ones before it.
    pub fn get(&mut self, target: &str, now: u64) -> (r: Option<S>)
        ensures
            r == get_spec(old(self)@, target@, now).0,
            final(self)@.entries == get_spec(old(self)@, target@, now).1,
            final(self)@.max_idle_nanos == old(self)@.max_idle_nanos,
            final(self)@.max_per_key == old(self)@.max_per_key,
    {
        let key = target.to_owned();
        let ghost orig = entries_model(self.idle@);
        let ghost m = self.max_idle_nanos as nat;
        let mut i: usize = 0;
        let ghost mut j: int = 0;
        while i < self.idle.len()
            invariant
                0 <= j <= orig.len(),
                i <= self.idle.len(),
                m == self.max_idle_nanos as nat,
                self.max_idle_nanos == old(self).max_idle_nanos,
                self.max_per_key == old(self).max_per_key,
                orig == entries_model(old(self).idle@),
                key@ == target@,
                entries_model(self.idle@) == without_target(orig.take(j), target@) + orig.skip(j),
                i == without_target(orig.take(j), target@).len(),
                forall|x: int| 0 <= x < j ==> !(orig[x].target == target@ && fresh(orig[x], now, m)),
            decreases self.idle.len() - i,
        {
            let ghost cur = entries_model(self.idle@);
            assert(cur[i as int] == orig[j]) by {
                assert(orig.skip(j)[0] == orig[j]);
            }
            assert(orig.take(j + 1) =~= orig.take(j).push(orig[j]));
            proof {
                lemma_without_push(orig.take(j), orig[j], target@);
            }
            if self.idle[i].target == key {
                let fresh_now = self.is_fresh(self.idle[i].idle_since, now);
                let e = self.idle.remove(i);
                proof {
                    assert(entries_model(self.idle@) =~= cur.remove(i as int));
                    assert(orig.skip(j + 1) =~= orig.skip(j).drop_first());
                }
                if fresh_now {
                    proof {
                        lemma_first_fresh_is(orig, target@, now, m, j);
                        assert(entries_model(self.idle@) =~= without_target(orig.take(j + 1), target@)
                            + orig.skip(j + 1));
                    }
                    return Some(e.stream);
                }
                proof {
                    j = j + 1;
                    assert(entries_model(self.idle@) =~= without_target(orig.take(j), target@)
                        + orig.skip(j));
                }
            } else {
                proof {
                    assert(orig.skip(j + 1) =~= orig.skip(j).drop_first());
                    j = j + 1;
                    assert(entries_model(self.idle@) =~= without_target(orig.take(j), target@)
                        + orig.skip(j));
                }
                i = i + 1;
            }
        }
        proof {
            assert(j == orig.len()) by {
                if j < orig.len() {
                    assert(orig.skip(j).len() > 0);
                }
            }
            assert(orig.take(j) =~= orig);
            assert(orig.skip(j) =~= Seq::<EntryModel<S>>::empty());
            lemma_first_fresh_none(orig, target@, now, m);
            assert(entries_model(self.idle@) =~= without_target(orig, target@));
        }
        None
    }

    /// Returns a connection to the pool at `now`; it is dropped when the
    /// target already has `max_per_key` idle connections.
    pub fn put(&mut self, target: String, stream: S, now: u64)
        ensures
            final(self)@.entries == put_spec(old(self)@, target@, stream, now),
            final(self)@.max_idle_nanos == old(self)@.max_idle_nanos,
            final(self)@.max_per_key == old(self)@.max_per_key,
    {
        let ghost orig = entries_model(self.idle@);
        let mut count: usize = 0;
        let mut i: usize = 0;
        while i < self.idle.len()
            invariant
                i <= self.idle.len(),
                orig == entries_model(self.idle@),
                count == count_for(orig.take(i as int), target@),
                count <= i,
            decreases self.idle.len() - i,
        {
            assert(orig.take(i + 1) =~= orig.take(i as int).push(orig[i as int]));
            proof {
                lemma_count_push(orig.take(i as int), orig[i as int], target@);
            }
            if self.idle[i].target == target {
                count = count + 1;
            }
            i = i + 1;
        }
        assert(orig.take(i as int) =~= orig);
        if count < self.max_per_key {
            let ghost e = EntryModel { target: target@, stream, idle_since: now };
            self.idle.push(PoolEntry { target, stream, idle_since: now });
            assert(entries_model(self.idle@) =~= orig.push(e));
        }
    }

    /// Drops every connection idle for the limit or longer at `now`.
    pub fn cleanup(&mut self, now: u64)
        ensures
            final(self)@.entries == fresh_only(old(self)@.entries, now, old(self)@.max_idle_nanos),
            final(self)@.max_idle_nanos == old(self)@.max_idle_nanos,
            final(self)@.max_per_key == old(self)@.max_per_key,
    {
        let ghost orig = entries_model(self.idle@);
        let ghost m = self.max_idle_nanos as nat;
        let mut i: usize = 0;
        let ghost mut j: int = 0;
        while i < self.idle.len()
            invariant
                0 <= j <= orig.len(),
                i <= self.idle.len(),
                m == self.max_idle_nanos as nat,
                self.max_idle_nanos == old(self).max_idle_nanos,
                self.max_per_key == old(self).max_per_key,
                orig == entries_model(old(self).idle@),
                entries_model(self.idle@) == fresh_only(orig.take(j), now, m) + orig.skip(j),
                i == fresh_only(orig.take(j), now, m).len(),
            decreases self.idle.len() - i,
        {
            let ghost cur = entries_model(self.idle@);
            assert(cur[i as int] == orig[j]) by {
                assert(orig.skip(j)[0] == orig[j]);
            }
            assert(orig.take(j + 1) =~= orig.take(j).push(orig[j]));
            proof {
                lemma_fresh_push(orig.take(j), orig[j], now, m);
                assert(orig.skip(j + 1) =~= orig.skip(j).drop_first());
            }
            if self.is_fresh(self.idle[i].idle_since, now) {
                i = i + 1;
            } else {
                let _stale = self.idle.remove(i);
                assert(entries_model(self.idle@) =~= cur.remove(i as int));
            }
            proof {
                j = j + 1;
                assert(entries_model(self.idle@) =~= fresh_only(orig.take(j), now, m) + orig.skip(
                    j,
                ));
            }
        }
        proof {
            assert(j == orig.len()) by {
                if j < orig.len() {
                    assert(orig.skip(j).len() > 0);
                }
            }
            assert(orig.take(j) =~= orig);
            assert(entries_model(self.idle@) =~= fresh_only(orig, now, m));
        }
    }

    /// How often a background task should drop stale connections: every
    /// half idle limit, but not more often than once a second.
    pub fn cleanup_interval_nanos(&self) -> (r: u128)
        ensures
            r == if self@.max_idle_nanos / 2 >= 1_000_000_000 {
                self@.max_idle_nanos / 2
            } else {
                1_000_000_000
            },
    {
        let half = self.max_idle_nanos / 2;
        if half >= 1_000_000_000 {
            half
        } else {
            1_000_000_000
        }
    }

    /// The number of idle connections.
    pub fn size(&self) -> (r: usize)
        ensures
            r == self@.entries.len(),
    {
        self.idle.len()
    }
}

// ── laws ───────────────────────────────────────────────────────────────

/// What is returned to the pool comes back out: a connection put for a
/// target with no idle connections is what the next lookup for that target
/// returns while it is still fresh, and the pool is then as before.
pub proof fn law_put_then_get<S>(p: PoolModel<S>, t: Seq<char>, s: S, put_at: u64, get_at: u64)
    requires
        count_for(p.entries, t) == 0,
        p.max_per_key > 0,
        fresh(EntryModel { target: t, stream: s, idle_since: put_at }, get_at, p.max_idle_nanos),
    ensures
        get_spec(PoolModel { entries: put_spec(p, t, s, put_at), ..p }, t, get_at).0 == Some(s),
        get_spec(PoolModel { entries: put_spec(p, t, s, put_at), ..p }, t, get_at).1
            == without_target(p.entries, t),
{
    let e = EntryModel { target: t, stream: s, idle_since: put_at };
    let v = p.entries.push(e);
    lemma_no_entries_for(p.entries, t);
    assert forall|j: int| 0 <= j < v.len() - 1 implies !(v[j].target == t && fresh(
        v[j],
        get_at,
        p.max_idle_nanos,
    )) by {
        assert(v[j] == p.entries[j]);
    }
    lemma_first_fresh_is(v, t, get_at, p.max_idle_nanos, v.len() - 1);
    assert(v.take(v.len() as int) =~= v);
    assert(v.skip(v.len() as int) =~= Seq::<EntryModel<S>>::empty());
    lemma_without_push(p.entries, e, t);
    assert(without_target(v, t) + Seq::<EntryModel<S>>::empty() =~= without_target(p.entries, t));
}

proof fn lemma_no_entries_for<S>(v: Seq<EntryModel<S>>, t: Seq<char>)
    requires
        count_for(v, t) == 0,
    ensures
        forall|j: int| 0 <= j < v.len() ==> v[j].target != t,
    decreases v.len(),
{
    if v.len() > 0 {
        lemma_no_entries_for(v.drop_last(), t);
        assert forall|j: int| 0 <= j < v.len() implies v[j].target != t by {
            if j < v.len() - 1 {
                assert(v.drop_last()[j] == v[j]);
            }
        }
    }
}

/// A target never holds more idle connections than `max_per_key`.
pub proof fn law_put_respects_per_key_limit<S>(p: PoolModel<S>, t: Seq<char>, s: S, now: u64)
    requires
        count_for(p.entries, t) <= p.max_per_key,
    ensures
        count_for(put_spec(p, t, s, now), t) <= p.max_per_key,
{
    lemma_count_push(p.entries, EntryModel { target: t, stream: s, idle_since: now }, t);
}

/// A lookup only hands out a connection that is fresh and for the target.
pub proof fn law_get_returns_fresh<S>(p: PoolModel<S>, t: Seq<char>, now: u64)
    ensures
        first_fresh(p.entries, t, now, p.max_idle_nanos) matches Some(k) ==> 0 <= k
            < p.entries.len() && p.entries[k].target == t && fresh(
            p.entries[k],
            now,
            p.max_idle_nanos,
        ),
    decreases p.entries.len(),
{
    if p.entries.len() > 0 {
        let q = PoolModel { entries: p.entries.drop_last(), ..p };
        law_get_returns_fresh(q, t, now);
        match first_fresh(q.entries, t, now, p.max_idle_nanos) {
            Some(k) => {
                assert(q.entries[k] == p.entries[k]);
            },
            None => {},
        }
    }
}

} // verus!
