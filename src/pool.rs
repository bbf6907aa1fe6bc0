//! Bookkeeping of a bounded connection pool.
//!
//! The pool has a fixed number of slots; a connection is named by the index of
//! the slot that holds it. Opening, closing and waiting are done by the caller;
//! this state decides which slot serves an acquirer and what happens to a
//! connection when it comes back.
use vstd::prelude::*;

verus! {

/// What a slot of the pool holds.
#[derive(Clone, Copy, Debug, PartialEq, Eq, Structural)]
pub enum Slot {
    /// No connection is open in this slot.
    Empty,
    /// An open connection, unused since the given instant (milliseconds).
    Idle { since_ms: u64 },
    /// A connection that a borrower holds exclusively.
    InUse,
}

/// Why an acquisition failed.
#[derive(Clone, Copy, Debug, PartialEq, Eq, Structural)]
pub enum PoolError {
    /// Establishing a new connection failed.
    ConnectFailed,
    /// No slot became free before the acquisition timeout elapsed.
    PoolExhausted,
}

/// A slot handed to an acquirer.
#[derive(Clone, Copy, Debug, PartialEq, Eq, Structural)]
pub enum Lease {
    /// An idle connection is reused.
    Reused(usize),
    /// The slot is reserved; the borrower must open a new connection in it.
    Fresh(usize),
}

impl Lease {
    pub open spec fn slot_index(self) -> nat {
        match self {
            Lease::Reused(i) => i as nat,
            Lease::Fresh(i) => i as nat,
        }
    }
}

/// How a scan's use of its connection ended.
#[derive(Clone, Copy, Debug, PartialEq, Eq, Structural)]
pub enum ScanEnd {
    /// Every row was read: the connection is in a known state.
    Exhausted,
    /// The query failed mid-stream.
    Failed,
    /// The stream was dropped before its end; the backend cursor state is
    /// unknown.
    Dropped,
}

/// The abstract state of a pool.
pub struct PoolModel {
    pub idle_timeout_ms: u64,
    pub slots: Seq<Slot>,
}

pub open spec fn count_in_use(s: Seq<Slot>) -> nat
    decreases s.len(),
{
    if s.len() == 0 {
        0
    } else {
        count_in_use(s.drop_last()) + if s.last() is InUse { 1nat } else { 0nat }
    }
}

pub open spec fn has_idle(s: Seq<Slot>) -> bool {
    exists|i: int| 0 <= i < s.len() && #[trigger] s[i] is Idle
}

pub open spec fn has_free(s: Seq<Slot>) -> bool {
    exists|i: int| 0 <= i < s.len() && !(#[trigger] s[i] is InUse)
}

/// An idle connection has expired when it has been unused for at least the
/// idle timeout.
pub open spec fn expired(slot: Slot, now_ms: u64, idle_timeout_ms: u64) -> bool {
    match slot {
        Slot::Idle { since_ms } => since_ms <= now_ms && now_ms - since_ms >= idle_timeout_ms,
        _ => false,
    }
}

/// What serving an acquirer does: the slot becomes in use; an idle
/// connection is reused when there is one, else an empty slot is opened.
pub open spec fn granted(before: PoolModel, after: PoolModel, l: Lease) -> bool {
    &&& l.slot_index() < before.capacity()
    &&& after.slots == before.slots.update(l.slot_index() as int, Slot::InUse)
    &&& after.idle_timeout_ms == before.idle_timeout_ms
    &&& (l matches Lease::Reused(i) ==> before.slots[i as int] is Idle)
    &&& (l matches Lease::Fresh(i) ==> before.slots[i as int] == Slot::Empty && !has_idle(before.slots))
}

impl PoolModel {
    pub open spec fn capacity(self) -> nat {
        self.slots.len()
    }

    pub open spec fn checked_out(self) -> nat {
        count_in_use(self.slots)
    }

    /// An acquirer is served at once exactly when some slot is not in use.
    pub open spec fn can_grant(self) -> bool {
        has_free(self.slots)
    }

    /// The state after the borrower of slot `i` gives its connection back:
    /// a healthy connection becomes idle, a broken one is closed.
    pub open spec fn released(self, i: int, now_ms: u64, healthy: bool) -> PoolModel {
        PoolModel {
            idle_timeout_ms: self.idle_timeout_ms,
            slots: self.slots.update(
                i,
                if healthy { Slot::Idle { since_ms: now_ms } } else { Slot::Empty },
            ),
        }
    }

    /// The state after every expired idle connection has been closed.
    pub open spec fn evicted(self, now_ms: u64) -> PoolModel {
        PoolModel {
            idle_timeout_ms: self.idle_timeout_ms,
            slots: Seq::new(
                self.slots.len(),
                |i: int|
                    if expired(self.slots[i], now_ms, self.idle_timeout_ms) {
                        Slot::Empty
                    } else {
                        self.slots[i]
                    },
            ),
        }
    }
}

/// The number of connections in use never exceeds the number of slots.
pub proof fn lemma_checked_out_bounded(s: Seq<Slot>)
    ensures
        count_in_use(s) <= s.len(),
    decreases s.len(),
{
    if s.len() > 0 {
        lemma_checked_out_bounded(s.drop_last());
    }
}

/// When every slot is in use, the count of connections in use is the capacity.
proof fn lemma_all_in_use(s: Seq<Slot>)
    requires
        !has_free(s),
    ensures
        count_in_use(s) == s.len(),
    decreases s.len(),
{
    if s.len() > 0 {
        assert forall|i: int| 0 <= i < s.drop_last().len() implies #[trigger] s.drop_last()[i] is InUse by {
            assert(s[i] is InUse);
        }
        lemma_all_in_use(s.drop_last());
        assert(s[s.len() - 1] is InUse);
    }
}

/// Below capacity some slot is free.
pub proof fn lemma_below_capacity_can_grant(m: PoolModel)
    requires
        m.checked_out() < m.capacity(),
    ensures
        m.can_grant(),
{
    if !has_free(m.slots) {
        lemma_all_in_use(m.slots);
    }
}

/// Giving back a connection, healthy or broken (as when a scan is cancelled
/// mid-stream), leaves a slot free, so the next acquisition is served without
/// waiting on the capacity limit.
pub proof fn lemma_release_frees_slot(m: PoolModel, i: int, now_ms: u64, healthy: bool)
    requires
        0 <= i < m.slots.len(),
        m.slots[i] is InUse,
    ensures
        m.released(i, now_ms, healthy).can_grant(),
        m.released(i, now_ms, healthy).checked_out() < m.capacity(),
{
    let r = m.released(i, now_ms, healthy);
    assert(!(r.slots[i] is InUse));
    lemma_count_update(m.slots, i, r.slots[i]);
    lemma_checked_out_bounded(m.slots);
}

/// Replacing an in-use slot by one that is not in use lowers the count by one.
proof fn lemma_count_update(s: Seq<Slot>, i: int, v: Slot)
    requires
        0 <= i < s.len(),
        s[i] is InUse,
        !(v is InUse),
    ensures
        count_in_use(s.update(i, v)) + 1 == count_in_use(s),
    decreases s.len(),
{
    let t = s.update(i, v);
    if i == s.len() - 1 {
        assert(t.drop_last() =~= s.drop_last());
    } else {
        assert(t.drop_last() =~= s.drop_last().update(i, v));
        lemma_count_update(s.drop_last(), i, v);
    }
}

/// A bounded pool of connection slots.
pub struct ConnectionPool {
    idle_timeout_ms: u64,
    slots: Vec<Slot>,
}

impl View for ConnectionPool {
    type V = PoolModel;

    closed spec fn view(&self) -> PoolModel {
        PoolModel { idle_timeout_ms: self.idle_timeout_ms, slots: self.slots@ }
    }
}

impl ConnectionPool {
    /// A pool of `max_size` slots, all empty.
    pub fn new(max_size: usize, idle_timeout_ms: u64) -> (r: ConnectionPool)
        ensures
            r@.capacity() == max_size,
            r@.idle_timeout_ms == idle_timeout_ms,
            forall|i: int| 0 <= i < max_size ==> #[trigger] r@.slots[i] == Slot::Empty,
            r@.checked_out() == 0,
    {
        let mut slots: Vec<Slot> = Vec::new();
        let mut k: usize = 0;
        while k < max_size
            invariant
                k <= max_size,
                slots@.len() == k,
                forall|i: int| 0 <= i < k ==> #[trigger] slots@[i] == Slot::Empty,
            decreases max_size - k,
        {
            slots.push(Slot::Empty);
            k = k + 1;
        }
        let r = ConnectionPool { idle_timeout_ms, slots };
        proof {
            lemma_zero_in_use(r@.slots);
        }
        r
    }

    pub fn capacity(&self) -> (r: usize)
        ensures
            r == self@.capacity(),
    {
        self.slots.len()
    }

    pub fn slot(&self, i: usize) -> (r: Slot)
        requires
            i < self@.capacity(),
        ensures
            r == self@.slots[i as int],
    {
        self.slots[i]
    }

    /// How many connections are checked out.
    pub fn checked_out(&self) -> (r: usize)
        ensures
            r == self@.checked_out(),
            r <= self@.capacity(),
    {
        let mut n: usize = 0;
        let mut k: usize = 0;
        while k < self.slots.len()
            invariant
                k <= self.slots@.len(),
                n == count_in_use(self.slots@.take(k as int)),
                n <= k,
            decreases self.slots@.len() - k,
        {
            proof {
                assert(self.slots@.take(k as int + 1).drop_last() =~= self.slots@.take(k as int));
            }
            if self.slots[k] == Slot::InUse {
                n = n + 1;
            }
            k = k + 1;
        }
        proof {
            assert(self.slots@.take(k as int) =~= self.slots@);
        }
        n
    }

    /// Serves an acquirer if a slot is free: an idle connection is preferred to
    /// opening a new one. `None` when every slot is in use.
    pub fn try_acquire(&mut self) -> (r: Option<Lease>)
        ensures
            r is None <==> !old(self)@.can_grant(),
            r is None ==> final(self)@ == old(self)@,
            r matches Some(l) ==> granted(old(self)@, final(self)@, l),
    {
        let mut empty: Option<usize> = None;
        let mut k: usize = 0;
        while k < self.slots.len()
            invariant
                k <= self.slots@.len(),
                self@ == old(self)@,
                forall|j: int| 0 <= j < k ==> !(#[trigger] self.slots@[j] is Idle),
                empty matches Some(e) ==> e < k && self.slots@[e as int] == Slot::Empty,
                empty is None ==> forall|j: int| 0 <= j < k ==> #[trigger] self.slots@[j] is InUse,
            decreases self.slots@.len() - k,
        {
            match self.slots[k] {
                Slot::Idle { .. } => {
                    self.slots.set(k, Slot::InUse);
                    return Some(Lease::Reused(k));
                },
                Slot::Empty => {
                    if empty.is_none() {
                        empty = Some(k);
                    }
                },
                Slot::InUse => {},
            }
            k = k + 1;
        }
        match empty {
            Some(e) => {
                self.slots.set(e, Slot::InUse);
                Some(Lease::Fresh(e))
            },
            None => None,
        }
    }

    /// One attempt of an acquirer that has waited `waited_ms` so far: a lease
    /// when a slot is free; otherwise `PoolExhausted` once the wait has reached
    /// `timeout_ms`, and `Ok(None)` (keep waiting) before that.
    pub fn acquire(&mut self, waited_ms: u64, timeout_ms: u64) -> (r: Result<Option<Lease>, PoolError>)
        ensures
            old(self)@.can_grant() ==> (r matches Ok(Some(l)) && granted(old(self)@, final(self)@, l)),
            !old(self)@.can_grant() ==> final(self)@ == old(self)@,
            !old(self)@.can_grant() && waited_ms >= timeout_ms ==> r == Err::<Option<Lease>, PoolError>(
                PoolError::PoolExhausted,
            ),
            !old(self)@.can_grant() && waited_ms < timeout_ms ==> r == Ok::<Option<Lease>, PoolError>(None),
    {
        match self.try_acquire() {
            Some(l) => Ok(Some(l)),
            None => if waited_ms >= timeout_ms {
                Err(PoolError::PoolExhausted)
            } else {
                Ok(None)
            },
        }
    }

    /// Records that opening a connection in a fresh slot failed: the slot is
    /// emptied and the failure is handed back.
    pub fn connect_failed(&mut self, i: usize) -> (r: PoolError)
        requires
            i < old(self)@.capacity(),
            old(self)@.slots[i as int] is InUse,
        ensures
            r == PoolError::ConnectFailed,
            final(self)@ == old(self)@.released(i as int, 0, false),
    {
        self.slots.set(i, Slot::Empty);
        PoolError::ConnectFailed
    }

    /// Takes back the connection of slot `i`: idle from `now_ms` on when it is
    /// healthy, closed when it failed during use or its stream was cancelled.
    pub fn release(&mut self, i: usize, now_ms: u64, healthy: bool)
        requires
            i < old(self)@.capacity(),
            old(self)@.slots[i as int] is InUse,
        ensures
            final(self)@ == old(self)@.released(i as int, now_ms, healthy),
    {
        if healthy {
            self.slots.set(i, Slot::Idle { since_ms: now_ms });
        } else {
            self.slots.set(i, Slot::Empty);
        }
    }

    /// Takes back the connection of a scan when its stream ends: kept idle
    /// after a complete read, closed after a failure or a cancellation.
    pub fn release_after_scan(&mut self, i: usize, now_ms: u64, end: ScanEnd)
        requires
            i < old(self)@.capacity(),
            old(self)@.slots[i as int] is InUse,
        ensures
            final(self)@ == old(self)@.released(i as int, now_ms, end == ScanEnd::Exhausted),
    {
        self.release(i, now_ms, end == ScanEnd::Exhausted);
    }

    /// Closes the idle connections that have expired at `now_ms`; returns the
    /// slots whose connections the caller must close, in ascending order.
    pub fn evict_idle(&mut self, now_ms: u64) -> (r: Vec<usize>)
        ensures
            final(self)@ == old(self)@.evicted(now_ms),
            forall|j: int| 0 <= j < r@.len() ==> #[trigger] r@[j] < old(self)@.capacity(),
            forall|i: int|
                0 <= i < old(self)@.capacity() ==> (r@.contains(i as usize) <==> expired(
                    #[trigger] old(self)@.slots[i],
                    now_ms,
                    old(self)@.idle_timeout_ms,
                )),
            forall|a: int, b: int| 0 <= a < b < r@.len() ==> r@[a] < r@[b],
    {
        let ghost start = self@;
        let mut closed: Vec<usize> = Vec::new();
        let mut k: usize = 0;
        while k < self.slots.len()
            invariant
                k <= self.slots@.len(),
                self.slots@.len() == start.slots.len(),
                self.idle_timeout_ms == start.idle_timeout_ms,
                forall|j: int| 0 <= j < k ==> #[trigger] self.slots@[j] == start.evicted(now_ms).slots[j],
                forall|j: int| k <= j < self.slots@.len() ==> #[trigger] self.slots@[j] == start.slots[j],
                forall|j: int| 0 <= j < closed@.len() ==> #[trigger] closed@[j] < k,
                forall|i: int|
                    0 <= i < k ==> (closed@.contains(i as usize) <==> expired(
                        #[trigger] start.slots[i],
                        now_ms,
                        start.idle_timeout_ms,
                    )),
                forall|a: int, b: int| 0 <= a < b < closed@.len() ==> closed@[a] < closed@[b],
            decreases self.slots@.len() - k,
        {
            let s = self.slots[k];
            let expire = match s {
                Slot::Idle { since_ms } => since_ms <= now_ms && now_ms - since_ms >= self.idle_timeout_ms,
                _ => false,
            };
            let ghost prev = closed@;
            if expire {
                self.slots.set(k, Slot::Empty);
                closed.push(k);
            }
            proof {
                assert forall|i: int| 0 <= i < k + 1 implies (closed@.contains(i as usize) <==> expired(
                    #[trigger] start.slots[i],
                    now_ms,
                    start.idle_timeout_ms,
                )) by {
                    if expire {
                        assert(closed@ == prev.push(k));
                        assert(closed@[prev.len() as int] == k);
                        if closed@.contains(i as usize) {
                            let j = choose|j: int| 0 <= j < closed@.len() && closed@[j] == i as usize;
                            if j < prev.len() {
                                assert(prev[j] == i as usize);
                            }
                        }
                        if i < k && prev.contains(i as usize) {
                            let j = choose|j: int| 0 <= j < prev.len() && prev[j] == i as usize;
                            assert(closed@[j] == i as usize);
                        }
                    } else {
                        if i == k {
                            assert(!prev.contains(k));
                        }
                    }
                }
            }
            k = k + 1;
        }
        proof {
            assert(self.slots@ =~= start.evicted(now_ms).slots);
        }
        closed
    }
}

proof fn lemma_zero_in_use(s: Seq<Slot>)
    requires
        forall|i: int| 0 <= i < s.len() ==> #[trigger] s[i] == Slot::Empty,
    ensures
        count_in_use(s) == 0,
    decreases s.len(),
{
    if s.len() > 0 {
        assert(s.last() == Slot::Empty);
        lemma_zero_in_use(s.drop_last());
    }
}

} // verus!
