//! The connection pool: a bounded set of storage connections that are lent
//! out one request at a time.
//!
//! The pool keeps the books, not the sessions. It has one slot for each
//! connection that it may hold; a slot is idle (a live connection, free),
//! lent (a live connection, in a request's hands) or vacant (no live
//! connection: it was discarded after a fault, or closed at shutdown). The
//! caller owns the sessions and keeps one for every slot that is not
//! vacant; a lease says which slot was lent and whether its session has
//! yet to be opened.
//!
//! A pool starts with all its connections idle. `acquire` hands out the
//! lowest idle slot; where none is idle, the lowest vacant one, whose
//! connection is thereby replaced; where every slot is lent, it tells the
//! caller how long it may still wait, and fails once that time is used up.
//! The pool has no clock: the caller says how long it has waited, in the
//! unit in which the timeout was given.

use vstd::prelude::*;

verus! {

/// The state of one slot of the pool.
#[derive(Debug, Clone, Copy, PartialEq, Eq, Structural)]
pub enum Slot {
    /// No live connection.
    Vacant,
    /// A live connection that nobody has borrowed.
    Idle,
    /// A live connection in the hands of a request.
    Lent,
}

/// Why the pool lent no connection.
#[derive(Debug, Clone, Copy, PartialEq, Eq, Structural)]
pub enum PoolError {
    /// Every connection stayed lent for the whole time a caller may wait.
    Exhausted,
    /// The pool has been shut down.
    Closed,
}

/// What `acquire` decides, as contracts see it.
pub enum Verdict {
    /// This slot is lent; `fresh` says that its connection has to be opened.
    Lend { slot: int, fresh: bool },
    /// Every slot is lent; the caller may wait this much longer.
    Wait { remaining: u64 },
    /// No connection will be lent.
    Fail(PoolError),
}

/// What a pool is in contracts: the states of its slots, whether it has
/// been shut down, and how long a caller may wait for a connection.
pub struct PoolView {
    pub slots: Seq<Slot>,
    pub closed: bool,
    pub timeout: u64,
}

/// How many of these slots are in this state.
pub open spec fn count_in(slots: Seq<Slot>, state: Slot) -> nat
    decreases slots.len(),
{
    if slots.len() == 0 {
        0
    } else {
        count_in(slots.drop_last(), state) + if slots.last() == state {
            1nat
        } else {
            0nat
        }
    }
}

impl PoolView {
    /// A pool of `size` idle connections, open for business.
    pub open spec fn fresh(size: nat, timeout: u64) -> PoolView {
        PoolView { slots: Seq::new(size, |i: int| Slot::Idle), closed: false, timeout }
    }

    /// A pool has at least one slot, and after shutdown none is idle.
    pub open spec fn wf(self) -> bool {
        &&& self.slots.len() >= 1
        &&& self.closed ==> forall|i: int| 0 <= i < self.slots.len() ==> self.slots[i] != Slot::Idle
    }

    /// How many slots are in this state.
    pub open spec fn count(self, state: Slot) -> nat {
        count_in(self.slots, state)
    }

    /// Slot `at` is the lowest one in this state.
    pub open spec fn is_first(self, state: Slot, at: int) -> bool {
        &&& 0 <= at < self.slots.len()
        &&& self.slots[at] == state
        &&& forall|k: int| 0 <= k < at ==> self.slots[k] != state
    }

    /// Some slot is in this state.
    pub open spec fn has(self, state: Slot) -> bool {
        self.count(state) > 0
    }

    /// The counts of `after` are those of this pool with one slot moved
    /// from state `from` to state `to`.
    pub open spec fn shifts(self, after: PoolView, from: Slot, to: Slot) -> bool {
        &&& after.slots.len() == self.slots.len()
        &&& forall|state: Slot| #[trigger]
            after.count(state) + (if state == from {
                1nat
            } else {
                0nat
            }) == self.count(state) + (if state == to {
                1nat
            } else {
                0nat
            })
    }

    /// The lowest slot in this state, if there is one.
    pub open spec fn first(self, state: Slot) -> int {
        choose|at: int| self.is_first(state, at)
    }

    /// This slot exists and is lent.
    pub open spec fn is_lent(self, slot: int) -> bool {
        0 <= slot < self.slots.len() && self.slots[slot] == Slot::Lent
    }

    /// The same pool with one slot in another state.
    pub open spec fn with(self, slot: int, state: Slot) -> PoolView {
        PoolView { slots: self.slots.update(slot, state), ..self }
    }

    /// What `acquire` decides for a caller that has waited this long.
    pub open spec fn verdict(self, waited: u64) -> Verdict {
        if self.closed {
            Verdict::Fail(PoolError::Closed)
        } else if self.has(Slot::Idle) {
            Verdict::Lend { slot: self.first(Slot::Idle), fresh: false }
        } else if self.has(Slot::Vacant) {
            Verdict::Lend { slot: self.first(Slot::Vacant), fresh: true }
        } else if waited < self.timeout {
            Verdict::Wait { remaining: (self.timeout - waited) as u64 }
        } else {
            Verdict::Fail(PoolError::Exhausted)
        }
    }

    /// The pool after `acquire`: the slot that was lent, if any, is lent.
    pub open spec fn acquire(self, waited: u64) -> PoolView {
        match self.verdict(waited) {
            Verdict::Lend { slot, .. } => self.with(slot, Slot::Lent),
            _ => self,
        }
    }

    /// The pool after a lent slot came back in working order: it is idle
    /// again, or vacant where the pool was shut down meanwhile.
    pub open spec fn release(self, slot: int) -> PoolView {
        self.with(
            slot,
            if self.closed {
                Slot::Vacant
            } else {
                Slot::Idle
            },
        )
    }

    /// The pool after a lent slot came back with a broken connection.
    pub open spec fn discard(self, slot: int) -> PoolView {
        self.with(slot, Slot::Vacant)
    }

    /// The pool after one paired cycle: an `acquire` and, where it lent a
    /// slot, the `release` of that slot.
    pub open spec fn cycle(self, waited: u64) -> PoolView {
        match self.verdict(waited) {
            Verdict::Lend { slot, .. } => self.acquire(waited).release(slot),
            _ => self,
        }
    }

    /// The pool after `n` paired cycles, one after the other.
    pub open spec fn cycles(self, n: nat, waited: u64) -> PoolView
        decreases n,
    {
        if n == 0 {
            self
        } else {
            self.cycle(waited).cycles((n - 1) as nat, waited)
        }
    }

    /// The pool after shutdown: closed, its idle connections gone, the
    /// lent ones still out.
    pub open spec fn shutdown(self) -> PoolView {
        PoolView {
            slots: Seq::new(
                self.slots.len(),
                |i: int|
                    if self.slots[i] == Slot::Idle {
                        Slot::Vacant
                    } else {
                        self.slots[i]
                    },
            ),
            closed: true,
            timeout: self.timeout,
        }
    }
}

/// What a lease is in contracts.
pub struct LeaseView {
    pub slot: int,
    pub fresh: bool,
}

/// The right to use the connection of one slot, from `acquire` until it is
/// handed back by `release` or `discard`.
#[derive(Debug)]
pub struct Lease {
    slot: usize,
    fresh: bool,
}

impl View for Lease {
    type V = LeaseView;

    closed spec fn view(&self) -> LeaseView {
        LeaseView { slot: self.slot as int, fresh: self.fresh }
    }
}

impl Lease {
    /// The slot whose connection was lent.
    pub fn slot(&self) -> (slot: usize)
        ensures
            slot == self@.slot,
    {
        self.slot
    }

    /// Whether the connection of that slot has to be opened before use.
    pub fn is_fresh(&self) -> (fresh: bool)
        ensures
            fresh == self@.fresh,
    {
        self.fresh
    }
}

/// What `acquire` hands back.
#[derive(Debug)]
pub enum Acquire {
    /// A connection was lent.
    Lent(Lease),
    /// Every connection is lent. The caller may wait up to `remaining` for
    /// a release and then ask again, saying how long it has waited in all.
    Wait { remaining: u64 },
    /// No connection will be lent.
    Failed(PoolError),
}

impl View for Acquire {
    type V = Verdict;

    open spec fn view(&self) -> Verdict {
        match *self {
            Acquire::Lent(lease) => Verdict::Lend { slot: lease@.slot, fresh: lease@.fresh },
            Acquire::Wait { remaining } => Verdict::Wait { remaining },
            Acquire::Failed(error) => Verdict::Fail(error),
        }
    }
}

/// What `scoped` hands back.
#[derive(Debug)]
pub enum Scoped<T> {
    /// The work ran on a borrowed connection, which has gone back to the
    /// pool; `kept` says whether it went back in working order.
    Done { value: T, kept: bool },
    /// Every connection is lent: the work did not run. The caller may wait
    /// up to `remaining` and then ask again.
    Wait { remaining: u64 },
    /// No connection will be lent: the work did not run.
    Failed(PoolError),
}

/// The books of a connection pool.
#[derive(Debug)]
pub struct Pool {
    slots: Vec<Slot>,
    closed: bool,
    timeout: u64,
}

impl View for Pool {
    type V = PoolView;

    closed spec fn view(&self) -> PoolView {
        PoolView { slots: self.slots@, closed: self.closed, timeout: self.timeout }
    }
}

impl Pool {
    /// The invariant of the pool, stated on its view.
    pub open spec fn wf(&self) -> bool {
        self@.wf()
    }

    /// A pool of `size` idle connections whose callers wait at most
    /// `timeout` for one. A pool needs at least one connection: for size 0
    /// there is none.
    pub fn new(size: usize, timeout: u64) -> (pool: Option<Pool>)
        ensures
            pool is Some <==> size >= 1,
            pool matches Some(p) ==> {
                &&& p.wf()
                &&& p@ == PoolView::fresh(size as nat, timeout)
                &&& p@.count(Slot::Idle) == size
                &&& p@.count(Slot::Lent) == 0
                &&& p@.count(Slot::Vacant) == 0
            },
    {
        if size == 0 {
            return None;
        }
        let mut slots: Vec<Slot> = Vec::new();
        let mut i: usize = 0;
        while i < size
            invariant
                i <= size,
                slots@.len() == i,
                forall|k: int| 0 <= k < i ==> slots@[k] == Slot::Idle,
            decreases size - i,
        {
            slots.push(Slot::Idle);
            i += 1;
        }
        let pool = Pool { slots, closed: false, timeout };
        proof {
            assert(pool@.slots =~= PoolView::fresh(size as nat, timeout).slots);
            lemma_count_bounds(pool@.slots, Slot::Idle);
            lemma_count_bounds(pool@.slots, Slot::Lent);
            lemma_count_bounds(pool@.slots, Slot::Vacant);
        }
        Some(pool)
    }

    /// The number of slots, which bounds the live connections.
    pub fn size(&self) -> (size: usize)
        ensures
            size == self@.slots.len(),
    {
        self.slots.len()
    }

    /// How long a caller may wait for a connection.
    pub fn timeout(&self) -> (timeout: u64)
        ensures
            timeout == self@.timeout,
    {
        self.timeout
    }

    /// Whether the pool has been shut down.
    pub fn is_closed(&self) -> (closed: bool)
        ensures
            closed == self@.closed,
    {
        self.closed
    }

    /// The state of one slot, if the pool has that slot.
    pub fn slot(&self, index: usize) -> (state: Option<Slot>)
        ensures
            state == if index < self@.slots.len() {
                Some(self@.slots[index as int])
            } else {
                None
            },
    {
        if index < self.slots.len() {
            Some(self.slots[index])
        } else {
            None
        }
    }

    /// How many slots are in this state.
    pub fn count(&self, state: Slot) -> (n: usize)
        ensures
            n == self@.count(state),
    {
        let mut n: usize = 0;
        let mut i: usize = 0;
        while i < self.slots.len()
            invariant
                i <= self.slots.len(),
                n <= i,
                n == count_in(self.slots@.subrange(0, i as int), state),
            decreases self.slots.len() - i,
        {
            assert(self.slots@.subrange(0, i + 1).drop_last() =~= self.slots@.subrange(
                0,
                i as int,
            ));
            if self.slots[i] == state {
                n += 1;
            }
            i += 1;
        }
        assert(self.slots@.subrange(0, i as int) =~= self.slots@);
        n
    }

    /// Whether this lease is for a slot that is lent right now.
    pub fn is_lent(&self, lease: &Lease) -> (lent: bool)
        ensures
            lent == self@.is_lent(lease@.slot),
    {
        lease.slot < self.slots.len() && self.slots[lease.slot] == Slot::Lent
    }

    /// Looks for the lowest slot in this state.
    fn lowest(&self, state: Slot) -> (at: Option<usize>)
        ensures
            at is Some <==> self@.has(state),
            at matches Some(i) ==> self@.is_first(state, i as int) && self@.first(state) == i,
    {
        proof {
            lemma_count_bounds(self@.slots, state);
        }
        let mut i: usize = 0;
        while i < self.slots.len()
            invariant
                i <= self.slots.len(),
                forall|k: int| 0 <= k < i ==> self.slots@[k] != state,
            decreases self.slots.len() - i,
        {
            if self.slots[i] == state {
                proof {
                    assert(self@.is_first(state, i as int));
                    lemma_count_bounds(self@.slots, state);
                    lemma_lowest_exists(self@, state);
                }
                return Some(i);
            }
            i += 1;
        }
        None
    }

    /// Asks for a connection on behalf of a caller that has waited `waited`
    /// so far. Lends the lowest idle slot; where none is idle, the lowest
    /// vacant one, whose connection the caller then has to open. Where
    /// every slot is lent, nothing changes: the caller hears how long it
    /// may still wait, or that its time is up. A pool that was shut down
    /// lends nothing.
    pub fn acquire(&mut self, waited: u64) -> (outcome: Acquire)
        requires
            old(self).wf(),
        ensures
            final(self).wf(),
            outcome@ == old(self)@.verdict(waited),
            final(self)@ == old(self)@.acquire(waited),
            outcome matches Acquire::Lent(lease) ==> {
                &&& old(self)@.is_first(
                    if lease@.fresh {
                        Slot::Vacant
                    } else {
                        Slot::Idle
                    },
                    lease@.slot,
                )
                &&& final(self)@.is_lent(lease@.slot)
                &&& old(self)@.shifts(
                    final(self)@,
                    if lease@.fresh {
                        Slot::Vacant
                    } else {
                        Slot::Idle
                    },
                    Slot::Lent,
                )
            },
    {
        if self.closed {
            return Acquire::Failed(PoolError::Closed);
        }
        match self.lowest(Slot::Idle) {
            Some(slot) => {
                proof {
                    lemma_change_shifts(self@, slot as int, Slot::Lent);
                }
                self.slots.set(slot, Slot::Lent);
                return Acquire::Lent(Lease { slot, fresh: false });
            },
            None => {},
        }
        match self.lowest(Slot::Vacant) {
            Some(slot) => {
                proof {
                    lemma_change_shifts(self@, slot as int, Slot::Lent);
                }
                self.slots.set(slot, Slot::Lent);
                return Acquire::Lent(Lease { slot, fresh: true });
            },
            None => {},
        }
        if waited < self.timeout {
            Acquire::Wait { remaining: self.timeout - waited }
        } else {
            Acquire::Failed(PoolError::Exhausted)
        }
    }

    /// Takes back a lent connection that still works. It is idle again and
    /// may be lent to the next caller; after shutdown it is closed instead.
    pub fn release(&mut self, lease: Lease)
        requires
            old(self).wf(),
            old(self)@.is_lent(lease@.slot),
        ensures
            final(self).wf(),
            final(self)@ == old(self)@.release(lease@.slot),
            old(self)@.shifts(
                final(self)@,
                Slot::Lent,
                if old(self)@.closed {
                    Slot::Vacant
                } else {
                    Slot::Idle
                },
            ),
    {
        let state = if self.closed {
            Slot::Vacant
        } else {
            Slot::Idle
        };
        proof {
            lemma_change_shifts(self@, lease.slot as int, state);
        }
        self.slots.set(lease.slot, state);
    }

    /// Takes back a lent connection that broke. Its slot is vacant until
    /// `acquire` lends it again with a connection to open.
    pub fn discard(&mut self, lease: Lease)
        requires
            old(self).wf(),
            old(self)@.is_lent(lease@.slot),
        ensures
            final(self).wf(),
            final(self)@ == old(self)@.discard(lease@.slot),
            old(self)@.shifts(final(self)@, Slot::Lent, Slot::Vacant),
    {
        proof {
            lemma_change_shifts(self@, lease.slot as int, Slot::Vacant);
        }
        self.slots.set(lease.slot, Slot::Vacant);
    }

    /// Borrows a connection for the time of `work` and takes it back when
    /// `work` returns, whatever it returns. `work` is told which slot it
    /// has and whether the connection of that slot has yet to be opened;
    /// besides its value it says whether the connection still works, and
    /// the connection is released if it does and discarded if not. Where
    /// no connection is lent, `work` does not run and the pool is as it
    /// was. Either way, as many connections are lent afterwards as before.
    pub fn scoped<T, F: FnOnce(usize, bool) -> (T, bool)>(
        &mut self,
        waited: u64,
        work: F,
    ) -> (result: Scoped<T>)
        requires
            old(self).wf(),
            forall|slot: usize, fresh: bool| #[trigger] work.requires((slot, fresh)),
        ensures
            final(self).wf(),
            final(self)@.count(Slot::Lent) == old(self)@.count(Slot::Lent),
            match result {
                Scoped::Done { value, kept } => {
                    &&& old(self)@.verdict(waited) matches Verdict::Lend { slot, fresh }
                    &&& work.ensures((slot as usize, fresh), (value, kept))
                    &&& final(self)@ == if kept {
                        old(self)@.acquire(waited).release(slot)
                    } else {
                        old(self)@.acquire(waited).discard(slot)
                    }
                },
                Scoped::Wait { remaining } => {
                    &&& old(self)@.verdict(waited) == (Verdict::Wait { remaining })
                    &&& final(self)@ == old(self)@
                },
                Scoped::Failed(error) => {
                    &&& old(self)@.verdict(waited) == Verdict::Fail(error)
                    &&& final(self)@ == old(self)@
                },
            },
    {
        match self.acquire(waited) {
            Acquire::Lent(lease) => {
                let (value, kept) = work(lease.slot(), lease.is_fresh());
                if kept {
                    self.release(lease);
                } else {
                    self.discard(lease);
                }
                Scoped::Done { value, kept }
            },
            Acquire::Wait { remaining } => Scoped::Wait { remaining },
            Acquire::Failed(error) => Scoped::Failed(error),
        }
    }

    /// Shuts the pool down: it lends nothing from now on and its idle
    /// connections are closed. Connections that are lent stay with their
    /// requests until they are handed back.
    pub fn shutdown(&mut self)
        requires
            old(self).wf(),
        ensures
            final(self).wf(),
            final(self)@ == old(self)@.shutdown(),
            final(self)@.count(Slot::Idle) == 0,
            final(self)@.count(Slot::Lent) == old(self)@.count(Slot::Lent),
            final(self)@.count(Slot::Vacant) == old(self)@.count(Slot::Vacant) + old(self)@.count(
                Slot::Idle,
            ),
    {
        proof {
            lemma_shutdown_closes(self@, 0);
            lemma_states_partition_the_slots(self@);
            lemma_states_partition_the_slots(self@.shutdown());
        }
        self.closed = true;
        let mut i: usize = 0;
        while i < self.slots.len()
            invariant
                i <= self.slots.len(),
                self.closed,
                self.timeout == old(self).timeout,
                self.slots@.len() == old(self).slots@.len(),
                forall|k: int| 0 <= k < i ==> self.slots@[k] == old(self)@.shutdown().slots[k],
                forall|k: int| i <= k < self.slots.len() ==> self.slots@[k] == old(self).slots@[k],
            decreases self.slots.len() - i,
        {
            if self.slots[i] == Slot::Idle {
                self.slots.set(i, Slot::Vacant);
            }
            i += 1;
        }
        assert(self@.slots =~= old(self)@.shutdown().slots);
    }
}

/// Changing one slot moves one unit between the counts of its old and its
/// new state and leaves every other count alone.
pub proof fn lemma_count_after_change(slots: Seq<Slot>, at: int, to: Slot, state: Slot)
    requires
        0 <= at < slots.len(),
    ensures
        count_in(slots.update(at, to), state) + (if slots[at] == state {
            1nat
        } else {
            0nat
        }) == count_in(slots, state) + (if to == state {
            1nat
        } else {
            0nat
        }),
    decreases slots.len(),
{
    if at == slots.len() - 1 {
        assert(slots.update(at, to).drop_last() =~= slots.drop_last());
    } else {
        assert(slots.update(at, to).drop_last() =~= slots.drop_last().update(at, to));
        lemma_count_after_change(slots.drop_last(), at, to, state);
    }
}

/// A count is the whole length exactly when every slot is in that state,
/// and it is zero exactly when none is.
pub proof fn lemma_count_bounds(slots: Seq<Slot>, state: Slot)
    ensures
        count_in(slots, state) <= slots.len(),
        count_in(slots, state) == slots.len() <==> forall|i: int|
            0 <= i < slots.len() ==> slots[i] == state,
        count_in(slots, state) == 0 <==> forall|i: int|
            0 <= i < slots.len() ==> slots[i] != state,
    decreases slots.len(),
{
    if slots.len() > 0 {
        let front = slots.drop_last();
        lemma_count_bounds(front, state);
        assert forall|i: int| 0 <= i < front.len() implies front[i] == slots[i] by {}
        if count_in(slots, state) == slots.len() {
            assert forall|i: int| 0 <= i < slots.len() implies slots[i] == state by {
                if i < front.len() {
                    assert(front[i] == state);
                }
            }
        }
        if count_in(slots, state) == 0 {
            assert forall|i: int| 0 <= i < slots.len() implies slots[i] != state by {
                if i < front.len() {
                    assert(front[i] != state);
                }
            }
        }
    }
}

/// Every slot is idle, lent or vacant: the three counts add up to the size
/// of the pool. So the live connections, idle and lent together, are never
/// more than the size.
pub proof fn lemma_states_partition_the_slots(pool: PoolView)
    ensures
        pool.count(Slot::Idle) + pool.count(Slot::Lent) + pool.count(Slot::Vacant)
            == pool.slots.len(),
        pool.count(Slot::Idle) + pool.count(Slot::Lent) <= pool.slots.len(),
    decreases pool.slots.len(),
{
    if pool.slots.len() > 0 {
        lemma_states_partition_the_slots(PoolView { slots: pool.slots.drop_last(), ..pool });
    }
}

/// An open pool with an idle connection lends it, and handing it straight
/// back restores the pool exactly: the same slots in the same states.
pub proof fn lemma_release_undoes_acquire(pool: PoolView, waited: u64)
    requires
        pool.wf(),
        !pool.closed,
        pool.has(Slot::Idle),
    ensures
        pool.verdict(waited) == (Verdict::Lend { slot: pool.first(Slot::Idle), fresh: false }),
        pool.acquire(waited).is_lent(pool.first(Slot::Idle)),
        pool.cycle(waited) == pool,
{
    lemma_lowest_exists(pool, Slot::Idle);
    assert(pool.cycle(waited).slots =~= pool.slots);
}

/// Where some slot is in a state, a lowest such slot exists.
proof fn lemma_first_exists(pool: PoolView, state: Slot, at: int)
    requires
        0 <= at < pool.slots.len(),
        pool.slots[at] == state,
    ensures
        pool.is_first(state, pool.first(state)),
        pool.first(state) <= at,
    decreases at,
{
    if exists|k: int| 0 <= k < at && pool.slots[k] == state {
        let k = choose|k: int| 0 <= k < at && pool.slots[k] == state;
        lemma_first_exists(pool, state, k);
    } else {
        assert(pool.is_first(state, at));
    }
    let first = pool.first(state);
    assert(pool.is_first(state, first));
}

/// Where some slot is in a state, `first` names the lowest such slot, and
/// it is the only one that is the lowest.
pub proof fn lemma_lowest_exists(pool: PoolView, state: Slot)
    requires
        pool.has(state),
    ensures
        pool.is_first(state, pool.first(state)),
        forall|at: int| pool.is_first(state, at) ==> at == pool.first(state),
{
    lemma_count_bounds(pool.slots, state);
    let at = choose|at: int| 0 <= at < pool.slots.len() && pool.slots[at] == state;
    lemma_first_exists(pool, state, at);
}

/// Putting one slot into another state shifts the counts by that slot.
pub proof fn lemma_change_shifts(pool: PoolView, at: int, to: Slot)
    requires
        0 <= at < pool.slots.len(),
    ensures
        pool.shifts(pool.with(at, to), pool.slots[at], to),
{
    assert forall|state: Slot| #[trigger]
        pool.with(at, to).count(state) + (if state == pool.slots[at] {
            1nat
        } else {
            0nat
        }) == pool.count(state) + (if state == to {
            1nat
        } else {
            0nat
        }) by {
        lemma_count_after_change(pool.slots, at, to, state);
    }
}

/// The slot that `acquire` lends is one of the pool's, was free before and
/// is lent afterwards; it is fresh exactly when it was vacant.
pub proof fn lemma_acquire_lends_a_free_slot(pool: PoolView, waited: u64)
    requires
        pool.wf(),
    ensures
        pool.acquire(waited).wf(),
        pool.verdict(waited) matches Verdict::Lend { slot, fresh } ==> {
            &&& 0 <= slot < pool.slots.len()
            &&& pool.slots[slot] == if fresh {
                Slot::Vacant
            } else {
                Slot::Idle
            }
            &&& pool.acquire(waited).is_lent(slot)
        },
{
    if !pool.closed {
        if pool.has(Slot::Idle) {
            lemma_lowest_exists(pool, Slot::Idle);
        } else if pool.has(Slot::Vacant) {
            lemma_lowest_exists(pool, Slot::Vacant);
        }
    }
}

/// A paired cycle leaks nothing, whatever the pool: the number of lent
/// slots is the same after it as before, the connections that can be lent
/// (idle and vacant together) are as many as before, and no idle
/// connection is lost.
pub proof fn lemma_cycle_does_not_leak(pool: PoolView, waited: u64)
    requires
        pool.wf(),
    ensures
        pool.cycle(waited).wf(),
        pool.cycle(waited).slots.len() == pool.slots.len(),
        pool.cycle(waited).count(Slot::Lent) == pool.count(Slot::Lent),
        pool.cycle(waited).count(Slot::Idle) + pool.cycle(waited).count(Slot::Vacant)
            == pool.count(Slot::Idle) + pool.count(Slot::Vacant),
        pool.cycle(waited).count(Slot::Idle) >= pool.count(Slot::Idle),
{
    lemma_states_partition_the_slots(pool);
    lemma_states_partition_the_slots(pool.cycle(waited));
    if !pool.closed {
        if pool.has(Slot::Idle) {
            lemma_release_undoes_acquire(pool, waited);
        } else if pool.has(Slot::Vacant) {
            lemma_lowest_exists(pool, Slot::Vacant);
            let slot = pool.first(Slot::Vacant);
            assert(pool.cycle(waited).slots =~= pool.slots.update(slot, Slot::Idle));
            lemma_count_after_change(pool.slots, slot, Slot::Idle, Slot::Lent);
            lemma_count_after_change(pool.slots, slot, Slot::Idle, Slot::Idle);
        }
    }
}

/// After any number of paired cycles on a new pool, every connection is
/// free: the pool is exactly as it was made, with all its slots idle and
/// none lent, and each `acquire` along the way lent a connection.
pub proof fn lemma_paired_cycles_leave_all_idle(size: nat, timeout: u64, n: nat, waited: u64)
    requires
        size >= 1,
    ensures
        PoolView::fresh(size, timeout).cycles(n, waited) == PoolView::fresh(size, timeout),
        PoolView::fresh(size, timeout).cycles(n, waited).count(Slot::Idle) == size,
        PoolView::fresh(size, timeout).cycles(n, waited).count(Slot::Lent) == 0,
        PoolView::fresh(size, timeout).verdict(waited) is Lend,
    decreases n,
{
    let pool = PoolView::fresh(size, timeout);
    assert(pool.slots[0] == Slot::Idle);
    lemma_release_undoes_acquire(pool, waited);
    if n > 0 {
        lemma_paired_cycles_leave_all_idle(size, timeout, (n - 1) as nat, waited);
    }
    lemma_count_bounds(pool.slots, Slot::Idle);
    lemma_count_bounds(pool.slots, Slot::Lent);
}

/// A pool whose connections are all lent makes the next caller wait, and
/// not for ever. While the caller has waited less than the timeout it is
/// told to wait for what is left of it; from then on it is refused as
/// exhausted. Either way the pool is unchanged.
pub proof fn lemma_full_pool_waits_then_refuses(pool: PoolView, waited: u64)
    requires
        pool.wf(),
        !pool.closed,
        pool.count(Slot::Lent) == pool.slots.len(),
    ensures
        waited < pool.timeout ==> pool.verdict(waited) == (Verdict::Wait {
            remaining: (pool.timeout - waited) as u64,
        }),
        waited >= pool.timeout ==> pool.verdict(waited) == Verdict::Fail(PoolError::Exhausted),
        pool.acquire(waited) == pool,
{
    lemma_states_partition_the_slots(pool);
}

/// No caller waits for ever. Whatever the pool, a caller that is told to
/// wait has not used up the timeout, is given exactly what is left of it,
/// and is not told to wait again once that time has passed.
pub proof fn lemma_wait_is_bounded(pool: PoolView, waited: u64, later: u64)
    requires
        later >= pool.timeout,
    ensures
        pool.verdict(waited) matches Verdict::Wait { remaining } ==> waited + remaining
            == pool.timeout && remaining > 0,
        !(pool.verdict(later) is Wait),
{
}

/// A release serves the next caller. Once a lent connection has come back
/// to an open pool, `acquire` lends one, however long the caller has
/// waited by then.
pub proof fn lemma_release_serves_a_waiter(pool: PoolView, slot: int, waited: u64)
    requires
        pool.wf(),
        !pool.closed,
        pool.is_lent(slot),
    ensures
        pool.release(slot).wf(),
        pool.release(slot).verdict(waited) is Lend,
        pool.release(slot).count(Slot::Lent) == pool.count(Slot::Lent) - 1,
{
    let after = pool.release(slot);
    assert(after.slots[slot] == Slot::Idle);
    lemma_count_bounds(after.slots, Slot::Idle);
    lemma_count_after_change(pool.slots, slot, Slot::Idle, Slot::Lent);
}

/// A pool that was shut down lends nothing, to nobody, and has no idle
/// connection left; the connections that were lent are still out.
pub proof fn lemma_shutdown_closes(pool: PoolView, waited: u64)
    requires
        pool.wf(),
    ensures
        pool.shutdown().wf(),
        pool.shutdown().verdict(waited) == Verdict::Fail(PoolError::Closed),
        pool.shutdown().count(Slot::Idle) == 0,
        pool.shutdown().count(Slot::Lent) == pool.count(Slot::Lent),
        forall|slot: int| pool.is_lent(slot) <==> #[trigger] pool.shutdown().is_lent(slot),
{
    lemma_count_bounds(pool.shutdown().slots, Slot::Idle);
    lemma_shutdown_keeps_lent(pool.slots, pool.shutdown().slots);
}

/// Two runs of slots that are lent at the same places have as many lent.
proof fn lemma_shutdown_keeps_lent(before: Seq<Slot>, after: Seq<Slot>)
    requires
        before.len() == after.len(),
        forall|i: int| 0 <= i < before.len() ==> (before[i] == Slot::Lent <==> after[i] == Slot::Lent),
    ensures
        count_in(before, Slot::Lent) == count_in(after, Slot::Lent),
    decreases before.len(),
{
    if before.len() > 0 {
        lemma_shutdown_keeps_lent(before.drop_last(), after.drop_last());
    }
}

} // verus!
