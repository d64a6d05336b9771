//! The resource handlers: each request borrows one connection, runs one
//! store operation and hands the connection back before it answers.
//!
//! `handle` runs a request from start to end. `begin`, `finish` and
//! `cancel` are its steps, for callers that keep several requests in
//! flight and let a request wait while every connection is lent.

use vstd::prelude::*;
use crate::hero::Hero;
use crate::pool::{
    lemma_acquire_lends_a_free_slot, lemma_change_shifts, lemma_cycle_does_not_leak,
    lemma_full_pool_waits_then_refuses, lemma_release_undoes_acquire,
    lemma_states_partition_the_slots, Acquire, Lease, Pool, PoolError, PoolView, Slot, Verdict,
};
use crate::request::{body_view, decode, decoded, Request, RequestView};
use crate::response::{refusal, refuse, respond, response_to, Response, ResponseView, ServiceError};
use crate::store::{
    HeroTable, OpView, OutcomeView, StoreError, StoreOp, StoreOutcome, TableView,
};

verus! {

/// Whether the service takes new requests.
#[derive(Debug, Clone, Copy, PartialEq, Eq, Structural)]
pub enum Lifecycle {
    /// Requests are accepted.
    Running,
    /// No new request is accepted; those in flight may complete.
    ShuttingDown,
}

/// Whether the outcome shows that the connection broke.
pub open spec fn is_broken(outcome: OutcomeView) -> bool {
    outcome == OutcomeView::Fault(StoreError::Connectivity)
}

/// The pool after a request has handed its connection back: released
/// where the connection passed its health check and the outcome does not
/// show that it broke, discarded otherwise.
pub open spec fn concluded(
    pool: PoolView,
    slot: int,
    outcome: OutcomeView,
    healthy: bool,
) -> PoolView {
    if healthy && !is_broken(outcome) {
        pool.release(slot)
    } else {
        pool.discard(slot)
    }
}

/// Hands a connection back once the store operation is over, whatever its
/// outcome. `healthy` is what the health check of the session said. A
/// connection that failed it, or whose operation ended in a connectivity
/// fault, is discarded; any other is released.
pub fn conclude(pool: &mut Pool, lease: Lease, outcome: &StoreOutcome, healthy: bool)
    requires
        old(pool).wf(),
        old(pool)@.is_lent(lease@.slot),
    ensures
        final(pool).wf(),
        final(pool)@ == concluded(old(pool)@, lease@.slot, outcome@, healthy),
        final(pool)@.count(Slot::Lent) == old(pool)@.count(Slot::Lent) - 1,
{
    let broken = match outcome {
        StoreOutcome::Fault(StoreError::Connectivity) => true,
        _ => false,
    };
    if healthy && !broken {
        pool.release(lease)
    } else {
        pool.discard(lease)
    }
}

/// What a service is in contracts: its pool, its table, and whether it is
/// running.
pub struct ServiceView {
    pub pool: PoolView,
    pub table: TableView,
    pub lifecycle: Lifecycle,
}

impl ServiceView {
    /// Pool and table are well formed, and the pool is closed exactly
    /// while the service is shutting down.
    pub open spec fn wf(self) -> bool {
        &&& self.pool.wf()
        &&& self.table.wf()
        &&& self.pool.closed <==> self.lifecycle == Lifecycle::ShuttingDown
    }

    /// Whether `handle` gets a connection for a request that decodes.
    pub open spec fn serves(self) -> bool {
        self.pool.verdict(self.pool.timeout) is Lend
    }

    /// The service after `handle`. A request that is refused changes
    /// nothing. One that is served runs its operation on the table, and
    /// the pool goes through one paired cycle.
    pub open spec fn handle(self, request: RequestView) -> ServiceView {
        match decoded(request) {
            Ok(op) if self.serves() => ServiceView {
                pool: self.pool.cycle(self.pool.timeout),
                table: self.table.after(op),
                lifecycle: self.lifecycle,
            },
            _ => self,
        }
    }

    /// The response of `handle`. A service that is shutting down turns
    /// every request away. A request that cannot be decoded is the
    /// caller's mistake. Where no connection is to be had the service is
    /// busy. Otherwise the response is that to the outcome of the one
    /// operation.
    pub open spec fn reply(self, request: RequestView) -> ResponseView {
        if self.lifecycle == Lifecycle::ShuttingDown {
            refusal(ServiceError::Pool(PoolError::Closed))
        } else {
            match decoded(request) {
                Err(error) => refusal(ServiceError::Decode(error)),
                Ok(op) => match self.pool.verdict(self.pool.timeout) {
                    Verdict::Lend { .. } => response_to(self.table.outcome(op)),
                    Verdict::Fail(error) => refusal(ServiceError::Pool(error)),
                    Verdict::Wait { .. } => refusal(ServiceError::Pool(PoolError::Exhausted)),
                },
            }
        }
    }
}

/// What a ticket is in contracts.
pub struct TicketView {
    pub slot: int,
    pub fresh: bool,
    pub op: OpView,
}

/// A request in flight: it holds a connection and has its operation yet
/// to run.
#[derive(Debug)]
pub struct Ticket {
    lease: Lease,
    op: StoreOp,
}

impl View for Ticket {
    type V = TicketView;

    closed spec fn view(&self) -> TicketView {
        TicketView { slot: self.lease@.slot, fresh: self.lease@.fresh, op: self.op@ }
    }
}

impl Ticket {
    /// The slot whose connection the request holds.
    pub fn slot(&self) -> (slot: usize)
        ensures
            slot == self@.slot,
    {
        self.lease.slot()
    }
}

/// What `begin` hands back.
#[derive(Debug)]
pub enum Admission {
    /// The request holds a connection and may run.
    Admitted(Ticket),
    /// Every connection is lent. The operation comes back, to be offered
    /// again after at most `remaining`.
    Wait { remaining: u64, op: StoreOp },
    /// The request is turned away.
    Refused(PoolError),
}

/// The service: a pool of connections and the table they lead to.
pub struct Service {
    pool: Pool,
    table: HeroTable,
    lifecycle: Lifecycle,
}

impl View for Service {
    type V = ServiceView;

    closed spec fn view(&self) -> ServiceView {
        ServiceView { pool: self.pool@, table: self.table@, lifecycle: self.lifecycle }
    }
}

impl Service {
    /// The table of the service keeps its rows in order.
    pub closed spec fn in_order(&self) -> bool {
        self.table.in_order()
    }

    /// The invariant of the service.
    pub open spec fn wf(&self) -> bool {
        self@.wf() && self.in_order()
    }

    /// A running service with an empty table and `size` idle connections.
    /// There is none for size 0.
    pub fn new(size: usize, timeout: u64) -> (service: Option<Service>)
        ensures
            service is Some <==> size >= 1,
            service matches Some(s) ==> {
                &&& s.wf()
                &&& s@ == (ServiceView {
                    pool: PoolView::fresh(size as nat, timeout),
                    table: TableView::empty(),
                    lifecycle: Lifecycle::Running,
                })
                &&& s@.pool.count(Slot::Idle) == size
                &&& s@.pool.count(Slot::Lent) == 0
            },
    {
        Service::with_table(size, timeout, HeroTable::new())
    }

    /// A running service over a table that exists already, with `size`
    /// idle connections. There is none for size 0.
    pub fn with_table(size: usize, timeout: u64, table: HeroTable) -> (service: Option<Service>)
        requires
            table.wf(),
        ensures
            service is Some <==> size >= 1,
            service matches Some(s) ==> {
                &&& s.wf()
                &&& s@ == (ServiceView {
                    pool: PoolView::fresh(size as nat, timeout),
                    table: table@,
                    lifecycle: Lifecycle::Running,
                })
                &&& s@.pool.count(Slot::Idle) == size
                &&& s@.pool.count(Slot::Lent) == 0
            },
    {
        match Pool::new(size, timeout) {
            Some(pool) => Some(Service { pool, table, lifecycle: Lifecycle::Running }),
            None => None,
        }
    }

    /// The pool of the service.
    pub fn pool(&self) -> (pool: &Pool)
        ensures
            pool@ == self@.pool,
            self.wf() ==> pool.wf(),
    {
        &self.pool
    }

    /// The table of the service.
    pub fn table(&self) -> (table: &HeroTable)
        ensures
            table@ == self@.table,
            self.wf() ==> table.wf(),
    {
        &self.table
    }

    /// Whether the service takes new requests.
    pub fn lifecycle(&self) -> (lifecycle: Lifecycle)
        ensures
            lifecycle == self@.lifecycle,
    {
        self.lifecycle
    }

    /// Begins the shutdown: the pool is closed, so that from now on every
    /// new request is turned away, while requests in flight keep their
    /// connections until they finish.
    pub fn begin_shutdown(&mut self)
        requires
            old(self).wf(),
        ensures
            final(self).wf(),
            final(self)@ == (ServiceView {
                pool: old(self)@.pool.shutdown(),
                table: old(self)@.table,
                lifecycle: Lifecycle::ShuttingDown,
            }),
    {
        self.lifecycle = Lifecycle::ShuttingDown;
        self.pool.shutdown();
    }

    /// Asks for a connection for an operation whose request has waited
    /// `waited` so far. The pool decides as `acquire` does; the table is
    /// not touched.
    pub fn begin(&mut self, op: StoreOp, waited: u64) -> (admission: Admission)
        requires
            old(self).wf(),
        ensures
            final(self).wf(),
            final(self)@ == (ServiceView {
                pool: old(self)@.pool.acquire(waited),
                ..old(self)@
            }),
            match admission {
                Admission::Admitted(ticket) => {
                    &&& old(self)@.pool.verdict(waited) == (Verdict::Lend {
                        slot: ticket@.slot,
                        fresh: ticket@.fresh,
                    })
                    &&& ticket@.op == op@
                    &&& final(self)@.pool.is_lent(ticket@.slot)
                    &&& old(self)@.pool.shifts(
                        final(self)@.pool,
                        if ticket@.fresh {
                            Slot::Vacant
                        } else {
                            Slot::Idle
                        },
                        Slot::Lent,
                    )
                },
                Admission::Wait { remaining, op: back } => {
                    &&& old(self)@.pool.verdict(waited) == (Verdict::Wait { remaining })
                    &&& back == op
                },
                Admission::Refused(error) => old(self)@.pool.verdict(waited) == Verdict::Fail(
                    error,
                ),
            },
    {
        match self.pool.acquire(waited) {
            Acquire::Lent(lease) => {
                proof {
                    lemma_acquire_lends_a_free_slot(old(self)@.pool, waited);
                }
                Admission::Admitted(Ticket { lease, op })
            },
            Acquire::Wait { remaining } => Admission::Wait { remaining, op },
            Acquire::Failed(error) => Admission::Refused(error),
        }
    }

    /// Runs the operation of a request in flight, hands its connection
    /// back and answers. The connection goes back whatever the outcome.
    pub fn finish(&mut self, ticket: Ticket) -> (response: Response)
        requires
            old(self).wf(),
            old(self)@.pool.is_lent(ticket@.slot),
        ensures
            final(self).wf(),
            final(self)@ == (ServiceView {
                pool: old(self)@.pool.release(ticket@.slot),
                table: old(self)@.table.after(ticket@.op),
                lifecycle: old(self)@.lifecycle,
            }),
            response@ == response_to(old(self)@.table.outcome(ticket@.op)),
            old(self)@.pool.shifts(
                final(self)@.pool,
                Slot::Lent,
                if old(self)@.pool.closed {
                    Slot::Vacant
                } else {
                    Slot::Idle
                },
            ),
    {
        let Ticket { lease, op } = ticket;
        let outcome = self.table.apply(op);
        proof {
            lemma_change_shifts(
                self.pool@,
                lease@.slot,
                if self.pool@.closed {
                    Slot::Vacant
                } else {
                    Slot::Idle
                },
            );
        }
        conclude(&mut self.pool, lease, &outcome, true);
        respond(outcome)
    }

    /// Gives up a request in flight without running its operation: its
    /// connection goes back, the table is not touched, and the caller is
    /// told that the service is closed.
    pub fn cancel(&mut self, ticket: Ticket) -> (response: Response)
        requires
            old(self).wf(),
            old(self)@.pool.is_lent(ticket@.slot),
        ensures
            final(self).wf(),
            final(self)@ == (ServiceView {
                pool: old(self)@.pool.release(ticket@.slot),
                ..old(self)@
            }),
            response@ == refusal(ServiceError::Pool(PoolError::Closed)),
            old(self)@.pool.shifts(
                final(self)@.pool,
                Slot::Lent,
                if old(self)@.pool.closed {
                    Slot::Vacant
                } else {
                    Slot::Idle
                },
            ),
    {
        let Ticket { lease, op: _ } = ticket;
        self.pool.release(lease);
        refuse(ServiceError::Pool(PoolError::Closed))
    }

    /// Handles one request from start to end: decodes it, borrows a
    /// connection, runs the one operation, hands the connection back and
    /// answers. It does not wait: where every connection is lent, the
    /// request is answered as one whose waiting time is used up.
    pub fn handle(&mut self, request: Request) -> (response: Response)
        requires
            old(self).wf(),
        ensures
            final(self).wf(),
            final(self)@ == old(self)@.handle(request@),
            response@ == old(self)@.reply(request@),
            final(self)@.pool.count(Slot::Lent) == old(self)@.pool.count(Slot::Lent),
            old(self)@.pool.has(Slot::Idle) ==> final(self)@.pool == old(self)@.pool,
    {
        proof {
            lemma_cycle_does_not_leak(self@.pool, self@.pool.timeout);
            if !self@.pool.closed && self@.pool.has(Slot::Idle) {
                lemma_release_undoes_acquire(self@.pool, self@.pool.timeout);
            }
        }
        if self.lifecycle == Lifecycle::ShuttingDown {
            return refuse(ServiceError::Pool(PoolError::Closed));
        }
        let op = match decode(request) {
            Ok(op) => op,
            Err(error) => {
                return refuse(ServiceError::Decode(error));
            },
        };
        let waited = self.pool.timeout();
        match self.begin(op, waited) {
            Admission::Admitted(ticket) => self.finish(ticket),
            Admission::Wait { .. } => refuse(ServiceError::Pool(PoolError::Exhausted)),
            Admission::Refused(error) => refuse(ServiceError::Pool(error)),
        }
    }

    /// The handler of `POST /hero`: creates the hero of the body, whose id
    /// is ignored, and answers with the hero as it was stored.
    pub fn create(&mut self, body: Option<Hero>) -> (response: Response)
        requires
            old(self).wf(),
        ensures
            final(self).wf(),
            final(self)@ == old(self)@.handle(RequestView::Create { body: body_view(body) }),
            response@ == old(self)@.reply(RequestView::Create { body: body_view(body) }),
    {
        self.handle(Request::Create { body })
    }

    /// The handler of `GET /heroes`: answers with every hero.
    pub fn read(&mut self) -> (response: Response)
        requires
            old(self).wf(),
        ensures
            final(self).wf(),
            final(self)@ == old(self)@.handle(RequestView::List),
            response@ == old(self)@.reply(RequestView::List),
    {
        self.handle(Request::List)
    }

    /// The handler of `PUT /hero/{id}`: overwrites the hero at the id of
    /// the path with the body and answers whether there was such a hero.
    pub fn update(&mut self, id: Vec<u8>, body: Option<Hero>) -> (response: Response)
        requires
            old(self).wf(),
        ensures
            final(self).wf(),
            final(self)@ == old(self)@.handle(RequestView::Update { id: id@, body: body_view(body) }),
            response@ == old(self)@.reply(RequestView::Update { id: id@, body: body_view(body) }),
    {
        self.handle(Request::Update { id, body })
    }

    /// The handler of `DELETE /hero/{id}`: removes the hero at the id of
    /// the path and answers whether there was such a hero.
    pub fn delete(&mut self, id: Vec<u8>) -> (response: Response)
        requires
            old(self).wf(),
        ensures
            final(self).wf(),
            final(self)@ == old(self)@.handle(RequestView::Delete { id: id@ }),
            response@ == old(self)@.reply(RequestView::Delete { id: id@ }),
    {
        self.handle(Request::Delete { id })
    }
}

/// Every request hands its connection back. Whatever the request and
/// however it ends, served or refused, the service is well formed after
/// `handle`, as many connections are lent as before and as many can be
/// lent as before, and the service is in the same lifecycle state.
pub proof fn lemma_handle_returns_the_connection(service: ServiceView, request: RequestView)
    requires
        service.wf(),
    ensures
        service.handle(request).wf(),
        service.handle(request).lifecycle == service.lifecycle,
        service.handle(request).pool.count(Slot::Lent) == service.pool.count(Slot::Lent),
        service.handle(request).pool.count(Slot::Idle) + service.handle(request).pool.count(
            Slot::Vacant,
        ) == service.pool.count(Slot::Idle) + service.pool.count(Slot::Vacant),
{
    lemma_cycle_does_not_leak(service.pool, service.pool.timeout);
    match decoded(request) {
        Ok(op) => {
            lemma_operation_keeps_the_table(service.table, op);
        },
        Err(_) => {},
    }
}

/// One operation leaves the table well formed.
pub proof fn lemma_operation_keeps_the_table(table: TableView, op: OpView)
    requires
        table.wf(),
    ensures
        table.after(op).wf(),
{
    match op {
        OpView::List => {},
        OpView::Create { name } => {
            if table.can_create() {
                crate::store::lemma_created_hero_is_listed(table, name);
            }
        },
        OpView::Update { id, name } => {
            if table.contains(id) {
                crate::store::lemma_update_overwrites_one_record(table, id, name);
            }
        },
        OpView::Delete { id } => {
            crate::store::lemma_delete_keeps_the_others(table, id);
        },
    }
}

/// A running service with a connection that is not lent serves every
/// request that decodes: the response is that of the store operation.
pub proof fn lemma_free_connection_is_served(service: ServiceView, request: RequestView)
    requires
        service.wf(),
        service.lifecycle == Lifecycle::Running,
        service.pool.count(Slot::Lent) < service.pool.slots.len(),
        decoded(request) is Ok,
    ensures
        service.serves(),
        service.reply(request) == response_to(service.table.outcome(decoded(request)->Ok_0)),
        service.handle(request).table == service.table.after(decoded(request)->Ok_0),
{
    lemma_states_partition_the_slots(service.pool);
}

/// A running service whose connections are all lent turns a request away
/// as exhausted and changes nothing; it neither waits nor fails otherwise.
pub proof fn lemma_busy_service_refuses(service: ServiceView, request: RequestView)
    requires
        service.wf(),
        service.lifecycle == Lifecycle::Running,
        service.pool.count(Slot::Lent) == service.pool.slots.len(),
        decoded(request) is Ok,
    ensures
        service.reply(request) == refusal(ServiceError::Pool(PoolError::Exhausted)),
        service.handle(request) == service,
{
    lemma_full_pool_waits_then_refuses(service.pool, service.pool.timeout);
}

/// A request that cannot be decoded never reaches pool or store: a
/// running service answers it as a bad request and changes nothing.
pub proof fn lemma_bad_request_touches_nothing(service: ServiceView, request: RequestView)
    requires
        service.lifecycle == Lifecycle::Running,
        decoded(request) is Err,
    ensures
        service.reply(request) == refusal(ServiceError::Decode(decoded(request)->Err_0)),
        service.handle(request) == service,
{
}

} // verus!
