use hero_crud::hero::Hero;
use hero_crud::pool::{Acquire, Pool, PoolError, Slot};
use hero_crud::request::{DecodeError, Request};
use hero_crud::response::{refuse, respond, Body, Response, ServiceError, Status};
use hero_crud::service::{conclude, Admission, Lifecycle, Service, Ticket};
use hero_crud::store::{HeroTable, StoreError, StoreOp, StoreOutcome};

fn hero(name: &str) -> Hero {
    Hero::new(name.to_string())
}

fn stored(id: i32, name: &str) -> Hero {
    Hero { id: Some(id), name: name.to_string() }
}

fn create(name: &str) -> Request {
    Request::Create { body: Some(hero(name)) }
}

fn update(id: &str, name: &str) -> Request {
    Request::Update { id: id.as_bytes().to_vec(), body: Some(hero(name)) }
}

fn delete(id: &str) -> Request {
    Request::Delete { id: id.as_bytes().to_vec() }
}

fn ok(body: Body) -> Response {
    Response { status: Status::Success, body }
}

fn failed(error: ServiceError, status: Status) -> Response {
    Response { status, body: Body::Error(error) }
}

fn ticket(admission: Admission) -> Ticket {
    match admission {
        Admission::Admitted(ticket) => ticket,
        other => panic!("the request was not let in: {:?}", other),
    }
}

#[test]
fn end_to_end_create_list_update_delete() {
    let mut service = Service::new(2, 0).unwrap();
    assert_eq!(
        service.handle(create("A")),
        Response { status: Status::Created, body: Body::Entity(stored(1, "A")) }
    );
    assert_eq!(service.handle(Request::List), ok(Body::Entities(vec![stored(1, "A")])));
    assert_eq!(service.handle(update("1", "B")), ok(Body::Success(true)));
    assert_eq!(service.handle(Request::List), ok(Body::Entities(vec![stored(1, "B")])));
    assert_eq!(service.handle(delete("1")), ok(Body::Success(true)));
    assert_eq!(service.handle(delete("1")), ok(Body::Success(false)));
    assert_eq!(service.handle(Request::List), ok(Body::Entities(vec![])));
}

#[test]
fn status_codes_are_those_of_http() {
    assert_eq!(Status::Success.code(), 200);
    assert_eq!(Status::Created.code(), 201);
    assert_eq!(Status::BadRequest.code(), 400);
    assert_eq!(Status::InternalServerError.code(), 500);
    assert_eq!(Status::ServiceUnavailable.code(), 503);
}

#[test]
fn every_failure_has_the_status_of_its_kind() {
    assert_eq!(ServiceError::Decode(DecodeError::BadId).status(), Status::BadRequest);
    assert_eq!(ServiceError::Decode(DecodeError::BadBody).status(), Status::BadRequest);
    assert_eq!(ServiceError::Pool(PoolError::Exhausted).status(), Status::ServiceUnavailable);
    assert_eq!(ServiceError::Pool(PoolError::Closed).status(), Status::ServiceUnavailable);
    assert_eq!(ServiceError::Store(StoreError::Constraint).status(), Status::InternalServerError);
    assert_eq!(ServiceError::Store(StoreError::Connectivity).status(), Status::InternalServerError);
}

#[test]
fn refuse_reports_the_failure_in_the_body() {
    assert_eq!(
        refuse(ServiceError::Pool(PoolError::Exhausted)),
        failed(ServiceError::Pool(PoolError::Exhausted), Status::ServiceUnavailable)
    );
    assert_eq!(
        refuse(ServiceError::Decode(DecodeError::BadId)),
        failed(ServiceError::Decode(DecodeError::BadId), Status::BadRequest)
    );
}

#[test]
fn respond_maps_each_outcome() {
    assert_eq!(
        respond(StoreOutcome::Created(stored(5, "E"))),
        Response { status: Status::Created, body: Body::Entity(stored(5, "E")) }
    );
    assert_eq!(
        respond(StoreOutcome::Listed(vec![stored(1, "a"), stored(2, "b")])),
        ok(Body::Entities(vec![stored(1, "a"), stored(2, "b")]))
    );
    assert_eq!(respond(StoreOutcome::Listed(vec![])), ok(Body::Entities(vec![])));
    assert_eq!(respond(StoreOutcome::Updated(true)), ok(Body::Success(true)));
    assert_eq!(respond(StoreOutcome::Updated(false)), ok(Body::Success(false)));
    assert_eq!(respond(StoreOutcome::Deleted(true)), ok(Body::Success(true)));
    assert_eq!(respond(StoreOutcome::Deleted(false)), ok(Body::Success(false)));
    assert_eq!(
        respond(StoreOutcome::Fault(StoreError::Connectivity)),
        failed(ServiceError::Store(StoreError::Connectivity), Status::InternalServerError)
    );
    assert_eq!(
        respond(StoreOutcome::Fault(StoreError::Constraint)),
        failed(ServiceError::Store(StoreError::Constraint), Status::InternalServerError)
    );
}

#[test]
fn a_service_needs_at_least_one_connection() {
    assert!(Service::new(0, 10).is_none());
    assert!(Service::with_table(0, 10, HeroTable::new()).is_none());
    let service = Service::new(1, 10).unwrap();
    assert_eq!(service.lifecycle(), Lifecycle::Running);
    assert_eq!(service.pool().size(), 1);
    assert_eq!(service.pool().timeout(), 10);
    assert_eq!(service.table().len(), 0);
}

#[test]
fn a_missing_record_is_a_result_and_no_failure() {
    let mut service = Service::new(1, 0).unwrap();
    assert_eq!(service.handle(update("1", "nobody")), ok(Body::Success(false)));
    assert_eq!(service.handle(delete("1")), ok(Body::Success(false)));
    assert_eq!(service.table().len(), 0);
}

#[test]
fn a_request_that_cannot_be_decoded_is_a_bad_request() {
    let mut service = Service::new(1, 0).unwrap();
    service.handle(create("A"));
    assert_eq!(
        service.handle(Request::Create { body: None }),
        failed(ServiceError::Decode(DecodeError::BadBody), Status::BadRequest)
    );
    assert_eq!(
        service.handle(update("one", "B")),
        failed(ServiceError::Decode(DecodeError::BadId), Status::BadRequest)
    );
    assert_eq!(
        service.handle(Request::Update { id: b"1".to_vec(), body: None }),
        failed(ServiceError::Decode(DecodeError::BadBody), Status::BadRequest)
    );
    assert_eq!(
        service.handle(delete("")),
        failed(ServiceError::Decode(DecodeError::BadId), Status::BadRequest)
    );
    assert_eq!(service.table().list(), vec![stored(1, "A")]);
    assert_eq!(service.pool().count(Slot::Idle), 1);
}

#[test]
fn create_ignores_the_id_of_the_body() {
    let mut service = Service::new(1, 0).unwrap();
    let body = Hero { id: Some(77), name: "A".to_string() };
    assert_eq!(
        service.handle(Request::Create { body: Some(body) }),
        Response { status: Status::Created, body: Body::Entity(stored(1, "A")) }
    );
}

#[test]
fn update_ignores_the_id_of_the_body() {
    let mut service = Service::new(1, 0).unwrap();
    service.handle(create("A"));
    service.handle(create("B"));
    let body = Hero { id: Some(2), name: "C".to_string() };
    assert_eq!(
        service.handle(Request::Update { id: b"1".to_vec(), body: Some(body) }),
        ok(Body::Success(true))
    );
    assert_eq!(service.table().list(), vec![stored(1, "C"), stored(2, "B")]);
}

#[test]
fn a_store_fault_is_an_internal_error_and_the_connection_comes_back() {
    let table = HeroTable::resuming(i32::MAX).unwrap();
    let mut service = Service::with_table(2, 0, table).unwrap();
    assert_eq!(
        service.handle(create("late")),
        failed(ServiceError::Store(StoreError::Constraint), Status::InternalServerError)
    );
    assert_eq!(service.pool().count(Slot::Idle), 2);
    assert_eq!(service.pool().count(Slot::Lent), 0);
    assert_eq!(service.handle(Request::List), ok(Body::Entities(vec![])));
}

#[test]
fn every_request_hands_its_connection_back() {
    let mut service = Service::new(3, 0).unwrap();
    let requests = vec![
        create("A"),
        Request::List,
        update("1", "B"),
        update("9", "B"),
        update("x", "B"),
        Request::Create { body: None },
        delete("1"),
        delete("1"),
        delete("?"),
    ];
    for request in requests {
        service.handle(request);
        assert_eq!(service.pool().count(Slot::Idle), 3);
        assert_eq!(service.pool().count(Slot::Lent), 0);
    }
}

#[test]
fn a_service_that_is_shutting_down_turns_requests_away() {
    let mut service = Service::new(2, 10).unwrap();
    service.handle(create("A"));
    service.begin_shutdown();
    assert_eq!(service.lifecycle(), Lifecycle::ShuttingDown);
    assert!(service.pool().is_closed());
    let closed = failed(ServiceError::Pool(PoolError::Closed), Status::ServiceUnavailable);
    assert_eq!(service.handle(Request::List), closed);
    assert_eq!(service.handle(create("B")), closed);
    assert_eq!(service.handle(Request::Create { body: None }), closed);
    assert_eq!(service.handle(delete("x")), closed);
    assert_eq!(service.table().list(), vec![stored(1, "A")]);
}

#[test]
fn a_request_in_flight_completes_after_shutdown_began() {
    let mut service = Service::new(2, 10).unwrap();
    let in_flight = ticket(service.begin(StoreOp::Create(hero("A")), 0));
    service.begin_shutdown();
    assert!(matches!(
        service.begin(StoreOp::List, 0),
        Admission::Refused(PoolError::Closed)
    ));
    assert_eq!(
        service.finish(in_flight),
        Response { status: Status::Created, body: Body::Entity(stored(1, "A")) }
    );
    assert_eq!(service.pool().count(Slot::Lent), 0);
    assert_eq!(service.pool().count(Slot::Idle), 0);
    assert_eq!(service.pool().count(Slot::Vacant), 2);
    assert_eq!(service.table().list(), vec![stored(1, "A")]);
}

#[test]
fn a_cancelled_request_runs_no_operation() {
    let mut service = Service::new(1, 10).unwrap();
    let in_flight = ticket(service.begin(StoreOp::Create(hero("A")), 0));
    assert_eq!(in_flight.slot(), 0);
    service.begin_shutdown();
    assert_eq!(
        service.cancel(in_flight),
        failed(ServiceError::Pool(PoolError::Closed), Status::ServiceUnavailable)
    );
    assert_eq!(service.table().len(), 0);
    assert_eq!(service.pool().count(Slot::Lent), 0);
}

#[test]
fn requests_beyond_the_pool_size_wait_or_fail_as_exhausted() {
    let size = 2;
    let mut service = Service::new(size, 40).unwrap();
    let first = ticket(service.begin(StoreOp::Create(hero("A")), 0));
    let second = ticket(service.begin(StoreOp::Create(hero("B")), 0));
    let third = match service.begin(StoreOp::Create(hero("C")), 0) {
        Admission::Wait { remaining, op } => {
            assert_eq!(remaining, 40);
            op
        },
        other => panic!("the third request should wait: {:?}", other),
    };
    let fourth = match service.begin(StoreOp::List, 15) {
        Admission::Wait { remaining, op } => {
            assert_eq!(remaining, 25);
            op
        },
        other => panic!("the fourth request should wait: {:?}", other),
    };
    assert_eq!(
        service.handle(Request::List),
        failed(ServiceError::Pool(PoolError::Exhausted), Status::ServiceUnavailable)
    );
    assert!(matches!(service.begin(fourth, 40), Admission::Refused(PoolError::Exhausted)));
    service.finish(first);
    let third = ticket(service.begin(third, 30));
    service.finish(second);
    service.finish(third);
    assert_eq!(
        service.table().list(),
        vec![stored(1, "A"), stored(2, "B"), stored(3, "C")]
    );
    assert_eq!(service.pool().count(Slot::Idle), size);
}

#[test]
fn conclude_discards_a_connection_that_broke() {
    let mut pool = Pool::new(2, 0).unwrap();
    let lease = match pool.acquire(0) {
        Acquire::Lent(lease) => lease,
        other => panic!("no connection was lent: {:?}", other),
    };
    conclude(&mut pool, lease, &StoreOutcome::Fault(StoreError::Connectivity), true);
    assert_eq!(pool.count(Slot::Vacant), 1);
    assert_eq!(pool.count(Slot::Idle), 1);
    assert_eq!(pool.count(Slot::Lent), 0);
}

#[test]
fn conclude_discards_a_connection_that_failed_its_health_check() {
    let mut pool = Pool::new(1, 0).unwrap();
    let lease = match pool.acquire(0) {
        Acquire::Lent(lease) => lease,
        other => panic!("no connection was lent: {:?}", other),
    };
    conclude(&mut pool, lease, &StoreOutcome::Updated(true), false);
    assert_eq!(pool.slot(0), Some(Slot::Vacant));
    match pool.acquire(0) {
        Acquire::Lent(lease) => assert!(lease.is_fresh()),
        other => panic!("no connection was lent: {:?}", other),
    }
}

#[test]
fn conclude_releases_a_connection_that_works() {
    let outcomes = vec![
        StoreOutcome::Created(stored(1, "A")),
        StoreOutcome::Listed(vec![]),
        StoreOutcome::Updated(false),
        StoreOutcome::Deleted(true),
        StoreOutcome::Fault(StoreError::Constraint),
    ];
    let mut pool = Pool::new(1, 0).unwrap();
    for outcome in outcomes {
        let lease = match pool.acquire(0) {
            Acquire::Lent(lease) => lease,
            other => panic!("no connection was lent: {:?}", other),
        };
        conclude(&mut pool, lease, &outcome, true);
        assert_eq!(pool.count(Slot::Idle), 1);
        assert_eq!(pool.count(Slot::Vacant), 0);
    }
}

#[test]
fn the_four_handlers_answer_as_their_routes_do() {
    let mut service = Service::new(1, 0).unwrap();
    assert_eq!(
        service.create(Some(hero("A"))),
        Response { status: Status::Created, body: Body::Entity(stored(1, "A")) }
    );
    assert_eq!(service.read(), ok(Body::Entities(vec![stored(1, "A")])));
    assert_eq!(service.update(b"1".to_vec(), Some(hero("B"))), ok(Body::Success(true)));
    assert_eq!(service.read(), ok(Body::Entities(vec![stored(1, "B")])));
    assert_eq!(service.delete(b"1".to_vec()), ok(Body::Success(true)));
    assert_eq!(service.delete(b"1".to_vec()), ok(Body::Success(false)));
    assert_eq!(
        service.create(None),
        failed(ServiceError::Decode(DecodeError::BadBody), Status::BadRequest)
    );
    assert_eq!(
        service.update(b"1x".to_vec(), Some(hero("C"))),
        failed(ServiceError::Decode(DecodeError::BadId), Status::BadRequest)
    );
    assert_eq!(
        service.delete(b"".to_vec()),
        failed(ServiceError::Decode(DecodeError::BadId), Status::BadRequest)
    );
    assert_eq!(service.pool().count(Slot::Idle), 1);
}
