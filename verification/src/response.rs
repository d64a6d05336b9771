//! Responses, and how outcomes and failures map to them.

use vstd::prelude::*;
use crate::hero::{Hero, HeroView, views};
use crate::pool::PoolError;
use crate::request::DecodeError;
use crate::store::{OutcomeView, StoreError, StoreOutcome};

verus! {

/// The status of a response.
#[derive(Debug, Clone, Copy, PartialEq, Eq, Structural)]
pub enum Status {
    /// 200: the request was carried out.
    Success,
    /// 201: a record was created.
    Created,
    /// 400: the request could not be decoded.
    BadRequest,
    /// 500: the store failed.
    InternalServerError,
    /// 503: no connection could be had; the caller may try again.
    ServiceUnavailable,
}

impl Status {
    /// The number of the status.
    pub open spec fn spec_code(self) -> u16 {
        match self {
            Status::Success => 200,
            Status::Created => 201,
            Status::BadRequest => 400,
            Status::InternalServerError => 500,
            Status::ServiceUnavailable => 503,
        }
    }

    /// The number of the status.
    #[verifier::when_used_as_spec(spec_code)]
    pub fn code(self) -> (code: u16)
        ensures
            code == self.spec_code(),
    {
        match self {
            Status::Success => 200,
            Status::Created => 201,
            Status::BadRequest => 400,
            Status::InternalServerError => 500,
            Status::ServiceUnavailable => 503,
        }
    }
}

/// Every way in which a request can fail.
#[derive(Debug, Clone, Copy, PartialEq, Eq, Structural)]
pub enum ServiceError {
    /// The request could not be decoded.
    Decode(DecodeError),
    /// The pool lent no connection.
    Pool(PoolError),
    /// The store failed.
    Store(StoreError),
}

impl ServiceError {
    /// The status under which the failure is reported: the caller's fault,
    /// a shortage that will pass, or the store's fault.
    pub open spec fn spec_status(self) -> Status {
        match self {
            ServiceError::Decode(_) => Status::BadRequest,
            ServiceError::Pool(_) => Status::ServiceUnavailable,
            ServiceError::Store(_) => Status::InternalServerError,
        }
    }

    /// The status under which the failure is reported.
    #[verifier::when_used_as_spec(spec_status)]
    pub fn status(self) -> (status: Status)
        ensures
            status == self.spec_status(),
    {
        match self {
            ServiceError::Decode(_) => Status::BadRequest,
            ServiceError::Pool(_) => Status::ServiceUnavailable,
            ServiceError::Store(_) => Status::InternalServerError,
        }
    }
}

/// The body of a response, before it is encoded.
#[derive(Debug, PartialEq, Eq)]
pub enum Body {
    /// One hero.
    Entity(Hero),
    /// A sequence of heroes.
    Entities(Vec<Hero>),
    /// The envelope `success`, for update and delete.
    Success(bool),
    /// What went wrong.
    Error(ServiceError),
}

/// What a body is in contracts.
pub enum BodyView {
    Entity(HeroView),
    Entities(Seq<HeroView>),
    Success(bool),
    Error(ServiceError),
}

impl View for Body {
    type V = BodyView;

    open spec fn view(&self) -> BodyView {
        match *self {
            Body::Entity(hero) => BodyView::Entity(hero@),
            Body::Entities(heroes) => BodyView::Entities(views(heroes@)),
            Body::Success(success) => BodyView::Success(success),
            Body::Error(error) => BodyView::Error(error),
        }
    }
}

/// A response: a status and a body.
#[derive(Debug, PartialEq, Eq)]
pub struct Response {
    pub status: Status,
    pub body: Body,
}

/// What a response is in contracts.
pub struct ResponseView {
    pub status: Status,
    pub body: BodyView,
}

impl View for Response {
    type V = ResponseView;

    open spec fn view(&self) -> ResponseView {
        ResponseView { status: self.status, body: self.body@ }
    }
}

/// The response to a failure: the status of its kind, and the failure
/// itself as the body.
pub open spec fn refusal(error: ServiceError) -> ResponseView {
    ResponseView { status: error.spec_status(), body: BodyView::Error(error) }
}

/// The response to the outcome of a store operation. A created hero is
/// sent back under `Created`, a listing under `Success`. An update or a delete
/// is answered under `Success` with an envelope that says whether the record
/// was there: a missing record is a result, not a failure. A fault of the
/// store is a failure.
pub open spec fn response_to(outcome: OutcomeView) -> ResponseView {
    match outcome {
        OutcomeView::Created(hero) => ResponseView {
            status: Status::Created,
            body: BodyView::Entity(hero),
        },
        OutcomeView::Listed(heroes) => ResponseView {
            status: Status::Success,
            body: BodyView::Entities(heroes),
        },
        OutcomeView::Updated(found) => ResponseView {
            status: Status::Success,
            body: BodyView::Success(found),
        },
        OutcomeView::Deleted(found) => ResponseView {
            status: Status::Success,
            body: BodyView::Success(found),
        },
        OutcomeView::Fault(error) => refusal(ServiceError::Store(error)),
    }
}

/// Builds the response to a failure.
pub fn refuse(error: ServiceError) -> (response: Response)
    ensures
        response@ == refusal(error),
{
    Response { status: error.status(), body: Body::Error(error) }
}

/// Builds the response to the outcome of a store operation.
pub fn respond(outcome: StoreOutcome) -> (response: Response)
    ensures
        response@ == response_to(outcome@),
{
    match outcome {
        StoreOutcome::Created(hero) => Response { status: Status::Created, body: Body::Entity(hero) },
        StoreOutcome::Listed(heroes) => Response { status: Status::Success, body: Body::Entities(heroes) },
        StoreOutcome::Updated(found) => Response { status: Status::Success, body: Body::Success(found) },
        StoreOutcome::Deleted(found) => Response { status: Status::Success, body: Body::Success(found) },
        StoreOutcome::Fault(error) => refuse(ServiceError::Store(error)),
    }
}

} // verus!
