//! A pooled-resource CRUD service for a single entity, the hero.
//!
//! The service answers four requests: list the heroes, create one, update
//! one and delete one. Each request borrows a connection from a bounded
//! pool, runs exactly one operation of the entity store on it and hands the
//! connection back before it answers.
//!
//! - [`hero`]: the entity.
//! - [`store`]: the table of heroes and its four operations.
//! - [`pool`]: the books of the connection pool: which connections are
//!   idle, lent or gone, who gets the next one, and who has to wait.
//! - [`request`]: requests and their decoding into store operations.
//! - [`response`]: responses, and the mapping of outcomes and failures to
//!   them.
//! - [`route`]: the routing table from verb and path to request.
//! - [`service`]: the handlers that bring pool and store together.
//! - [`config`]: the address of the store.
//! - [`greeting`]: the greeting under `/hello`.
//! - [`sales`]: the report line of the sales demonstration.
//! - [`decimal`]: numbers written in decimal, for both.
//!
//! Sockets, sessions and encodings are the caller's: the library takes
//! decoded values, decides, and hands decoded values back.

pub mod config;
pub mod decimal;
pub mod greeting;
pub mod hero;
pub mod pool;
pub mod request;
pub mod response;
pub mod route;
pub mod sales;
pub mod service;
pub mod store;
