//! The routing core of a reverse proxy and load balancer: which pool a request
//! belongs to, which backend of the pool serves it, and what the middlewares
//! of the pool make of the request and of the response.
//!
//! The crate decides and leaves the doing to its caller. A request is routed
//! by [`server::SharedData::dispatch`]: a request for a certificate challenge
//! is answered by the [`acme::AcmeHandler`], any other goes to the first pool
//! whose [`backend_pool_matcher::BackendPoolMatcher`] accepts it, and the
//! [`load_balancing::LoadBalancingStrategy`] of that pool selects one of its
//! healthy backends. On its way there the request passes the
//! [`middleware::MiddlewareChain`] of the pool, step by step; the response
//! passes it on its way back. Sockets, files, clocks and directories are the
//! caller's: what they yield comes in as plain values.
//!
//! Every function states what it returns, and the statement is proved. Where
//! a function relies on another crate, a regular expression engine or a
//! cookie formatter, the call stands behind a small function whose contract is
//! taken on trust and documented as such; what the other crate computes is
//! then known by a name only, such as
//! [`backend_pool_matcher::regex_matches`].

pub mod acme;
pub mod backend_pool_matcher;
pub mod configuration;
pub mod error_response;
pub mod health;
pub mod http;
pub mod load_balancing;
pub mod middleware;
pub mod server;
pub mod text;
