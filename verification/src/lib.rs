//! Request-dispatch core of a local gateway that multiplexes client requests
//! over a pool of upstream accounts.
//!
//! The crate decides; it does no input or output. Its caller owns the
//! sockets, the files and the clock, hands over what it read, and carries
//! out what is decided here. Every function states what it returns and
//! changes, and is proved to do so.
//!
//! - [`scheduler`] selects the account that serves a request, with
//!   [`health`] for the accounts' cooldowns and failures, [`sticky`] for the
//!   session bindings and [`rotation`] for the pick among the candidates.
//! - [`router`] maps the requested model to the model and provider that
//!   serve it.
//! - [`sanitizer`] cleans the tools' schemas, with the adapters of
//!   [`tool_adapter`] and [`pencil`].
//! - [`pipeline`] and [`request`] hold the decisions of the request
//!   pipeline, [`monitor`] the recent request logs and counts.
//! - [`service`] is the service as its controller sees it; [`oauth`],
//!   [`zai`], [`api_key`], [`integration`], [`startup`] and [`limits`] serve
//!   the shell around it.
//! - [`json`], [`text`], [`table`] and [`http_date`] are the plain data they
//!   all work on.

pub mod account;
pub mod api_key;
pub mod health;
pub mod http_date;
pub mod integration;
pub mod json;
pub mod limits;
pub mod monitor;
pub mod oauth;
pub mod pencil;
pub mod pipeline;
pub mod request;
pub mod rotation;
pub mod router;
pub mod sanitizer;
pub mod scheduler;
pub mod service;
pub mod startup;
pub mod sticky;
pub mod table;
pub mod text;
pub mod tool_adapter;
pub mod zai;
