//! The decision-making core of the webcortex application server.
//!
//! Every function here works on plain values: what was read from a socket, a
//! file, a clock or a database is handed in, and what should be written, sent
//! or run is handed back.

pub mod agent;
pub mod app;
pub mod approvals;
pub mod audit;
pub mod auth;
pub mod behaviour;
pub mod bridge;
pub mod budget;
pub mod context;
pub mod control;
pub mod conversation;
pub mod db;
pub mod fake;
pub mod files;
pub mod flow;
pub mod http;
pub mod json;
pub mod ledger;
pub mod manifest;
pub mod mcp;
pub mod middleware;
pub mod openapi;
pub mod pattern;
pub mod percent;
pub mod provider;
pub mod registry;
pub mod router;
pub mod run;
pub mod runtime;
pub mod server;
pub mod session;
pub mod table;
pub mod templates;
pub mod text;
pub mod validation;
