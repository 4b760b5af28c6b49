//! The mock gateway: route matching, per-route rules, request metrics,
//! payload templating and request-body checks.
pub mod route;
pub mod routing;
pub mod config;
pub mod state;
pub mod calendar;
pub mod templating;
pub mod validator;
pub mod handlers;
pub mod mock;
pub mod openapi;
