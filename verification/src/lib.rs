//! Albert: a mock-API toolkit. The library holds the route matching,
//! request gating, payload templating, schema checks and import parsing of
//! the mock gateway, each with a contract proved by Verus.
pub mod text;
pub mod model;
pub mod json;
pub mod json_text;
pub mod canonical;
pub mod schema_view;
pub mod synth;
pub mod gateway;
pub mod assoc;
pub mod parser;
pub mod openai;
pub mod cli;
pub mod numbers;
pub mod validate;
pub mod fingerprint;
pub mod desktop;
