//! Import parsers: input detection, the cURL parser and the JSON-to-schema
//! inference they share.
pub mod detect;
pub mod curl;
pub mod oajson;
pub mod oaraw;
pub mod oaschema;
pub mod openapi;
pub mod sanitize;
