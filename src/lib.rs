//! A request driven, black box testing library for HTTP based services.
//!
//! The library holds the logic of such a harness: a structural diff engine
//! for JSON trees and form data, a codec for typed bodies, a registry of
//! canned responses that answers captured requests, and the rules that turn
//! the outcome of a test request into its list of failures.

pub mod tree;
pub mod diff;
pub mod wire;
pub mod options;
pub mod mock;
pub mod media;
pub mod outside;
pub mod form;
pub mod codec;
pub mod validate;
pub mod report;
pub mod stream;
pub mod query;
pub mod text;
pub mod api;
