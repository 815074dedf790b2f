//! A declarative API-testing engine.
//!
//! Test plans are ordered sequences of HTTP steps, each with optional
//! assertions against the response and named exports that later steps can
//! reference. The plan document is written in YAML or JSON; the engine
//! decodes it, prepares one request per step (interpolating variables,
//! environment values and response paths), evaluates the assertions and
//! commits the exports for the steps that follow.

pub mod assert_eval;
pub mod decode;
pub mod engine;
pub mod expr;
pub mod json;
pub mod jsonparse;
pub mod model;
pub mod paths;
pub mod report;
pub mod scan;
pub mod strmap;
pub mod wrappers;
pub mod strutil;

use vstd::prelude::*;

verus! {

} // verus!
