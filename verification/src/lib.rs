//! Request routing on declarative URI templates.
//!
//! A route declares a literal path-and-query pattern such as `/hello?<person>`
//! or `/files/<path..>`. At registration time the template parser turns that
//! literal into a structured, validated [`template::Template`], collecting
//! precise diagnostics on malformed input. At request time the matcher compares
//! a normalized [`uri::Uri`] against registered templates, extracts bound
//! parameter values, and the rank resolver orders overlapping candidates into a
//! deterministic try-order. A small media negotiator scores a route's declared
//! content type against an `Accept`-style header.

use vstd::prelude::*;

pub mod diag;
pub mod ident;
pub mod matcher;
pub mod media;
pub mod pct;
pub mod rank;
pub mod template;
pub mod uri;
