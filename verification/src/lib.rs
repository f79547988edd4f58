//! Verified core of a service-detection scanner.
//!
//! The library parses an nmap-service-probes style catalog, evaluates
//! regex fingerprints against probe responses, drives the per-target
//! probe sequence as a verified decision machine, and shapes scan
//! results into flat output records.  All network and file I/O lives
//! outside the library; callers hand in plain values (lines, response
//! bytes, connection outcomes) and get plain values back.

pub mod b64;
pub mod catalog;
pub mod clock;
pub mod error;
pub mod lex;
pub mod output;
pub mod parse;
pub mod pcre;
pub mod probes;
pub mod scan;
pub mod unescape;
