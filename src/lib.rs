//! Verified core of a tool that saves a web page as one self-contained HTML
//! document, every asset inlined as a data URL.
//!
//! - `url`: URLs split into their parts, cleaning (the cache key), resolving.
//! - `base64`, `data_url`: the data-URL codec.
//! - `utils`: retrieval under the scheme policy and the cache, media-type
//!   sniffing; the outside work (reading files, network requests) is left to
//!   the caller, whose outcome is handed back.
//! - `cache`: the run's cache of fetched bytes.
//! - `css`, `html`: stylesheet and document rewriting rules, and the
//!   Content-Security-Policy composer.
//! - `cookies`: cookie files and which cookies go with a request.
//! - `document`: decisions around one saved document (target, base URL,
//!   charset, output).
//! - `opts`: the run's configuration.
use vstd::prelude::*;

pub mod base64;
pub mod cache;
pub mod cookies;
pub mod css;
pub mod data_url;
pub mod document;
pub mod html;
pub mod opts;
pub mod text;
pub mod timestamp;
pub mod url;
pub mod utils;

verus! {

} // verus!
