//! A verified website crawler core. Starting from a seed URL, pages are
//! discovered by following links confined to the seed's domain, and the
//! result is a directed graph recording each page's fetch outcome and
//! link relationships, built under a configurable bound on concurrently
//! in-flight fetches.
//!
//! The crate proves the parts that carry invariants: the URI
//! parser/renderer and resolver (`uri`), link discovery and relative-path
//! absolutization (`html`), the deduplicating page graph (`graph`), and
//! the crawl engine with its at-most-once-enqueue, at-most-once-fetch and
//! completion guarantees (`crawler`). Fetching itself is left to the
//! surrounding program, which drives a `CrawlSession` by claiming URIs
//! and reporting results.

use vstd::prelude::*;

pub mod crawler;
pub mod graph;
pub mod html;
pub mod http;
pub mod page_node;
pub mod text;
pub mod uri;

verus! {

} // verus!
