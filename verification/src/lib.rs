//! Concurrent paginated-listing scraper core: page records and per-page
//! fetch outcomes, a fan-in scheduler that orders records deterministically
//! however the concurrent fetches complete, the two extraction algorithms
//! (structured selection and embedded-data scanning), and the site-specific
//! fetch strategies' request and outcome shaping. Network I/O, the async
//! fan-out and diagnostic output live outside the library, driven by the
//! values computed here.

pub mod parser;
pub mod records;
pub mod scan;
pub mod scheduler;
pub mod simple_fetch;
pub mod strategy;
