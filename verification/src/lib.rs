//! Core of a concurrent TCP port scanner: the validated scan configuration,
//! the address model (single address or CIDR block), the dispatch plan that
//! expands the address x port cross-product, the result collector, and the
//! rendering of the line-oriented report.
//!
//! Connection attempts themselves are network I/O and live outside this
//! library; the library states and proves everything that can be decided
//! from plain values: which probes a configuration gives rise to, what the
//! final result set contains for given probe outcomes, and what the report
//! lines say.

pub mod range;
pub mod addr;
pub mod source;
pub mod plan;
pub mod collect;
pub mod render;
