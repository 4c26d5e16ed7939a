//! Native helpers of a UI toolkit, verified.
//!
//! The core is a typed query engine for in-memory tabular records: filter
//! rows by predicates over loosely-typed field values ([`filter`]), then order
//! them by a list of prioritised sort keys ([`sort`]), and report the
//! identifiers of the survivors ([`query`]). Values are coerced into a closed
//! tagged union ([`value`]); floats are held as their IEEE-754 bit pattern
//! ([`float`]).
//!
//! Beside it stand smaller layout and navigation helpers: breakpoint
//! selection ([`breakpoint`]), responsive grid planning ([`grid`]), route
//! path handling ([`router`]) and route-tree matching ([`routes`]).

pub mod float;
pub mod text;
pub mod value;
pub mod record;
pub mod filter;
pub mod sort;
pub mod query;
pub mod breakpoint;
pub mod grid;
pub mod router;
pub mod routes;
