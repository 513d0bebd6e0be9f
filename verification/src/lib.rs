//! A route-graph builder: reads a hand-written text description of a road
//! network (points with coordinates and directed connections to other points)
//! and produces an in-memory directed graph of waypoints, rejecting malformed
//! or semantically inconsistent input with precise, line-attributed errors.
//!
//! The pipeline has two stages, loaded once at startup, in dependency order:
//! a record parser ([`records::parse_template`]) that turns raw text into a
//! sequence of validated-syntax records, and a graph builder
//! ([`graph::template_to_waypoints`]) that allocates one node per record,
//! wires child references, and enforces the semantic invariants (no duplicate
//! ids, no self-references, no dangling references). [`graph::open_map`] runs
//! both stages on the full contents of one map file; reading the file itself
//! is the caller's job.
//!
//! Coordinates are kept as their validated source text: the builder never
//! computes with them, it only checks that each is a well-formed float
//! literal and hands the text through to the consumer, which converts it to
//! its own numeric type.

pub mod errors;
pub mod graph;
pub mod numbers;
pub mod records;
pub mod text;

pub use errors::{BuilderError, ErrorView, LineField};
pub use graph::{open_map, template_to_waypoints, Waypoint, WaypointView};
pub use records::{parse_template, Record, RecordView};
