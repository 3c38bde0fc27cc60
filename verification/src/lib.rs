//! Certification of a forwarding node.
//!
//! Once per cycle the node is asked for its status, its certificates and its
//! memory. From these snapshots the metrics are measured ([`metrics`]); the
//! constraints judge the measurements against the policy ([`constraints`]);
//! the rules judge the constraints, most of them over a window of time
//! ([`rules`]); the properties judge the rules ([`properties`]). Everything
//! measured and every verdict goes into the log store ([`task`]), a set of
//! series that only grow ([`series`]) and that merge without regard to
//! repetition. A cycle as a whole is in [`cycle`]; what it leaves in the
//! store, and what it keeps of it, in [`growth`] and [`invariants`]; the loop
//! that runs the cycles is a state machine ([`orchestrator`]).
//!
//! The snapshots come as values ([`command`]); where the node reports them
//! as text, the text is read here. Numbers that the node reports in binary
//! floating point are kept by their bits ([`double`]); instants are whole
//! nanoseconds ([`time`]).

pub mod command;
pub mod constraints;
pub mod cycle;
pub mod data;
pub mod double;
pub mod growth;
pub mod invariants;
pub mod metrics;
pub mod orchestrator;
pub mod properties;
pub mod rules;
pub mod series;
pub mod task;
pub mod time;
