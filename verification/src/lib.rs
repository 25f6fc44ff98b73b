//! Message-count statistics for exported conversation archives.
//!
//! A conversation record is reduced to per-thread counts
//! ([`stats::analyse`]), the busy threads are collated by title
//! ([`collate::collate`]) and turned into the bars of a chart
//! ([`pipeline::chart_bars`]).
//! Reading the archive and drawing the chart are left to the caller.

pub mod conversation;
pub mod stats;
pub mod chart;
pub mod collate;
pub mod pipeline;
