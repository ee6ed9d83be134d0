//! A telemetry store for a fleet of managed network devices.
//!
//! Probes push liveness and counter reports into the in-memory device store
//! ([`imds`]); a scheduler ([`scheduler`]) keeps the store in step with the
//! inventory ([`inventory`]) and evicts what is no longer refreshed; readers
//! pull the store's projections ([`projection`], [`scrape`], [`weathermap`])
//! and the topology of the inventory ([`topology`]). Reports that change a
//! known liveness give rise to events ([`events`], [`ingest`]).
//!
//! Every operation is stated over the values that the data stand for
//! ([`metrics`], [`store`]), and [`laws`] holds what follows for every store,
//! every time and every report. Time is a count of nanoseconds ([`clock`]):
//! each operation that reads the clock has a twin that takes the time as an
//! argument.

pub mod clock;
pub mod events;
pub mod imds;
pub mod ingest;
pub mod inventory;
pub mod laws;
pub mod metrics;
pub mod option82;
pub mod position;
pub mod projection;
pub mod reports;
pub mod scheduler;
pub mod scrape;
pub mod seq_util;
pub mod store;
pub mod string_map;
pub mod string_set;
pub mod text;
pub mod topology;
pub mod weathermap;
