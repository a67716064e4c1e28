//! Reads the logs of an Nginx server as they grow, and makes three things of
//! them: a page with their latest lines, a health report, and metrics for
//! Prometheus.
//!
//! [`tailer`] decides how a log file is followed, and hands its lines on.
//! [`service`] handles each line: [`log_state`] keeps it, [`parser`] reads it,
//! and [`metrics_layer`] counts it, with the [`counters`] of the metrics crate.
//! [`field_order`] states that the order of a line's fields does not matter.
//! [`tally`] states what the counts tell of the lines, and [`keys`] why no two
//! statuses, and no two metrics, are taken for one another.
//! [`ui`] writes the page, [`health`] the report, and [`prefix`] the paths under
//! which the page is found. [`text`] and [`number`] are what they are built from.
pub mod counters;
pub mod field_order;
pub mod health;
pub mod keys;
pub mod log_state;
pub mod metrics_layer;
pub mod number;
pub mod parser;
pub mod prefix;
pub mod service;
pub mod tailer;
pub mod tally;
pub mod text;
pub mod ui;
