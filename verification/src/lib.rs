//! A parser for StatsD metric lines.
//!
//! A line has the form `name:value|type`, optionally followed by `|@rate`:
//!
//! ```text
//! gorets:1|c
//! glork:320|ms|@0.1
//! gaugor:333|g
//! uniques:765|s
//! ```
//!
//! [`parse_metric`] reads one line and [`parse_batch`] reads a payload of
//! lines joined by `\n`. Both are proved to return exactly what the grammar
//! in [`line`] and [`batch`] prescribes; [`laws`] holds what follows from
//! the grammar for every input.

pub mod scan;
pub mod text;
pub mod rate;
pub mod metric;
pub mod token;
pub mod line;
pub mod batch;
pub mod laws;

pub use batch::parse_batch;
pub use line::parse_metric;
pub use metric::{Metric, MetricType, ParseError};
pub use token::{parse_metric_type, parse_unit};
