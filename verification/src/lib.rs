//! Per-metric aggregation for telemetry: a `Channel` ingests measurement
//! events of one kind and keeps a running reading, the extrema of the
//! recorded rates or values, and an optional histogram that answers
//! percentile queries.

pub mod channel;
mod clock;
pub mod count;
pub mod error;
pub mod histogram;
pub mod laws;
pub mod output;
pub mod point;
pub mod rate;
pub mod source;
pub mod statistic;

pub use channel::Channel;
pub use count::Count;
pub use error::MetricsError;
pub use histogram::{Histogram, Percentile, Summary};
pub use output::{Output, Reading};
pub use point::Point;
pub use source::Source;
pub use statistic::{ChannelStatistic, Statistic};
