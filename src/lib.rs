//! Event-rate tracking over a trailing one-hour window.

pub mod lemmas;
pub mod statistic;
pub mod window;

pub use statistic::HourlyEventStatistic;
pub use window::HourlyStat;
