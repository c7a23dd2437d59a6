//! Turns a span of elapsed time, counted in nanoseconds, into English text
//! such as "1 hour, 1 minute, and 30 seconds".
pub mod format_time;
pub mod text;
