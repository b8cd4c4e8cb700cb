//! A terminal countdown-timer library: parsing of timer arguments such as
//! `30s`, `5m` or `work:25m`, clock formatting, progress-bar text and the
//! decisions of the timer's event loop, each with a verified contract.

pub mod text;
pub mod clock;
pub mod duration;
pub mod timers;
pub mod display;
pub mod control;
