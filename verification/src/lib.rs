pub mod alarm;
pub mod audio;
pub mod calendar;
pub mod cli;
pub mod clock;
pub mod config;
pub mod display;
pub mod duration;
pub mod extract;
pub mod fonts;
pub mod notification;
pub mod schedule;
pub mod text;
pub mod timer;
pub mod zone;

pub use alarm::APP_NAME;
