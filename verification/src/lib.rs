//! A scheduler for jobs that run on systemd user timers: the rules that turn what a
//! user asks for into jobs, units, decisions and text.
pub mod at;
pub mod backend;
pub mod check;
pub mod cron_convert;
pub mod dnd;
pub mod export;
pub mod history;
pub mod job;
pub mod listing;
pub mod manage;
pub mod migrate;
pub mod moment;
pub mod number;
pub mod path;
pub mod preview;
pub mod runner;
pub mod store;
pub mod sync;
pub mod systemd;
pub mod text;
pub mod time_input;
