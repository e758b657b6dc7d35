//! A scheduler that runs shell commands at fixed clock times or at fixed
//! intervals, driven by a plain-text configuration file.
//!
//! * `text`: splitting and line reading of configuration text.
//! * `number`: decimal integers as `str::parse` reads them.
//! * `config`: the configuration language, one entry per line.
//! * `clock`: clock readings and the time tests of fixed-time entries.
//! * `scheduler`: the per-second decision of which commands run.
//! * `events`: when a file change means a reload, and the pause between ticks.
pub mod clock;
pub mod config;
pub mod events;
pub mod number;
pub mod scheduler;
pub mod text;
