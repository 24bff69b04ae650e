//! Verified core of the ALVR dashboard helpers: the `.env` loader's line
//! parser, the dashboard's translation tables and language settings, and the
//! log view's bounded event list with its search filter.
pub mod text;
pub mod env;
pub mod language;
pub mod logs;
