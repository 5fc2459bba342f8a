//! Verified core of a small HKU Moodle to-do client: iCalendar parsing,
//! calendar arithmetic, mapping of Moodle AJAX events, and the decisions
//! that drive fetching.
pub mod text;
pub mod time;
pub mod todo;
pub mod ics;
pub mod auth;
pub mod ajax;
pub mod moodle;
pub mod shell;
