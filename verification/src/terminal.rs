//! The interactive side: keys and events, the state of the dashboard, and
//! the application that ties them together.

pub mod app;
pub mod events;
pub mod state;
pub mod ui;
