//! The logic of a graphical serial-port tool: its saved settings, the data typed for sending, the
//! logs, the continuous-send timer, the background worker and everything that decides what happens
//! on a click.

pub mod app;
pub mod clock;
pub mod config;
pub mod display;
pub mod labels;
pub mod laws;
pub mod model;
pub mod names;
pub mod platform;
pub mod send_input;
pub mod serial_worker;
pub mod text;
