//! What the daemon does.
pub mod answer_laws;
pub mod brightness;
pub mod brightness_laws;
pub mod change_laws;
pub mod choice_laws;
pub mod command_laws;
pub mod commands;
pub mod display;
pub mod display_laws;
pub mod fade;
pub mod monitor;
pub mod nightlight;
pub mod nightlight_laws;
pub mod requests;
pub mod single;
