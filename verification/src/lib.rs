//! The logic of a device that shows a framebuffer on an LED chain and a small
//! display, and that is set up by text commands over a serial line or a
//! websocket.
//!
//! What talks to hardware, storage and network is not here. Functions of this
//! crate take what was read, and say what to write, send or show.
pub mod clock;
pub mod cloud_task;
pub mod color;
pub mod command_listener;
pub mod commands;
pub mod driver;
pub mod frame;
pub mod global;
pub mod heartbeat;
pub mod iled;
pub mod iled_task;
pub mod layout;
pub mod loader;
pub mod log_levels;
pub mod nodem;
pub mod nodem_task;
pub mod nvs;
pub mod oled;
pub mod oled_task;
pub mod text;
pub mod timing;
pub mod uart;
pub mod websocket;
pub mod wifi;
