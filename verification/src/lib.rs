//! The logic of a touch-screen weather station: reading PNG radar tiles, the radar frames made
//! from them, the weather, the Wi-Fi setup screens, and what the station does when.

pub mod calendar;
pub mod clock;
pub mod config;
pub mod display;
pub mod draw;
pub mod http;
pub mod location;
pub mod png_stream;
pub mod provisioning;
pub mod radar;
pub mod station;
pub mod storage;
pub mod text;
pub mod touch;
pub mod ui;
pub mod weather;
pub mod wifi;
