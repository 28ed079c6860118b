//! On-screen, touch-driven Wi-Fi provisioning.
//!
//! The flow is:
//!   1. pick an SSID from the scanned list, page by page, or type it,
//!   2. type the password on an on-screen QWERTY keyboard,
//!   3. pick the network's security type,
//!   4. turn serial debug logging on or off,
//!   5. optionally enter a manual latitude/longitude override.

pub mod flow;
pub mod keyboard;
pub mod picker;
pub mod widgets;
