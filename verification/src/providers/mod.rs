//! Device providers: the AT-command fallback, Windows-native capabilities,
//! device identities and the demo device.

pub mod at;
pub mod windows;
pub mod identity;
pub mod ports;
pub mod demo;
pub mod session;
