//! Pairing and configuration protocol engine of a device setup daemon:
//! framing of BLE messages, command dispatch, the coalesced Wi-Fi scan cache
//! and the acknowledged signal exchange with a sibling process.
pub mod codec;
pub mod text;
pub mod dispatch;
pub mod scan_cache;
pub mod signal;
pub mod app_cache;
pub mod device;
pub mod display;
pub mod session;
