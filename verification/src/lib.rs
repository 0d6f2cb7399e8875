//! Cellular receive pipeline: AT/MBN protocol parsing, SMS inbox assembly and
//! classification, message and eSIM profile state, and the decisions around them.

pub mod ids;
pub mod model;
pub mod sms;
pub mod text;
pub mod time;
pub mod providers;
pub mod manager;
pub mod notification_center;
pub mod state;
pub mod conversation_store;
pub mod esim_store;
pub mod storage;
pub mod store;
pub mod window;
pub mod backend;
pub mod repoll;
