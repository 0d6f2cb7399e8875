//! The provider backends behind the receive session: AT compatibility,
//! Windows Mobile Broadband, the experimental eSIM path and the mock.

pub mod at;
pub mod esim_compat;
pub mod mock;
pub mod pdu;
pub mod windows_mbn;
pub mod worker;
