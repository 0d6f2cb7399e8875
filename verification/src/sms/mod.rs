//! SMS records: decoded PDU fields, multipart assembly and classification.

pub mod inbox;
pub mod pdu;
