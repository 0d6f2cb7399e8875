//! The fields that a decoded SMS-DELIVER PDU hands to the inbox.

use vstd::prelude::*;

verus! {

/// Concatenation metadata from an 8-bit or 16-bit reference UDH element.
#[derive(Debug, Clone, Copy, PartialEq, Eq)]
pub struct Concatenation {
    pub reference: u16,
    pub total: u8,
    pub sequence: u8,
}

/// Sender, text and multipart metadata of one decoded SMS-DELIVER PDU.
#[derive(Debug, Clone)]
pub struct DecodedPdu {
    pub sender: String,
    pub body: String,
    pub concatenation: Option<Concatenation>,
}

} // verus!
