//! The fields of a decoded SMS that the receive backends pass on.

use vstd::prelude::*;

use crate::sms::pdu::Concatenation;

verus! {

/// Sender and text of one received SMS, with its multipart metadata.
#[derive(Debug, Clone)]
pub struct DecodedSms {
    pub sender: String,
    pub body: String,
    pub concat: Option<Concatenation>,
}

} // verus!
