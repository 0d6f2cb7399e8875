//! What the application data store writes: the message list is kept newest
//! first and only its newest entries are retained.

use vstd::prelude::*;

use crate::manager::MESSAGE_LIMIT;
use crate::model::SmsMessage;
use crate::state::capped;

verus! {

/// The messages written to `messages.json`: of a newest-first list, the
/// newest `MESSAGE_LIMIT`.
pub fn retained_messages(messages: &[SmsMessage]) -> (r: Vec<SmsMessage>)
    ensures
        r@ == capped(messages@),
        r@.len() <= MESSAGE_LIMIT,
{
    let n = if messages.len() > MESSAGE_LIMIT {
        MESSAGE_LIMIT
    } else {
        messages.len()
    };
    let mut r: Vec<SmsMessage> = Vec::new();
    let mut i: usize = 0;
    while i < n
        invariant
            0 <= i <= n,
            n <= messages.len(),
            n == (if messages@.len() > MESSAGE_LIMIT {
                MESSAGE_LIMIT as int
            } else {
                messages@.len() as int
            }),
            r@ == messages@.take(i as int),
        decreases n - i,
    {
        r.push(messages[i].clone());
        assert(r@ =~= messages@.take(i + 1));
        i = i + 1;
    }
    assert(r@ =~= capped(messages@));
    r
}

} // verus!
