//! The mock backend's sample message, for exercising the receive pipeline
//! without hardware.

use vstd::prelude::*;

use crate::backend::at::{at_sms_spec, new_sms_at};
use crate::ids::uuid_v4_text;
use crate::model::SmsMessage;
use crate::text::str_to_string;
use crate::time::now_rfc3339;

verus! {

pub open spec fn sample_sender() -> Seq<char> {
    "10695500"@
}

pub open spec fn sample_body() -> Seq<char> {
    "【CellularHub】测试短信已通过统一 Provider 注入，验证码 482631。"@
}

/// The sample SMS under the identifier `id`, received at `received_at`.
pub fn sample_sms_at(id: String, received_at: String) -> (m: SmsMessage)
    ensures
        at_sms_spec(sample_sender(), sample_body(), id@, received_at@, m),
{
    new_sms_at(
        str_to_string("10695500"),
        str_to_string("【CellularHub】测试短信已通过统一 Provider 注入，验证码 482631。"),
        id,
        received_at,
    )
}

/// The sample SMS with a random identifier, received now.
pub fn sample_sms() -> (m: SmsMessage)
    ensures
        exists|id: Seq<char>, t: Seq<char>| at_sms_spec(sample_sender(), sample_body(), id, t, m),
{
    let id = uuid_v4_text();
    let now = now_rfc3339();
    let ghost i = id@;
    let ghost t = now@;
    let m = sample_sms_at(id, now);
    assert(at_sms_spec(sample_sender(), sample_body(), i, t, m));
    m
}

} // verus!
