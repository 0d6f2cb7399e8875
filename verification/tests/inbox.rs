use cellularhub::sms::inbox::{
    category_from_lower, classify_message, code_hint_in, extract_code, message_from_complete, message_from_complete_at, CompleteSms,
    IncomingSms, MultipartAssembler,
};
use cellularhub::sms::pdu::Concatenation;

fn part(sequence: u8, body: &str) -> IncomingSms {
    IncomingSms {
        source_key: format!("source-{sequence}"),
        sender: "10086".into(),
        body: body.into(),
        received_at: Some("2026-09-10T00:00:00Z".into()),
        concatenation: Some(Concatenation { reference: 0x77, total: 2, sequence }),
    }
}

#[test]
fn assembles_parts_in_sequence_order_even_when_arrival_is_reversed() {
    let mut assembler = MultipartAssembler::default();
    assert!(assembler.push(part(2, "world")).unwrap().is_none());
    let complete = assembler.push(part(1, "hello ")).unwrap().unwrap();
    assert_eq!(complete.body, "hello world");
    assert_eq!(complete.source_key, "source-1|source-2");
}

#[test]
fn code_extraction_requires_semantic_hint() {
    assert_eq!(extract_code("验证码 284193，5 分钟内有效"), Some("284193".into()));
    assert_eq!(extract_code("联系电话 13800138000"), None);
}

#[test]
fn categories_are_local_and_conservative() {
    assert_eq!(classify_message("验证码 123456", true), "code");
    assert_eq!(classify_message("套餐剩余流量 3GB", false), "usage");
    assert_eq!(classify_message("Your plan will renew tomorrow", false), "billing");
    assert_eq!(classify_message("欢迎使用本服务", false), "notice");
}

#[test]
fn generated_ids_are_stable_for_duplicate_provider_records() {
    let complete = CompleteSms {
        source_key: "at:COM3:12".into(),
        sender: "10086".into(),
        body: "验证码 123456".into(),
        received_at: None,
    };
    let a = message_from_complete(complete.clone());
    let b = message_from_complete(complete);
    assert_eq!(a.id, b.id);
}

#[test]
fn hints_match_after_unicode_lower_casing() {
    assert_eq!(extract_code("Your OTP: 9021 expires soon"), Some("9021".into()));
    assert_eq!(extract_code("VERIFICATION CODE 12345678"), Some("12345678".into()));
    assert_eq!(extract_code("verification code 123"), None);
    assert_eq!(extract_code("verification code 123456789 then 4567"), Some("4567".into()));
}

#[test]
fn single_part_messages_come_back_at_once() {
    let mut assembler = MultipartAssembler::default();
    let single = IncomingSms {
        source_key: "k".into(),
        sender: "10010".into(),
        body: "hi".into(),
        received_at: None,
        concatenation: None,
    };
    let complete = assembler.push(single).unwrap().unwrap();
    assert_eq!(complete.body, "hi");
    assert_eq!(complete.source_key, "k");
}

#[test]
fn invalid_sequence_metadata_is_an_error() {
    let mut assembler = MultipartAssembler::default();
    let mut bad = part(3, "x");
    bad.concatenation = Some(Concatenation { reference: 1, total: 2, sequence: 3 });
    assert_eq!(assembler.push(bad).err(), Some("invalid multipart SMS sequence metadata".to_string()));
    let mut zero = part(1, "x");
    zero.concatenation = Some(Concatenation { reference: 1, total: 0, sequence: 0 });
    assert!(assembler.push(zero).is_err());
}

#[test]
fn groups_are_told_apart_by_sender_and_reference() {
    let mut assembler = MultipartAssembler::default();
    let mut other = part(1, "B1");
    other.sender = "10010".into();
    assert!(assembler.push(part(1, "A1")).unwrap().is_none());
    assert!(assembler.push(other).unwrap().is_none());
    let complete = assembler.push(part(2, "A2")).unwrap().unwrap();
    assert_eq!(complete.body, "A1A2");
    assert_eq!(complete.sender, "10086");
}

#[test]
fn stale_groups_expire_after_twelve_hours() {
    let mut assembler = MultipartAssembler::default();
    assert!(assembler.push_at(part(1, "old "), 0).unwrap().is_none());
    // The first part is gone by the time the second arrives.
    assert!(assembler.push_at(part(2, "new"), 43_200_000).unwrap().is_none());
    let complete = assembler.push_at(part(1, "fresh "), 43_200_001).unwrap().unwrap();
    assert_eq!(complete.body, "fresh new");
}

#[test]
fn stored_messages_use_provider_time_and_uuid_v5() {
    let complete = CompleteSms {
        source_key: "at:COM3:12".into(),
        sender: "10086".into(),
        body: "验证码 123456".into(),
        received_at: Some("2026-09-10T08:00:00Z".into()),
    };
    let m = message_from_complete_at(complete.clone(), "fallback".into());
    assert_eq!(m.received_at, "2026-09-10T08:00:00+00:00");
    assert_eq!(m.id.len(), 36);
    assert_ne!(m.id, "at:COM3:12\n10086\n验证码 123456");
    assert_eq!(m.code, Some("123456".into()));
    assert_eq!(m.category, "code");
    assert!(m.unread && !m.archived);
    let mut bad_time = complete;
    bad_time.received_at = Some("yesterday".into());
    assert_eq!(message_from_complete_at(bad_time, "fallback".into()).received_at, "fallback");
}

#[test]
fn keyword_checks_work_on_lower_cased_text() {
    assert!(code_hint_in("您的验证码是 284193"));
    assert!(code_hint_in("your otp is 1234"));
    assert!(code_hint_in("one-time password: 5555"));
    assert!(!code_hint_in("OTP 1234"));
    assert!(!code_hint_in("meeting at 1530"));
    assert_eq!(category_from_lower("your bill is ready", false), "billing");
    assert_eq!(category_from_lower("剩余流量 2gb", false), "usage");
    assert_eq!(category_from_lower("余额不足，剩余流量", false), "billing");
    assert_eq!(category_from_lower("hello", false), "notice");
    assert_eq!(category_from_lower("hello", true), "code");
    assert_eq!(category_from_lower("BILL", false), "notice");
    assert_eq!(classify_message("BILL", false), "billing");
}
