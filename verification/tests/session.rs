use cellularhub::providers::session::{
    index_reply, parse_listing, scan_next, scan_start, session_next, session_start, ScanStage,
    ScanStep, SessionStage, SmsMode,
};
use cellularhub::sms::pdu::DecodedPdu;

fn no_decoder(_pdu: &str) -> Result<DecodedPdu, String> {
    Err("unsupported".into())
}

fn lines(items: &[&str]) -> Vec<String> {
    items.iter().map(|line| line.to_string()).collect()
}

fn command_of(step: Result<(SessionStage, Option<String>), String>) -> (SessionStage, Option<String>) {
    step.expect("the session goes on")
}

#[test]
fn session_sets_up_text_mode_and_reads_radio_values() {
    let (stage, first) = session_start();
    assert_eq!(first, "AT");
    let (stage, next) = command_of(session_next(stage, Ok(lines(&["OK"]))));
    assert!(matches!(stage, SessionStage::Echo));
    assert_eq!(next, Some("ATE0".into()));
    let (stage, next) = command_of(session_next(stage, Err("echo timed out".into())));
    assert!(matches!(stage, SessionStage::Operator));
    assert_eq!(next, Some("AT+COPS?".into()));
    let (stage, next) = command_of(session_next(stage, Ok(lines(&[r#"+COPS: 0,0,"China Mobile",7"#, "OK"]))));
    assert_eq!(next, Some("AT+CSQ".into()));
    let (stage, next) = command_of(session_next(stage, Ok(lines(&["+CSQ: 20,99", "OK"]))));
    assert_eq!(next, Some("AT+CMGF=1".into()));
    let (stage, next) = command_of(session_next(stage, Ok(lines(&["OK"]))));
    assert_eq!(next, Some("AT+CNMI=2,1,0,0,0".into()));
    let (stage, next) = command_of(session_next(stage, Ok(lines(&["ERROR"]))));
    assert_eq!(next, None);
    match stage {
        SessionStage::Ready { mode, operator, signal } => {
            assert_eq!(mode, SmsMode::Text);
            assert_eq!(operator, Some("China Mobile".into()));
            assert_eq!(signal, Some(65));
        }
        other => panic!("unexpected stage {other:?}"),
    }
}

#[test]
fn session_falls_back_to_pdu_mode() {
    let stage = SessionStage::TextMode { operator: None, signal: None };
    let (stage, next) = command_of(session_next(stage, Ok(lines(&["ERROR"]))));
    assert!(matches!(stage, SessionStage::PduMode { .. }));
    assert_eq!(next, Some("AT+CMGF=0".into()));
    let (stage, next) = command_of(session_next(stage, Ok(lines(&["OK"]))));
    assert_eq!(next, Some("AT+CNMI=2,1,0,0,0".into()));
    assert!(matches!(stage, SessionStage::Notify { mode: SmsMode::Pdu, .. }));
    let refused = SessionStage::PduMode { operator: None, signal: Some(3) };
    assert_eq!(session_next(refused, Ok(lines(&["ERROR"]))).err(), Some("AT+CMGF=0 failed: ERROR".into()));
}

#[test]
fn session_stops_on_a_failed_probe_or_transport_error() {
    assert_eq!(session_next(SessionStage::Probe, Ok(lines(&["ERROR"]))).err(), Some("AT failed: ERROR".into()));
    assert_eq!(session_next(SessionStage::Probe, Ok(Vec::new())).err(), Some("AT failed: no response".into()));
    assert_eq!(session_next(SessionStage::Probe, Err("port closed".into())).err(), Some("port closed".into()));
    let text = SessionStage::TextMode { operator: None, signal: None };
    assert_eq!(session_next(text, Err("gone".into())).err(), Some("gone".into()));
    let (stage, next) = command_of(session_next(SessionStage::Operator, Err("no reply".into())));
    assert_eq!(next, Some("AT+CSQ".into()));
    assert!(matches!(stage, SessionStage::Signal { operator: None }));
}

#[test]
fn ready_session_sends_nothing_more() {
    let ready = SessionStage::Ready { mode: SmsMode::Pdu, operator: None, signal: None };
    let (stage, next) = command_of(session_next(ready, Ok(lines(&["OK"]))));
    assert_eq!(next, None);
    assert!(matches!(stage, SessionStage::Ready { mode: SmsMode::Pdu, .. }));
}

#[test]
fn text_scan_retries_with_all_records() {
    let (stage, command) = scan_start(SmsMode::Text);
    assert_eq!(stage, ScanStage::Unread);
    assert_eq!(command, "AT+CMGL=\"REC UNREAD\"");
    match scan_next(stage, Ok(lines(&["+CMS ERROR: 302"]))).unwrap() {
        ScanStep::Send { stage, command } => {
            assert_eq!(stage, ScanStage::All);
            assert_eq!(command, "AT+CMGL=\"ALL\"");
        }
        other => panic!("unexpected step {other:?}"),
    }
    assert_eq!(scan_next(ScanStage::All, Ok(lines(&["ERROR"]))).err(), Some("AT+CMGL=ALL failed: ERROR".into()));
    assert_eq!(scan_next(ScanStage::Unread, Err("timeout".into())).err(), Some("timeout".into()));
    let listing = lines(&[r#"+CMGL: 12,"REC UNREAD","10086",,"26/09/10,08:00:00+32""#, "body", "OK"]);
    match scan_next(ScanStage::All, Ok(listing.clone())).unwrap() {
        ScanStep::Listed { mode, lines } => {
            assert_eq!(mode, SmsMode::Text);
            let records = parse_listing("COM3", mode, &lines, &no_decoder);
            assert_eq!(records.len(), 1);
            assert_eq!(records[0].sender, "10086");
            assert_eq!(records[0].body, "body");
        }
        other => panic!("unexpected step {other:?}"),
    }
}

#[test]
fn pdu_scan_lists_once_and_needs_ok() {
    let (stage, command) = scan_start(SmsMode::Pdu);
    assert_eq!(stage, ScanStage::Pdu);
    assert_eq!(command, "AT+CMGL=0");
    assert_eq!(scan_next(stage, Ok(lines(&["ERROR"]))).err(), Some("AT+CMGL=0 failed: ERROR".into()));
    match scan_next(stage, Ok(lines(&["+CMGL: 1,0,,20", "0011AABB", "OK"]))).unwrap() {
        ScanStep::Listed { mode, lines } => {
            assert_eq!(mode, SmsMode::Pdu);
            assert!(parse_listing("COM3", mode, &lines, &no_decoder).is_empty());
        }
        other => panic!("unexpected step {other:?}"),
    }
}

#[test]
fn index_reply_checks_ok_and_parses_by_mode() {
    let reply = lines(&[r#"+CMGR: "REC UNREAD","10086",,"26/09/10,08:00:00+32""#, "验证码 284193", "OK"]);
    let message = index_reply("COM3", SmsMode::Text, 7, Ok(reply), &no_decoder).unwrap().unwrap();
    assert_eq!(message.body, "验证码 284193");
    assert!(message.source_key.contains(":7:"));
    assert_eq!(index_reply("COM3", SmsMode::Text, 7, Ok(lines(&["ERROR"])), &no_decoder).err(), Some("AT+CMGR failed: ERROR".into()));
    assert_eq!(index_reply("COM3", SmsMode::Pdu, 7, Err("lost".into()), &no_decoder).err(), Some("lost".into()));
    assert!(matches!(index_reply("COM3", SmsMode::Text, 7, Ok(lines(&["OK"])), &no_decoder), Ok(None)));
}
