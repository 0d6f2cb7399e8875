use cellularhub::providers::at::{
    baud_failure, drain_complete_lines, enumerate_devices, index_read_commands, is_terminal_error, is_terminal_ok,
    listener_thread_name, looks_like_hex_pdu, operator_from_lines, parse_cmti, parse_cops_operator,
    parse_csq_percent, parse_pdu_cmgl, quoted_fields, parse_pdu_cmgr, parse_text_cmgl, parse_text_cmgr,
    port_name_from_id, require_ok, response_is_complete, response_lines, session_failure,
    signal_from_lines, text_mode_ok, valid_storage_name, CmtiNotification, PDU_MODE_INIT,
    TEXT_MODE_INIT,
};
use cellularhub::providers::ports::{SerialPortKind, SerialPortSummary};
use cellularhub::sms::pdu::{Concatenation, DecodedPdu};

fn decoder(pdu: &str) -> Result<DecodedPdu, String> {
    if pdu == "07911326040000F0" {
        Ok(DecodedPdu {
            sender: "10086".into(),
            body: "part".into(),
            concatenation: Some(Concatenation { reference: 1, total: 2, sequence: 1 }),
        })
    } else {
        Err("bad pdu".into())
    }
}

#[test]
fn parses_cmti_notification() {
    assert_eq!(
        parse_cmti(r#"+CMTI: "SM",12"#),
        Some(CmtiNotification { storage: "SM".into(), index: 12 })
    );
}

#[test]
fn converts_csq_to_percentage_and_rejects_unknown() {
    assert_eq!(parse_csq_percent("+CSQ: 20,99"), Some(65));
    assert_eq!(parse_csq_percent("+CSQ: 31,99"), Some(100));
    assert_eq!(parse_csq_percent("+CSQ: 99,99"), None);
}

#[test]
fn parses_operator_name() {
    assert_eq!(parse_cops_operator(r#"+COPS: 0,0,"China Mobile",7"#), Some("China Mobile".into()));
}

#[test]
fn parses_text_cmgl_records_without_dropping_repeated_body_lines() {
    let lines: Vec<String> = vec![
        r#"+CMGL: 12,"REC UNREAD","10086",,"26/09/10,08:00:00+32""#.into(),
        "验证码 284193".into(),
        "验证码 284193".into(),
        "OK".into(),
    ];
    let messages = parse_text_cmgl("COM3", &lines);
    assert_eq!(messages.len(), 1);
    assert_eq!(messages[0].sender, "10086");
    assert_eq!(messages[0].body, "验证码 284193\n验证码 284193");
}

#[test]
fn parses_text_cmgr_record() {
    let lines: Vec<String> = vec![
        r#"+CMGR: "REC UNREAD","10086",,"26/09/10,08:00:00+32""#.into(),
        "【服务】验证码 284193".into(),
        "OK".into(),
    ];
    let message = parse_text_cmgr("COM3", 12, &lines).unwrap();
    assert_eq!(message.sender, "10086");
    assert_eq!(message.body, "【服务】验证码 284193");
    assert!(message.source_key.contains(":12:"));
}

#[test]
fn recognizes_terminal_responses() {
    assert!(is_terminal_ok(" OK\r\n"));
    assert!(is_terminal_error("+CMS ERROR: 500"));
    assert!(is_terminal_error("ERROR"));
}

#[test]
fn init_sequences_keep_send_disabled() {
    assert!(TEXT_MODE_INIT.contains(&"AT+CMGF=1"));
    assert!(PDU_MODE_INIT.contains(&"AT+CMGF=0"));
    assert!(!TEXT_MODE_INIT.iter().any(|command| command.contains("CMGS")));
    assert!(!PDU_MODE_INIT.iter().any(|command| command.contains("CMGS")));
}

#[test]
fn cmti_keys_and_text_records() {
    assert_eq!(parse_cmti("+CMTI: \"\",3"), None);
    assert_eq!(parse_cmti("+CMTI: \"ME\""), None);
    let lines: Vec<String> = vec![
        r#"+CMGR: "REC UNREAD","10086",,"26/09/10,08:00:00+32""#.into(),
        "body".into(),
        "OK".into(),
    ];
    let message = parse_text_cmgr("COM3", 7, &lines).unwrap();
    assert_eq!(message.source_key, "at:COM3:text:7:10086:26/09/10,08:00:00+32");
    assert_eq!(message.received_at, None);
}

#[test]
fn pdu_records_use_the_decoder() {
    let lines: Vec<String> = vec![
        "+CMGL: 4,0,,26".into(),
        "07911326040000F0".into(),
        "+CMGL: 5,0,,26".into(),
        "not hex".into(),
        "OK".into(),
    ];
    let records = parse_pdu_cmgl("COM3", &lines, &decoder);
    assert_eq!(records.len(), 1);
    assert_eq!(records[0].source_key, "at:COM3:pdu:4:07911326040000F0");
    assert_eq!(records[0].sender, "10086");
    assert_eq!(records[0].concatenation, Some(Concatenation { reference: 1, total: 2, sequence: 1 }));
    let read: Vec<String> = vec!["+CMGR: 0,,26".into(), "07911326040000F0".into(), "OK".into()];
    let one = parse_pdu_cmgr("COM3", 9, &read, &decoder).unwrap();
    assert_eq!(one.source_key, "at:COM3:pdu:9:07911326040000F0");
    assert!(looks_like_hex_pdu("0011"));
    assert!(!looks_like_hex_pdu("001"));
}

#[test]
fn reply_lines_drop_blank_lines_and_the_echo() {
    let lines = response_lines("AT+CSQ\r\r\n+CSQ: 20,99\r\n\r\nOK\r\n", "AT+CSQ");
    assert_eq!(lines, vec!["+CSQ: 20,99".to_string(), "OK".to_string()]);
    assert!(response_is_complete("+CSQ: 20,99\r\nOK\r\n\r\n"));
    assert!(response_is_complete("+CMS ERROR: 321\r\n"));
    assert!(!response_is_complete("+CSQ: 20,99\r\n"));
}

#[test]
fn receive_buffer_is_split_into_lines() {
    let mut bytes = b"\r\n+CMTI: \"SM\",3\r\n\xffab\npart".to_vec();
    let lines = drain_complete_lines(&mut bytes);
    assert_eq!(lines, vec!["+CMTI: \"SM\",3".to_string(), "\u{fffd}ab".to_string()]);
    assert_eq!(bytes, b"part".to_vec());
}

#[test]
fn session_helpers() {
    let reply: Vec<String> = vec!["+COPS: 0,0,\"CMCC\",7".into(), "+CSQ: 31,99".into(), "OK".into()];
    assert!(text_mode_ok(&reply));
    assert_eq!(operator_from_lines(&reply), Some("CMCC".into()));
    assert_eq!(signal_from_lines(&reply), Some(100));
    assert!(!text_mode_ok(&vec!["ERROR".to_string()]));
    let (select, read) = index_read_commands(&CmtiNotification { storage: "SM".into(), index: 12 });
    assert_eq!(select, Some("AT+CPMS=\"SM\"".into()));
    assert_eq!(read, "AT+CMGR=12");
    let (select, _) = index_read_commands(&CmtiNotification { storage: "S\"M".into(), index: 1 });
    assert_eq!(select, None);
    assert!(valid_storage_name("ME"));
    assert!(!valid_storage_name("TOOLONGNAME"));
    assert_eq!(baud_failure(9600, "timed out"), "9600 baud: timed out");
    assert_eq!(
        session_failure("COM3", "x", false),
        "could not establish receive-only AT session on COM3: x"
    );
    assert_eq!(listener_thread_name("\\\\.\\COM10"), "cellularhub-at-__._COM10");
    assert_eq!(port_name_from_id("at:COM3"), Ok("COM3".into()));
    assert!(port_name_from_id("mbn:x").is_err());
    assert!(port_name_from_id("at: ").is_err());
    assert!(require_ok(&reply, "AT").is_ok());
    assert_eq!(require_ok(&vec!["ERROR".to_string()], "AT+CMGF=0"), Err("AT+CMGF=0 failed: ERROR".into()));
}

#[test]
fn only_usb_and_unknown_ports_are_candidates() {
    let ports = vec![
        SerialPortSummary { port_name: "COM1".into(), kind: SerialPortKind::Other },
        SerialPortSummary { port_name: "COM2".into(), kind: SerialPortKind::Unknown },
        SerialPortSummary {
            port_name: "COM3".into(),
            kind: SerialPortKind::Usb {
                vid: 0x2c7c,
                pid: 0x0125,
                serial_number: None,
                manufacturer: Some("Quectel".into()),
                product: Some(" ".into()),
            },
        },
    ];
    let devices = enumerate_devices(&ports);
    assert_eq!(devices.len(), 2);
    assert_eq!(devices[0].id, "at:COM2");
    assert_eq!(devices[0].label, "Serial modem candidate COM2");
    assert_eq!(devices[1].label, "Quectel");
    assert_eq!(devices[1].model, None);
    assert!(devices.iter().all(|d| !d.capabilities.sms_receive && d.status == "available"));
}

#[test]
fn quoted_fields_strip_quotes_and_spaces() {
    assert_eq!(
        quoted_fields(r#"12,"REC UNREAD", "10086" ,,"26/09/10,08:00:00+32""#),
        vec![
            "12".to_string(),
            "REC UNREAD".to_string(),
            "10086".to_string(),
            "".to_string(),
            "26/09/10,08:00:00+32".to_string(),
        ]
    );
}

#[test]
fn csq_lines_follow_the_signal_mapping() {
    let mut previous = 0u8;
    for raw in 0u32..=31 {
        let expected = ((raw * 100 + 15) / 31) as u8;
        for rest in ["99", " 99 ", "", "x,y"] {
            assert_eq!(parse_csq_percent(&format!("+CSQ: {raw},{rest}")), Some(expected));
        }
        assert!(expected <= 100 && expected >= previous);
        previous = expected;
    }
    assert_eq!(previous, 100);
    for raw in [32u32, 98, 99, 4_000_000_000] {
        assert_eq!(parse_csq_percent(&format!("+CSQ: {raw},99")), None);
    }
}
