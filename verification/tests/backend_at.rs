use cellularhub::backend::at::{
    apply_radio_metadata, at_device_info, at_session_snapshot, command_outcome,
    command_reply_done, csv_fields, discover, decode_possible_ucs2, list_command, new_sms, new_sms_at,
    parse_cmgl_any, parse_cmgl_text, parse_cmgr_any, parse_cmgr_pdu, parse_cmgr_text, parse_cmti,
    parse_csq, parse_operator, read_command, take_crlf_line, text_mode_accepted,
};
use cellularhub::backend::pdu::DecodedSms;
use cellularhub::model::{BackendKind, CellularSnapshot};
use cellularhub::providers::ports::{SerialPortKind, SerialPortSummary};

fn fake_decoder(pdu: &str) -> Result<DecodedSms, String> {
    if pdu == "0011AABB" {
        Ok(DecodedSms { sender: "+8613800000000".into(), body: "hello".into(), concat: None })
    } else {
        Err("unsupported".into())
    }
}

#[test]
fn parses_cmti() {
    assert_eq!(parse_cmti("+CMTI: \"SM\",12"), Some(12));
}

#[test]
fn decodes_ucs2() {
    assert_eq!(decode_possible_ucs2("4F60597D"), "你好");
}

#[test]
fn parses_csq() {
    assert_eq!(parse_csq("\r\n+CSQ: 20,99\r\nOK\r\n"), Some((65, Some(-73))));
}

#[test]
fn cmti_needs_the_tag_and_a_number() {
    assert_eq!(parse_cmti("+CMTI: \"ME\", 7 "), Some(7));
    assert_eq!(parse_cmti("+CMT: \"SM\",12"), None);
    assert_eq!(parse_cmti("+CMTI: \"SM\",x"), None);
}

#[test]
fn ucs2_decoding_only_applies_to_hex_text() {
    assert_eq!(decode_possible_ucs2(" \"4F60597D\" "), "你好");
    assert_eq!(decode_possible_ucs2("10086"), "10086");
    assert_eq!(decode_possible_ucs2("ABC"), "ABC");
    // An unpaired surrogate is not valid UTF-16: the text stays as given.
    assert_eq!(decode_possible_ucs2("D800"), "D800");
    // A surrogate pair decodes to one character.
    assert_eq!(decode_possible_ucs2("D83DDE00"), "\u{1F600}");
}

#[test]
fn csq_percentage_matches_rounding_of_the_ratio() {
    for rssi in 0..=31i32 {
        let response = format!("+CSQ: {rssi},99\r\nOK\r\n");
        let expected = ((rssi as f32 / 31.0) * 100.0).round() as u8;
        assert_eq!(parse_csq(&response), Some((expected, Some(-113 + 2 * rssi))));
    }
}

#[test]
fn csq_unknown_and_out_of_range() {
    assert_eq!(parse_csq("+CSQ: 99,99\r\nOK"), Some((0, None)));
    assert_eq!(parse_csq("+CSQ: 40,99"), Some((100, Some(-51))));
    assert_eq!(parse_csq("+CSQ: -3,99"), Some((0, Some(-113))));
    assert_eq!(parse_csq("OK"), None);
}

#[test]
fn operator_is_the_third_field() {
    assert_eq!(parse_operator("+COPS: 0,0,\"China Mobile\",7\r\nOK"), Some("China Mobile".into()));
    assert_eq!(parse_operator("+COPS: 0,0,\"4E2D56FD79FB52A8\",7"), Some("中国移动".into()));
    assert_eq!(parse_operator("+COPS: 0"), None);
    assert_eq!(parse_operator("+COPS: 0,0,\"\",7"), None);
}

#[test]
fn csv_fields_respect_quotes() {
    assert_eq!(csv_fields("\"REC UNREAD\",\"10086\",,\"26/09/10,08:00:00+32\""), vec![
        "REC UNREAD".to_string(),
        "10086".to_string(),
        "".to_string(),
        "26/09/10,08:00:00+32".to_string(),
    ]);
}

#[test]
fn text_cmgr_reads_sender_and_body() {
    let response = "\r\n+CMGR: \"REC UNREAD\",\"10086\",,\"26/09/10,08:00:00+32\"\r\n验证码 284193\r\n\r\nOK\r\n";
    let parsed = parse_cmgr_text(response, Some(4)).unwrap();
    assert_eq!(parsed.decoded.sender, "10086");
    assert_eq!(parsed.decoded.body, "验证码 284193");
    assert_eq!(parsed.slot, Some(4));
    assert!(parse_cmgr_text("OK\r\n", None).is_none());
    let any = parse_cmgr_any(response, true, Some(4), &fake_decoder).unwrap();
    assert_eq!(any.decoded.body, "验证码 284193");
}

#[test]
fn text_cmgl_pairs_each_header_with_one_line() {
    let response = "+CMGL: 1,\"REC READ\",\"10010\",,\"x\"\r\nfirst\r\n+CMGL: 2,\"REC READ\",\"10086\",,\"y\"\r\nsecond\r\nOK\r\n";
    let records = parse_cmgl_text(response);
    assert_eq!(records.len(), 2);
    assert_eq!(records[0].slot, Some(1));
    assert_eq!(records[0].decoded.sender, "10010");
    assert_eq!(records[0].decoded.body, "first");
    assert_eq!(records[1].slot, Some(2));
    assert_eq!(records[1].decoded.body, "second");
    let any = parse_cmgl_any(response, true, &fake_decoder);
    assert_eq!(any.len(), 2);
}

#[test]
fn pdu_records_go_through_the_decoder() {
    let response = "+CMGR: 0,,24\r\n0011AABB\r\nOK\r\n";
    let parsed = parse_cmgr_pdu(response, Some(3), &fake_decoder).unwrap();
    assert_eq!(parsed.decoded.sender, "+8613800000000");
    assert_eq!(parsed.slot, Some(3));
    assert!(parse_cmgr_pdu("+CMGR: 0,,24\r\nFFFF\r\nOK\r\n", None, &fake_decoder).is_none());
    assert!(parse_cmgr_any(response, false, None, &fake_decoder).is_some());
    let listing = "+CMGL: 5,0,,24\r\n0011AABB\r\n+CMGL: 6,0,,24\r\nFFFF\r\nOK\r\n";
    let records = parse_cmgl_any(listing, false, &fake_decoder);
    assert_eq!(records.len(), 1);
    assert_eq!(records[0].decoded.body, "hello");
}

#[test]
fn usb_ports_are_named_by_product_or_vid_pid() {
    let named = SerialPortSummary {
        port_name: "COM5".into(),
        kind: SerialPortKind::Usb {
            vid: 0x2c7c,
            pid: 0x0125,
            serial_number: None,
            manufacturer: Some("Quectel".into()),
            product: Some("EC25".into()),
        },
    };
    let info = at_device_info(&named);
    assert_eq!(info.id, "at:COM5");
    assert_eq!(info.name, "EC25");
    assert_eq!(info.port, Some("COM5".into()));
    assert!(info.capabilities.sms_receive);
    assert!(!info.capabilities.sms_send);

    let unnamed = SerialPortSummary {
        port_name: "COM6".into(),
        kind: SerialPortKind::Usb { vid: 0x1e0e, pid: 0x9001, serial_number: None, manufacturer: None, product: None },
    };
    assert_eq!(at_device_info(&unnamed).name, "USB 1e0e:9001");

    let plain = SerialPortSummary { port_name: "COM1".into(), kind: SerialPortKind::Unknown };
    let info = at_device_info(&plain);
    assert_eq!(info.name, "串口设备（可探测 AT）");
    assert_eq!(info.product, None);
}

#[test]
fn session_snapshot_and_radio_metadata() {
    let s = at_session_snapshot("COM3");
    assert_eq!(s.device_name, "AT Modem · COM3");
    assert_eq!(s.backend, BackendKind::At);
    assert!(s.connected && s.sms_ready && !s.esim_ready);
    let updated = apply_radio_metadata(s, Some("China Unicom".into()), Some((65, Some(-73))));
    assert_eq!(updated.operator_name, "China Unicom");
    assert_eq!(updated.signal_percent, 65);
    assert_eq!(updated.rssi_dbm, Some(-73));
    let unchanged = apply_radio_metadata(CellularSnapshot::default(), None, None);
    assert_eq!(unchanged.operator_name, "");
    assert_eq!(unchanged.signal_percent, 0);
}

#[test]
fn text_mode_and_commands() {
    assert!(text_mode_accepted(&Ok("\r\nOK\r\n".into())));
    assert!(!text_mode_accepted(&Ok("\r\nerror\r\n".into())));
    assert!(!text_mode_accepted(&Err("timeout".into())));
    assert_eq!(list_command(true), "AT+CMGL=\"ALL\"");
    assert_eq!(list_command(false), "AT+CMGL=4");
    assert_eq!(read_command(12), "AT+CMGR=12");
}

#[test]
fn receive_buffer_yields_trimmed_lines() {
    let mut rx = String::from(" +CMTI: \"SM\",3 \r\npartial");
    assert_eq!(take_crlf_line(&mut rx), Some("+CMTI: \"SM\",3".into()));
    assert_eq!(rx, "partial");
    assert_eq!(take_crlf_line(&mut rx), None);
    assert_eq!(rx, "partial");
}

#[test]
fn replies_complete_and_blank_replies_fail() {
    assert!(command_reply_done("AT\r\r\nOK\r\n"));
    assert!(command_reply_done("\r\nERROR\r\n"));
    assert!(!command_reply_done("+CSQ: 20,99\r\n"));
    assert_eq!(command_outcome("AT+CSQ", "  \r\n".into()), Err("AT+CSQ 无响应".into()));
    assert_eq!(command_outcome("AT", "OK".into()), Ok("OK".into()));
}

#[test]
fn new_sms_carries_code_and_category() {
    let m = new_sms_at("10086".into(), "验证码 284193".into(), "id-1".into(), "t".into());
    assert_eq!(m.id, "id-1");
    assert_eq!(m.code, Some("284193".into()));
    assert_eq!(m.category, "code");
    assert!(m.unread && !m.archived);
    assert_eq!(m.slot, None);
}

#[test]
fn discovery_lists_every_port() {
    let ports = vec![
        SerialPortSummary { port_name: "COM1".into(), kind: SerialPortKind::Other },
        SerialPortSummary {
            port_name: "COM7".into(),
            kind: SerialPortKind::Usb {
                vid: 1,
                pid: 2,
                serial_number: None,
                manufacturer: Some("Fibocom Wireless".into()),
                product: None,
            },
        },
    ];
    let devices = discover(&ports);
    assert_eq!(devices.len(), 2);
    assert_eq!(devices[0].name, "串口设备（可探测 AT）");
    assert_eq!(devices[1].name, "USB 0001:0002");
    assert_eq!(devices[1].manufacturer, Some("Fibocom Wireless".into()));
}

#[test]
fn new_sms_gets_a_random_id_and_current_time() {
    let a = new_sms("10086".into(), "hello".into());
    let b = new_sms("10086".into(), "hello".into());
    assert_ne!(a.id, b.id);
    assert_eq!(a.id.len(), 36);
    assert!(a.received_at.contains('T'));
    assert_eq!(a.code, None);
    assert_eq!(a.category, "notice");
}

#[test]
fn text_records_are_never_multipart_parts() {
    let response = "+CMGL: 1,\"REC READ\",\"10010\",,\"x\"\r\nfirst\r\nOK\r\n";
    assert!(parse_cmgl_any(response, true, &fake_decoder).iter().all(|p| p.decoded.concat.is_none()));
    let single = "+CMGR: \"REC READ\",\"10010\",,\"x\"\r\nbody\r\nOK\r\n";
    assert!(parse_cmgr_any(single, true, Some(2), &fake_decoder).unwrap().decoded.concat.is_none());
}
