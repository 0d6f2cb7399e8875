use cellularhub::backend::pdu::DecodedSms;
use cellularhub::backend::worker::{
    worker_line, worker_next, worker_read_reply, worker_refresh, worker_start, WorkerStage,
};

fn decoder(pdu: &str) -> Result<DecodedSms, String> {
    if pdu == "0011AABB" {
        Ok(DecodedSms { sender: "+8613800000000".into(), body: "hello".into(), concat: None })
    } else {
        Err("unsupported".into())
    }
}

#[test]
fn worker_starts_in_text_mode_and_lists_stored_messages() {
    let (stage, first) = worker_start();
    assert_eq!(stage, WorkerStage::Echo);
    assert_eq!(first, "ATE0");
    let step = worker_next(stage, Err("no echo".into()), &decoder).unwrap();
    assert_eq!(step.stage, WorkerStage::TextMode);
    assert_eq!(step.command, Some("AT+CMGF=1".into()));
    let step = worker_next(step.stage, Ok("\r\nOK\r\n".into()), &decoder).unwrap();
    assert_eq!(step.stage, WorkerStage::Notify { text_mode: true });
    assert_eq!(step.command, Some("AT+CNMI=2,1,0,0,0".into()));
    let step = worker_next(step.stage, Ok("ERROR".into()), &decoder).unwrap();
    assert_eq!(step.stage, WorkerStage::Operator { text_mode: true, listing: true });
    assert_eq!(step.command, Some("AT+COPS?".into()));
    let step = worker_next(step.stage, Ok("+COPS: 0,0,\"China Mobile\",7\r\nOK".into()), &decoder).unwrap();
    assert_eq!(step.operator, Some("China Mobile".into()));
    assert_eq!(step.command, Some("AT+CSQ".into()));
    let step = worker_next(step.stage, Ok("\r\n+CSQ: 20,99\r\nOK\r\n".into()), &decoder).unwrap();
    assert_eq!(step.csq, Some((65, Some(-73))));
    assert_eq!(step.stage, WorkerStage::Listing { text_mode: true });
    assert_eq!(step.command, Some("AT+CMGL=\"ALL\"".into()));
    let listing = "+CMGL: 1,\"REC READ\",\"10010\",,\"x\"\r\nfirst\r\nOK\r\n";
    let step = worker_next(step.stage, Ok(listing.into()), &decoder).unwrap();
    assert_eq!(step.stage, WorkerStage::Listening { text_mode: true });
    assert_eq!(step.command, None);
    assert_eq!(step.records.len(), 1);
    assert_eq!(step.records[0].decoded.body, "first");
    assert_eq!(step.records[0].slot, Some(1));
}

#[test]
fn worker_falls_back_to_pdu_mode_or_stops() {
    let step = worker_next(WorkerStage::TextMode, Ok("+CMS ERROR: 303".into()), &decoder).unwrap();
    assert_eq!(step.stage, WorkerStage::PduMode);
    assert_eq!(step.command, Some("AT+CMGF=0".into()));
    let step = worker_next(WorkerStage::TextMode, Err("timeout".into()), &decoder).unwrap();
    assert_eq!(step.stage, WorkerStage::PduMode);
    assert_eq!(worker_next(WorkerStage::PduMode, Err("AT+CMGF=0 无响应".into()), &decoder).err(), Some("AT+CMGF=0 无响应".into()));
    let step = worker_next(WorkerStage::PduMode, Ok("OK".into()), &decoder).unwrap();
    assert_eq!(step.stage, WorkerStage::Notify { text_mode: false });
    let step = worker_next(WorkerStage::Signal { text_mode: false, listing: true }, Err("x".into()), &decoder).unwrap();
    assert_eq!(step.csq, None);
    assert_eq!(step.command, Some("AT+CMGL=4".into()));
}

#[test]
fn worker_refreshes_radio_values_while_listening() {
    let (stage, command) = worker_refresh(false);
    assert_eq!(stage, WorkerStage::Operator { text_mode: false, listing: false });
    assert_eq!(command, "AT+COPS?");
    let step = worker_next(stage, Err("busy".into()), &decoder).unwrap();
    assert_eq!(step.operator, None);
    let step = worker_next(step.stage, Ok("+CSQ: 31,99".into()), &decoder).unwrap();
    assert_eq!(step.stage, WorkerStage::Listening { text_mode: false });
    assert_eq!(step.command, None);
    assert_eq!(step.csq.map(|(percent, _)| percent), Some(100));
}

#[test]
fn worker_reads_the_slot_of_each_indication() {
    assert_eq!(worker_line("+CMTI: \"SM\",3"), Some("AT+CMGR=3".into()));
    assert_eq!(worker_line("RING"), None);
    let response = "\r\n+CMGR: \"REC UNREAD\",\"10086\",,\"26/09/10,08:00:00+32\"\r\n验证码 284193\r\n\r\nOK\r\n";
    let parsed = worker_read_reply(true, 3, Ok(response.into()), &decoder).unwrap();
    assert_eq!(parsed.decoded.body, "验证码 284193");
    assert!(parsed.decoded.concat.is_none());
    assert_eq!(parsed.slot, Some(3));
    assert!(worker_read_reply(true, 3, Err("lost".into()), &decoder).is_none());
    let pdu = worker_read_reply(false, 5, Ok("+CMGR: 0,,20\r\n0011AABB\r\nOK\r\n".into()), &decoder).unwrap();
    assert_eq!(pdu.decoded.body, "hello");
    assert_eq!(pdu.slot, Some(5));
}
