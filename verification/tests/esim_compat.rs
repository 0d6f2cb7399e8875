use cellularhub::backend::esim_compat::{
    build_supports_lpa, command_ok, command_supported, compat_candidate, extract_eid,
    install_outcome, lpac_transport, normalize_activation, plan_install, probe_decision,
    probe_next, probe_reply_done, probe_start, trim_output, vendor_esim_supported, ProbeStage,
    ProbeStep,
};
use cellularhub::model::EsimCompatInstallRequest;

fn request(code: &str, transport: &str, port: &str) -> EsimCompatInstallRequest {
    EsimCompatInstallRequest { activation_code: code.into(), transport: transport.into(), port: port.into() }
}

#[test]
fn extracts_only_full_eid() {
    let line = "+QESIM: \"eid\",0,\"89049032000000000000000000001234\"\r\nOK";
    assert_eq!(extract_eid(line).as_deref(), Some("89049032000000000000000000001234"));
    assert_eq!(extract_eid("+QESIM: \"eid\",8500000A,\"\"\r\nOK"), None);
}

#[test]
fn activation_normalization() {
    assert_eq!(normalize_activation("1$server$id").unwrap(), "LPA:1$server$id");
    assert_eq!(normalize_activation("lpa:1$server$id").unwrap(), "lpa:1$server$id");
}

#[test]
fn activation_codes_are_trimmed_and_refused_when_unknown() {
    assert_eq!(normalize_activation("  LpA:1$a$b ").unwrap(), "LpA:1$a$b");
    assert_eq!(
        normalize_activation("https://example.test"),
        Err("请输入 LPA: URI 或二维码中的完整 1$ activation code".to_string())
    );
}

#[test]
fn a_longer_digit_run_is_not_an_eid() {
    let long = format!("+QESIM: \"eid\",\"{}\"", "1".repeat(33));
    assert_eq!(extract_eid(&long), None);
    let later = format!("12345 {}", "7".repeat(32));
    assert_eq!(extract_eid(&later), Some("7".repeat(32)));
}

#[test]
fn replies_are_read_without_regard_to_case() {
    assert!(command_ok("\r\nok\r\n"));
    assert!(!command_ok("OK\r\n+CME ERROR: 3"));
    assert!(!command_ok(""));
    assert!(command_supported("+CCHO: (0-3)\r\nOK"));
    assert!(!command_supported("   "));
    assert!(vendor_esim_supported("+QESIM: (\"eid\")\r\nOK"));
    assert!(!vendor_esim_supported("OK"));
    assert!(probe_reply_done("\r\nOK\r\n"));
    assert!(probe_reply_done("+CME ERROR: 10"));
    assert!(!probe_reply_done("+CSIM: 4"));
}

#[test]
fn output_is_clipped_at_the_limit() {
    let short = "x".repeat(1600);
    assert_eq!(trim_output(&short), short);
    let long = "é".repeat(1601);
    let clipped = trim_output(&long);
    assert_eq!(clipped, format!("{}\n…输出已截断", "é".repeat(1600)));
}

#[test]
fn install_requests_are_checked_in_order() {
    let lpac = Some("/opt/lpac".to_string());
    assert_eq!(
        plan_install(&request("bogus", "at", "COM3"), lpac.clone()).err(),
        Some("请输入 LPA: URI 或二维码中的完整 1$ activation code".to_string())
    );
    assert_eq!(
        plan_install(&request("1$a$b", "at", "COM3"), None).err(),
        Some("未找到 lpac。请把官方 lpac.exe 放到 CellularHub.exe 同目录、tools 目录，或加入 PATH。".to_string())
    );
    assert_eq!(
        plan_install(&request("1$a$b", " QMI ", "COM3"), lpac.clone()).err(),
        Some("不支持的 eUICC APDU transport: qmi".to_string())
    );
    assert_eq!(
        plan_install(&request("1$a$b", "at", "  "), lpac.clone()).err(),
        Some("缺少 eUICC/Modem 串口".to_string())
    );
    let plan = plan_install(&request("1$a$b", "CSIM", " COM7 "), lpac).unwrap();
    assert_eq!(plan.program, "/opt/lpac");
    assert_eq!(plan.transport, "at_csim");
    assert_eq!(plan.device, "COM7");
    assert_eq!(plan.activation, "LPA:1$a$b");
    assert_eq!(lpac_transport("At").unwrap(), "at");
}

#[test]
fn lpac_results_become_messages() {
    assert_eq!(
        install_outcome(true, "exit status: 0", "  ", ""),
        Ok("lpac 已完成 profile download。请在设备/运营商状态中确认配置文件是否已安装。".to_string())
    );
    assert_eq!(install_outcome(true, "exit status: 0", " done \n", ""), Ok("done".to_string()));
    assert_eq!(
        install_outcome(false, "exit status: 1", "out", " err "),
        Err("lpac provisioning 失败（exit status: 1）。err".to_string())
    );
    assert_eq!(
        install_outcome(false, "exit status: 2", "", ""),
        Err("lpac provisioning 失败（exit status: 2）。该 modem/eUICC 可能不支持所选 AT APDU 通道，或 AT 后端响应时间不足。".to_string())
    );
}

#[test]
fn candidates_need_an_euicc_path() {
    assert!(compat_candidate("COM3", "ERROR", "", "ERROR", None, true).is_none());
    let c = compat_candidate("COM3", "OK", "", "+QESIM: x\r\nOK", Some("8904".into()), true).unwrap();
    assert!(c.at_apdu && !c.at_csim && c.vendor_esim && c.install_ready && c.lpac_available);
    assert_eq!(c.eid, Some("8904".into()));
    assert_eq!(c.note, "CCHO/CGLA APDU · 厂商 QESIM · EID 可读 · lpac 已发现");
    let d = compat_candidate("COM4", "", "OK", "", None, false).unwrap();
    assert!(!d.install_ready);
    assert_eq!(d.note, "CSIM APDU · 缺少 lpac");
}

#[test]
fn native_lpa_needs_build_26100() {
    assert!(build_supports_lpa("\r\nHKEY_LOCAL_MACHINE\\...\r\n    CurrentBuildNumber    REG_SZ    26100\r\n"));
    assert!(!build_supports_lpa("    CurrentBuildNumber    REG_SZ    22631\r\n"));
    assert!(!build_supports_lpa("REG_SZ 26100x"));
}

const EID_REPLY: &str = "+QESIM: \"eid\",\"89049032000000000000000000001234\"\r\nOK";

#[test]
fn probe_decision_needs_an_ok_to_at() {
    assert!(probe_decision("COM3", "ERROR", "OK", "OK", "+QESIM: x\r\nOK", EID_REPLY, true).is_none());
    assert!(probe_decision("COM3", "", "OK", "OK", "", "", true).is_none());
    let c = probe_decision("COM3", "\r\nOK\r\n", "OK", "", "", "", true).unwrap();
    assert!(c.at_apdu && !c.at_csim && !c.vendor_esim && c.install_ready);
    assert_eq!(c.port, "COM3");
}

#[test]
fn probe_decision_reads_the_eid_only_with_vendor_support() {
    assert!(probe_decision("COM3", "OK", "ERROR", "ERROR", "ERROR", EID_REPLY, true).is_none());
    let c = probe_decision("COM3", "OK", "ERROR", "ERROR", "+QESIM: (eid)\r\nOK", EID_REPLY, false).unwrap();
    assert!(c.vendor_esim && !c.install_ready);
    assert_eq!(c.eid, Some("89049032000000000000000000001234".into()));
    let d = probe_decision("COM3", "OK", "OK", "ERROR", "ERROR", EID_REPLY, true).unwrap();
    assert_eq!(d.eid, None);
    assert!(!d.vendor_esim);
}

#[test]
fn probe_runs_the_commands_in_order() {
    let (stage, command) = probe_start();
    assert!(matches!(stage, ProbeStage::Attention));
    assert_eq!(command, "AT");
    let next = |stage, reply: Result<&str, &str>| match probe_next("COM7", stage, reply.map(String::from).map_err(String::from), true) {
        ProbeStep::Send { stage, command } => (stage, command),
        ProbeStep::Done(c) => panic!("finished early: {c:?}"),
    };
    let (stage, command) = next(stage, Ok("\r\nOK\r\n"));
    assert_eq!(command, "AT+CCHO=?");
    let (stage, command) = next(stage, Err("timeout"));
    assert_eq!(command, "AT+CSIM=?");
    let (stage, command) = next(stage, Ok("+CSIM: ok\r\nOK"));
    assert_eq!(command, "AT+QESIM=?");
    let (stage, command) = next(stage, Ok("+QESIM: (eid)\r\nOK"));
    assert_eq!(command, "AT+QESIM=\"eid\"");
    match probe_next("COM7", stage, Ok(EID_REPLY.into()), true) {
        ProbeStep::Done(Some(c)) => {
            assert!(!c.at_apdu && c.at_csim && c.vendor_esim && c.install_ready);
            assert_eq!(c.eid, Some("89049032000000000000000000001234".into()));
            assert_eq!(c.port, "COM7");
        }
        other => panic!("unexpected step {other:?}"),
    }
}

#[test]
fn probe_stops_without_at_or_without_vendor_support() {
    assert!(matches!(probe_next("COM7", ProbeStage::Attention, Err("closed".into()), true), ProbeStep::Done(None)));
    assert!(matches!(probe_next("COM7", ProbeStage::Attention, Ok("ERROR".into()), true), ProbeStep::Done(None)));
    let vendor = ProbeStage::Vendor { at: "OK".into(), ccho: "ERROR".into(), csim: "ERROR".into() };
    assert!(matches!(probe_next("COM7", vendor, Ok("ERROR".into()), true), ProbeStep::Done(None)));
    let vendor = ProbeStage::Vendor { at: "OK".into(), ccho: "OK".into(), csim: "".into() };
    match probe_next("COM7", vendor, Ok("".into()), false) {
        ProbeStep::Done(Some(c)) => assert!(c.at_apdu && !c.vendor_esim && c.eid.is_none() && !c.install_ready),
        other => panic!("unexpected step {other:?}"),
    }
}
