use cellularhub::providers::windows::{
    bstr_text, data_class_label, describe_interface, enumerate_devices, lpa_handoff, normalize_activation_code,
    registration_status, runtime_capabilities, signal_percent, MbnInterfaceReport,
};

#[test]
fn normalizes_lpa_codes_without_shell_interpolation() {
    assert_eq!(normalize_activation_code("LPA:1$example.test$ABC").unwrap(), "1$example.test$ABC");
    assert_eq!(normalize_activation_code("1$example.test$ABC").unwrap(), "1$example.test$ABC");
    assert!(normalize_activation_code("https://example.test").is_err());
}

#[test]
fn signal_strength_mapping_matches_mbn_range() {
    assert_eq!(signal_percent(0), Some(0));
    assert_eq!(signal_percent(20), Some(65));
    assert_eq!(signal_percent(31), Some(100));
    assert_eq!(signal_percent(99), None);
}

#[test]
fn registration_states_are_mapped_conservatively() {
    assert_eq!(registration_status(3), "connected");
    assert_eq!(registration_status(4), "connected");
    assert_eq!(registration_status(2), "available");
    assert_eq!(registration_status(6), "unavailable");
}

#[test]
fn activation_code_errors() {
    assert_eq!(normalize_activation_code("   "), Err("activation code is empty".into()));
    assert_eq!(normalize_activation_code(" lpa:1$a$b "), Ok("1$a$b".into()));
}

#[test]
fn data_classes_prefer_the_fastest_bit() {
    assert_eq!(data_class_label(0x21), Some("LTE".into()));
    assert_eq!(data_class_label(0x06), Some("UMTS".into()));
    assert_eq!(data_class_label(0x01), Some("GPRS".into()));
    assert_eq!(data_class_label(0x4000), Some("0x4000".into()));
    assert_eq!(data_class_label(0xABC00), Some("0xABC00".into()));
    assert_eq!(data_class_label(0), None);
    assert_eq!(bstr_text("  Quectel "), Some("Quectel".into()));
    assert_eq!(bstr_text("   "), None);
}

#[test]
fn mbn_interfaces_are_described_conservatively() {
    let report = MbnInterfaceReport {
        interface_id: Some("{0001}".into()),
        manufacturer: "Quectel".into(),
        model: " EM05 ".into(),
        sms_caps: 0x3,
        provider_name: Some("CMCC".into()),
        data_class: Some(0x20),
        signal_strength: Some(20),
        register_state: Some(3),
        ready_state: None,
    };
    let d = describe_interface(&report).unwrap();
    assert_eq!(d.id, "mbn:{0001}");
    assert_eq!(d.label, "Quectel EM05");
    assert_eq!(d.kind, "windows-mbn");
    assert_eq!(d.model, Some("EM05".into()));
    assert_eq!(d.operator, Some("CMCC".into()));
    assert_eq!(d.network_class, Some("LTE".into()));
    assert_eq!(d.signal, Some(65));
    assert_eq!(d.status, "connected");
    assert!(d.capabilities.sms_receive);
    assert!(!d.capabilities.sms_send && !d.capabilities.native_esim);

    let bare = MbnInterfaceReport {
        interface_id: None,
        manufacturer: "".into(),
        model: "".into(),
        sms_caps: 0x2,
        provider_name: None,
        data_class: None,
        signal_strength: None,
        register_state: None,
        ready_state: Some(1),
    };
    let listed = enumerate_devices(&[report, bare.clone()]);
    assert_eq!(listed.len(), 1);
    assert_eq!(listed[0].id, "mbn:{0001}");
    assert!(describe_interface(&bare).is_none());
    let blank = MbnInterfaceReport { interface_id: Some("   ".into()), ..bare };
    let d = describe_interface(&blank).unwrap();
    assert_eq!(d.id, "mbn:unknown-mbn-interface");
    assert_eq!(d.label, "Windows Mobile Broadband");
    assert_eq!(d.status, "available");
    assert!(!d.capabilities.sms_receive);
}

#[test]
fn lpa_handoff_checks_platform_handler_and_code() {
    assert_eq!(lpa_handoff(false, true, "1$a$b"), Err("Windows LPA is only available on Windows".into()));
    assert!(lpa_handoff(true, false, "1$a$b").is_err());
    assert_eq!(lpa_handoff(true, true, "LPA:1$a$b"), Ok("lpa:1$a$b".into()));
    assert_eq!(lpa_handoff(true, true, "nope"), Err("expected an LPA: URI or 1$ activation code".into()));
    let caps = runtime_capabilities(true, false, false, "linux");
    assert!(caps.native_lpa_available && !caps.lpac_found && !caps.euicc_bridge_available);
    assert_eq!(caps.platform, "linux");
    assert_eq!(runtime_capabilities(false, true, true, "windows").platform, "windows");
}
