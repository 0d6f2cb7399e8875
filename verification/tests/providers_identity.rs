use cellularhub::providers::identity::{stable_hardware_key, usb_hardware_key};
use cellularhub::providers::ports::{SerialPortKind, SerialPortSummary};

#[test]
fn stable_usb_identity_requires_serial_number() {
    assert_eq!(usb_hardware_key(0x2c7c, 0x0125, " ABC123 "), Some("usb:2c7c:0125:ABC123".into()));
    assert_eq!(usb_hardware_key(0x2c7c, 0x0125, "   "), None);
}

#[test]
fn mbn_interface_identity_is_already_stable_enough_for_selection() {
    assert_eq!(
        stable_hardware_key("mbn:{00000000-0000-0000-0000-000000000001}", &[]),
        Some("mbn:{00000000-0000-0000-0000-000000000001}".into())
    );
}

#[test]
fn at_identity_comes_from_the_usb_descriptor() {
    let ports = vec![
        SerialPortSummary { port_name: "COM1".into(), kind: SerialPortKind::Unknown },
        SerialPortSummary {
            port_name: "COM3".into(),
            kind: SerialPortKind::Usb {
                vid: 0x2c7c,
                pid: 0x0125,
                serial_number: Some("SN1".into()),
                manufacturer: None,
                product: None,
            },
        },
    ];
    assert_eq!(stable_hardware_key("at:com3", &ports), Some("usb:2c7c:0125:SN1".into()));
    assert_eq!(stable_hardware_key("at:COM1", &ports), None);
    assert_eq!(stable_hardware_key("at:COM9", &ports), None);
    assert_eq!(stable_hardware_key("demo", &ports), None);
}
