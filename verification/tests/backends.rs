use cellularhub::backend::mock::sample_sms;
use cellularhub::backend::windows_mbn::{
    kind, mbn_device_info, mbn_interface_id, mbn_session_snapshot, mbn_snapshot_update,
    planned_capabilities,
};
use cellularhub::model::BackendKind;
use cellularhub::providers::demo::demo_device;
use cellularhub::window::window_layout;

#[test]
fn mbn_backend_descriptions() {
    assert_eq!(kind(), BackendKind::WindowsMbn);
    let caps = planned_capabilities();
    assert!(caps.sms_receive && !caps.sms_send && !caps.esim);
    let d = mbn_device_info(Some("{1}".into()), "Quectel".into(), "".into(), 1);
    assert_eq!(d.id, "mbn:{1}");
    assert_eq!(d.name, "Quectel Mobile Broadband");
    assert_eq!(d.manufacturer, Some("Quectel".into()));
    assert_eq!(d.product, None);
    assert!(d.capabilities.sms_receive);
    let bare = mbn_device_info(None, "".into(), "".into(), 2);
    assert_eq!(bare.id, "mbn:unknown");
    assert_eq!(bare.name, "Windows Mobile Broadband");
    assert!(!bare.capabilities.sms_receive);
}

#[test]
fn mbn_interface_ids_and_session_state() {
    assert_eq!(mbn_interface_id("mbn:{42}"), Ok("{42}".into()));
    assert_eq!(mbn_interface_id("{42}"), Ok("{42}".into()));
    assert_eq!(mbn_interface_id("mbn:  "), Err("缺少 Windows MBN interface id".into()));
    let start = mbn_session_snapshot();
    assert_eq!(start.operator_name, "正在读取运营商");
    let next = mbn_snapshot_update(start, Some("  ".into()), Some(250), true);
    assert_eq!(next.operator_name, "蜂窝网络");
    assert_eq!(next.signal_percent, 100);
    assert_eq!(next.device_name, "Windows Mobile Broadband");
    let named = mbn_snapshot_update(next, Some("CMCC".into()), None, false);
    assert_eq!(named.operator_name, "CMCC");
    assert_eq!(named.signal_percent, 0);
    assert!(!named.connected);
}

#[test]
fn sample_and_demo_records() {
    let m = sample_sms();
    assert_eq!(m.sender, "10695500");
    assert_eq!(m.code, Some("482631".into()));
    assert_eq!(m.category, "code");
    assert_eq!(m.id.len(), 36);
    let d = demo_device();
    assert_eq!(d.id, "demo-native");
    assert_eq!(d.signal, Some(82));
}

#[test]
fn window_modes() {
    let mini = window_layout("mini").unwrap();
    assert!(mini.always_on_top);
    assert_eq!((mini.width, mini.height), (386, 520));
    let full = window_layout("full").unwrap();
    assert!(!full.always_on_top && full.center);
    assert_eq!((full.width, full.height), (1240, 790));
    assert_eq!(window_layout("tiny"), Err("unknown window mode".into()));
}
