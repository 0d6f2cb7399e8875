use cellularhub::model::{
    CellularDevice, DeviceCapabilities, EsimProfile, RuntimeCapabilities, SmsMessage,
};
use cellularhub::providers::at::AtPoll;
use cellularhub::sms::inbox::IncomingSms;
use cellularhub::state::{preferred_device_id, AppState};

fn device(id: &str, kind: &str, receive: bool) -> CellularDevice {
    CellularDevice {
        id: id.into(),
        label: "AT".into(),
        kind: kind.into(),
        model: None,
        operator: None,
        signal: None,
        network_class: None,
        status: "available".into(),
        capabilities: DeviceCapabilities {
            sms_receive: receive,
            sms_send: false,
            native_esim: false,
            euicc_bridge: false,
        },
    }
}

fn runtime() -> RuntimeCapabilities {
    RuntimeCapabilities {
        native_lpa_available: false,
        euicc_bridge_available: false,
        lpac_found: false,
        platform: "linux".into(),
    }
}

fn stored(id: &str, sender: &str, at: &str) -> SmsMessage {
    SmsMessage {
        id: id.into(),
        sender: sender.into(),
        body: "b".into(),
        received_at: at.into(),
        unread: true,
        archived: false,
        category: "notice".into(),
        code: None,
        slot: None,
    }
}

fn profile(id: &str, name: &str) -> EsimProfile {
    EsimProfile {
        id: id.into(),
        name: name.into(),
        country_code: "cn".into(),
        operator: "CMCC".into(),
        phone_number: None,
        iccid: None,
        plan: None,
        keep_alive_cost_bits: None,
        currency: None,
        billing_cycle: None,
        renewal_date: None,
        expiry_date: None,
        auto_renew: false,
        status: "active".into(),
        notes: None,
        tags: Vec::new(),
        custom_fields: Vec::new(),
        created_at: "".into(),
        updated_at: "".into(),
    }
}

fn sms(key: &str, body: &str) -> IncomingSms {
    IncomingSms {
        source_key: key.into(),
        sender: "10086".into(),
        body: body.into(),
        received_at: None,
        concatenation: None,
    }
}

#[test]
fn native_receive_capable_device_is_preferred() {
    let at = CellularDevice {
        id: "at:COM3".into(),
        label: "AT".into(),
        kind: "at".into(),
        model: None,
        operator: None,
        signal: None,
        network_class: None,
        status: "available".into(),
        capabilities: DeviceCapabilities {
            sms_receive: false,
            sms_send: false,
            native_esim: false,
            euicc_bridge: false,
        },
    };
    let mut mbn = at.clone();
    mbn.id = "mbn:test".into();
    mbn.kind = "windows-mbn".into();
    mbn.capabilities.sms_receive = true;
    assert_eq!(preferred_device_id(&[at, mbn]), Some("mbn:test".into()));
}

#[test]
fn without_a_native_receiver_the_first_device_is_selected() {
    assert_eq!(preferred_device_id(&[device("at:COM1", "at", false), device("mbn:x", "windows-mbn", false)]), Some("at:COM1".into()));
    assert_eq!(preferred_device_id(&[]), None);
}

#[test]
fn messages_start_newest_first() {
    let state = AppState::new(
        vec![
            stored("a", "1", "2026-01-01T00:00:00+00:00"),
            stored("b", "1", "2026-03-01T00:00:00+00:00"),
            stored("c", "1", "2026-01-01T00:00:00+00:00"),
            stored("d", "1", "2026-02-01T00:00:00+00:00"),
        ],
        Vec::new(),
        vec![device("at:COM3", "at", false)],
    );
    let snap = state.snapshot(runtime());
    let order: Vec<&str> = snap.messages.iter().map(|m| m.id.as_str()).collect();
    assert_eq!(order, vec!["b", "d", "a", "c"]);
    assert_eq!(snap.selected_device_id, Some("at:COM3".into()));
    assert_eq!(snap.runtime.platform, "linux");
}

#[test]
fn repeated_polls_do_not_duplicate_messages() {
    let mut state = AppState::new(Vec::new(), Vec::new(), vec![device("at:COM3", "at", false)]);
    let poll = || AtPoll {
        messages: vec![sms("at:COM3:text:1", "验证码 123456"), sms("at:COM3:text:2", "hello")],
        operator: Some("CMCC".into()),
        signal: Some(70),
    };
    assert_eq!(state.poll_sms_device_at("at:COM3", poll(), 0, "2026-01-01T00:00:00+00:00".into()), Ok(true));
    assert_eq!(state.poll_sms_device_at("at:COM3", poll(), 10, "2026-01-02T00:00:00+00:00".into()), Ok(false));
    assert_eq!(state.poll_sms_device("at:COM3", poll()), Ok(false));
    let snap = state.snapshot(runtime());
    assert_eq!(snap.messages.len(), 2);
    assert_eq!(snap.messages[0].body, "hello");
    assert_eq!(snap.messages[1].code, Some("123456".into()));
    let d = &snap.devices[0];
    assert_eq!(d.status, "connected");
    assert!(d.capabilities.sms_receive);
    assert_eq!(d.operator, Some("CMCC".into()));
    assert_eq!(d.signal, Some(70));
}

#[test]
fn a_poll_error_stops_the_batch() {
    let mut state = AppState::new(Vec::new(), Vec::new(), Vec::new());
    let mut bad = sms("k2", "x");
    bad.concatenation = Some(cellularhub::sms::pdu::Concatenation { reference: 1, total: 1, sequence: 2 });
    let poll = AtPoll { messages: vec![sms("k1", "first"), bad, sms("k3", "never")], operator: None, signal: None };
    assert_eq!(state.poll_sms_device_at("at:COM9", poll, 0, "t".into()), Err("invalid multipart SMS sequence metadata".into()));
    let snap = state.snapshot(runtime());
    assert_eq!(snap.messages.len(), 1);
    assert_eq!(snap.messages[0].body, "first");
    assert_eq!(snap.selected_device_id, Some("at:COM9".into()));
}

#[test]
fn refresh_keeps_probe_results_and_selection() {
    let mut state = AppState::new(Vec::new(), Vec::new(), vec![device("at:COM3", "at", false), device("at:COM4", "at", false)]);
    let poll = AtPoll { messages: Vec::new(), operator: Some("CU".into()), signal: Some(40) };
    assert_eq!(state.poll_sms_device_at("at:COM4", poll, 0, "t".into()), Ok(false));
    state.refresh_devices(vec![device("at:COM3", "at", false), device("at:COM4", "at", false)]);
    let snap = state.snapshot(runtime());
    assert!(snap.devices[1].capabilities.sms_receive);
    assert_eq!(snap.devices[1].status, "connected");
    assert_eq!(snap.devices[1].operator, Some("CU".into()));
    assert!(!snap.devices[0].capabilities.sms_receive);
    assert_eq!(snap.selected_device_id, Some("at:COM4".into()));
    state.refresh_devices(vec![device("at:COM3", "at", false)]);
    assert_eq!(state.snapshot(runtime()).selected_device_id, Some("at:COM3".into()));
    state.refresh_devices(Vec::new());
    assert_eq!(state.snapshot(runtime()).selected_device_id, None);
}

#[test]
fn archive_and_read_commands() {
    let mut state = AppState::new(
        vec![stored("a", "10086", "2"), stored("b", "10086", "1"), stored("c", "95588", "0")],
        Vec::new(),
        Vec::new(),
    );
    state.archive_message("a", true);
    state.mark_sender_read("10086");
    let snap = state.snapshot(runtime());
    assert!(snap.messages[0].archived && !snap.messages[0].unread);
    assert!(!snap.messages[1].unread);
    assert!(snap.messages[2].unread);
    state.archive_message("a", false);
    assert!(!state.snapshot(runtime()).messages[0].archived);
}

#[test]
fn profiles_are_upserted_in_front_and_deleted_by_id() {
    let mut state = AppState::new(Vec::new(), vec![profile("p1", "One")], Vec::new());
    state.upsert_profile(profile("p2", "Two"));
    state.upsert_profile(profile("p1", "Uno"));
    let snap = state.snapshot(runtime());
    assert_eq!(snap.esim_profiles.len(), 2);
    assert_eq!(snap.esim_profiles[0].id, "p2");
    assert_eq!(snap.esim_profiles[1].name, "Uno");
    state.delete_profile("p2");
    let snap = state.snapshot(runtime());
    assert_eq!(snap.esim_profiles.len(), 1);
    assert_eq!(snap.esim_profiles[0].id, "p1");
}

fn part(key: &str, sequence: u8, body: &str) -> IncomingSms {
    IncomingSms {
        source_key: key.into(),
        sender: "10086".into(),
        body: body.into(),
        received_at: None,
        concatenation: Some(cellularhub::sms::pdu::Concatenation { reference: 9, total: 3, sequence }),
    }
}

#[test]
fn repeated_polls_of_multipart_records_do_not_duplicate() {
    let mut state = AppState::new(Vec::new(), Vec::new(), vec![device("at:COM3", "at", false)]);
    let poll = || AtPoll {
        messages: vec![part("k2", 2, "B"), sms("k9", "single"), part("k1", 1, "A"), part("k3", 3, "C")],
        operator: None,
        signal: None,
    };
    assert_eq!(state.poll_sms_device_at("at:COM3", poll(), 0, "2026-01-01T00:00:00+00:00".into()), Ok(true));
    let first = state.snapshot(runtime()).messages;
    assert_eq!(first.len(), 2);
    assert!(first.iter().any(|m| m.body == "ABC"));
    assert_eq!(state.poll_sms_device_at("at:COM3", poll(), 5, "2026-01-02T00:00:00+00:00".into()), Ok(false));
    assert_eq!(state.poll_sms_device_at("at:COM3", poll(), 50_000_000, "2026-01-03T00:00:00+00:00".into()), Ok(false));
    let again = state.snapshot(runtime()).messages;
    assert_eq!(again.len(), 2);
    assert_eq!(again.iter().map(|m| m.id.clone()).collect::<Vec<_>>(), first.iter().map(|m| m.id.clone()).collect::<Vec<_>>());
}

#[test]
fn incomplete_multipart_records_stay_pending_across_polls() {
    let mut state = AppState::new(Vec::new(), Vec::new(), Vec::new());
    let poll = || AtPoll { messages: vec![part("k1", 1, "A"), part("k3", 3, "C")], operator: None, signal: None };
    assert_eq!(state.poll_sms_device_at("at:COM3", poll(), 0, "t".into()), Ok(false));
    assert_eq!(state.poll_sms_device_at("at:COM3", poll(), 1, "t".into()), Ok(false));
    assert!(state.snapshot(runtime()).messages.is_empty());
    let rest = AtPoll { messages: vec![part("k2", 2, "B")], operator: None, signal: None };
    assert_eq!(state.poll_sms_device_at("at:COM3", rest, 2, "t".into()), Ok(true));
    assert_eq!(state.snapshot(runtime()).messages[0].body, "ABC");
}

fn two_part(key: &str, sequence: u8, body: &str) -> IncomingSms {
    IncomingSms {
        source_key: key.into(),
        sender: "10086".into(),
        body: body.into(),
        received_at: None,
        concatenation: Some(cellularhub::sms::pdu::Concatenation { reference: 4, total: 2, sequence }),
    }
}

#[test]
fn conflicting_parts_in_one_batch_complete_again_on_the_next_poll() {
    let mut state = AppState::new(Vec::new(), Vec::new(), Vec::new());
    let poll = || AtPoll {
        messages: vec![two_part("k1", 1, "x"), two_part("k2", 2, "w"), two_part("k3", 2, "v")],
        operator: None,
        signal: None,
    };
    assert_eq!(state.poll_sms_device_at("at:COM3", poll(), 0, "t".into()), Ok(true));
    assert_eq!(state.poll_sms_device_at("at:COM3", poll(), 1, "t".into()), Ok(true));
    let bodies: Vec<String> = state.snapshot(runtime()).messages.iter().map(|m| m.body.clone()).collect();
    assert!(bodies.contains(&"xw".to_string()) && bodies.contains(&"xv".to_string()));
}

#[test]
fn a_part_pending_before_the_batch_completes_twice() {
    let mut state = AppState::new(Vec::new(), Vec::new(), Vec::new());
    let earlier = AtPoll { messages: vec![two_part("k0", 1, "z")], operator: None, signal: None };
    assert_eq!(state.poll_sms_device_at("at:COM3", earlier, 0, "t".into()), Ok(false));
    let poll = || AtPoll { messages: vec![two_part("k2", 2, "w"), two_part("k1", 1, "x")], operator: None, signal: None };
    assert_eq!(state.poll_sms_device_at("at:COM3", poll(), 1, "t".into()), Ok(true));
    assert_eq!(state.poll_sms_device_at("at:COM3", poll(), 2, "t".into()), Ok(true));
    let bodies: Vec<String> = state.snapshot(runtime()).messages.iter().map(|m| m.body.clone()).collect();
    assert!(bodies.contains(&"zw".to_string()) && bodies.contains(&"xw".to_string()));
}

#[test]
fn a_batch_beyond_the_cap_is_stored_again() {
    let mut state = AppState::new(Vec::new(), Vec::new(), Vec::new());
    let poll = || AtPoll {
        messages: (0..1001).map(|i| sms(&format!("k{i}"), &format!("body {i}"))).collect(),
        operator: None,
        signal: None,
    };
    assert_eq!(state.poll_sms_device_at("at:COM3", poll(), 0, "t".into()), Ok(true));
    assert_eq!(state.snapshot(runtime()).messages.len(), 1000);
    assert_eq!(state.poll_sms_device_at("at:COM3", poll(), 1, "t".into()), Ok(true));
    assert_eq!(state.snapshot(runtime()).messages.len(), 1000);
}
