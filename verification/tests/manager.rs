use cellularhub::manager::CellularManager;
use cellularhub::model::{CellularSnapshot, SmsMessage};
use std::sync::atomic::{AtomicBool, Ordering};
use std::sync::Arc;

fn message(id: &str, body: &str) -> SmsMessage {
    SmsMessage {
        id: id.into(),
        sender: "10010".into(),
        body: body.into(),
        received_at: "2026-01-01T00:00:00+00:00".into(),
        unread: true,
        archived: false,
        category: "notice".into(),
        code: None,
        slot: None,
    }
}

#[test]
fn messages_survive_reload_and_archive() {
    let mut manager = CellularManager::load(Vec::new());
    let sms = message("m-1", "verification 482631");
    let id = sms.id.clone();
    assert!(manager.push_message(sms));
    assert_eq!(manager.unread_count(), 1);
    manager.set_archived(&id, true);
    assert_eq!(manager.unread_count(), 0);

    let second = message("m-2", "another message");
    assert!(manager.push_message(second));
    manager.mark_sender_read("10010");
    assert_eq!(manager.unread_count(), 0);
    manager.set_sender_archived("10010", true);
    assert!(manager.messages().iter().all(|item| item.archived));

    let reloaded = CellularManager::load(manager.messages());
    let restored = reloaded.messages();
    assert_eq!(restored.len(), 2);
    assert!(restored.iter().all(|item| item.archived));
    assert!(restored.iter().all(|item| !item.unread));
}

#[test]
fn duplicates_are_not_stored_twice() {
    let mut manager = CellularManager::load(Vec::new());
    assert!(manager.push_message(message("a", "same")));
    assert!(!manager.push_message(message("b", "same")));
    assert_eq!(manager.messages().len(), 1);
    let mut other_slot = message("c", "same");
    other_slot.slot = Some(4);
    assert!(manager.push_message(other_slot));
    assert_eq!(manager.messages()[0].id, "c");
}

#[test]
fn the_store_keeps_the_newest_thousand() {
    let mut manager = CellularManager::load(Vec::new());
    for i in 0..1005 {
        assert!(manager.push_message(message(&format!("id-{i}"), &format!("body {i}"))));
    }
    let all = manager.messages();
    assert_eq!(all.len(), 1000);
    assert_eq!(all[0].id, "id-1004");
    assert_eq!(all[999].id, "id-5");
}

#[test]
fn read_and_archive_states() {
    let mut manager = CellularManager::load(vec![message("x", "1"), message("y", "2")]);
    manager.mark_read("y");
    assert_eq!(manager.unread_count(), 1);
    manager.set_archived("x", true);
    manager.set_archived("x", false);
    assert_eq!(manager.unread_count(), 0);
    manager.mark_all_read();
    assert_eq!(manager.unread_count(), 0);
}

#[test]
fn session_state_and_stop_signal() {
    let mut manager = CellularManager::load(Vec::new());
    assert_eq!(manager.snapshot().device_name, "");
    let mut s = CellularSnapshot::default();
    s.connected = true;
    s.device_name = "modem".into();
    manager.set_snapshot(s);
    manager.set_error("lost".into());
    let now = manager.snapshot();
    assert_eq!(now.last_error, Some("lost".into()));
    assert!(!now.connected);
    assert_eq!(now.device_name, "modem");

    let first = Arc::new(AtomicBool::new(false));
    manager.replace_stop_flag(first.clone());
    let second = Arc::new(AtomicBool::new(false));
    manager.replace_stop_flag(second.clone());
    assert!(first.load(Ordering::SeqCst));
    manager.disconnect();
    assert!(second.load(Ordering::SeqCst));
    assert!(!manager.snapshot().connected);
}

#[test]
fn archiving_a_sender_clears_unread_on_every_message() {
    let mut first = message("a", "one");
    first.archived = true;
    let second = message("b", "two");
    let mut other = message("c", "three");
    other.sender = "10086".into();
    let mut manager = CellularManager::load(vec![first, second, other]);
    assert_eq!(manager.unread_count(), 2);
    manager.set_sender_archived("10010", true);
    let after = manager.messages();
    assert!(after.iter().filter(|m| m.sender == "10010").all(|m| m.archived && !m.unread));
    assert!(after.iter().any(|m| m.sender == "10086" && m.unread && !m.archived));
    manager.set_sender_archived("10010", false);
    assert!(manager.messages().iter().all(|m| !m.archived));
    assert!(manager.messages().iter().filter(|m| m.sender == "10010").all(|m| !m.unread));
}
