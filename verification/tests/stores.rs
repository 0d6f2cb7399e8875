use cellularhub::conversation_store::ConversationStore;
use cellularhub::esim_store::EsimStore;
use cellularhub::model::{ConversationMeta, CustomField, EsimProfile};
use cellularhub::storage::{backup_file_name, temp_file_name};
use cellularhub::store::retained_messages;
use cellularhub::model::SmsMessage;

fn meta(sender: &str, alias: &str) -> ConversationMeta {
    ConversationMeta { sender: sender.into(), alias: alias.into(), notes: "data plan".into(), pinned: true, updated_at: String::new() }
}

fn wallet_profile(id: &str, name: &str) -> EsimProfile {
    EsimProfile {
        id: id.into(),
        name: name.into(),
        country_code: " cn ".into(),
        operator: "CMCC".into(),
        phone_number: None,
        iccid: None,
        plan: None,
        keep_alive_cost_bits: Some(2.5f64.to_bits()),
        currency: None,
        billing_cycle: None,
        renewal_date: None,
        expiry_date: None,
        auto_renew: false,
        status: "active".into(),
        notes: None,
        tags: vec![" travel ".into(), "  ".into(), "work".into()],
        custom_fields: vec![
            CustomField { label: " ".into(), value: "".into() },
            CustomField { label: "APN".into(), value: "cmnet".into() },
        ],
        created_at: "".into(),
        updated_at: "".into(),
    }
}

#[test]
fn metadata_survives_reload() {
    let mut store = ConversationStore::load(Vec::new());
    store.save(meta("10010", "Carrier")).expect("save meta");
    let restored = ConversationStore::load(store.list());
    let found = restored.get("10010").expect("restored meta");
    assert_eq!(found.alias, "Carrier");
    assert!(found.pinned);
}

#[test]
fn conversation_entries_are_trimmed_and_replaced() {
    let mut store = ConversationStore::load(Vec::new());
    assert_eq!(store.save_at(meta("   ", "x"), "t".into()).err(), Some("sender is required".to_string()));
    assert!(store.list().is_empty());
    let saved = store.save_at(meta(" 10086 ", " Mobile "), "t1".into()).unwrap();
    assert_eq!(saved.sender, "10086");
    assert_eq!(saved.alias, "Mobile");
    assert_eq!(saved.updated_at, "t1");
    store.save_at(meta("10086", "CMCC"), "t2".into()).unwrap();
    store.save_at(meta("95588", "Bank"), "t3".into()).unwrap();
    let all = store.list();
    assert_eq!(all.len(), 2);
    assert_eq!(all[0].alias, "CMCC");
    assert_eq!(all[1].sender, "95588");
    assert!(store.get("00000").is_none());
}

#[test]
fn esim_profiles_are_normalized_on_save() {
    let mut store = EsimStore::load(Vec::new());
    let saved = store.save_at(wallet_profile("  ", "Travel"), "now".into(), "fresh".into());
    assert_eq!(saved.id, "fresh");
    assert_eq!(saved.created_at, "now");
    assert_eq!(saved.updated_at, "now");
    assert_eq!(saved.country_code, "CN");
    assert_eq!(saved.tags, vec!["travel".to_string(), "work".to_string()]);
    assert_eq!(saved.custom_fields.len(), 1);
    assert_eq!(saved.custom_fields[0].label, "APN");
    let mut again = saved.clone();
    again.name = "Travel 2".into();
    let updated = store.save_at(again, "later".into(), "unused".into());
    assert_eq!(updated.id, "fresh");
    assert_eq!(updated.created_at, "now");
    assert_eq!(updated.updated_at, "later");
    assert_eq!(store.list().len(), 1);
    let random = store.save(wallet_profile("", "Other"));
    assert_eq!(random.id.len(), 36);
    store.delete("fresh");
    assert_eq!(store.list().len(), 1);
}

#[test]
fn esim_list_is_ordered_by_lower_cased_name() {
    let store = EsimStore::load(vec![wallet_profile("1", "beta"), wallet_profile("2", "Alpha"), wallet_profile("3", "ÉTÉ"), wallet_profile("4", "alpha")]);
    let names: Vec<String> = store.list().into_iter().map(|p| p.name).collect();
    assert_eq!(names, vec!["Alpha".to_string(), "alpha".to_string(), "beta".to_string(), "ÉTÉ".to_string()]);
}

#[test]
fn renewals_and_expiries_fall_due_within_the_window() {
    // 2026-01-01 is day 739617 counted from 0001-01-01 as day 1.
    let today = 739617;
    let mut soon = wallet_profile("1", "Soon");
    soon.renewal_date = Some("2026-01-05".into());
    soon.expiry_date = Some("2026-01-03".into());
    let mut same = wallet_profile("2", "Same");
    same.renewal_date = Some("2026-01-02".into());
    same.expiry_date = Some("2026-01-02".into());
    let mut late = wallet_profile("3", "Late");
    late.renewal_date = Some("2026-03-01".into());
    let mut past = wallet_profile("4", "Past");
    past.expiry_date = Some("2025-12-31".into());
    let mut garbled = wallet_profile("5", "Garbled");
    garbled.renewal_date = Some("01/05/2026".into());
    let store = EsimStore::load(vec![soon, same, late, past, garbled]);
    let due = store.due_within_on(7, today);
    assert_eq!(due.len(), 2);
    assert_eq!(due[0].0.name, "Same");
    assert_eq!(due[0].1, "续费");
    assert_eq!(due[0].2, 1);
    assert_eq!(due[1].0.name, "Soon");
    assert_eq!(due[1].1, "到期");
    assert_eq!(due[1].2, 2);
    assert!(store.due_within_on(0, today).is_empty());
}

#[test]
fn sidecar_files_and_retention() {
    assert_eq!(backup_file_name(Some("messages.json")), "messages.json.bak");
    assert_eq!(temp_file_name(None), "data.json.tmp");
    let many: Vec<SmsMessage> = (0..1002)
        .map(|i| SmsMessage {
            id: format!("{i}"),
            sender: "s".into(),
            body: "b".into(),
            received_at: "t".into(),
            unread: false,
            archived: false,
            category: "notice".into(),
            code: None,
            slot: None,
        })
        .collect();
    let kept = retained_messages(&many);
    assert_eq!(kept.len(), 1000);
    assert_eq!(kept[0].id, "0");
    assert_eq!(kept[999].id, "999");
    assert_eq!(retained_messages(&many[..3]).len(), 3);
}

#[test]
fn due_within_reads_the_local_date() {
    let mut far = wallet_profile("1", "Far");
    far.renewal_date = Some("2999-01-01".into());
    let mut old = wallet_profile("2", "Old");
    old.expiry_date = Some("2000-01-01".into());
    let store = EsimStore::load(vec![far, old]);
    assert!(store.due_within(30).is_empty());
    let due = store.due_within(1_000_000);
    assert_eq!(due.len(), 1);
    assert_eq!(due[0].0.name, "Far");
    assert_eq!(due[0].1, "续费");
}
