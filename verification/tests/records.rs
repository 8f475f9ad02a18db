use shush_vault_core::record::{fallback, find_record_by_id, replace_record, Timestamp};

fn id_string(id: u128) -> String {
    uuid::Uuid::from_u128(id).to_string()
}
use shush_vault_core::{SecretRecord, Vault};

fn at(seconds: i64) -> Timestamp {
    Timestamp { seconds, nanos: 0 }
}

fn record(id: u128, workspace: &str, name: &str, value: &str, env: &str) -> SecretRecord {
    SecretRecord::create_at(id, at(100), workspace, name, value, env, "", "")
}

#[test]
fn fallback_trims_or_defaults() {
    assert_eq!(fallback("  my-app  ", "Default"), "my-app");
    assert_eq!(fallback("   ", "Default"), "Default");
    assert_eq!(fallback("", "Dev"), "Dev");
    assert_eq!(fallback("\u{3000}x\t", "Dev"), "x");
}

#[test]
fn create_trims_and_fills_defaults() {
    let r = SecretRecord::create("  ", "  OPENAI_API_KEY ", " sk-x ", "", " OpenAI ", " notes ");
    assert_eq!(r.workspace, "Default");
    assert_eq!(r.name, "OPENAI_API_KEY");
    assert_eq!(r.value, " sk-x ");
    assert_eq!(r.environment, "Dev");
    assert_eq!(r.provider, "OpenAI");
    assert_eq!(r.notes, "notes");
    assert_eq!(r.created_at, r.updated_at);
    assert!(r.deleted_at.is_none());
    // A version 4, RFC 4122 variant identifier.
    assert_eq!((r.id >> 76) & 0xf, 4);
    assert_eq!((r.id >> 62) & 0x3, 2);
    let other = SecretRecord::create("a", "b", "c", "d", "e", "f");
    assert_ne!(r.id, other.id);
}

#[test]
fn add_puts_the_record_first_and_find_sees_it() {
    let mut vault = Vault::default();
    vault.add(record(1, "Demo", "KEY", "old", "Dev"));
    vault.add(record(2, "Demo", "KEY", "new", "Dev"));
    assert_eq!(vault.records.len(), 2);
    assert_eq!(vault.records[0].id, 2);
    assert_eq!(vault.records[1].id, 1);
    let found = vault.find("KEY", Some("demo"), Some("DEV")).unwrap();
    assert_eq!(found.value, "new");
    assert!(vault.find("KEY", Some("Other"), None).is_none());
    assert!(vault.find("key", None, None).is_none());
    assert_eq!(vault.find_index("KEY", None, None), Some(0));
}

#[test]
fn update_changes_only_the_given_fields() {
    let mut vault = Vault::default();
    vault.add(SecretRecord::create_at(7, at(10), "Demo", "KEY", "v1", "Dev", "P", "N"));
    assert!(vault.update_at("KEY", None, None, Some("v2"), None, Some("n2"), at(20)));
    let r = vault.find("KEY", None, None).unwrap();
    assert_eq!(r.value, "v2");
    assert_eq!(r.provider, "P");
    assert_eq!(r.notes, "n2");
    assert_eq!(r.id, 7);
    assert_eq!(r.created_at, at(10));
    assert_eq!(r.updated_at, at(20));
    assert!(!vault.update_at("MISSING", None, None, Some("x"), None, None, at(30)));
    assert!(vault.update("KEY", Some("DEMO"), None, None, Some("P2"), None));
    assert_eq!(vault.find("KEY", None, None).unwrap().provider, "P2");
}

#[test]
fn delete_leaves_a_tombstone_that_lookups_skip() {
    let mut vault = Vault::default();
    vault.add(record(1, "Demo", "KEY", "a", "Dev"));
    vault.add(record(2, "Demo", "OTHER", "b", "Dev"));
    assert_eq!(vault.visible_records().len(), 2);
    assert!(vault.delete_at("KEY", Some("Demo"), Some("Dev"), at(50)));
    assert_eq!(vault.records.len(), 2);
    assert_eq!(vault.records[1].deleted_at, Some(at(50)));
    assert_eq!(vault.records[1].updated_at, at(50));
    assert!(vault.find("KEY", None, None).is_none());
    let visible = vault.visible_records();
    assert_eq!(visible.len(), 1);
    assert_eq!(visible[0].name, "OTHER");
    assert!(!vault.delete("KEY", None, None));
    assert!(vault.delete("OTHER", None, None));
    assert!(vault.visible_records().is_empty());
}

#[test]
fn ids_are_looked_up_in_hyphenated_lower_hex() {
    let mut vault = Vault::default();
    vault.add(SecretRecord::create_at(0xa1a2a3a4b1b2c1c2d1d2d3d4d5d6d7d8, at(1), "W", "N", "V", "Dev", "", ""));
    assert!(find_record_by_id(&vault, "a1a2a3a4-b1b2-c1c2-d1d2-d3d4d5d6d7d8").is_some());
    assert!(find_record_by_id(&vault, "A1A2A3A4-B1B2-C1C2-D1D2-D3D4D5D6D7D8").is_none());
    assert!(find_record_by_id(&vault, "a1a2a3a4b1b2c1c2d1d2d3d4d5d6d7d8").is_none());
}

#[test]
fn lookup_replace_and_remove_by_id() {
    let mut vault = Vault::default();
    vault.add(SecretRecord::create_at(0x10, at(5), "Demo", "A", "1", "Dev", "", ""));
    vault.add(SecretRecord::create_at(0x20, at(6), "Demo", "B", "2", "Dev", "", ""));
    let id_a = id_string(0x10);
    assert_eq!(find_record_by_id(&vault, &id_a).unwrap().name, "A");
    assert!(find_record_by_id(&vault, "nope").is_none());

    assert!(vault.replace_by_id(&id_a, "Work", " A2 ", "one", "Prod", "Prov", "Notes"));
    let r = find_record_by_id(&vault, &id_a).unwrap();
    assert_eq!(r.name, "A2");
    assert_eq!(r.workspace, "Work");
    assert_eq!(r.environment, "Prod");
    assert_eq!(r.id, 0x10);
    assert_eq!(r.created_at, at(5));
    assert!(!vault.replace_by_id("nope", "", "", "", "", "", ""));

    assert!(vault.remove_by_id(&id_string(0x20)));
    assert_eq!(vault.records.len(), 1);
    assert!(!vault.remove_by_id(&id_string(0x20)));
}

#[test]
fn replace_record_keeps_identity() {
    let mut r = SecretRecord::create_at(3, at(1), "W", "N", "V", "Dev", "", "");
    replace_record(&mut r, "", "NEW", "val", "Staging", " p ", "");
    assert_eq!(r.id, 3);
    assert_eq!(r.created_at, at(1));
    assert_eq!(r.workspace, "Default");
    assert_eq!(r.name, "NEW");
    assert_eq!(r.provider, "p");
    assert_eq!(r.environment, "Staging");
}

#[test]
fn deleted_records_can_still_be_removed_by_id() {
    let mut vault = Vault::default();
    vault.add(SecretRecord::create_at(0x30, at(5), "Demo", "A", "1", "Dev", "", ""));
    assert!(vault.delete_at("A", None, None, at(9)));
    assert!(find_record_by_id(&vault, &id_string(0x30)).is_none());
    assert!(vault.remove_by_id(&id_string(0x30)));
    assert!(vault.records.is_empty());
}
