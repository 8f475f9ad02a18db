use shush_vault_core::dotenv::{
    export_payload, parse_env, preview_env, quote_if_needed, split_lines, unquote, EnvStatus,
};
use shush_vault_core::import::{
    conflict_mode_from_label, import_env_records, import_preview_items, unique_key, ConflictMode,
};
use shush_vault_core::record::Timestamp;
use shush_vault_core::{SecretRecord, Vault};

fn rec(name: &str, value: &str) -> SecretRecord {
    SecretRecord::create_at(1, Timestamp { seconds: 1, nanos: 0 }, "Demo", name, value, "Dev", "", "")
}

#[test]
fn lines_split_like_str_lines() {
    assert_eq!(split_lines(""), Vec::<String>::new());
    assert_eq!(split_lines("\n"), vec![String::new()]);
    assert_eq!(split_lines("a\n\nb\n"), vec!["a".to_string(), String::new(), "b".to_string()]);
    assert_eq!(split_lines("a\r\nb"), vec!["a".to_string(), "b".to_string()]);
    for text in ["", "\n", "x", "a\r\n\r\nb", "a\rb\n", "end\r", "\r\n", "a\n\n", "\r"] {
        let ours = split_lines(text);
        let expected: Vec<String> = text.lines().map(|l| l.to_string()).collect();
        assert_eq!(ours, expected, "lines of {text:?}");
    }
}

#[test]
fn unquote_strips_one_matching_pair() {
    assert_eq!(unquote("\"abc\""), "abc");
    assert_eq!(unquote("'abc'"), "abc");
    assert_eq!(unquote("\"abc'"), "\"abc'");
    assert_eq!(unquote("\""), "\"");
    assert_eq!(unquote("\"\""), "");
    assert_eq!(unquote("plain"), "plain");
}

#[test]
fn quote_if_needed_quotes_and_escapes() {
    assert_eq!(quote_if_needed("plain"), "plain");
    assert_eq!(quote_if_needed("a b"), "\"a b\"");
    assert_eq!(quote_if_needed("x#y"), "\"x#y\"");
    assert_eq!(quote_if_needed("say \"hi\""), "\"say \\\"hi\\\"\"");
    assert_eq!(quote_if_needed(""), "");
}

#[test]
fn preview_reads_each_line() {
    let items = preview_env("# comment\n\nOPENAI_API_KEY = \"sk-1\"\nbroken\n=orphan\nTOKEN='t'");
    assert_eq!(items.len(), 6);
    assert_eq!(items[0].status, EnvStatus::Ignored);
    assert_eq!(items[0].line, 1);
    assert_eq!(items[1].status, EnvStatus::Ignored);
    assert_eq!(items[2].status, EnvStatus::Ready);
    assert_eq!(items[2].line, 3);
    assert_eq!(items[2].key.as_deref(), Some("OPENAI_API_KEY"));
    assert_eq!(items[2].value.as_deref(), Some("sk-1"));
    assert_eq!(items[3].status, EnvStatus::Invalid);
    assert!(items[3].key.is_none());
    assert_eq!(items[4].status, EnvStatus::Ready);
    assert_eq!(items[4].key.as_deref(), Some(""));
    assert_eq!(items[5].value.as_deref(), Some("t"));
    assert_eq!(EnvStatus::Ready.as_str(), "ready");
    assert_eq!(EnvStatus::Ignored.as_str(), "ignored");
    assert_eq!(EnvStatus::Invalid.as_str(), "invalid");
}

#[test]
fn parse_env_drops_blank_lines_and_rejects_empty_keys() {
    let items = parse_env("A=1\n# c\n\n=2\nnokey\n B = ' x ' ");
    assert_eq!(items.len(), 4);
    let a = items[0].as_ref().unwrap();
    assert_eq!((a.key.as_str(), a.value.as_str()), ("A", "1"));
    assert!(items[1].is_none());
    assert!(items[2].is_none());
    let b = items[3].as_ref().unwrap();
    assert_eq!((b.key.as_str(), b.value.as_str()), ("B", " x "));
}

#[test]
fn export_writes_visible_records_as_env_lines() {
    let mut vault = Vault::default();
    vault.add(rec("B", "two words"));
    vault.add(rec("A", "plain"));
    let mut other = rec("C", "c");
    other.environment = "Prod".to_string();
    vault.add(other);
    assert!(vault.delete_at("A", None, None, Timestamp { seconds: 2, nanos: 0 }));
    assert_eq!(export_payload(&vault, None, Some("dev")), "B=\"two words\"");
    assert_eq!(export_payload(&vault, None, None), "C=c\nB=\"two words\"");
    assert_eq!(export_payload(&vault, Some("nope"), None), "");
}

#[test]
fn export_then_preview_reads_the_same_entries() {
    let mut vault = Vault::default();
    vault.add(rec("TOKEN", "has space"));
    vault.add(rec("EMPTY", ""));
    vault.add(rec("URL", "https://x.test/?a=b"));
    let payload = export_payload(&vault, None, None);
    let items = preview_env(&payload);
    let read: Vec<(String, String)> = items
        .iter()
        .map(|i| (i.key.clone().unwrap(), i.value.clone().unwrap()))
        .collect();
    assert_eq!(
        read,
        vec![
            ("URL".to_string(), "https://x.test/?a=b".to_string()),
            ("EMPTY".to_string(), String::new()),
            ("TOKEN".to_string(), "has space".to_string()),
        ]
    );
}

#[test]
fn unique_key_finds_the_first_free_copy_name() {
    let mut vault = Vault::default();
    assert_eq!(unique_key(&vault, "Demo", "Dev", "KEY"), "KEY_copy");
    vault.add(rec("KEY_copy", "x"));
    assert_eq!(unique_key(&vault, "demo", "dev", "KEY"), "KEY_copy2");
    vault.add(rec("KEY_copy2", "x"));
    vault.add(rec("KEY_copy3", "x"));
    assert_eq!(unique_key(&vault, "Demo", "Dev", "KEY"), "KEY_copy4");
    assert_eq!(unique_key(&vault, "Other", "Dev", "KEY"), "KEY_copy");
}

#[test]
fn dialog_import_counts_and_conflict_modes() {
    let mut vault = Vault::default();
    vault.add(rec("A", "old"));
    let stats = import_env_records(&mut vault, "A=new\nB=2\nbad\n# skip\n", "Demo", "Dev", "", ConflictMode::Skip);
    assert_eq!((stats.imported, stats.skipped, stats.invalid), (1, 1, 1));
    assert_eq!(vault.find("A", None, None).unwrap().value, "old");
    assert_eq!(vault.find("B", None, None).unwrap().notes, ".env import");

    let stats = import_env_records(&mut vault, "A=new", "Demo", "Dev", "Prov", ConflictMode::Overwrite);
    assert_eq!((stats.imported, stats.skipped, stats.invalid), (1, 0, 0));
    let a = vault.find("A", None, None).unwrap();
    assert_eq!(a.value, "new");
    assert_eq!(a.provider, "Prov");

    let before = vault.records.len();
    let stats = import_env_records(&mut vault, "A=third\nA=fourth", "Demo", "Dev", "", ConflictMode::Rename);
    assert_eq!(stats.imported, 2);
    assert_eq!(vault.records.len(), before + 2);
    assert_eq!(vault.find("A_copy", None, None).unwrap().value, "third");
    assert_eq!(vault.find("A_copy2", None, None).unwrap().value, "fourth");
    assert_eq!(vault.find("A", None, None).unwrap().value, "new");
}

#[test]
fn command_line_import_renames_with_a_time_stamp() {
    let mut vault = Vault::default();
    vault.add(rec("A", "old"));
    let items = preview_env("A=new\nB=2\n\nbroken");
    let stats = import_preview_items(&mut vault, &items, "Demo", "Dev", "", ConflictMode::Rename);
    assert_eq!((stats.imported, stats.skipped, stats.invalid), (2, 0, 1));
    let renamed = &vault.records[1];
    assert!(renamed.name.starts_with("A_"));
    assert_eq!(renamed.name.len(), "A_".len() + 14);
    assert!(renamed.name[2..].chars().all(|c| c.is_ascii_digit()));
    assert_eq!(renamed.value, "new");
    assert_eq!(vault.find("A", None, None).unwrap().value, "old");

    let stats = import_preview_items(&mut vault, &preview_env("A=x"), "Demo", "Dev", "", ConflictMode::Skip);
    assert_eq!((stats.imported, stats.skipped, stats.invalid), (0, 1, 0));
    let stats = import_preview_items(&mut vault, &preview_env("A=x"), "Demo", "Dev", "P", ConflictMode::Overwrite);
    assert_eq!((stats.imported, stats.skipped, stats.invalid), (1, 0, 0));
    assert_eq!(vault.find("A", None, None).unwrap().value, "x");
}

#[test]
fn conflict_mode_labels() {
    assert_eq!(conflict_mode_from_label(Some("Overwrite")), ConflictMode::Overwrite);
    assert_eq!(conflict_mode_from_label(Some("Rename")), ConflictMode::Rename);
    assert_eq!(conflict_mode_from_label(Some("Skip")), ConflictMode::Skip);
    assert_eq!(conflict_mode_from_label(None), ConflictMode::Skip);
}
