use shush_vault_core::session::{
    chosen_environment, environment_filter, import_refusal, import_status, locked_refusal, unlock_refusal,
    ImportOutcome, Session,
};
use shush_vault_core::{SecretRecord, Vault};

fn unlocked_with(names: &[&str]) -> Session {
    let mut s = Session::locked();
    let mut v = Vault::default();
    for n in names {
        v.add(SecretRecord::create("Personal", n, "value", "Dev", "", ""));
    }
    let status = s.finish_unlock("pw".to_owned(), Some(v));
    assert_eq!(status, "");
    s
}

#[test]
fn blank_passphrase_does_not_start_an_unlock() {
    assert_eq!(unlock_refusal(""), Some("Enter a passphrase.".to_owned()));
    assert_eq!(unlock_refusal("  \t "), Some("Enter a passphrase.".to_owned()));
    assert_eq!(unlock_refusal(" pw "), None);
}

#[test]
fn failed_unlock_leaves_the_session_locked() {
    let mut s = Session::locked();
    let status = s.finish_unlock("wrong".to_owned(), None);
    assert_eq!(status, "That passphrase did not unlock the vault.");
    assert!(s.passphrase.is_empty());
    assert!(s.vault.records.is_empty());
}

#[test]
fn unlock_then_lock_clears_vault_passphrase_and_search() {
    let mut s = unlocked_with(&["OPENAI_API_KEY", "STRIPE_KEY"]);
    assert_eq!(s.passphrase, "pw");
    assert_eq!(s.vault.records.len(), 2);
    s.filters.search = "stripe".to_owned();
    s.select_environment(Some("Prod"));
    let status = s.lock();
    assert_eq!(status, "Locked.");
    assert!(s.vault.records.is_empty());
    assert!(s.passphrase.is_empty());
    assert!(s.filters.search.is_empty());
    assert_eq!(s.filters.environment, Some("Prod".to_owned()));
}

#[test]
fn all_label_filters_nothing() {
    assert_eq!(environment_filter(Some("All")), None);
    assert_eq!(environment_filter(None), None);
    assert_eq!(environment_filter(Some("Staging")), Some("Staging".to_owned()));
    let mut s = Session::locked();
    s.select_environment(Some("Dev"));
    assert_eq!(s.filters.environment, Some("Dev".to_owned()));
    s.select_environment(Some("All"));
    assert_eq!(s.filters.environment, None);
}

#[test]
fn environment_defaults_to_dev() {
    assert_eq!(chosen_environment(None), "Dev");
    assert_eq!(chosen_environment(Some("Prod")), "Prod");
}

#[test]
fn locked_and_empty_paste_are_refused() {
    assert_eq!(locked_refusal(""), Some("Vault is locked.".to_owned()));
    assert_eq!(locked_refusal("pw"), None);
    assert_eq!(import_refusal("", "A=1"), Some("Vault is locked.".to_owned()));
    assert_eq!(import_refusal("pw", " \n\t"), Some("Paste KEY=value lines first.".to_owned()));
    assert_eq!(import_refusal("pw", "A=1"), None);

    let mut s = Session::locked();
    match s.import_pasted("A=1", "Personal", None, "", None) {
        ImportOutcome::Refused(m) => assert_eq!(m, "Vault is locked."),
        ImportOutcome::Imported { .. } => panic!("a locked vault took an import"),
    }
    let mut s = unlocked_with(&[]);
    match s.import_pasted("\n  \n", "Personal", None, "", None) {
        ImportOutcome::Refused(m) => assert_eq!(m, "Paste KEY=value lines first."),
        ImportOutcome::Imported { .. } => panic!("an empty paste was imported"),
    }
    assert!(s.vault.records.is_empty());
}

#[test]
fn pasted_import_saves_only_when_something_was_imported() {
    let mut s = unlocked_with(&[]);
    match s.import_pasted("A=1\nB=2\nnot a line", "Personal", None, "OpenAI", Some("Skip")) {
        ImportOutcome::Imported { stats, save } => {
            assert_eq!((stats.imported, stats.skipped, stats.invalid), (2, 0, 1));
            assert!(save);
            assert_eq!(import_status(&stats, false), "Imported 2, skipped 0, invalid 1.");
        }
        ImportOutcome::Refused(m) => panic!("refused: {m}"),
    }
    let a = s.vault.find("A", Some("Personal"), Some("Dev")).unwrap();
    assert_eq!(a.value, "1");
    assert_eq!(a.provider, "OpenAI");
    match s.import_pasted("A=9", "Personal", Some("Dev"), "", None) {
        ImportOutcome::Imported { stats, save } => {
            assert_eq!((stats.imported, stats.skipped, stats.invalid), (0, 1, 0));
            assert!(!save);
            assert_eq!(import_status(&stats, true), "Could not save encrypted vault.");
        }
        ImportOutcome::Refused(m) => panic!("refused: {m}"),
    }
    match s.import_pasted("A=9", "Personal", Some("Dev"), "", Some("Rename")) {
        ImportOutcome::Imported { stats, save } => {
            assert_eq!(stats.imported, 1);
            assert!(save);
        }
        ImportOutcome::Refused(m) => panic!("refused: {m}"),
    }
    assert_eq!(s.vault.find("A_copy", Some("Personal"), Some("Dev")).unwrap().value, "9");
}
