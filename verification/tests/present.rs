use shush_vault_core::filter::{filtered, visible_records, Filters};
use shush_vault_core::import::ImportStats;
use shush_vault_core::present::{
    can_mask, clipboard_setting_message, clipboard_should_clear, env_pill_class, clipboard_status, empty_state, import_summary, initials,
    is_yes_answer, list_table_lines, mask, not_found_error, pad, secret_input_is_complete,
    shown_status, Theme,
};
use shush_vault_core::record::Timestamp;
use shush_vault_core::text::{decimal_string, str_contains, str_eq_ignore_ascii_case, trim_str};
use shush_vault_core::{SecretRecord, Vault};

fn rec(workspace: &str, name: &str, value: &str, env: &str, provider: &str, notes: &str) -> SecretRecord {
    SecretRecord::create_at(1, Timestamp { seconds: 1, nanos: 0 }, workspace, name, value, env, provider, notes)
}

#[test]
fn mask_shows_bullets_and_the_last_four_bytes() {
    assert_eq!(mask(""), "•");
    assert_eq!(mask("abc"), "•••");
    assert_eq!(mask("abcd"), "••••");
    assert_eq!(mask("sk-secret"), "••••••••cret");
    assert_eq!(mask("é"), "••");
    assert_eq!(mask("abcdé"), "••••••••cdé");
    assert!(can_mask("abcdé"));
    assert!(!can_mask("abcé€"));
    assert!(can_mask("€"));
}

#[test]
fn theme_paints_only_when_enabled() {
    let on = Theme { enabled: true };
    let off = Theme { enabled: false };
    assert_eq!(on.success("ok"), "\u{1b}[32mok\u{1b}[0m");
    assert_eq!(on.error("e"), "\u{1b}[1;31me\u{1b}[0m");
    assert_eq!(on.key("k"), "\u{1b}[1;36mk\u{1b}[0m");
    assert_eq!(on.dim("d"), "\u{1b}[2md\u{1b}[0m");
    assert_eq!(on.header("h"), "\u{1b}[2;1mh\u{1b}[0m");
    assert_eq!(off.success("ok"), "ok");
    assert_eq!(on.env("Prod", "Prod "), "\u{1b}[31mProd \u{1b}[0m");
    assert_eq!(on.env("Dev", "Dev"), "\u{1b}[36mDev\u{1b}[0m");
    assert_eq!(on.env("Staging", "Staging"), "\u{1b}[33mStaging\u{1b}[0m");
    assert_eq!(on.env("QA", "QA "), "QA ");
    assert_eq!(off.env("Prod", "Prod"), "Prod");
    assert_eq!(on.status("ready"), "\u{1b}[32mready\u{1b}[0m");
    assert_eq!(on.status("ignored"), "\u{1b}[2mignored\u{1b}[0m");
    assert_eq!(on.status("invalid"), "\u{1b}[31minvalid\u{1b}[0m");
    assert_eq!(on.status("other"), "\u{1b}[33mother\u{1b}[0m");
}

#[test]
fn not_found_messages() {
    assert_eq!(not_found_error("K", None, None), "no secret named K");
    assert_eq!(not_found_error("K", Some("W"), None), "no secret named K in workspace W");
    assert_eq!(not_found_error("K", Some("W"), Some("Dev")), "no secret named K in workspace W / env Dev");
    assert_eq!(not_found_error("K", None, Some("Dev")), "no secret named K / env Dev");
}

#[test]
fn initials_of_names() {
    assert_eq!(initials("OPENAI_API_KEY"), "OA");
    assert_eq!(initials("stripe-secret"), "SS");
    assert_eq!(initials("token"), "To");
    assert_eq!(initials("x"), "X");
    assert_eq!(initials("   "), "·");
    assert_eq!(initials("__"), "__");
    assert_eq!(initials(" db.url "), "DU");
}

#[test]
fn status_lines() {
    assert_eq!(clipboard_status("Copied K.", Some(30)), "Copied K. Clipboard clears in 30s.");
    assert_eq!(clipboard_status("Copied K.", None), "Copied K. Clipboard auto-clear is off.");
    assert_eq!(clipboard_setting_message(Some(15)), "Clipboard clears after 15s.");
    assert_eq!(clipboard_setting_message(None), "Clipboard auto-clear is off.");
    assert_eq!(shown_status(0), "");
    assert_eq!(shown_status(1), "1 secret shown.");
    assert_eq!(shown_status(12), "12 secrets shown.");
    assert_eq!(
        import_summary(&ImportStats { imported: 3, skipped: 1, invalid: 0 }),
        "Imported 3, skipped 1, invalid 0."
    );
    assert_eq!(empty_state("x", 0).0, "No secrets yet");
    let (title, text) = empty_state("  open ", 4);
    assert_eq!(title, "No matches");
    assert_eq!(text, "Nothing matches “open” in the current filters.");
    assert_eq!(empty_state("  ", 4).0, "Nothing in this environment");
}

#[test]
fn yes_answers_and_form_completeness() {
    assert!(is_yes_answer("y\n"));
    assert!(is_yes_answer(" YES "));
    assert!(!is_yes_answer("Yes"));
    assert!(!is_yes_answer(""));
    assert!(secret_input_is_complete("K", "v"));
    assert!(!secret_input_is_complete("  ", "v"));
    assert!(!secret_input_is_complete("K", ""));
}

#[test]
fn text_helpers() {
    assert_eq!(decimal_string(0), "0");
    assert_eq!(decimal_string(1234567890), "1234567890");
    assert_eq!(trim_str("\t a b \n"), "a b");
    assert!(str_eq_ignore_ascii_case("Prod", "pROD"));
    assert!(!str_eq_ignore_ascii_case("Prod", "Pro"));
    assert!(str_contains("openai", "nai"));
    assert!(str_contains("x", ""));
    assert!(!str_contains("ab", "abc"));
    assert_eq!(pad("ab", 4), "ab  ");
    assert_eq!(pad("abcdef", 4), "abcdef");
}

#[test]
fn command_line_filter() {
    let mut vault = Vault::default();
    vault.add(rec("Demo", "OPENAI_API_KEY", "1", "Dev", "OpenAI", ""));
    vault.add(rec("Other", "STRIPE", "2", "Prod", "", "billing"));
    vault.add(rec("Demo", "DB_URL", "3", "Prod", "", ""));
    let live = vault.visible_records();
    let names = |v: Vec<&SecretRecord>| v.iter().map(|r| r.name.clone()).collect::<Vec<_>>();
    assert_eq!(names(filtered(&live, Some("demo"), None, None)), vec!["DB_URL", "OPENAI_API_KEY"]);
    assert_eq!(names(filtered(&live, None, Some("PROD"), None)), vec!["DB_URL", "STRIPE"]);
    assert_eq!(names(filtered(&live, None, None, Some("OPENai"))), vec!["OPENAI_API_KEY"]);
    assert_eq!(names(filtered(&live, None, None, Some("BILL"))), vec!["STRIPE"]);
    assert_eq!(names(filtered(&live, Some("Demo"), Some("Dev"), Some("zzz"))), Vec::<String>::new());
}

#[test]
fn app_filter() {
    let mut vault = Vault::default();
    vault.add(rec("Demo", "OPENAI_API_KEY", "1", "Dev", "OpenAI", ""));
    vault.add(rec("Other", "STRIPE", "2", "Prod", "", ""));
    let all = Filters { search: "  ".to_string(), environment: None };
    assert_eq!(visible_records(&vault, &all).len(), 2);
    let prod = Filters { search: String::new(), environment: Some("prod".to_string()) };
    assert_eq!(visible_records(&vault, &prod)[0].name, "STRIPE");
    let search = Filters { search: " OpenAI ".to_string(), environment: None };
    assert_eq!(visible_records(&vault, &search)[0].name, "OPENAI_API_KEY");
    assert!(vault.delete("STRIPE", None, None));
    assert!(visible_records(&vault, &prod).is_empty());
}

#[test]
fn listing_table_columns() {
    let mut vault = Vault::default();
    vault.add(rec("Demo", "OPENAI_API_KEY", "sk-secret", "Dev", "", ""));
    let live = vault.visible_records();
    let lines = list_table_lines(&live, &Theme { enabled: false });
    assert_eq!(lines.len(), 2);
    assert_eq!(lines[0], "ENV  WORKSPACE  KEY             VALUE");
    assert_eq!(lines[1], "Dev  Demo       OPENAI_API_KEY  ••••••••cret");
    let empty: Vec<&SecretRecord> = Vec::new();
    assert_eq!(list_table_lines(&empty, &Theme { enabled: false })[0], "ENV  WORKSPACE  KEY  VALUE");
}

#[test]
fn clipboard_is_cleared_only_while_it_holds_the_copy() {
    assert!(clipboard_should_clear(Some("sk-1"), "sk-1"));
    assert!(!clipboard_should_clear(Some("other"), "sk-1"));
    assert!(!clipboard_should_clear(None, "sk-1"));
}

#[test]
fn environment_badges() {
    assert_eq!(env_pill_class("Dev"), Some("dev"));
    assert_eq!(env_pill_class("Staging"), Some("staging"));
    assert_eq!(env_pill_class("Prod"), Some("prod"));
    assert_eq!(env_pill_class("prod"), None);
}

#[test]
fn mask_depends_only_on_short_length_or_last_four_bytes() {
    // Short values: only the byte length matters.
    assert_eq!(mask("ab"), mask("é"));
    assert_eq!(mask("wxyz"), mask("€a"));
    assert_ne!(mask("abc"), mask("abcd"));
    // Longer values: only the last four bytes matter, not the length.
    assert_eq!(mask("sk-live-0000-cret"), mask("xcret"));
    assert_eq!(mask("ααααcdé"), mask("zzzzzzzzzzcdé"));
    assert_ne!(mask("sk-secret"), mask("sk-secrex"));
}
