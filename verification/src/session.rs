//! The decisions of the desktop app: unlocking and locking the vault, the
//! environment filter and the pasted `.env` import. The app performs what
//! they decide (reading and writing the vault file, updating the window).
use vstd::prelude::*;
use crate::dotenv::{lines_spec, parse_env_spec};
use crate::filter::Filters;
use crate::import::{
    conflict_mode_from_label, conflict_mode_of, dialog_import, import_env_records, start_tally, tally_is, EntryClock,
    ImportStats,
};
use crate::present::{import_summary, import_summary_spec};
use crate::record::{RecordView, Vault};
use crate::text::{str_eq, trim, trim_str};

verus! {

/// What the desktop app holds: the open vault, the passphrase that opened it
/// (empty while the vault is locked) and the filters of the list.
pub struct Session {
    pub vault: Vault,
    pub passphrase: String,
    pub filters: Filters,
}

pub open spec fn message_view(m: Option<String>) -> Option<Seq<char>> {
    match m {
        Some(t) => Some(t@),
        None => None,
    }
}

/// Why an unlock attempt cannot start: a blank passphrase.
pub open spec fn unlock_refusal_spec(entered: Seq<char>) -> Option<Seq<char>> {
    if trim(entered).len() == 0 {
        Some("Enter a passphrase."@)
    } else {
        None
    }
}

/// Why an action on the vault cannot run: the vault is locked.
pub open spec fn locked_refusal_spec(passphrase: Seq<char>) -> Option<Seq<char>> {
    if passphrase.len() == 0 {
        Some("Vault is locked."@)
    } else {
        None
    }
}

/// Why a pasted import cannot run: the vault is locked, or nothing was pasted.
pub open spec fn import_refusal_spec(passphrase: Seq<char>, content: Seq<char>) -> Option<Seq<char>> {
    if passphrase.len() == 0 {
        Some("Vault is locked."@)
    } else if trim(content).len() == 0 {
        Some("Paste KEY=value lines first."@)
    } else {
        None
    }
}

/// The environment filter that a toggle labelled `label` selects; a toggle
/// without a label counts as `All`, which filters nothing.
pub open spec fn environment_filter_of(label: Option<&str>) -> Option<Seq<char>> {
    match label {
        Some(l) => if l@ == "All"@ { None } else { Some(l@) },
        None => None,
    }
}

/// The environment a form or the import dialog stores: the label of the
/// active toggle, `Dev` when none is active.
pub open spec fn chosen_environment_of(label: Option<&str>) -> Seq<char> {
    match label {
        Some(l) => l@,
        None => "Dev"@,
    }
}

/// What the import dialog does with its input.
pub enum ImportOutcome {
    /// Nothing was imported; the message says why.
    Refused(String),
    /// The entries were taken into the vault; it is saved only when at least
    /// one entry was imported.
    Imported { stats: ImportStats, save: bool },
}

/// The message of an unlock attempt that cannot start, if any.
pub fn unlock_refusal(entered: &str) -> (msg: Option<String>)
    ensures
        message_view(msg) == unlock_refusal_spec(entered@),
{
    let t = trim_str(entered);
    if t.as_str().is_empty() {
        Some("Enter a passphrase.".to_owned())
    } else {
        None
    }
}

/// The message of an action refused because the vault is locked, if it is.
pub fn locked_refusal(passphrase: &str) -> (msg: Option<String>)
    ensures
        message_view(msg) == locked_refusal_spec(passphrase@),
{
    if passphrase.is_empty() {
        Some("Vault is locked.".to_owned())
    } else {
        None
    }
}

/// The message of a pasted import that cannot run, if any.
pub fn import_refusal(passphrase: &str, content: &str) -> (msg: Option<String>)
    ensures
        message_view(msg) == import_refusal_spec(passphrase@, content@),
{
    if passphrase.is_empty() {
        return Some("Vault is locked.".to_owned());
    }
    let t = trim_str(content);
    if t.as_str().is_empty() {
        Some("Paste KEY=value lines first.".to_owned())
    } else {
        None
    }
}

/// The environment filter that the toggle labelled `label` selects.
pub fn environment_filter(label: Option<&str>) -> (env: Option<String>)
    ensures
        message_view(env) == environment_filter_of(label),
{
    match label {
        Some(l) => if str_eq(l, "All") { None } else { Some(l.to_owned()) },
        None => None,
    }
}

/// The environment stored for the active toggle `label` (`Dev` without one).
pub fn chosen_environment(label: Option<&str>) -> (env: String)
    ensures
        env@ == chosen_environment_of(label),
{
    match label {
        Some(l) => l.to_owned(),
        None => "Dev".to_owned(),
    }
}

/// The status line after a pasted import: the counts, or the failure to save.
pub fn import_status(stats: &ImportStats, save_failed: bool) -> (msg: String)
    ensures
        msg@ == if save_failed {
            "Could not save encrypted vault."@
        } else {
            import_summary_spec(stats.imported as nat, stats.skipped as nat, stats.invalid as nat)
        },
{
    if save_failed {
        "Could not save encrypted vault.".to_owned()
    } else {
        import_summary(stats)
    }
}

impl Session {
    /// A locked session: no records, no passphrase, no search, every
    /// environment shown.
    pub fn locked() -> (s: Session)
        ensures
            s.vault@ == Seq::<RecordView>::empty(),
            s.passphrase@.len() == 0,
            s.filters.search@.len() == 0,
            s.filters.environment is None,
    {
        Session {
            vault: Vault::default(),
            passphrase: String::new(),
            filters: Filters { search: String::new(), environment: None },
        }
    }

    /// Locks the session: the records and the passphrase are dropped and the
    /// search is cleared; the environment filter stays.
    pub fn lock(&mut self) -> (status: String)
        ensures
            final(self).vault@ == Seq::<RecordView>::empty(),
            final(self).passphrase@.len() == 0,
            final(self).filters.search@.len() == 0,
            final(self).filters.environment == old(self).filters.environment,
            status@ == "Locked."@,
    {
        self.vault = Vault::default();
        self.passphrase = String::new();
        self.filters.search = String::new();
        "Locked.".to_owned()
    }

    /// Ends an unlock attempt with what reading the vault file under
    /// `entered` gave: the vault, or nothing when the passphrase did not open
    /// it. Only a successful attempt changes the session.
    pub fn finish_unlock(&mut self, entered: String, loaded: Option<Vault>) -> (status: String)
        ensures
            match loaded {
                Some(v) => {
                    &&& final(self).vault@ == v@
                    &&& final(self).passphrase@ == entered@
                    &&& final(self).filters == old(self).filters
                    &&& status@.len() == 0
                },
                None => {
                    &&& *final(self) == *old(self)
                    &&& status@ == "That passphrase did not unlock the vault."@
                },
            },
    {
        match loaded {
            Some(v) => {
                self.vault = v;
                self.passphrase = entered;
                String::new()
            },
            None => "That passphrase did not unlock the vault.".to_owned(),
        }
    }

    /// Selects the environment filter of the toggle labelled `label`.
    pub fn select_environment(&mut self, label: Option<&str>)
        ensures
            message_view(final(self).filters.environment) == environment_filter_of(label),
            final(self).filters.search == old(self).filters.search,
            final(self).vault == old(self).vault,
            final(self).passphrase == old(self).passphrase,
    {
        self.filters.environment = environment_filter(label);
    }

    /// Imports pasted `.env` text as the import dialog does: refused while the
    /// vault is locked or when nothing was pasted; otherwise the entries go
    /// into the workspace, the environment of the active toggle (`Dev` without
    /// one) and the conflict mode of the active label, and the vault is to be
    /// saved when at least one entry was imported.
    pub fn import_pasted(
        &mut self,
        content: &str,
        workspace: &str,
        environment_label: Option<&str>,
        provider: &str,
        conflict_label: Option<&str>,
    ) -> (out: ImportOutcome)
        ensures
            match import_refusal_spec(old(self).passphrase@, content@) {
                Some(m) => out matches ImportOutcome::Refused(t) && t@ == m && *final(self) == *old(self),
                None => out matches ImportOutcome::Imported { stats, save } && {
                    &&& save == (stats.imported > 0)
                    &&& final(self).passphrase == old(self).passphrase
                    &&& final(self).filters == old(self).filters
                    &&& exists|clocks: Seq<EntryClock>|
                        clocks.len() == parse_env_spec(lines_spec(content@)).len() && tally_is(
                            #[trigger] dialog_import(
                                start_tally(old(self).vault@),
                                parse_env_spec(lines_spec(content@)),
                                clocks,
                                workspace@,
                                chosen_environment_of(environment_label),
                                provider@,
                                conflict_mode_of(conflict_label),
                            ),
                            final(self).vault@,
                            stats,
                        )
                },
            },
    {
        match import_refusal(self.passphrase.as_str(), content) {
            Some(m) => return ImportOutcome::Refused(m),
            None => {},
        }
        let environment = chosen_environment(environment_label);
        let conflict = conflict_mode_from_label(conflict_label);
        let stats = import_env_records(&mut self.vault, content, workspace, environment.as_str(), provider, conflict);
        let save = stats.imported > 0;
        ImportOutcome::Imported { stats, save }
    }
}

} // verus!
