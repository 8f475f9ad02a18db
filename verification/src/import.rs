//! Importing `.env` entries into a vault, with the three ways of handling a key
//! that is already there.
use vstd::prelude::*;
use vstd::set_lib::{lemma_int_range, lemma_len_subset, lemma_map_size, set_int_range};
use crate::dotenv::{
    entry_views, lines_spec, parse_env, parse_env_spec, EnvItemView, EnvPreviewItem, EnvStatus, PreviewView,
};
use crate::record::{
    created_record, has_match, is_first_match, lemma_first_match_unique, matches_query, updated_record, Query,
    RecordView, SecretRecord, Timestamp, Vault,
};
use crate::text::{decimal, decimal_string, lemma_decimal_injective, lemma_decimal_value, push_str};

verus! {

/// What to do with an entry whose key the vault already holds.
#[derive(PartialEq, Eq, Structural, Clone, Copy, Debug)]
pub enum ConflictMode {
    Skip,
    Overwrite,
    Rename,
}

/// Counts of an import.
pub struct ImportStats {
    pub imported: usize,
    pub skipped: usize,
    pub invalid: usize,
}

/// The lookup of `key` in one workspace and environment.
pub open spec fn scoped_query(key: Seq<char>, workspace: Seq<char>, environment: Seq<char>) -> Query {
    Query { key, workspace: Some(workspace), environment: Some(environment) }
}

/// The name tried as the `k`-th alternative to `base`: `base_copy`, then
/// `base_copy2`, `base_copy3`, ...
pub open spec fn copy_candidate(base: Seq<char>, k: nat) -> Seq<char> {
    if k == 1 {
        base + "_copy"@
    } else {
        base + "_copy"@ + decimal(k)
    }
}

pub open spec fn candidate_taken(s: Seq<RecordView>, workspace: Seq<char>, environment: Seq<char>, base: Seq<char>, k: nat) -> bool {
    has_match(s, scoped_query(copy_candidate(base, k), workspace, environment))
}

/// `k` is the first alternative that no live record in the scope uses.
pub open spec fn is_first_free(s: Seq<RecordView>, workspace: Seq<char>, environment: Seq<char>, base: Seq<char>, k: nat) -> bool {
    &&& k >= 1
    &&& !candidate_taken(s, workspace, environment, base, k)
    &&& forall|j: nat| 1 <= j < k ==> #[trigger] candidate_taken(s, workspace, environment, base, j)
}

/// The name `unique_key` picks.
pub open spec fn unique_key_spec(s: Seq<RecordView>, workspace: Seq<char>, environment: Seq<char>, base: Seq<char>) -> Seq<char> {
    copy_candidate(base, choose|k: nat| is_first_free(s, workspace, environment, base, k))
}

proof fn lemma_candidate_injective(base: Seq<char>, a: nat, b: nat)
    requires
        a >= 1,
        b >= 1,
        copy_candidate(base, a) == copy_candidate(base, b),
    ensures
        a == b,
{
    let p = base + "_copy"@;
    lemma_decimal_value(a);
    lemma_decimal_value(b);
    if a != 1 && b != 1 {
        assert((p + decimal(a)).skip(p.len() as int) =~= decimal(a));
        assert((p + decimal(b)).skip(p.len() as int) =~= decimal(b));
        lemma_decimal_injective(a, b);
    } else if a == 1 && b != 1 {
        assert((p + decimal(b)).len() > p.len());
    } else if a != 1 && b == 1 {
        assert((p + decimal(a)).len() > p.len());
    }
}

/// Only as many alternatives can be taken as there are records.
proof fn lemma_taken_bound(s: Seq<RecordView>, workspace: Seq<char>, environment: Seq<char>, base: Seq<char>, k: nat)
    requires
        forall|j: nat| 1 <= j <= k ==> #[trigger] candidate_taken(s, workspace, environment, base, j),
    ensures
        k <= s.len(),
{
    let f = |j: int| {
        let jn = j as nat;
        choose|i: int|
            0 <= i < s.len() && matches_query(
                #[trigger] s[i],
                scoped_query(copy_candidate(base, jn), workspace, environment),
            )
    };
    let x = set_int_range(1, (k + 1) as int);
    let y = x.map(f);
    lemma_int_range(1, (k + 1) as int);
    assert forall|j: int| x.contains(j) implies 0 <= #[trigger] f(j) < s.len()
        && s[f(j)].name == copy_candidate(base, j as nat) by {
        assert(candidate_taken(s, workspace, environment, base, j as nat));
    }
    assert(vstd::relations::injective_on(f, x)) by {
        assert forall|a: int, b: int| x.contains(a) && x.contains(b) && #[trigger] f(a) == #[trigger] f(b) implies a == b by {
            lemma_candidate_injective(base, a as nat, b as nat);
        }
    }
    lemma_map_size(x, y, f);
    let z = set_int_range(0, s.len() as int);
    lemma_int_range(0, s.len() as int);
    assert(y.subset_of(z));
    lemma_len_subset(y, z);
}

/// There is exactly one first free alternative.
proof fn lemma_first_free(s: Seq<RecordView>, workspace: Seq<char>, environment: Seq<char>, base: Seq<char>, k: nat)
    requires
        is_first_free(s, workspace, environment, base, k),
    ensures
        unique_key_spec(s, workspace, environment, base) == copy_candidate(base, k),
{
    let c = choose|m: nat| is_first_free(s, workspace, environment, base, m);
    assert(is_first_free(s, workspace, environment, base, c));
    if c < k {
        assert(candidate_taken(s, workspace, environment, base, c));
    } else if k < c {
        assert(candidate_taken(s, workspace, environment, base, k));
    }
}

fn candidate_string(base: &str, k: u128) -> (out: String)
    requires
        k >= 1,
    ensures
        out@ == copy_candidate(base@, k as nat),
{
    let mut out = String::new();
    push_str(&mut out, base);
    push_str(&mut out, "_copy");
    if k != 1 {
        let digits = decimal_string(k);
        push_str(&mut out, digits.as_str());
    }
    assert(Seq::<char>::empty() + base@ =~= base@);
    out
}

/// A name for a copy of `base` that no live record in the workspace and
/// environment uses: `base_copy`, else `base_copy2`, `base_copy3`, ...
pub fn unique_key(vault: &Vault, workspace: &str, environment: &str, base: &str) -> (out: String)
    ensures
        out@ == unique_key_spec(vault@, workspace@, environment@, base@),
        !has_match(vault@, scoped_query(out@, workspace@, environment@)),
{
    let n = vault.records.len();
    let mut k: u128 = 1;
    loop
        invariant
            n == vault@.len(),
            1 <= k <= vault@.len() + 1,
            forall|j: nat| 1 <= j < k ==> #[trigger] candidate_taken(vault@, workspace@, environment@, base@, j),
        decreases vault@.len() + 1 - k,
    {
        let candidate = candidate_string(base, k);
        if vault.find(candidate.as_str(), Some(workspace), Some(environment)).is_none() {
            proof {
                lemma_first_free(vault@, workspace@, environment@, base@, k as nat);
            }
            return candidate;
        }
        proof {
            lemma_taken_bound(vault@, workspace@, environment@, base@, k as nat);
        }
        k = k + 1;
    }
}

pub open spec fn is_ascii_digit(c: char) -> bool {
    '0' <= c <= '9'
}

/// The shape of a `%Y%m%d%H%M%S` time stamp after 1970: fourteen digits, or,
/// for a year past 9999, a `+` and at least fifteen digits.
pub open spec fn compact_stamp_shape(s: Seq<char>) -> bool {
    &&& s.len() == 14 || (s.len() >= 16 && s[0] == '+')
    &&& forall|i: int| 0 <= i < s.len() && !(i == 0 && s[0] == '+') ==> is_ascii_digit(#[trigger] s[i])
}

/// `chrono::Utc::now().format("%Y%m%d%H%M%S")` as a string. chrono writes the
/// year as four zero-padded digits for 0..=9999 and with a sign and at least
/// four digits otherwise, then month, day, hour, minute and second as two
/// zero-padded digits each; `Utc::now` panics for a clock before 1970, so a
/// returned year is at least 1970. Which time the clock reads is not stated.
#[verifier::external_body]
pub(crate) fn current_compact_stamp() -> (out: String)
    ensures
        compact_stamp_shape(out@),
{
    chrono::Utc::now().format("%Y%m%d%H%M%S").to_string()
}

/// A stamp of the right shape, standing in for the clock where an entry takes
/// none.
spec fn unused_stamp() -> Seq<char> {
    Seq::new(14, |i: int| '0')
}

/// What the random source and the clock gave while one entry was imported.
pub struct EntryClock {
    pub id: u128,
    pub now: Timestamp,
    pub stamp: Seq<char>,
}

/// The vault and the counts part-way through an import.
pub struct ImportTally {
    pub records: Seq<RecordView>,
    pub imported: nat,
    pub skipped: nat,
    pub invalid: nat,
}

pub open spec fn first_match_index(s: Seq<RecordView>, q: Query) -> int {
    choose|i: int| is_first_match(s, i, q)
}

/// Takes the entry `key=value` into the tally. A key already present in the
/// scope is skipped, overwritten (value and provider) or stored again under
/// `renamed`, as `mode` says; a new key is stored as a new record.
pub open spec fn take_entry(
    t: ImportTally,
    key: Seq<char>,
    value: Seq<char>,
    workspace: Seq<char>,
    environment: Seq<char>,
    provider: Seq<char>,
    mode: ConflictMode,
    renamed: Seq<char>,
    c: EntryClock,
) -> ImportTally {
    let q = scoped_query(key, workspace, environment);
    let exists = has_match(t.records, q);
    if exists && mode == ConflictMode::Skip {
        ImportTally { skipped: t.skipped + 1, ..t }
    } else if exists && mode == ConflictMode::Overwrite {
        let i = first_match_index(t.records, q);
        ImportTally {
            records: t.records.update(
                i,
                updated_record(t.records[i], Some(value), Some(provider), None, c.now),
            ),
            imported: t.imported + 1,
            ..t
        }
    } else {
        let name = if exists { renamed } else { key };
        ImportTally {
            records: seq![created_record(c.id, c.now, workspace, name, value, environment, provider, ".env import"@)]
                + t.records,
            imported: t.imported + 1,
            ..t
        }
    }
}

/// One step of the command-line import: blank and comment lines are passed
/// over, invalid lines counted, and a renamed key gets `_` and a time stamp.
pub open spec fn cli_step(
    t: ImportTally,
    item: PreviewView,
    workspace: Seq<char>,
    environment: Seq<char>,
    provider: Seq<char>,
    mode: ConflictMode,
    c: EntryClock,
) -> ImportTally {
    match item.status {
        EnvStatus::Ignored => t,
        EnvStatus::Invalid => ImportTally { invalid: t.invalid + 1, ..t },
        EnvStatus::Ready => {
            let key = item.key->0;
            take_entry(t, key, item.value->0, workspace, environment, provider, mode, key + "_"@ + c.stamp, c)
        },
    }
}

pub open spec fn cli_import(
    t: ImportTally,
    items: Seq<PreviewView>,
    clocks: Seq<EntryClock>,
    workspace: Seq<char>,
    environment: Seq<char>,
    provider: Seq<char>,
    mode: ConflictMode,
) -> ImportTally
    decreases items.len(),
{
    if items.len() == 0 {
        t
    } else {
        cli_step(
            cli_import(t, items.drop_last(), clocks.drop_last(), workspace, environment, provider, mode),
            items.last(),
            workspace,
            environment,
            provider,
            mode,
            clocks.last(),
        )
    }
}

/// One step of the dialog import: an invalid entry is counted, and a renamed
/// key gets the first free `_copy` name.
pub open spec fn dialog_step(
    t: ImportTally,
    entry: Option<EnvItemView>,
    workspace: Seq<char>,
    environment: Seq<char>,
    provider: Seq<char>,
    mode: ConflictMode,
    c: EntryClock,
) -> ImportTally {
    match entry {
        None => ImportTally { invalid: t.invalid + 1, ..t },
        Some(e) => take_entry(
            t,
            e.key,
            e.value,
            workspace,
            environment,
            provider,
            mode,
            unique_key_spec(t.records, workspace, environment, e.key),
            c,
        ),
    }
}

pub open spec fn dialog_import(
    t: ImportTally,
    entries: Seq<Option<EnvItemView>>,
    clocks: Seq<EntryClock>,
    workspace: Seq<char>,
    environment: Seq<char>,
    provider: Seq<char>,
    mode: ConflictMode,
) -> ImportTally
    decreases entries.len(),
{
    if entries.len() == 0 {
        t
    } else {
        dialog_step(
            dialog_import(t, entries.drop_last(), clocks.drop_last(), workspace, environment, provider, mode),
            entries.last(),
            workspace,
            environment,
            provider,
            mode,
            clocks.last(),
        )
    }
}

pub open spec fn start_tally(s: Seq<RecordView>) -> ImportTally {
    ImportTally { records: s, imported: 0, skipped: 0, invalid: 0 }
}

pub open spec fn tally_is(t: ImportTally, records: Seq<RecordView>, stats: ImportStats) -> bool {
    &&& t.records == records
    &&& t.imported == stats.imported
    &&& t.skipped == stats.skipped
    &&& t.invalid == stats.invalid
}

/// Takes the entry into the vault; `renamed` is the name used for a key that
/// is already present when `mode` is `Rename`.
fn import_entry(
    vault: &mut Vault,
    stats: &mut ImportStats,
    key: &str,
    value: &str,
    workspace: &str,
    environment: &str,
    provider: &str,
    mode: ConflictMode,
    renamed: &str,
) -> (c: Ghost<EntryClock>)
    requires
        old(stats).imported + old(stats).skipped + old(stats).invalid < usize::MAX,
    ensures
        tally_is(
            take_entry(
                ImportTally {
                    records: old(vault)@,
                    imported: old(stats).imported as nat,
                    skipped: old(stats).skipped as nat,
                    invalid: old(stats).invalid as nat,
                },
                key@,
                value@,
                workspace@,
                environment@,
                provider@,
                mode,
                renamed@,
                c@,
            ),
            final(vault)@,
            *final(stats),
        ),
        final(stats).imported + final(stats).skipped + final(stats).invalid == old(stats).imported
            + old(stats).skipped + old(stats).invalid + 1,
        final(stats).invalid == old(stats).invalid,
{
    let ghost q = scoped_query(key@, workspace@, environment@);
    let exists = vault.find(key, Some(workspace), Some(environment)).is_some();
    if exists && mode == ConflictMode::Skip {
        stats.skipped = stats.skipped + 1;
        return Ghost(EntryClock { id: 0, now: Timestamp { seconds: 0, nanos: 0 }, stamp: Seq::empty() });
    }
    if exists && mode == ConflictMode::Overwrite {
        let ghost before = vault@;
        let ghost i = first_match_index(before, q);
        proof {
            let w = choose|w: int| 0 <= w < before.len() && matches_query(#[trigger] before[w], q);
            lemma_first_match_exists(before, q, w);
            lemma_first_match_unique(before, i, q);
        }
        let found = vault.update(key, Some(workspace), Some(environment), Some(value), Some(provider), None);
        let ghost now = choose|now: Timestamp| vault@ == before.update(
            i,
            updated_record(before[i], Some(value@), Some(provider@), None, now),
        );
        if found {
            stats.imported = stats.imported + 1;
        } else {
            stats.skipped = stats.skipped + 1;
        }
        return Ghost(EntryClock { id: 0, now, stamp: Seq::empty() });
    }
    let name = if exists { renamed } else { key };
    let record = SecretRecord::create(workspace, name, value, environment, provider, ".env import");
    let ghost c = EntryClock { id: record.id, now: record.created_at, stamp: Seq::empty() };
    vault.add(record);
    stats.imported = stats.imported + 1;
    Ghost(c)
}

/// There is a first match wherever there is a match.
pub proof fn lemma_first_match_exists(s: Seq<RecordView>, q: Query, w: int)
    requires
        0 <= w < s.len(),
        matches_query(s[w], q),
    ensures
        is_first_match(s, first_match_index(s, q), q),
    decreases w,
{
    if forall|j: int| 0 <= j < w ==> !matches_query(#[trigger] s[j], q) {
        assert(is_first_match(s, w, q));
    } else {
        let v = choose|j: int| 0 <= j < w && matches_query(#[trigger] s[j], q);
        lemma_first_match_exists(s, q, v);
    }
}

pub open spec fn preview_views(items: Seq<EnvPreviewItem>) -> Seq<PreviewView> {
    items.map_values(|i: EnvPreviewItem| i@)
}

/// Every `Ready` item carries its key and value, as `preview_env` makes them.
pub open spec fn ready_items_complete(items: Seq<EnvPreviewItem>) -> bool {
    forall|k: int| 0 <= k < items.len() && (#[trigger] items[k]).status == EnvStatus::Ready
        ==> items[k].key is Some && items[k].value is Some
}

/// Imports the previewed lines of a `.env` file into the vault (the
/// command-line import): blank and comment lines are passed over, invalid
/// lines are counted, and a key already present in the workspace and
/// environment is handled as `conflict` says, a renamed one getting `_` and
/// the current time as `%Y%m%d%H%M%S`.
pub fn import_preview_items(
    vault: &mut Vault,
    items: &Vec<EnvPreviewItem>,
    workspace: &str,
    environment: &str,
    provider: &str,
    conflict: ConflictMode,
) -> (stats: ImportStats)
    requires
        ready_items_complete(items@),
    ensures
        exists|clocks: Seq<EntryClock>|
            clocks.len() == items@.len()
                && (forall|i: int| 0 <= i < clocks.len() ==> compact_stamp_shape(#[trigger] clocks[i].stamp))
                && tally_is(
                #[trigger] cli_import(
                    start_tally(old(vault)@),
                    preview_views(items@),
                    clocks,
                    workspace@,
                    environment@,
                    provider@,
                    conflict,
                ),
                final(vault)@,
                stats,
            ),
{
    let mut stats = ImportStats { imported: 0, skipped: 0, invalid: 0 };
    let ghost start = vault@;
    let ghost views = preview_views(items@);
    let ghost mut clocks: Seq<EntryClock> = Seq::empty();
    let mut k: usize = 0;
    while k < items.len()
        invariant
            k <= items@.len(),
            ready_items_complete(items@),
            views == preview_views(items@),
            clocks.len() == k,
            forall|i: int| 0 <= i < clocks.len() ==> compact_stamp_shape(#[trigger] clocks[i].stamp),
            stats.imported + stats.skipped + stats.invalid <= k,
            tally_is(
                cli_import(start_tally(start), views.take(k as int), clocks, workspace@, environment@, provider@, conflict),
                vault@,
                stats,
            ),
        decreases items@.len() - k,
    {
        let ghost before = cli_import(start_tally(start), views.take(k as int), clocks, workspace@, environment@, provider@, conflict);
        let ghost old_clocks = clocks;
        assert(views.take(k + 1).drop_last() =~= views.take(k as int));
        let item = &items[k];
        assert(views.take(k + 1).last() == item@);
        match item.status {
            EnvStatus::Ignored => {
                proof {
                    clocks = clocks.push(EntryClock { id: 0, now: Timestamp { seconds: 0, nanos: 0 }, stamp: unused_stamp() });
                }
            },
            EnvStatus::Invalid => {
                stats.invalid = stats.invalid + 1;
                proof {
                    clocks = clocks.push(EntryClock { id: 0, now: Timestamp { seconds: 0, nanos: 0 }, stamp: unused_stamp() });
                }
            },
            EnvStatus::Ready => {
                let key = match &item.key {
                    Some(key) => key,
                    None => {
                        assert(false);
                        return stats;
                    },
                };
                let value = match &item.value {
                    Some(value) => value,
                    None => {
                        assert(false);
                        return stats;
                    },
                };
                let exists = vault.find(key.as_str(), Some(workspace), Some(environment)).is_some();
                let mut renamed = String::new();
                let mut stamp = String::new();
                if exists && conflict == ConflictMode::Rename {
                    stamp = current_compact_stamp();
                    push_str(&mut renamed, key.as_str());
                    push_str(&mut renamed, "_");
                    push_str(&mut renamed, stamp.as_str());
                    assert(renamed@ =~= key@ + "_"@ + stamp@);
                }
                let c = import_entry(
                    vault,
                    &mut stats,
                    key.as_str(),
                    value.as_str(),
                    workspace,
                    environment,
                    provider,
                    conflict,
                    renamed.as_str(),
                );
                proof {
                    let c2 = EntryClock {
                        stamp: if exists && conflict == ConflictMode::Rename { stamp@ } else { unused_stamp() },
                        ..c@
                    };
                    clocks = clocks.push(c2);
                }
            },
        }
        proof {
            assert(clocks.drop_last() =~= old_clocks);
            assert(cli_import(start_tally(start), views.take(k + 1), clocks, workspace@, environment@, provider@, conflict)
                == cli_step(before, item@, workspace@, environment@, provider@, conflict, clocks.last()));
        }
        k = k + 1;
    }
    assert(views.take(items@.len() as int) =~= views);
    stats
}

/// Imports the `KEY=value` entries of a `.env` text into the vault (the
/// dialog import): invalid entries are counted, and a key already present in
/// the workspace and environment is handled as `conflict` says, a renamed one
/// getting the first free `_copy` name.
pub fn import_env_records(
    vault: &mut Vault,
    content: &str,
    workspace: &str,
    environment: &str,
    provider: &str,
    conflict: ConflictMode,
) -> (stats: ImportStats)
    ensures
        exists|clocks: Seq<EntryClock>|
            clocks.len() == parse_env_spec(lines_spec(content@)).len() && tally_is(
                #[trigger] dialog_import(
                    start_tally(old(vault)@),
                    parse_env_spec(lines_spec(content@)),
                    clocks,
                    workspace@,
                    environment@,
                    provider@,
                    conflict,
                ),
                final(vault)@,
                stats,
            ),
{
    let entries = parse_env(content);
    let mut stats = ImportStats { imported: 0, skipped: 0, invalid: 0 };
    let ghost start = vault@;
    let ghost views = entry_views(entries@);
    let ghost mut clocks: Seq<EntryClock> = Seq::empty();
    let mut k: usize = 0;
    while k < entries.len()
        invariant
            k <= entries@.len(),
            views == entry_views(entries@),
            views == parse_env_spec(lines_spec(content@)),
            clocks.len() == k,
            stats.imported + stats.skipped + stats.invalid <= k,
            tally_is(
                dialog_import(start_tally(start), views.take(k as int), clocks, workspace@, environment@, provider@, conflict),
                vault@,
                stats,
            ),
        decreases entries@.len() - k,
    {
        let ghost before = dialog_import(start_tally(start), views.take(k as int), clocks, workspace@, environment@, provider@, conflict);
        let ghost old_clocks = clocks;
        assert(views.take(k + 1).drop_last() =~= views.take(k as int));
        assert(views.take(k + 1).last() == views[k as int]);
        match &entries[k] {
            None => {
                stats.invalid = stats.invalid + 1;
                proof {
                    clocks = clocks.push(EntryClock { id: 0, now: Timestamp { seconds: 0, nanos: 0 }, stamp: Seq::empty() });
                }
            },
            Some(item) => {
                let exists = vault.find(item.key.as_str(), Some(workspace), Some(environment)).is_some();
                let renamed = if exists && conflict == ConflictMode::Rename {
                    unique_key(vault, workspace, environment, item.key.as_str())
                } else {
                    String::new()
                };
                let c = import_entry(
                    vault,
                    &mut stats,
                    item.key.as_str(),
                    item.value.as_str(),
                    workspace,
                    environment,
                    provider,
                    conflict,
                    renamed.as_str(),
                );
                proof {
                    clocks = clocks.push(c@);
                }
            },
        }
        proof {
            assert(clocks.drop_last() =~= old_clocks);
            assert(dialog_import(start_tally(start), views.take(k + 1), clocks, workspace@, environment@, provider@, conflict)
                == dialog_step(before, views[k as int], workspace@, environment@, provider@, conflict, clocks.last()));
        }
        k = k + 1;
    }
    assert(views.take(entries@.len() as int) =~= views);
    stats
}

pub open spec fn tally_total(t: ImportTally) -> nat {
    t.imported + t.skipped + t.invalid
}

/// Number of previewed lines that are not blank or comments.
pub open spec fn counted_items(items: Seq<PreviewView>) -> nat
    decreases items.len(),
{
    if items.len() == 0 {
        0
    } else {
        counted_items(items.drop_last()) + if items.last().status == EnvStatus::Ignored { 0nat } else { 1nat }
    }
}

/// Every non-blank, non-comment line of a command-line import is counted once:
/// as imported, skipped or invalid.
pub proof fn law_cli_import_counts(
    t: ImportTally,
    items: Seq<PreviewView>,
    clocks: Seq<EntryClock>,
    workspace: Seq<char>,
    environment: Seq<char>,
    provider: Seq<char>,
    mode: ConflictMode,
)
    ensures
        tally_total(cli_import(t, items, clocks, workspace, environment, provider, mode)) == tally_total(t)
            + counted_items(items),
    decreases items.len(),
{
    if items.len() > 0 {
        law_cli_import_counts(t, items.drop_last(), clocks.drop_last(), workspace, environment, provider, mode);
    }
}

/// Every entry of a dialog import is counted once: as imported, skipped or
/// invalid.
pub proof fn law_dialog_import_counts(
    t: ImportTally,
    entries: Seq<Option<EnvItemView>>,
    clocks: Seq<EntryClock>,
    workspace: Seq<char>,
    environment: Seq<char>,
    provider: Seq<char>,
    mode: ConflictMode,
)
    ensures
        tally_total(dialog_import(t, entries, clocks, workspace, environment, provider, mode)) == tally_total(t)
            + entries.len(),
    decreases entries.len(),
{
    if entries.len() > 0 {
        law_dialog_import_counts(t, entries.drop_last(), clocks.drop_last(), workspace, environment, provider, mode);
    }
}

/// `old` is what remains at the end of `new`.
pub open spec fn ends_with(new: Seq<RecordView>, old: Seq<RecordView>) -> bool {
    new.len() >= old.len() && new.subrange(new.len() - old.len(), new.len() as int) == old
}

proof fn lemma_ends_with_prepend(r: RecordView, new: Seq<RecordView>, old: Seq<RecordView>)
    requires
        ends_with(new, old),
    ensures
        ends_with(seq![r] + new, old),
{
    let n = seq![r] + new;
    assert(n.subrange(n.len() - old.len(), n.len() as int) =~= new.subrange(new.len() - old.len(), new.len() as int));
}

/// Outside `Overwrite` mode, a command-line import leaves every record that was
/// there unchanged: it only adds records in front of them.
pub proof fn law_cli_import_keeps_records(
    t: ImportTally,
    items: Seq<PreviewView>,
    clocks: Seq<EntryClock>,
    workspace: Seq<char>,
    environment: Seq<char>,
    provider: Seq<char>,
    mode: ConflictMode,
)
    requires
        mode != ConflictMode::Overwrite,
    ensures
        ends_with(cli_import(t, items, clocks, workspace, environment, provider, mode).records, t.records),
    decreases items.len(),
{
    if items.len() == 0 {
        assert(t.records.subrange(0, t.records.len() as int) =~= t.records);
    } else {
        law_cli_import_keeps_records(t, items.drop_last(), clocks.drop_last(), workspace, environment, provider, mode);
        let before = cli_import(t, items.drop_last(), clocks.drop_last(), workspace, environment, provider, mode);
        let after = cli_import(t, items, clocks, workspace, environment, provider, mode);
        if after.records != before.records {
            let r = after.records[0];
            assert(after.records == seq![r] + before.records);
            lemma_ends_with_prepend(r, before.records, t.records);
        }
    }
}

/// Outside `Overwrite` mode, a dialog import leaves every record that was there
/// unchanged: it only adds records in front of them.
pub proof fn law_dialog_import_keeps_records(
    t: ImportTally,
    entries: Seq<Option<EnvItemView>>,
    clocks: Seq<EntryClock>,
    workspace: Seq<char>,
    environment: Seq<char>,
    provider: Seq<char>,
    mode: ConflictMode,
)
    requires
        mode != ConflictMode::Overwrite,
    ensures
        ends_with(dialog_import(t, entries, clocks, workspace, environment, provider, mode).records, t.records),
    decreases entries.len(),
{
    if entries.len() == 0 {
        assert(t.records.subrange(0, t.records.len() as int) =~= t.records);
    } else {
        law_dialog_import_keeps_records(t, entries.drop_last(), clocks.drop_last(), workspace, environment, provider, mode);
        let before = dialog_import(t, entries.drop_last(), clocks.drop_last(), workspace, environment, provider, mode);
        let after = dialog_import(t, entries, clocks, workspace, environment, provider, mode);
        if after.records != before.records {
            let r = after.records[0];
            assert(after.records == seq![r] + before.records);
            lemma_ends_with_prepend(r, before.records, t.records);
        }
    }
}

/// The conflict mode a label of the import dialog stands for.
pub open spec fn conflict_mode_of(label: Option<&str>) -> ConflictMode {
    match label {
        Some(l) => if l@ == "Overwrite"@ {
            ConflictMode::Overwrite
        } else if l@ == "Rename"@ {
            ConflictMode::Rename
        } else {
            ConflictMode::Skip
        },
        None => ConflictMode::Skip,
    }
}

/// The conflict mode chosen in the import dialog: `Overwrite` and `Rename` by
/// their labels, `Skip` otherwise.
pub fn conflict_mode_from_label(label: Option<&str>) -> (mode: ConflictMode)
    ensures
        mode == conflict_mode_of(label),
{
    match label {
        Some(l) => if crate::text::str_eq(l, "Overwrite") {
            ConflictMode::Overwrite
        } else if crate::text::str_eq(l, "Rename") {
            ConflictMode::Rename
        } else {
            ConflictMode::Skip
        },
        None => ConflictMode::Skip,
    }
}

proof fn lemma_first_free_from(s: Seq<RecordView>, workspace: Seq<char>, environment: Seq<char>, base: Seq<char>, k: nat)
    requires
        k >= 1,
        forall|j: nat| 1 <= j < k ==> #[trigger] candidate_taken(s, workspace, environment, base, j),
    ensures
        exists|m: nat| is_first_free(s, workspace, environment, base, m),
    decreases s.len() + 1 - k,
{
    if !candidate_taken(s, workspace, environment, base, k) {
        assert(is_first_free(s, workspace, environment, base, k));
    } else {
        lemma_taken_bound(s, workspace, environment, base, k);
        lemma_first_free_from(s, workspace, environment, base, k + 1);
    }
}

/// The name that `unique_key` picks is never in use: no live record in the
/// workspace and environment has it.
pub proof fn law_unique_key_is_free(s: Seq<RecordView>, workspace: Seq<char>, environment: Seq<char>, base: Seq<char>)
    ensures
        !has_match(s, scoped_query(unique_key_spec(s, workspace, environment, base), workspace, environment)),
{
    lemma_first_free_from(s, workspace, environment, base, 1);
    let k = choose|m: nat| is_first_free(s, workspace, environment, base, m);
    assert(is_first_free(s, workspace, environment, base, k));
}

/// A free alternative always exists, and the one `unique_key` picks is at
/// most one past the number of records: every taken alternative is held by a
/// record of its own.
pub proof fn law_first_free_copy_is_bounded(s: Seq<RecordView>, workspace: Seq<char>, environment: Seq<char>, base: Seq<char>)
    ensures
        exists|k: nat|
            1 <= k <= s.len() + 1 && #[trigger] is_first_free(s, workspace, environment, base, k)
                && unique_key_spec(s, workspace, environment, base) == copy_candidate(base, k),
{
    lemma_first_free_from(s, workspace, environment, base, 1);
    let k = choose|m: nat| is_first_free(s, workspace, environment, base, m);
    assert(is_first_free(s, workspace, environment, base, k));
    if k > s.len() + 1 {
        lemma_taken_bound(s, workspace, environment, base, s.len() + 1);
    }
    lemma_first_free(s, workspace, environment, base, k);
}

} // verus!
