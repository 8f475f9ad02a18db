//! Secret records and the vault that holds them: creation, lookup, update and
//! soft deletion (a deleted record keeps its place as a tombstone for sync).
use vstd::prelude::*;
use crate::text::{eq_ignore_ascii_case, str_eq, str_eq_ignore_ascii_case, trim, trim_str};

verus! {

/// A UTC instant: whole seconds since the Unix epoch and the nanoseconds
/// within that second.
#[derive(Clone, Copy, PartialEq, Eq, Structural, Debug)]
pub struct Timestamp {
    pub seconds: i64,
    pub nanos: u32,
}

/// `uuid::Uuid::new_v4().as_u128()`: a random identifier whose version field
/// (bits 76-79) is 4 and whose variant field (bits 62-63) is `0b10`. It panics
/// only if the system's random source fails.
#[verifier::external_body]
pub(crate) fn new_record_id() -> (id: u128)
    ensures
        (id >> 76u128) & 0xfu128 == 4,
        (id >> 62u128) & 0x3u128 == 2,
{
    uuid::Uuid::new_v4().as_u128()
}

/// `chrono::Utc::now()`, read as seconds (`timestamp`) and sub-second
/// nanoseconds (`timestamp_subsec_nanos`, documented to stay below
/// 2,000,000,000). Nothing else is stated: the value is the clock's.
#[verifier::external_body]
pub(crate) fn current_timestamp() -> (t: Timestamp)
    ensures
        t.nanos < 2_000_000_000,
{
    let now = chrono::Utc::now();
    Timestamp { seconds: now.timestamp(), nanos: now.timestamp_subsec_nanos() }
}

/// One stored secret.
#[derive(Debug)]
pub struct SecretRecord {
    pub id: u128,
    pub workspace: String,
    pub name: String,
    pub value: String,
    pub environment: String,
    pub provider: String,
    pub notes: String,
    pub created_at: Timestamp,
    pub updated_at: Timestamp,
    pub deleted_at: Option<Timestamp>,
}

/// A record as the contracts see it.
pub struct RecordView {
    pub id: u128,
    pub workspace: Seq<char>,
    pub name: Seq<char>,
    pub value: Seq<char>,
    pub environment: Seq<char>,
    pub provider: Seq<char>,
    pub notes: Seq<char>,
    pub created_at: Timestamp,
    pub updated_at: Timestamp,
    pub deleted_at: Option<Timestamp>,
}

impl View for SecretRecord {
    type V = RecordView;

    open spec fn view(&self) -> RecordView {
        RecordView {
            id: self.id,
            workspace: self.workspace@,
            name: self.name@,
            value: self.value@,
            environment: self.environment@,
            provider: self.provider@,
            notes: self.notes@,
            created_at: self.created_at,
            updated_at: self.updated_at,
            deleted_at: self.deleted_at,
        }
    }
}

/// The trimmed value, or `default_value` when nothing is left after trimming.
pub open spec fn fallback_spec(value: Seq<char>, default_value: Seq<char>) -> Seq<char> {
    if trim(value).len() == 0 {
        default_value
    } else {
        trim(value)
    }
}

pub fn fallback(value: &str, default_value: &str) -> (out: String)
    ensures
        out@ == fallback_spec(value@, default_value@),
{
    let trimmed = trim_str(value);
    if trimmed.as_str().is_empty() {
        default_value.to_owned()
    } else {
        trimmed
    }
}

/// The record that `create` builds from its arguments, its id and the instant.
pub open spec fn created_record(
    id: u128,
    now: Timestamp,
    workspace: Seq<char>,
    name: Seq<char>,
    value: Seq<char>,
    environment: Seq<char>,
    provider: Seq<char>,
    notes: Seq<char>,
) -> RecordView {
    RecordView {
        id,
        workspace: fallback_spec(workspace, "Default"@),
        name: trim(name),
        value,
        environment: fallback_spec(environment, "Dev"@),
        provider: trim(provider),
        notes: trim(notes),
        created_at: now,
        updated_at: now,
        deleted_at: None,
    }
}

impl SecretRecord {
    /// Builds a record with the given id and creation instant.
    pub fn create_at(
        id: u128,
        now: Timestamp,
        workspace: &str,
        name: &str,
        value: &str,
        environment: &str,
        provider: &str,
        notes: &str,
    ) -> (r: SecretRecord)
        ensures
            r@ == created_record(id, now, workspace@, name@, value@, environment@, provider@, notes@),
    {
        SecretRecord {
            id,
            workspace: fallback(workspace, "Default"),
            name: trim_str(name),
            value: value.to_owned(),
            environment: fallback(environment, "Dev"),
            provider: trim_str(provider),
            notes: trim_str(notes),
            created_at: now,
            updated_at: now,
            deleted_at: None,
        }
    }

    /// Builds a new record with a fresh random id, stamped with the current time.
    pub fn create(
        workspace: &str,
        name: &str,
        value: &str,
        environment: &str,
        provider: &str,
        notes: &str,
    ) -> (r: SecretRecord)
        ensures
            r@ == created_record(r.id, r.created_at, workspace@, name@, value@, environment@, provider@, notes@),
            (r.id >> 76u128) & 0xfu128 == 4,
            (r.id >> 62u128) & 0x3u128 == 2,
    {
        let id = new_record_id();
        let now = current_timestamp();
        SecretRecord::create_at(id, now, workspace, name, value, environment, provider, notes)
    }
}

/// The set of secrets.
pub struct Vault {
    pub records: Vec<SecretRecord>,
}

impl View for Vault {
    type V = Seq<RecordView>;

    open spec fn view(&self) -> Seq<RecordView> {
        self.records@.map_values(|r: SecretRecord| r@)
    }
}

impl Default for Vault {
    fn default() -> (v: Vault)
        ensures
            v@ == Seq::<RecordView>::empty(),
    {
        Vault { records: Vec::new() }
    }
}

/// The records that are not deleted, in order.
pub open spec fn keep_visible(s: Seq<RecordView>) -> Seq<RecordView>
    decreases s.len(),
{
    if s.len() == 0 {
        Seq::empty()
    } else if s.last().deleted_at is None {
        keep_visible(s.drop_last()).push(s.last())
    } else {
        keep_visible(s.drop_last())
    }
}

/// A lookup by key, optionally narrowed to a workspace and an environment.
pub struct Query {
    pub key: Seq<char>,
    pub workspace: Option<Seq<char>>,
    pub environment: Option<Seq<char>>,
}

pub open spec fn opt_view(o: Option<&str>) -> Option<Seq<char>> {
    match o {
        Some(s) => Some(s@),
        None => None,
    }
}

pub open spec fn query_of(key: &str, workspace: Option<&str>, environment: Option<&str>) -> Query {
    Query { key: key@, workspace: opt_view(workspace), environment: opt_view(environment) }
}

/// A live record with exactly the queried name, whose workspace and
/// environment equal the queried ones up to ASCII case where they are given.
pub open spec fn matches_query(r: RecordView, q: Query) -> bool {
    &&& r.deleted_at is None
    &&& r.name == q.key
    &&& (q.workspace matches Some(w) ==> eq_ignore_ascii_case(r.workspace, w))
    &&& (q.environment matches Some(e) ==> eq_ignore_ascii_case(r.environment, e))
}

/// `i` is the first position whose record matches `q`.
pub open spec fn is_first_match(s: Seq<RecordView>, i: int, q: Query) -> bool {
    &&& 0 <= i < s.len()
    &&& matches_query(s[i], q)
    &&& forall|j: int| 0 <= j < i ==> !matches_query(#[trigger] s[j], q)
}

pub open spec fn has_match(s: Seq<RecordView>, q: Query) -> bool {
    exists|i: int| 0 <= i < s.len() && matches_query(#[trigger] s[i], q)
}

/// The record after an update of the given fields at instant `now`.
pub open spec fn updated_record(
    r: RecordView,
    value: Option<Seq<char>>,
    provider: Option<Seq<char>>,
    notes: Option<Seq<char>>,
    now: Timestamp,
) -> RecordView {
    RecordView {
        value: match value {
            Some(v) => v,
            None => r.value,
        },
        provider: match provider {
            Some(p) => p,
            None => r.provider,
        },
        notes: match notes {
            Some(n) => n,
            None => r.notes,
        },
        updated_at: now,
        ..r
    }
}

/// `after` holds each given field and keeps `before`'s value of each field
/// that was not given; its id, name, workspace, environment, creation time and
/// deletion mark are those of `before`.
pub open spec fn fields_set_or_kept(
    before: RecordView,
    after: RecordView,
    value: Option<Seq<char>>,
    provider: Option<Seq<char>>,
    notes: Option<Seq<char>>,
) -> bool {
    &&& (value matches Some(v) ==> after.value == v)
    &&& (value is None ==> after.value == before.value)
    &&& (provider matches Some(p) ==> after.provider == p)
    &&& (provider is None ==> after.provider == before.provider)
    &&& (notes matches Some(n) ==> after.notes == n)
    &&& (notes is None ==> after.notes == before.notes)
    &&& after.id == before.id
    &&& after.name == before.name
    &&& after.workspace == before.workspace
    &&& after.environment == before.environment
    &&& after.created_at == before.created_at
    &&& after.deleted_at == before.deleted_at
}

/// The record after it is deleted at instant `now`: a tombstone.
pub open spec fn deleted_record(r: RecordView, now: Timestamp) -> RecordView {
    RecordView { deleted_at: Some(now), updated_at: now, ..r }
}

fn opt_matches(field: &str, wanted: Option<&str>) -> (b: bool)
    ensures
        b == (opt_view(wanted) matches Some(w) ==> eq_ignore_ascii_case(field@, w)),
{
    match wanted {
        Some(w) => str_eq_ignore_ascii_case(field, w),
        None => true,
    }
}

/// Whether `r` matches the query.
pub fn record_matches(r: &SecretRecord, key: &str, workspace: Option<&str>, environment: Option<&str>) -> (b: bool)
    ensures
        b == matches_query(r@, query_of(key, workspace, environment)),
{
    r.deleted_at.is_none() && str_eq(r.name.as_str(), key) && opt_matches(r.workspace.as_str(), workspace)
        && opt_matches(r.environment.as_str(), environment)
}

impl Vault {
    /// Puts `record` first.
    pub fn add(&mut self, record: SecretRecord)
        ensures
            final(self)@ == seq![record@] + old(self)@,
    {
        self.records.insert(0, record);
        assert(self@ =~= seq![record@] + old(self)@);
    }

    /// The records that are not deleted, in vault order.
    pub fn visible_records(&self) -> (out: Vec<&SecretRecord>)
        ensures
            out@.map_values(|r: &SecretRecord| r@) == keep_visible(self@),
    {
        let mut out: Vec<&SecretRecord> = Vec::new();
        let mut i: usize = 0;
        while i < self.records.len()
            invariant
                i <= self.records@.len(),
                out@.map_values(|r: &SecretRecord| r@) == keep_visible(self@.take(i as int)),
            decreases self.records@.len() - i,
        {
            let r = &self.records[i];
            assert(self@.take(i + 1).drop_last() =~= self@.take(i as int));
            if r.deleted_at.is_none() {
                out.push(r);
                assert(out@.map_values(|r: &SecretRecord| r@) =~= keep_visible(self@.take(i as int)).push(r@));
            }
            i = i + 1;
        }
        assert(self@.take(self.records@.len() as int) =~= self@);
        out
    }

    /// Position of the first record matching the query.
    pub fn find_index(&self, key: &str, workspace: Option<&str>, environment: Option<&str>) -> (res: Option<usize>)
        ensures
            match res {
                Some(i) => is_first_match(self@, i as int, query_of(key, workspace, environment)),
                None => !has_match(self@, query_of(key, workspace, environment)),
            },
    {
        let ghost q = query_of(key, workspace, environment);
        let mut i: usize = 0;
        while i < self.records.len()
            invariant
                i <= self.records@.len(),
                q == query_of(key, workspace, environment),
                forall|j: int| 0 <= j < i ==> !matches_query(#[trigger] self@[j], q),
            decreases self.records@.len() - i,
        {
            if record_matches(&self.records[i], key, workspace, environment) {
                return Some(i);
            }
            i = i + 1;
        }
        None
    }

    /// The first record matching the query.
    pub fn find(&self, key: &str, workspace: Option<&str>, environment: Option<&str>) -> (res: Option<&SecretRecord>)
        ensures
            match res {
                Some(r) => exists|i: int|
                    is_first_match(self@, i, query_of(key, workspace, environment)) && r@ == #[trigger] self@[i],
                None => !has_match(self@, query_of(key, workspace, environment)),
            },
    {
        match self.find_index(key, workspace, environment) {
            Some(i) => Some(&self.records[i]),
            None => None,
        }
    }

    fn replace_at(&mut self, i: usize, record: SecretRecord)
        requires
            i < old(self)@.len(),
        ensures
            final(self)@ == old(self)@.update(i as int, record@),
    {
        self.records.remove(i);
        self.records.insert(i, record);
        assert(self@ =~= old(self)@.update(i as int, record@));
    }

    /// Updates the given fields of the first record matching the query, stamping
    /// it with `now`; tells whether there was one.
    pub fn update_at(
        &mut self,
        key: &str,
        workspace: Option<&str>,
        environment: Option<&str>,
        value: Option<&str>,
        provider: Option<&str>,
        notes: Option<&str>,
        now: Timestamp,
    ) -> (found: bool)
        ensures
            found == has_match(old(self)@, query_of(key, workspace, environment)),
            forall|i: int| #[trigger] is_first_match(old(self)@, i, query_of(key, workspace, environment))
                ==> final(self)@ == old(self)@.update(
                    i,
                    updated_record(old(self)@[i], opt_view(value), opt_view(provider), opt_view(notes), now),
                ),
            forall|i: int| #[trigger] is_first_match(old(self)@, i, query_of(key, workspace, environment))
                ==> fields_set_or_kept(old(self)@[i], final(self)@[i], opt_view(value), opt_view(provider), opt_view(notes)),
            !found ==> final(self)@ == old(self)@,
    {
        match self.find_index(key, workspace, environment) {
            None => false,
            Some(i) => {
                let old_record = &self.records[i];
                let record = SecretRecord {
                    id: old_record.id,
                    workspace: old_record.workspace.clone(),
                    name: old_record.name.clone(),
                    value: match value {
                        Some(v) => v.to_owned(),
                        None => old_record.value.clone(),
                    },
                    environment: old_record.environment.clone(),
                    provider: match provider {
                        Some(p) => p.to_owned(),
                        None => old_record.provider.clone(),
                    },
                    notes: match notes {
                        Some(n) => n.to_owned(),
                        None => old_record.notes.clone(),
                    },
                    created_at: old_record.created_at,
                    updated_at: now,
                    deleted_at: old_record.deleted_at,
                };
                proof {
                    lemma_first_match_unique(old(self)@, i as int, query_of(key, workspace, environment));
                }
                self.replace_at(i, record);
                true
            },
        }
    }

    /// `update_at` stamped with the current time.
    pub fn update(
        &mut self,
        key: &str,
        workspace: Option<&str>,
        environment: Option<&str>,
        value: Option<&str>,
        provider: Option<&str>,
        notes: Option<&str>,
    ) -> (found: bool)
        ensures
            found == has_match(old(self)@, query_of(key, workspace, environment)),
            forall|i: int| #[trigger] is_first_match(old(self)@, i, query_of(key, workspace, environment))
                ==> exists|now: Timestamp| final(self)@ == old(self)@.update(
                    i,
                    updated_record(old(self)@[i], opt_view(value), opt_view(provider), opt_view(notes), now),
                ),
            forall|i: int| #[trigger] is_first_match(old(self)@, i, query_of(key, workspace, environment))
                ==> fields_set_or_kept(old(self)@[i], final(self)@[i], opt_view(value), opt_view(provider), opt_view(notes)),
            !found ==> final(self)@ == old(self)@,
    {
        let now = current_timestamp();
        self.update_at(key, workspace, environment, value, provider, notes, now)
    }

    /// Marks the first record matching the query as deleted at `now`; tells
    /// whether there was one.
    pub fn delete_at(&mut self, key: &str, workspace: Option<&str>, environment: Option<&str>, now: Timestamp) -> (found: bool)
        ensures
            found == has_match(old(self)@, query_of(key, workspace, environment)),
            forall|i: int| #[trigger] is_first_match(old(self)@, i, query_of(key, workspace, environment))
                ==> final(self)@ == old(self)@.update(i, deleted_record(old(self)@[i], now)),
            !found ==> final(self)@ == old(self)@,
    {
        match self.find_index(key, workspace, environment) {
            None => false,
            Some(i) => {
                let old_record = &self.records[i];
                let record = SecretRecord {
                    id: old_record.id,
                    workspace: old_record.workspace.clone(),
                    name: old_record.name.clone(),
                    value: old_record.value.clone(),
                    environment: old_record.environment.clone(),
                    provider: old_record.provider.clone(),
                    notes: old_record.notes.clone(),
                    created_at: old_record.created_at,
                    updated_at: now,
                    deleted_at: Some(now),
                };
                proof {
                    lemma_first_match_unique(old(self)@, i as int, query_of(key, workspace, environment));
                }
                self.replace_at(i, record);
                true
            },
        }
    }

    /// `delete_at` stamped with the current time.
    pub fn delete(&mut self, key: &str, workspace: Option<&str>, environment: Option<&str>) -> (found: bool)
        ensures
            found == has_match(old(self)@, query_of(key, workspace, environment)),
            forall|i: int| #[trigger] is_first_match(old(self)@, i, query_of(key, workspace, environment))
                ==> exists|now: Timestamp| final(self)@ == old(self)@.update(i, deleted_record(old(self)@[i], now)),
            !found ==> final(self)@ == old(self)@,
    {
        let now = current_timestamp();
        self.delete_at(key, workspace, environment, now)
    }
}

/// There is only one first match.
pub proof fn lemma_first_match_unique(s: Seq<RecordView>, i: int, q: Query)
    requires
        is_first_match(s, i, q),
    ensures
        forall|j: int| #[trigger] is_first_match(s, j, q) ==> j == i,
        has_match(s, q),
{
    assert forall|j: int| #[trigger] is_first_match(s, j, q) implies j == i by {
        if j < i {
            assert(!matches_query(s[j], q));
        } else if i < j {
            assert(!matches_query(s[i], q));
        }
    }
}

/// Every record that `visible_records` lists is live.
pub proof fn law_visible_records_are_live(s: Seq<RecordView>)
    ensures
        forall|k: int| 0 <= k < keep_visible(s).len() ==> (#[trigger] keep_visible(s)[k]).deleted_at is None,
    decreases s.len(),
{
    if s.len() > 0 {
        law_visible_records_are_live(s.drop_last());
    }
}

/// What `visible_records` lists comes from the vault.
pub proof fn lemma_keep_visible_members(s: Seq<RecordView>)
    ensures
        forall|k: int| 0 <= k < keep_visible(s).len() ==> s.contains(#[trigger] keep_visible(s)[k]),
    decreases s.len(),
{
    if s.len() > 0 {
        lemma_keep_visible_members(s.drop_last());
        let r = keep_visible(s.drop_last());
        assert forall|k: int| 0 <= k < keep_visible(s).len() implies s.contains(#[trigger] keep_visible(s)[k]) by {
            if k < r.len() {
                assert(keep_visible(s)[k] == r[k]);
                let j = choose|j: int| 0 <= j < s.drop_last().len() && s.drop_last()[j] == r[k];
                assert(s[j] == r[k]);
            } else {
                assert(s[s.len() - 1] == s.last());
            }
        }
    }
}

proof fn lemma_keep_visible_prepend(r: RecordView, s: Seq<RecordView>)
    ensures
        keep_visible(seq![r] + s) == if r.deleted_at is None {
            seq![r] + keep_visible(s)
        } else {
            keep_visible(s)
        },
    decreases s.len(),
{
    if s.len() == 0 {
        assert((seq![r] + s).drop_last() =~= Seq::<RecordView>::empty());
        assert(keep_visible(Seq::<RecordView>::empty()) == Seq::<RecordView>::empty());
        assert(seq![r] + s =~= seq![r]);
        assert(s =~= Seq::<RecordView>::empty());
        assert(Seq::<RecordView>::empty().push(r) =~= seq![r] + Seq::<RecordView>::empty());
    } else {
        assert((seq![r] + s).drop_last() =~= seq![r] + s.drop_last());
        assert((seq![r] + s).last() == s.last());
        lemma_keep_visible_prepend(r, s.drop_last());
        if r.deleted_at is None {
            assert((seq![r] + keep_visible(s.drop_last())).push(s.last()) =~= seq![r] + keep_visible(s.drop_last()).push(s.last()));
        }
    }
}

/// Adding a live record puts it first among the visible records and keeps the
/// others, in order; it is then what a lookup that it matches finds.
pub proof fn law_add_then_find(s: Seq<RecordView>, r: RecordView, q: Query)
    requires
        r.deleted_at is None,
    ensures
        keep_visible(seq![r] + s) == seq![r] + keep_visible(s),
        matches_query(r, q) ==> is_first_match(seq![r] + s, 0, q),
{
    lemma_keep_visible_prepend(r, s);
}

/// After an update, the same lookup finds the same record, now holding the new
/// fields; its id, name, workspace, environment and creation time are kept, and
/// no other record changes.
pub proof fn law_update_then_find(
    s: Seq<RecordView>,
    i: int,
    q: Query,
    value: Option<Seq<char>>,
    provider: Option<Seq<char>>,
    notes: Option<Seq<char>>,
    now: Timestamp,
)
    requires
        is_first_match(s, i, q),
    ensures
        ({
            let u = updated_record(s[i], value, provider, notes, now);
            let t = s.update(i, u);
            &&& is_first_match(t, i, q)
            &&& (value matches Some(v) ==> t[i].value == v)
            &&& (provider matches Some(p) ==> t[i].provider == p)
            &&& (notes matches Some(n) ==> t[i].notes == n)
            &&& t[i].id == s[i].id && t[i].created_at == s[i].created_at
            &&& t[i].updated_at == now
            &&& forall|j: int| 0 <= j < s.len() && j != i ==> t[j] == s[j]
        }),
{
    let u = updated_record(s[i], value, provider, notes, now);
    let t = s.update(i, u);
    assert forall|j: int| 0 <= j < i implies !matches_query(#[trigger] t[j], q) by {
        assert(t[j] == s[j]);
    }
}

/// An update sets exactly the fields it is given and keeps every other field
/// of the record: a field passed as `None` keeps its old value.
pub proof fn law_update_keeps_fields_not_given(
    r: RecordView,
    value: Option<Seq<char>>,
    provider: Option<Seq<char>>,
    notes: Option<Seq<char>>,
    now: Timestamp,
)
    ensures
        fields_set_or_kept(r, updated_record(r, value, provider, notes, now), value, provider, notes),
        updated_record(r, value, provider, notes, now).updated_at == now,
{
}

/// A lookup finds only a live record with exactly the key asked for, whose
/// workspace and environment equal the ones asked for up to ASCII case where
/// they are given; and it finds nothing exactly when no record is like that.
pub proof fn law_lookup_respects_every_given_field(s: Seq<RecordView>, q: Query)
    ensures
        forall|i: int| #[trigger] is_first_match(s, i, q) ==> {
            &&& 0 <= i < s.len()
            &&& s[i].deleted_at is None
            &&& s[i].name == q.key
            &&& (q.workspace matches Some(w) ==> eq_ignore_ascii_case(s[i].workspace, w))
            &&& (q.environment matches Some(e) ==> eq_ignore_ascii_case(s[i].environment, e))
        },
        !has_match(s, q) <==> forall|i: int| 0 <= i < s.len() ==> !{
            &&& (#[trigger] s[i]).deleted_at is None
            &&& s[i].name == q.key
            &&& (q.workspace matches Some(w) ==> eq_ignore_ascii_case(s[i].workspace, w))
            &&& (q.environment matches Some(e) ==> eq_ignore_ascii_case(s[i].environment, e))
        },
{
}

proof fn lemma_keep_visible_len_delete(s: Seq<RecordView>, i: int, d: RecordView)
    requires
        0 <= i < s.len(),
        s[i].deleted_at is None,
        d.deleted_at is Some,
    ensures
        keep_visible(s.update(i, d)).len() + 1 == keep_visible(s).len(),
    decreases s.len(),
{
    let t = s.update(i, d);
    if i == s.len() - 1 {
        assert(t.drop_last() =~= s.drop_last());
    } else {
        assert(t.drop_last() =~= s.drop_last().update(i, d));
        lemma_keep_visible_len_delete(s.drop_last(), i, d);
    }
}

/// After a delete, the deleted record no longer matches any lookup, one record
/// fewer is visible, and every other record is unchanged.
pub proof fn law_delete_hides(s: Seq<RecordView>, i: int, q: Query, now: Timestamp)
    requires
        is_first_match(s, i, q),
    ensures
        ({
            let t = s.update(i, deleted_record(s[i], now));
            &&& forall|q2: Query| !matches_query(#[trigger] t[i], q2)
            &&& t[i].id == s[i].id && t[i].created_at == s[i].created_at && t[i].updated_at == now
            &&& keep_visible(t).len() + 1 == keep_visible(s).len()
            &&& forall|j: int| 0 <= j < s.len() && j != i ==> t[j] == s[j]
            &&& t.len() == s.len()
        }),
{
    lemma_keep_visible_len_delete(s, i, deleted_record(s[i], now));
}

/// Lower-case hexadecimal digit for `0 <= v < 16`.
pub open spec fn hex_digit(v: int) -> char {
    if v < 10 {
        (48 + v) as char
    } else {
        (87 + v) as char
    }
}

/// The `i`-th 4-bit group of `id`, most significant first.
pub open spec fn nibble(id: u128, i: int) -> int {
    ((id >> ((124 - 4 * i) as u128)) & 0xfu128) as int
}

pub open spec fn hex_run(id: u128, from: int, to: int) -> Seq<char> {
    Seq::new((to - from) as nat, |j: int| hex_digit(nibble(id, from + j)))
}

/// The hyphenated lower-case form of an id: 8-4-4-4-12 hex digits.
pub open spec fn id_text(id: u128) -> Seq<char> {
    hex_run(id, 0, 8) + seq!['-'] + hex_run(id, 8, 12) + seq!['-'] + hex_run(id, 12, 16) + seq!['-']
        + hex_run(id, 16, 20) + seq!['-'] + hex_run(id, 20, 32)
}

/// `uuid::Uuid::from_u128(id).to_string()`: the hyphenated lower-case form.
#[verifier::external_body]
pub(crate) fn id_string(id: u128) -> (s: String)
    ensures
        s@ == id_text(id),
{
    uuid::Uuid::from_u128(id).to_string()
}

/// The first live record whose id reads as `id`.
pub open spec fn is_first_with_id(s: Seq<RecordView>, i: int, id: Seq<char>) -> bool {
    &&& 0 <= i < s.len()
    &&& s[i].deleted_at is None
    &&& id_text(s[i].id) == id
    &&& forall|j: int| 0 <= j < i ==> !((#[trigger] s[j]).deleted_at is None && id_text(s[j].id) == id)
}

/// Position of the first live record whose id reads as `id`.
pub fn find_index_by_id(vault: &Vault, id: &str) -> (res: Option<usize>)
    ensures
        match res {
            Some(i) => is_first_with_id(vault@, i as int, id@),
            None => forall|j: int| 0 <= j < vault@.len() ==> !((#[trigger] vault@[j]).deleted_at is None
                && id_text(vault@[j].id) == id@),
        },
{
    let mut i: usize = 0;
    while i < vault.records.len()
        invariant
            i <= vault@.len(),
            forall|j: int| 0 <= j < i ==> !((#[trigger] vault@[j]).deleted_at is None && id_text(vault@[j].id) == id@),
        decreases vault@.len() - i,
    {
        let r = &vault.records[i];
        if r.deleted_at.is_none() {
            let text = id_string(r.id);
            if crate::text::str_eq(text.as_str(), id) {
                return Some(i);
            }
        }
        i = i + 1;
    }
    None
}

/// The first live record whose id reads as `id`.
pub fn find_record_by_id<'a>(vault: &'a Vault, id: &str) -> (res: Option<&'a SecretRecord>)
    ensures
        match res {
            Some(r) => exists|i: int| is_first_with_id(vault@, i, id@) && r@ == #[trigger] vault@[i],
            None => forall|j: int| 0 <= j < vault@.len() ==> !((#[trigger] vault@[j]).deleted_at is None
                && id_text(vault@[j].id) == id@),
        },
{
    match find_index_by_id(vault, id) {
        Some(i) => Some(&vault.records[i]),
        None => None,
    }
}

/// The record after it is edited: rebuilt from the new fields as `create`
/// builds one, keeping its id and creation time, stamped with `now`.
pub open spec fn replaced_record(
    old: RecordView,
    now: Timestamp,
    workspace: Seq<char>,
    name: Seq<char>,
    value: Seq<char>,
    environment: Seq<char>,
    provider: Seq<char>,
    notes: Seq<char>,
) -> RecordView {
    RecordView {
        created_at: old.created_at,
        ..created_record(old.id, now, workspace, name, value, environment, provider, notes)
    }
}

/// `after` is `before` edited with the given fields: the value exactly as
/// given, the name, provider and notes trimmed, the workspace and environment
/// trimmed with `Default` and `Dev` for blank ones; the id and creation time
/// kept, and the record live.
pub open spec fn edited_as_given(
    before: RecordView,
    after: RecordView,
    workspace: Seq<char>,
    name: Seq<char>,
    value: Seq<char>,
    environment: Seq<char>,
    provider: Seq<char>,
    notes: Seq<char>,
) -> bool {
    &&& after.value == value
    &&& after.name == trim(name)
    &&& after.provider == trim(provider)
    &&& after.notes == trim(notes)
    &&& after.workspace == (if trim(workspace).len() == 0 { "Default"@ } else { trim(workspace) })
    &&& after.environment == (if trim(environment).len() == 0 { "Dev"@ } else { trim(environment) })
    &&& after.id == before.id
    &&& after.created_at == before.created_at
    &&& after.deleted_at is None
}

/// A new record stores the value exactly as given, the name, provider and
/// notes trimmed, the workspace and environment trimmed with `Default` and
/// `Dev` for blank ones; it is live, with its id, and created and updated at
/// the same instant.
pub proof fn law_create_stores_the_given_fields(
    id: u128,
    now: Timestamp,
    workspace: Seq<char>,
    name: Seq<char>,
    value: Seq<char>,
    environment: Seq<char>,
    provider: Seq<char>,
    notes: Seq<char>,
)
    ensures
        ({
            let r = created_record(id, now, workspace, name, value, environment, provider, notes);
            &&& r.value == value
            &&& r.name == trim(name)
            &&& r.provider == trim(provider)
            &&& r.notes == trim(notes)
            &&& r.workspace == (if trim(workspace).len() == 0 { "Default"@ } else { trim(workspace) })
            &&& r.environment == (if trim(environment).len() == 0 { "Dev"@ } else { trim(environment) })
            &&& r.id == id
            &&& r.created_at == now
            &&& r.updated_at == now
            &&& r.deleted_at is None
        }),
{
}

/// Editing a record keeps its id and creation time and stores every field as
/// given: the value exactly, the other fields trimmed (blank workspace and
/// environment becoming `Default` and `Dev`).
pub proof fn law_edit_stores_the_given_fields(
    old: RecordView,
    now: Timestamp,
    workspace: Seq<char>,
    name: Seq<char>,
    value: Seq<char>,
    environment: Seq<char>,
    provider: Seq<char>,
    notes: Seq<char>,
)
    ensures
        edited_as_given(
            old,
            replaced_record(old, now, workspace, name, value, environment, provider, notes),
            workspace,
            name,
            value,
            environment,
            provider,
            notes,
        ),
        replaced_record(old, now, workspace, name, value, environment, provider, notes).updated_at == now,
{
}

/// Rewrites `record` with new fields, keeping its id and creation time.
pub fn replace_record(
    record: &mut SecretRecord,
    workspace: &str,
    name: &str,
    value: &str,
    environment: &str,
    provider: &str,
    notes: &str,
)
    ensures
        exists|now: Timestamp| final(record)@ == replaced_record(old(record)@, now, workspace@, name@, value@, environment@, provider@, notes@),
        edited_as_given(old(record)@, final(record)@, workspace@, name@, value@, environment@, provider@, notes@),
{
    let id = record.id;
    let created_at = record.created_at;
    let mut replacement = SecretRecord::create(workspace, name, value, environment, provider, notes);
    let ghost now = replacement.created_at;
    replacement.id = id;
    replacement.created_at = created_at;
    *record = replacement;
    assert(record@ == replaced_record(old(record)@, now, workspace@, name@, value@, environment@, provider@, notes@));
}

impl Vault {
    /// Edits the first live record whose id reads as `id` (see
    /// `replace_record`); tells whether there was one.
    pub fn replace_by_id(
        &mut self,
        id: &str,
        workspace: &str,
        name: &str,
        value: &str,
        environment: &str,
        provider: &str,
        notes: &str,
    ) -> (found: bool)
        ensures
            found == exists|i: int| is_first_with_id(old(self)@, i, id@),
            forall|i: int| #[trigger] is_first_with_id(old(self)@, i, id@) ==> exists|now: Timestamp| final(self)@
                == old(self)@.update(
                    i,
                    replaced_record(old(self)@[i], now, workspace@, name@, value@, environment@, provider@, notes@),
                ),
            forall|i: int| #[trigger] is_first_with_id(old(self)@, i, id@) ==> edited_as_given(
                old(self)@[i],
                final(self)@[i],
                workspace@,
                name@,
                value@,
                environment@,
                provider@,
                notes@,
            ),
            !found ==> final(self)@ == old(self)@,
    {
        match find_index_by_id(self, id) {
            None => false,
            Some(i) => {
                let mut record = self.records.remove(i);
                let ghost before = record@;
                replace_record(&mut record, workspace, name, value, environment, provider, notes);
                let ghost now = choose|now: Timestamp| record@ == replaced_record(before, now, workspace@, name@, value@, environment@, provider@, notes@);
                self.records.insert(i, record);
                proof {
                    assert(self@ =~= old(self)@.update(i as int, record@));
                    assert forall|j: int| #[trigger] is_first_with_id(old(self)@, j, id@) implies j == i by {
                        if j < i {
                            assert(!(old(self)@[j].deleted_at is None && id_text(old(self)@[j].id) == id@));
                        } else if j > i {
                            assert(!(old(self)@[i as int].deleted_at is None && id_text(old(self)@[i as int].id) == id@));
                        }
                    }
                }
                true
            },
        }
    }

    /// Removes, for good, every record whose id reads as `id`; tells whether
    /// any was removed.
    pub fn remove_by_id(&mut self, id: &str) -> (removed: bool)
        ensures
            final(self)@ == crate::filter::keep_where(old(self)@, |r: RecordView| id_text(r.id) != id@),
            removed == (final(self)@.len() != old(self)@.len()),
    {
        let ghost p = |r: RecordView| id_text(r.id) != id@;
        let ghost start = self@;
        let before = self.records.len();
        let mut rest: Vec<SecretRecord> = Vec::new();
        std::mem::swap(&mut rest, &mut self.records);
        let mut kept: Vec<SecretRecord> = Vec::new();
        let ghost mut suffix: Seq<RecordView> = Seq::empty();
        assert(start =~= rest@.map_values(|r: SecretRecord| r@) + suffix);
        while rest.len() > 0
            invariant
                before == start.len(),
                p == (|r: RecordView| id_text(r.id) != id@),
                start == rest@.map_values(|r: SecretRecord| r@) + suffix,
                kept@.map_values(|r: SecretRecord| r@) == crate::filter::keep_where(suffix, p),
            decreases rest@.len(),
        {
            let r = rest.pop().unwrap();
            let ghost x = r@;
            let ghost old_suffix = suffix;
            let ghost old_kept = kept@.map_values(|r: SecretRecord| r@);
            proof {
                crate::filter::lemma_keep_where_prepend(x, old_suffix, p);
                assert(start =~= rest@.map_values(|r: SecretRecord| r@) + (seq![x] + old_suffix));
            }
            let text = id_string(r.id);
            if !crate::text::str_eq(text.as_str(), id) {
                kept.insert(0, r);
                assert(kept@.map_values(|r: SecretRecord| r@) =~= seq![x] + old_kept);
            }
            proof {
                suffix = seq![x] + old_suffix;
            }
        }
        assert(start =~= suffix);
        self.records = kept;
        before != self.records.len()
    }
}

} // verus!
