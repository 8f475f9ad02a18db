//! Narrowing the listed records by workspace, environment and search text.
use vstd::prelude::*;
use crate::record::{keep_visible, opt_view, RecordView, SecretRecord, Vault};
use crate::text::{
    contains_seq, eq_ignore_ascii_case, str_contains, str_eq_ignore_ascii_case, to_lowercase, trim,
    trim_str, unicode_lowercase,
};

verus! {

/// The elements of `s` that satisfy `p`, in order.
pub open spec fn keep_where<A>(s: Seq<A>, p: spec_fn(A) -> bool) -> Seq<A>
    decreases s.len(),
{
    if s.len() == 0 {
        Seq::empty()
    } else if p(s.last()) {
        keep_where(s.drop_last(), p).push(s.last())
    } else {
        keep_where(s.drop_last(), p)
    }
}

pub open spec fn ref_views(v: Seq<&SecretRecord>) -> Seq<RecordView> {
    v.map_values(|r: &SecretRecord| r@)
}

/// `needle` (already lower-cased) occurs in the lower-cased name, provider,
/// notes, workspace or environment.
pub open spec fn search_hit(r: RecordView, needle: Seq<char>) -> bool {
    ||| contains_seq(unicode_lowercase(r.name), needle)
    ||| contains_seq(unicode_lowercase(r.provider), needle)
    ||| contains_seq(unicode_lowercase(r.notes), needle)
    ||| contains_seq(unicode_lowercase(r.workspace), needle)
    ||| contains_seq(unicode_lowercase(r.environment), needle)
}

fn record_search_hit(r: &SecretRecord, needle: &str) -> (b: bool)
    ensures
        b == search_hit(r@, needle@),
{
    str_contains(to_lowercase(r.name.as_str()).as_str(), needle)
        || str_contains(to_lowercase(r.provider.as_str()).as_str(), needle)
        || str_contains(to_lowercase(r.notes.as_str()).as_str(), needle)
        || str_contains(to_lowercase(r.workspace.as_str()).as_str(), needle)
        || str_contains(to_lowercase(r.environment.as_str()).as_str(), needle)
}

/// The command-line filter: workspace and environment equal up to ASCII case,
/// and the lower-cased search text found in a lower-cased field, each where
/// given.
pub open spec fn cli_keep(
    r: RecordView,
    workspace: Option<Seq<char>>,
    environment: Option<Seq<char>>,
    search: Option<Seq<char>>,
) -> bool {
    &&& (workspace matches Some(w) ==> eq_ignore_ascii_case(r.workspace, w))
    &&& (environment matches Some(e) ==> eq_ignore_ascii_case(r.environment, e))
    &&& (search matches Some(s) ==> search_hit(r, unicode_lowercase(s)))
}

fn opt_eq_ignore_case(field: &str, wanted: Option<&str>) -> (b: bool)
    ensures
        b == (opt_view(wanted) matches Some(w) ==> eq_ignore_ascii_case(field@, w)),
{
    match wanted {
        Some(w) => str_eq_ignore_ascii_case(field, w),
        None => true,
    }
}

/// The records that pass the command-line filter, in order.
pub fn filtered<'a>(
    records: &Vec<&'a SecretRecord>,
    workspace: Option<&str>,
    environment: Option<&str>,
    search: Option<&str>,
) -> (out: Vec<&'a SecretRecord>)
    ensures
        ref_views(out@) == keep_where(
            ref_views(records@),
            |r: RecordView| cli_keep(r, opt_view(workspace), opt_view(environment), opt_view(search)),
        ),
{
    let ghost p = |r: RecordView| cli_keep(r, opt_view(workspace), opt_view(environment), opt_view(search));
    let needle: Option<String> = match search {
        Some(s) => Some(to_lowercase(s)),
        None => None,
    };
    let mut out: Vec<&'a SecretRecord> = Vec::new();
    let mut i: usize = 0;
    while i < records.len()
        invariant
            i <= records@.len(),
            p == (|r: RecordView| cli_keep(r, opt_view(workspace), opt_view(environment), opt_view(search))),
            match search {
                Some(s) => needle matches Some(n) && n@ == unicode_lowercase(s@),
                None => needle is None,
            },
            ref_views(out@) == keep_where(ref_views(records@).take(i as int), p),
        decreases records@.len() - i,
    {
        let r = records[i];
        assert(ref_views(records@).take(i + 1).drop_last() =~= ref_views(records@).take(i as int));
        assert(ref_views(records@).take(i + 1).last() == r@);
        let hit = match &needle {
            Some(n) => record_search_hit(r, n.as_str()),
            None => true,
        };
        let keep = opt_eq_ignore_case(r.workspace.as_str(), workspace)
            && opt_eq_ignore_case(r.environment.as_str(), environment) && hit;
        assert(keep == p(r@));
        if keep {
            out.push(r);
            assert(ref_views(out@) =~= keep_where(ref_views(records@).take(i as int), p).push(r@));
        }
        i = i + 1;
    }
    assert(ref_views(records@).take(records@.len() as int) =~= ref_views(records@));
    out
}

/// The desktop app's list filters.
pub struct Filters {
    pub search: String,
    pub environment: Option<String>,
}

/// The desktop app's filter: environment equal up to ASCII case where chosen,
/// and the trimmed, lower-cased search text (when not empty) found in a
/// lower-cased field.
pub open spec fn app_keep(r: RecordView, environment: Option<Seq<char>>, needle: Seq<char>) -> bool {
    &&& (environment matches Some(e) ==> eq_ignore_ascii_case(r.environment, e))
    &&& (needle.len() == 0 || search_hit(r, needle))
}

pub open spec fn app_needle(filters: Filters) -> Seq<char> {
    unicode_lowercase(trim(filters.search@))
}

pub open spec fn app_environment(filters: Filters) -> Option<Seq<char>> {
    match filters.environment {
        Some(e) => Some(e@),
        None => None,
    }
}

/// The live records that pass the desktop app's filters, in vault order.
pub fn visible_records<'a>(vault: &'a Vault, filters: &Filters) -> (out: Vec<&'a SecretRecord>)
    ensures
        ref_views(out@) == keep_where(
            keep_visible(vault@),
            |r: RecordView| app_keep(r, app_environment(*filters), app_needle(*filters)),
        ),
{
    let ghost p = |r: RecordView| app_keep(r, app_environment(*filters), app_needle(*filters));
    let trimmed = trim_str(filters.search.as_str());
    let needle = to_lowercase(trimmed.as_str());
    let environment: Option<&str> = match &filters.environment {
        Some(e) => Some(e.as_str()),
        None => None,
    };
    let live = vault.visible_records();
    let mut out: Vec<&'a SecretRecord> = Vec::new();
    let mut i: usize = 0;
    while i < live.len()
        invariant
            i <= live@.len(),
            ref_views(live@) == keep_visible(vault@),
            p == (|r: RecordView| app_keep(r, app_environment(*filters), app_needle(*filters))),
            needle@ == app_needle(*filters),
            opt_view(environment) == app_environment(*filters),
            ref_views(out@) == keep_where(ref_views(live@).take(i as int), p),
        decreases live@.len() - i,
    {
        let r = live[i];
        assert(ref_views(live@).take(i + 1).drop_last() =~= ref_views(live@).take(i as int));
        assert(ref_views(live@).take(i + 1).last() == r@);
        let keep = opt_eq_ignore_case(r.environment.as_str(), environment)
            && (needle.as_str().is_empty() || record_search_hit(r, needle.as_str()));
        assert(keep == p(r@));
        if keep {
            out.push(r);
            assert(ref_views(out@) =~= keep_where(ref_views(live@).take(i as int), p).push(r@));
        }
        i = i + 1;
    }
    assert(ref_views(live@).take(live@.len() as int) =~= ref_views(live@));
    out
}

/// Filtering a sequence with one more element in front.
pub proof fn lemma_keep_where_prepend<A>(x: A, s: Seq<A>, p: spec_fn(A) -> bool)
    ensures
        keep_where(seq![x] + s, p) == if p(x) {
            seq![x] + keep_where(s, p)
        } else {
            keep_where(s, p)
        },
    decreases s.len(),
{
    if s.len() == 0 {
        assert((seq![x] + s).drop_last() =~= Seq::<A>::empty());
        assert(seq![x] + s =~= seq![x]);
        assert(keep_where(Seq::<A>::empty(), p) == Seq::<A>::empty());
        assert(Seq::<A>::empty().push(x) =~= seq![x] + Seq::<A>::empty());
    } else {
        assert((seq![x] + s).drop_last() =~= seq![x] + s.drop_last());
        assert((seq![x] + s).last() == s.last());
        lemma_keep_where_prepend(x, s.drop_last(), p);
        if p(x) {
            assert((seq![x] + keep_where(s.drop_last(), p)).push(s.last()) =~= seq![x] + keep_where(s.drop_last(), p).push(s.last()));
        }
    }
}

/// What a filter keeps satisfies the predicate and comes from the input.
pub proof fn lemma_keep_where_members<A>(s: Seq<A>, p: spec_fn(A) -> bool)
    ensures
        keep_where(s, p).len() <= s.len(),
        forall|k: int| 0 <= k < keep_where(s, p).len() ==> p(#[trigger] keep_where(s, p)[k]) && s.contains(keep_where(s, p)[k]),
    decreases s.len(),
{
    if s.len() > 0 {
        lemma_keep_where_members(s.drop_last(), p);
        let r = keep_where(s.drop_last(), p);
        assert forall|k: int| 0 <= k < keep_where(s, p).len() implies p(#[trigger] keep_where(s, p)[k]) && s.contains(keep_where(s, p)[k]) by {
            if k < r.len() {
                assert(keep_where(s, p)[k] == r[k]);
                let j = choose|j: int| 0 <= j < s.drop_last().len() && s.drop_last()[j] == r[k];
                assert(s[j] == r[k]);
            } else {
                assert(keep_where(s, p)[k] == s.last());
                assert(s[s.len() - 1] == s.last());
            }
        }
    }
}

/// A value is kept exactly when it occurs in the input and satisfies the
/// predicate.
pub proof fn lemma_keep_where_contains<A>(s: Seq<A>, p: spec_fn(A) -> bool, x: A)
    ensures
        keep_where(s, p).contains(x) <==> (s.contains(x) && p(x)),
    decreases s.len(),
{
    if s.len() > 0 {
        let a = s.drop_last();
        let y = s.last();
        lemma_keep_where_contains(a, p, x);
        assert(s =~= a.push(y));
        let k = keep_where(a, p);
        if s.contains(x) && p(x) {
            let j = choose|j: int| 0 <= j < s.len() && s[j] == x;
            if j < a.len() {
                assert(a[j] == x);
                let m = choose|m: int| 0 <= m < k.len() && k[m] == x;
                if p(y) {
                    assert(k.push(y)[m] == x);
                }
            } else {
                assert(x == y);
                assert(k.push(y)[k.len() as int] == x);
            }
        }
        if keep_where(s, p).contains(x) {
            let m = choose|m: int| 0 <= m < keep_where(s, p).len() && keep_where(s, p)[m] == x;
            if m < k.len() {
                assert(k[m] == x);
                let j = choose|j: int| 0 <= j < a.len() && a[j] == x;
                assert(s[j] == x);
            } else {
                assert(x == y);
                assert(s[s.len() - 1] == x);
            }
        }
    }
}

proof fn lemma_keep_visible_is_keep_where(s: Seq<RecordView>)
    ensures
        keep_visible(s) == keep_where(s, |r: RecordView| r.deleted_at is None),
    decreases s.len(),
{
    if s.len() > 0 {
        lemma_keep_visible_is_keep_where(s.drop_last());
    }
}

/// `needle` occurs in the lower-cased name, provider, notes, workspace or
/// environment of `r`.
pub open spec fn some_field_contains(r: RecordView, needle: Seq<char>) -> bool {
    ||| contains_seq(unicode_lowercase(r.name), needle)
    ||| contains_seq(unicode_lowercase(r.provider), needle)
    ||| contains_seq(unicode_lowercase(r.notes), needle)
    ||| contains_seq(unicode_lowercase(r.workspace), needle)
    ||| contains_seq(unicode_lowercase(r.environment), needle)
}

/// The command-line list shows exactly the given records whose workspace and
/// environment equal the chosen ones up to ASCII case, and, when a search is
/// given, whose lower-cased name, provider, notes, workspace or environment
/// contains the lower-cased search text.
pub proof fn law_list_shows_exactly_the_matching_records(
    given: Seq<RecordView>,
    workspace: Option<Seq<char>>,
    environment: Option<Seq<char>>,
    search: Option<Seq<char>>,
    r: RecordView,
)
    ensures
        keep_where(given, |x: RecordView| cli_keep(x, workspace, environment, search)).contains(r) <==> {
            &&& given.contains(r)
            &&& (workspace matches Some(w) ==> eq_ignore_ascii_case(r.workspace, w))
            &&& (environment matches Some(e) ==> eq_ignore_ascii_case(r.environment, e))
            &&& (search matches Some(t) ==> some_field_contains(r, unicode_lowercase(t)))
        },
{
    lemma_keep_where_contains(given, |x: RecordView| cli_keep(x, workspace, environment, search), r);
}

/// The desktop list shows exactly the live records of the vault whose
/// environment equals the chosen one up to ASCII case where one is chosen,
/// and, when the trimmed search text is not empty, whose lower-cased name,
/// provider, notes, workspace or environment contains it lower-cased.
pub proof fn law_desktop_list_shows_exactly_the_matching_records(vault: Seq<RecordView>, filters: Filters, r: RecordView)
    ensures
        keep_where(
            keep_visible(vault),
            |x: RecordView| app_keep(x, app_environment(filters), app_needle(filters)),
        ).contains(r) <==> {
            let needle = unicode_lowercase(trim(filters.search@));
            &&& vault.contains(r)
            &&& r.deleted_at is None
            &&& (filters.environment matches Some(e) ==> eq_ignore_ascii_case(r.environment, e@))
            &&& (needle.len() == 0 || some_field_contains(r, needle))
        },
{
    let p = |x: RecordView| app_keep(x, app_environment(filters), app_needle(filters));
    lemma_keep_where_contains(keep_visible(vault), p, r);
    lemma_keep_visible_is_keep_where(vault);
    lemma_keep_where_contains(vault, |x: RecordView| x.deleted_at is None, r);
}

/// Every record that the command-line filter lists passes it and is one of
/// the records it was given; likewise for the desktop filter, whose records
/// are moreover all live.
pub proof fn law_filters_keep_only_matches(
    given: Seq<RecordView>,
    vault: Seq<RecordView>,
    workspace: Option<Seq<char>>,
    environment: Option<Seq<char>>,
    search: Option<Seq<char>>,
    filters: Filters,
)
    ensures
        ({
            let out = keep_where(given, |r: RecordView| cli_keep(r, workspace, environment, search));
            forall|k: int| 0 <= k < out.len() ==> cli_keep(#[trigger] out[k], workspace, environment, search)
                && given.contains(out[k])
        }),
        ({
            let out = keep_where(keep_visible(vault), |r: RecordView| app_keep(r, app_environment(filters), app_needle(filters)));
            forall|k: int| 0 <= k < out.len() ==> app_keep(#[trigger] out[k], app_environment(filters), app_needle(filters))
                && (out[k]).deleted_at is None && vault.contains(out[k])
        }),
{
    lemma_keep_where_members(given, |r: RecordView| cli_keep(r, workspace, environment, search));
    let p = |r: RecordView| app_keep(r, app_environment(filters), app_needle(filters));
    lemma_keep_where_members(keep_visible(vault), p);
    crate::record::law_visible_records_are_live(vault);
    crate::record::lemma_keep_visible_members(vault);
    let out = keep_where(keep_visible(vault), p);
    assert forall|k: int| 0 <= k < out.len() implies app_keep(#[trigger] out[k], app_environment(filters), app_needle(filters))
        && (out[k]).deleted_at is None && vault.contains(out[k]) by {
        let j = choose|j: int| 0 <= j < keep_visible(vault).len() && keep_visible(vault)[j] == out[k];
        assert(keep_visible(vault)[j].deleted_at is None);
    }
}

} // verus!
