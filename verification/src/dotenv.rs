//! `.env` text: splitting into lines, reading `KEY=value` entries, and
//! quoting values for export.
use vstd::prelude::*;
use crate::filter::{cli_keep, filtered, keep_where, ref_views};
use crate::record::{keep_visible, opt_view, RecordView, Vault};
use crate::text::{
    char_is_whitespace, chars_of, is_white_space, lemma_trim_bounds, push_str, string_from_chars,
    string_from_range, string_push, trim, trim_bounds, trim_start,
};

verus! {

/// Lines already closed, and the line being read, after scanning `s`.
pub open spec fn split_state(s: Seq<char>) -> (Seq<Seq<char>>, Seq<char>)
    decreases s.len(),
{
    if s.len() == 0 {
        (Seq::empty(), Seq::empty())
    } else {
        let (done, cur) = split_state(s.drop_last());
        if s.last() == '\n' {
            (done.push(strip_cr(cur)), Seq::empty())
        } else {
            (done, cur.push(s.last()))
        }
    }
}

/// A line ended by a newline loses one carriage return before it.
pub open spec fn strip_cr(line: Seq<char>) -> Seq<char> {
    if line.len() > 0 && line.last() == '\r' {
        line.drop_last()
    } else {
        line
    }
}

/// The lines of `s`, as `str::lines` gives them: the pieces between newlines,
/// each ended by `\n` or `\r\n`; a final empty piece (after a trailing
/// newline, or of the empty string) is not a line.
pub open spec fn lines_spec(s: Seq<char>) -> Seq<Seq<char>> {
    let (done, cur) = split_state(s);
    if cur.len() == 0 {
        done
    } else {
        done.push(cur)
    }
}

pub open spec fn string_views(v: Seq<String>) -> Seq<Seq<char>> {
    v.map_values(|s: String| s@)
}

/// Splits `s` into its lines.
pub fn split_lines(s: &str) -> (out: Vec<String>)
    ensures
        string_views(out@) == lines_spec(s@),
{
    let v = chars_of(s);
    let mut done: Vec<String> = Vec::new();
    let mut cur: Vec<char> = Vec::new();
    let mut i: usize = 0;
    while i < v.len()
        invariant
            i <= v@.len(),
            v@ == s@,
            string_views(done@) == split_state(v@.take(i as int)).0,
            cur@ == split_state(v@.take(i as int)).1,
        decreases v@.len() - i,
    {
        assert(v@.take(i + 1).drop_last() =~= v@.take(i as int));
        let c = v[i];
        if c == '\n' {
            let n = cur.len();
            if n > 0 && cur[n - 1] == '\r' {
                cur.pop();
            }
            let line = string_from_chars(&cur);
            done.push(line);
            cur = Vec::new();
            assert(string_views(done@) =~= split_state(v@.take(i as int)).0.push(line@));
        } else {
            cur.push(c);
        }
        i = i + 1;
    }
    assert(v@.take(v@.len() as int) =~= v@);
    if cur.len() > 0 {
        let line = string_from_chars(&cur);
        done.push(line);
        assert(string_views(done@) =~= split_state(v@).0.push(line@));
    }
    done
}

/// Position of the first `c` in `s`, or -1.
pub open spec fn index_of(s: Seq<char>, c: char) -> int
    decreases s.len(),
{
    if s.len() == 0 {
        -1
    } else if s[0] == c {
        0
    } else {
        let r = index_of(s.drop_first(), c);
        if r < 0 {
            -1
        } else {
            r + 1
        }
    }
}

proof fn lemma_index_of(s: Seq<char>, c: char, i: int)
    requires
        0 <= i <= s.len(),
        forall|j: int| 0 <= j < i ==> s[j] != c,
        i == s.len() || s[i] == c,
    ensures
        index_of(s, c) == if i == s.len() { -1 } else { i },
    decreases i,
{
    if i > 0 {
        let t = s.drop_first();
        assert forall|j: int| 0 <= j < i - 1 implies t[j] != c by {
            assert(t[j] == s[j + 1]);
        }
        if i < s.len() {
            assert(t[i - 1] == s[i]);
        }
        lemma_index_of(t, c, i - 1);
    }
}

/// Position of the first `c` in `v`, as `str::split_once` finds it.
pub fn find_char(v: &Vec<char>, c: char) -> (r: Option<usize>)
    ensures
        match r {
            Some(i) => i < v@.len() && index_of(v@, c) == i,
            None => index_of(v@, c) == -1,
        },
{
    let mut i: usize = 0;
    while i < v.len()
        invariant
            i <= v@.len(),
            forall|j: int| 0 <= j < i ==> v@[j] != c,
        decreases v@.len() - i,
    {
        if v[i] == c {
            proof {
                lemma_index_of(v@, c, i as int);
            }
            return Some(i);
        }
        i = i + 1;
    }
    proof {
        lemma_index_of(v@, c, v@.len() as int);
    }
    None
}

/// A value without one pair of matching surrounding quotes (`"` or `'`).
pub open spec fn unquote_spec(s: Seq<char>) -> Seq<char> {
    if s.len() >= 2 && ((s[0] == '"' && s.last() == '"') || (s[0] == '\'' && s.last() == '\'')) {
        s.subrange(1, s.len() - 1)
    } else {
        s
    }
}

/// Removes one pair of matching surrounding quotes.
pub fn unquote(value: &str) -> (out: String)
    ensures
        out@ == unquote_spec(value@),
{
    let v = chars_of(value);
    let n = v.len();
    if n >= 2 && ((v[0] == '"' && v[n - 1] == '"') || (v[0] == '\'' && v[n - 1] == '\'')) {
        string_from_range(&v, 1, n - 1)
    } else {
        string_from_chars(&v)
    }
}

/// Whether a value must be quoted to survive a `.env` round trip.
pub open spec fn needs_quotes(s: Seq<char>) -> bool {
    exists|i: int| 0 <= i < s.len() && (is_white_space(#[trigger] s[i]) || s[i] == '#' || s[i] == '"')
}

/// `s` with each `"` written as `\"`.
pub open spec fn escape_quotes(s: Seq<char>) -> Seq<char>
    decreases s.len(),
{
    if s.len() == 0 {
        Seq::empty()
    } else if s.last() == '"' {
        escape_quotes(s.drop_last()) + seq!['\\', '"']
    } else {
        escape_quotes(s.drop_last()).push(s.last())
    }
}

pub open spec fn quote_if_needed_spec(s: Seq<char>) -> Seq<char> {
    if needs_quotes(s) {
        seq!['"'] + escape_quotes(s) + seq!['"']
    } else {
        s
    }
}

/// Wraps a value in double quotes, escaping its own double quotes, when it
/// holds whitespace, `#` or `"`.
pub fn quote_if_needed(value: &str) -> (out: String)
    ensures
        out@ == quote_if_needed_spec(value@),
{
    let v = chars_of(value);
    let mut needs = false;
    let mut i: usize = 0;
    while i < v.len()
        invariant
            i <= v@.len(),
            v@ == value@,
            needs == exists|j: int| 0 <= j < i && (is_white_space(#[trigger] v@[j]) || v@[j] == '#' || v@[j] == '"'),
        decreases v@.len() - i,
    {
        let c = v[i];
        if char_is_whitespace(c) || c == '#' || c == '"' {
            needs = true;
        }
        i = i + 1;
    }
    if !needs {
        return string_from_chars(&v);
    }
    let mut out = String::new();
    string_push(&mut out, '"');
    let mut k: usize = 0;
    while k < v.len()
        invariant
            k <= v@.len(),
            v@ == value@,
            out@ == seq!['"'] + escape_quotes(v@.take(k as int)),
        decreases v@.len() - k,
    {
        assert(v@.take(k + 1).drop_last() =~= v@.take(k as int));
        if v[k] == '"' {
            string_push(&mut out, '\\');
            string_push(&mut out, '"');
            assert(out@ =~= seq!['"'] + escape_quotes(v@.take(k + 1)));
        } else {
            string_push(&mut out, v[k]);
            assert(out@ =~= seq!['"'] + escape_quotes(v@.take(k + 1)));
        }
        k = k + 1;
    }
    string_push(&mut out, '"');
    assert(v@.take(v@.len() as int) =~= v@);
    out
}

/// How a line of a `.env` preview is read.
#[derive(PartialEq, Eq, Structural, Clone, Copy, Debug)]
pub enum EnvStatus {
    /// Blank or comment line.
    Ignored,
    /// A line without `=`.
    Invalid,
    /// A `KEY=value` line.
    Ready,
}

impl EnvStatus {
    pub open spec fn label(&self) -> Seq<char> {
        match self {
            EnvStatus::Ignored => "ignored"@,
            EnvStatus::Invalid => "invalid"@,
            EnvStatus::Ready => "ready"@,
        }
    }

    /// The status word shown to the user.
    pub fn as_str(&self) -> (s: &'static str)
        ensures
            s@ == self.label(),
    {
        match self {
            EnvStatus::Ignored => "ignored",
            EnvStatus::Invalid => "invalid",
            EnvStatus::Ready => "ready",
        }
    }
}

/// One line of a `.env` preview.
pub struct EnvPreviewItem {
    pub line: usize,
    pub key: Option<String>,
    pub value: Option<String>,
    pub status: EnvStatus,
}

/// A preview line as the contracts see it.
pub struct PreviewView {
    pub line: nat,
    pub key: Option<Seq<char>>,
    pub value: Option<Seq<char>>,
    pub status: EnvStatus,
}

pub open spec fn opt_string_view(o: Option<String>) -> Option<Seq<char>> {
    match o {
        Some(s) => Some(s@),
        None => None,
    }
}

impl View for EnvPreviewItem {
    type V = PreviewView;

    open spec fn view(&self) -> PreviewView {
        PreviewView {
            line: self.line as nat,
            key: opt_string_view(self.key),
            value: opt_string_view(self.value),
            status: self.status,
        }
    }
}

/// `KEY=value` split at the first `=`: the trimmed key and the trimmed,
/// unquoted value.
pub open spec fn entry_key(t: Seq<char>) -> Seq<char> {
    trim(t.take(index_of(t, '=')))
}

pub open spec fn entry_value(t: Seq<char>) -> Seq<char> {
    unquote_spec(trim(t.skip(index_of(t, '=') + 1)))
}

/// A blank line or a comment.
pub open spec fn is_skipped_line(t: Seq<char>) -> bool {
    t.len() == 0 || t[0] == '#'
}

/// How line number `number` reads.
pub open spec fn preview_line(number: nat, raw: Seq<char>) -> PreviewView {
    let t = trim(raw);
    if is_skipped_line(t) {
        PreviewView { line: number, key: None, value: None, status: EnvStatus::Ignored }
    } else if index_of(t, '=') < 0 {
        PreviewView { line: number, key: None, value: None, status: EnvStatus::Invalid }
    } else {
        PreviewView { line: number, key: Some(entry_key(t)), value: Some(entry_value(t)), status: EnvStatus::Ready }
    }
}

/// The trimmed line, its key and its value, when it holds a `=`.
struct SplitEntry {
    trimmed: Vec<char>,
    eq: Option<usize>,
}

fn split_entry(raw: &str) -> (r: SplitEntry)
    ensures
        r.trimmed@ == trim(raw@),
        match r.eq {
            Some(i) => i < r.trimmed@.len() && index_of(r.trimmed@, '=') == i,
            None => index_of(r.trimmed@, '=') == -1,
        },
{
    let v = chars_of(raw);
    let (lo, hi) = trim_bounds(&v);
    let t = string_from_range(&v, lo, hi);
    let trimmed = chars_of(t.as_str());
    let eq = find_char(&trimmed, '=');
    SplitEntry { trimmed, eq }
}

/// Trimmed `v[lo..hi]`.
fn trimmed_range(v: &Vec<char>, lo: usize, hi: usize) -> (out: String)
    requires
        lo <= hi <= v@.len(),
    ensures
        out@ == trim(v@.subrange(lo as int, hi as int)),
{
    let part = string_from_range(v, lo, hi);
    let pv = chars_of(part.as_str());
    let (a, b) = trim_bounds(&pv);
    string_from_range(&pv, a, b)
}

fn read_line(number: usize, raw: &str) -> (item: EnvPreviewItem)
    ensures
        item@ == preview_line(number as nat, raw@),
{
    let e = split_entry(raw);
    let t = &e.trimmed;
    if t.len() == 0 || t[0] == '#' {
        return EnvPreviewItem { line: number, key: None, value: None, status: EnvStatus::Ignored };
    }
    match e.eq {
        None => EnvPreviewItem { line: number, key: None, value: None, status: EnvStatus::Invalid },
        Some(i) => {
            let key = trimmed_range(t, 0, i);
            let raw_value = trimmed_range(t, i + 1, t.len());
            let value = unquote(raw_value.as_str());
            assert(t@.subrange(0, i as int) =~= t@.take(i as int));
            assert(t@.subrange(i + 1, t@.len() as int) =~= t@.skip(i + 1));
            EnvPreviewItem { line: number, key: Some(key), value: Some(value), status: EnvStatus::Ready }
        },
    }
}

/// Reads every line of a `.env` text, numbering the lines from 1.
pub fn preview_env(content: &str) -> (items: Vec<EnvPreviewItem>)
    ensures
        items@.len() == lines_spec(content@).len(),
        forall|k: int| 0 <= k < items@.len() ==> #[trigger] items@[k]@ == preview_line(
            (k + 1) as nat,
            lines_spec(content@)[k],
        ),
{
    let lines = split_lines(content);
    let mut items: Vec<EnvPreviewItem> = Vec::new();
    let mut k: usize = 0;
    while k < lines.len()
        invariant
            k <= lines@.len(),
            string_views(lines@) == lines_spec(content@),
            items@.len() == k,
            forall|j: int| 0 <= j < k ==> #[trigger] items@[j]@ == preview_line(
                (j + 1) as nat,
                lines_spec(content@)[j],
            ),
        decreases lines@.len() - k,
    {
        assert(lines@[k as int]@ == lines_spec(content@)[k as int]);
        let item = read_line(k + 1, lines[k].as_str());
        items.push(item);
        k = k + 1;
    }
    items
}

/// A `KEY=value` entry of the `.env` import dialog.
pub struct EnvItem {
    pub key: String,
    pub value: String,
}

/// An entry as the contracts see it.
pub struct EnvItemView {
    pub key: Seq<char>,
    pub value: Seq<char>,
}

impl View for EnvItem {
    type V = EnvItemView;

    open spec fn view(&self) -> EnvItemView {
        EnvItemView { key: self.key@, value: self.value@ }
    }
}

/// How the import dialog reads one line: `None` for a blank or comment line,
/// `Some(None)` for an invalid one (no `=`, or an empty key).
pub open spec fn parse_line(raw: Seq<char>) -> Option<Option<EnvItemView>> {
    let t = trim(raw);
    if is_skipped_line(t) {
        None
    } else if index_of(t, '=') < 0 || entry_key(t).len() == 0 {
        Some(None)
    } else {
        Some(Some(EnvItemView { key: entry_key(t), value: entry_value(t) }))
    }
}

/// The raw text after the first `=` of a trimmed line, itself trimmed.
pub open spec fn text_after_eq(t: Seq<char>) -> Seq<char> {
    trim(t.skip(index_of(t, '=') + 1))
}

/// An entry that the import reads from a line is what the preview shows for
/// that line: the trimmed text before the first `=` as key, and as value the
/// trimmed text after it, without its surrounding quotes when it is wrapped
/// in a matching pair of `"` or `'`, and as it is otherwise.
pub proof fn law_parsed_entry_is_the_previewed_one(number: nat, raw: Seq<char>)
    ensures
        parse_line(raw) matches Some(Some(e)) ==> {
            let t = trim(raw);
            let r = text_after_eq(t);
            let p = preview_line(number, raw);
            &&& p.status == EnvStatus::Ready
            &&& p.key == Some(e.key)
            &&& p.value == Some(e.value)
            &&& e.key == trim(t.take(index_of(t, '=')))
            &&& e.key.len() > 0
            &&& (r.len() >= 2 && r[0] == '"' && r.last() == '"') ==> e.value == r.subrange(1, r.len() - 1)
            &&& (r.len() >= 2 && r[0] == '\'' && r.last() == '\'') ==> e.value == r.subrange(1, r.len() - 1)
            &&& !(r.len() >= 2 && ((r[0] == '"' && r.last() == '"') || (r[0] == '\'' && r.last() == '\'')))
                ==> e.value == r
        },
{
}

/// The entries of all lines, blank and comment lines left out.
pub open spec fn parse_env_spec(lines: Seq<Seq<char>>) -> Seq<Option<EnvItemView>>
    decreases lines.len(),
{
    if lines.len() == 0 {
        Seq::empty()
    } else {
        let rest = parse_env_spec(lines.drop_last());
        match parse_line(lines.last()) {
            None => rest,
            Some(entry) => rest.push(entry),
        }
    }
}

pub open spec fn entry_views(v: Seq<Option<EnvItem>>) -> Seq<Option<EnvItemView>> {
    v.map_values(|e: Option<EnvItem>| match e {
        Some(item) => Some(item@),
        None => None,
    })
}

/// Reads the `KEY=value` entries of a `.env` text; blank and comment lines are
/// left out, and a line without `=` or with an empty key gives `None`.
pub fn parse_env(content: &str) -> (items: Vec<Option<EnvItem>>)
    ensures
        entry_views(items@) == parse_env_spec(lines_spec(content@)),
{
    let lines = split_lines(content);
    let mut items: Vec<Option<EnvItem>> = Vec::new();
    let mut k: usize = 0;
    while k < lines.len()
        invariant
            k <= lines@.len(),
            string_views(lines@) == lines_spec(content@),
            entry_views(items@) == parse_env_spec(lines_spec(content@).take(k as int)),
        decreases lines@.len() - k,
    {
        let ghost ls = lines_spec(content@);
        assert(ls.take(k + 1).drop_last() =~= ls.take(k as int));
        assert(lines@[k as int]@ == ls[k as int]);
        let e = split_entry(lines[k].as_str());
        let t = &e.trimmed;
        if t.len() == 0 || t[0] == '#' {
        } else {
            match e.eq {
                None => {
                    items.push(None);
                    assert(entry_views(items@) =~= parse_env_spec(ls.take(k as int)).push(None));
                },
                Some(i) => {
                    let key = trimmed_range(t, 0, i);
                    assert(t@.subrange(0, i as int) =~= t@.take(i as int));
                    if key.as_str().is_empty() {
                        items.push(None);
                        assert(entry_views(items@) =~= parse_env_spec(ls.take(k as int)).push(None));
                    } else {
                        let raw_value = trimmed_range(t, i + 1, t.len());
                        let value = unquote(raw_value.as_str());
                        assert(t@.subrange(i + 1, t@.len() as int) =~= t@.skip(i + 1));
                        let item = EnvItem { key, value };
                        let ghost iv = item@;
                        items.push(Some(item));
                        assert(entry_views(items@) =~= parse_env_spec(ls.take(k as int)).push(Some(iv)));
                    }
                },
            }
        }
        k = k + 1;
    }
    assert(lines_spec(content@).take(lines@.len() as int) =~= lines_spec(content@));
    items
}

/// One exported line: `NAME=value`, the value quoted where needed.
pub open spec fn export_line(r: RecordView) -> Seq<char> {
    r.name + "="@ + quote_if_needed_spec(r.value)
}

/// The lines joined by newlines.
pub open spec fn join_lines(ls: Seq<Seq<char>>) -> Seq<char>
    decreases ls.len(),
{
    if ls.len() == 0 {
        Seq::empty()
    } else if ls.len() == 1 {
        ls[0]
    } else {
        join_lines(ls.drop_last()) + seq!['\n'] + ls.last()
    }
}

/// The records that an export writes: the live ones, narrowed to a workspace
/// and an environment where given.
pub open spec fn exported_records(s: Seq<RecordView>, workspace: Option<Seq<char>>, environment: Option<Seq<char>>) -> Seq<RecordView> {
    keep_where(keep_visible(s), |r: RecordView| cli_keep(r, workspace, environment, None))
}

/// The `.env` payload of the live records, narrowed to a workspace and an
/// environment where given, one `NAME=value` line each.
pub fn export_payload(vault: &Vault, workspace: Option<&str>, environment: Option<&str>) -> (out: String)
    ensures
        out@ == join_lines(exported_records(vault@, opt_view(workspace), opt_view(environment)).map_values(
            |r: RecordView| export_line(r),
        )),
{
    let live = vault.visible_records();
    let chosen = filtered(&live, workspace, environment, None);
    let ghost lines = ref_views(chosen@).map_values(|r: RecordView| export_line(r));
    assert(ref_views(chosen@) == exported_records(vault@, opt_view(workspace), opt_view(environment)));
    let mut out = String::new();
    let mut i: usize = 0;
    while i < chosen.len()
        invariant
            i <= chosen@.len(),
            lines == ref_views(chosen@).map_values(|r: RecordView| export_line(r)),
            out@ == join_lines(lines.take(i as int)),
        decreases chosen@.len() - i,
    {
        let r = chosen[i];
        assert(lines.take(i + 1).drop_last() =~= lines.take(i as int));
        assert(lines.take(i + 1).last() == export_line(r@));
        if i > 0 {
            string_push(&mut out, '\n');
        }
        let ghost before = out@;
        push_str(&mut out, r.name.as_str());
        push_str(&mut out, "=");
        let quoted = quote_if_needed(r.value.as_str());
        push_str(&mut out, quoted.as_str());
        if i == 0 {
            assert(lines.take(1) =~= seq![export_line(r@)]);
            assert(out@ =~= export_line(r@));
        } else {
            assert(out@ =~= join_lines(lines.take(i as int)) + seq!['\n'] + export_line(r@));
        }
        i = i + 1;
    }
    assert(lines.take(chosen@.len() as int) =~= lines);
    out
}

proof fn lemma_split_state_append(x: Seq<char>, b: Seq<char>)
    requires
        forall|i: int| 0 <= i < b.len() ==> b[i] != '\n',
    ensures
        split_state(x + b) == (split_state(x).0, split_state(x).1 + b),
    decreases b.len(),
{
    if b.len() == 0 {
        assert(x + b =~= x);
        assert(split_state(x).1 + b =~= split_state(x).1);
    } else {
        lemma_split_state_append(x, b.drop_last());
        assert((x + b).drop_last() =~= x + b.drop_last());
        assert((x + b).last() == b.last());
        assert((split_state(x).1 + b.drop_last()).push(b.last()) =~= split_state(x).1 + b);
    }
}

proof fn lemma_split_state_newline(x: Seq<char>)
    ensures
        split_state(x + seq!['\n']) == (split_state(x).0.push(strip_cr(split_state(x).1)), Seq::<char>::empty()),
{
    assert((x + seq!['\n']).drop_last() =~= x);
}

/// Lines without newlines, none empty or ending in a carriage return, joined
/// and split again, come back.
pub proof fn lemma_lines_of_joined(ls: Seq<Seq<char>>)
    requires
        forall|k: int| 0 <= k < ls.len() ==> (#[trigger] ls[k]).len() > 0 && ls[k].last() != '\r',
        forall|k: int, i: int| 0 <= k < ls.len() && 0 <= i < ls[k].len() ==> (#[trigger] ls[k][i]) != '\n',
    ensures
        lines_spec(join_lines(ls)) == ls,
    decreases ls.len(),
{
    if ls.len() == 0 {
    } else {
        lemma_joined_state(ls);
        assert(ls.drop_last().push(ls.last()) =~= ls);
    }
}

proof fn lemma_joined_state(ls: Seq<Seq<char>>)
    requires
        ls.len() > 0,
        forall|k: int| 0 <= k < ls.len() ==> (#[trigger] ls[k]).len() > 0 && ls[k].last() != '\r',
        forall|k: int, i: int| 0 <= k < ls.len() && 0 <= i < ls[k].len() ==> (#[trigger] ls[k][i]) != '\n',
    ensures
        split_state(join_lines(ls)) == (ls.drop_last(), ls.last()),
    decreases ls.len(),
{
    let last = ls.last();
    assert forall|i: int| 0 <= i < last.len() implies last[i] != '\n' by {
        assert(ls[ls.len() - 1][i] != '\n');
    }
    if ls.len() == 1 {
        lemma_split_state_append(Seq::<char>::empty(), ls[0]);
        assert(Seq::<char>::empty() + ls[0] =~= ls[0]);
        assert(split_state(Seq::<char>::empty()) == (Seq::<Seq<char>>::empty(), Seq::<char>::empty()));
        assert(Seq::<char>::empty() + ls[0] =~= ls[0]);
        assert(ls.drop_last() =~= Seq::<Seq<char>>::empty());
    } else {
        let init = ls.drop_last();
        assert forall|k: int, i: int| 0 <= k < init.len() && 0 <= i < init[k].len() implies (#[trigger] init[k][i]) != '\n' by {
            assert(init[k] == ls[k]);
        }
        assert forall|k: int| 0 <= k < init.len() implies (#[trigger] init[k]).len() > 0 && init[k].last() != '\r' by {
            assert(init[k] == ls[k]);
        }
        assert(strip_cr(init.last()) == init.last());
        lemma_joined_state(init);
        let j = join_lines(init);
        lemma_split_state_newline(j);
        lemma_split_state_append(j + seq!['\n'], last);
        assert(join_lines(ls) == j + seq!['\n'] + last);
        assert(init.drop_last().push(init.last()) =~= init);
        assert(Seq::<char>::empty() + last =~= last);
    }
}

/// The value reads back unchanged from its exported form.
pub open spec fn value_exports_cleanly(v: Seq<char>) -> bool {
    &&& forall|i: int| 0 <= i < v.len() ==> (#[trigger] v[i]) != '"' && v[i] != '\n'
    &&& !needs_quotes(v) ==> !(v.len() >= 2 && v[0] == '\'' && v.last() == '\'')
}

/// The record's line of an export reads back as its name and value.
pub open spec fn exports_cleanly(r: RecordView) -> bool {
    &&& trim(r.name) == r.name
    &&& forall|i: int| 0 <= i < r.name.len() ==> (#[trigger] r.name[i]) != '=' && r.name[i] != '\n'
    &&& r.name.len() > 0 ==> r.name[0] != '#'
    &&& value_exports_cleanly(r.value)
}

proof fn lemma_trim_fixed(s: Seq<char>)
    requires
        s.len() > 0 ==> !is_white_space(s[0]) && !is_white_space(s.last()),
    ensures
        trim(s) == s,
{
    if s.len() == 0 {
        crate::text::lemma_lead_ws(s, 0);
        crate::text::lemma_trail_ws(s, 0);
        assert(trim(s) =~= s);
    } else {
        crate::text::lemma_lead_ws(s, 0);
        assert(trim_start(s) =~= s);
        crate::text::lemma_trail_ws(s, 0);
        assert(trim(s) =~= s);
    }
}

proof fn lemma_trimmed_ends(s: Seq<char>)
    requires
        trim(s) == s,
        s.len() > 0,
    ensures
        !is_white_space(s[0]),
        !is_white_space(s.last()),
{
    lemma_trim_bounds(s);
    crate::text::lemma_trim_len(s);
}

proof fn lemma_escape_plain(v: Seq<char>)
    requires
        forall|i: int| 0 <= i < v.len() ==> v[i] != '"',
    ensures
        escape_quotes(v) == v,
    decreases v.len(),
{
    if v.len() > 0 {
        lemma_escape_plain(v.drop_last());
        assert(v.drop_last().push(v.last()) =~= v);
    }
}

/// A line of an export, read back by the `.env` preview, gives the record's
/// name and value.
pub proof fn law_export_line_reads_back(r: RecordView, number: nat)
    requires
        exports_cleanly(r),
    ensures
        preview_line(number, export_line(r)) == (PreviewView {
            line: number,
            key: Some(r.name),
            value: Some(r.value),
            status: EnvStatus::Ready,
        }),
{
    let name = r.name;
    let v = r.value;
    let q = quote_if_needed_spec(v);
    let line = export_line(r);
    assert(line == name + seq!['='] + q) by {
        reveal_strlit("=");
    }
    // The quoted value is itself trimmed and unquotes to the value.
    if needs_quotes(v) {
        lemma_escape_plain(v);
        assert(q =~= seq!['"'] + v + seq!['"']);
        lemma_trim_fixed(q);
        assert(q.subrange(1, q.len() - 1) =~= v);
    } else {
        if v.len() > 0 {
            assert(!is_white_space(v[0]));
            assert(!is_white_space(v.last()));
        }
        lemma_trim_fixed(v);
    }
    assert(trim(q) == q);
    assert(unquote_spec(q) == v);
    // The whole line is trimmed.
    if name.len() > 0 {
        lemma_trimmed_ends(name);
        assert(line[0] == name[0]);
    } else {
        assert(line[0] == '=');
    }
    if q.len() > 0 {
        assert(line.last() == q.last());
        if needs_quotes(v) {
            assert(q.last() == '"');
        } else {
            assert(!is_white_space(v.last()));
        }
    } else {
        assert(line.last() == '=');
    }
    lemma_trim_fixed(line);
    // The first `=` ends the name.
    assert forall|j: int| 0 <= j < name.len() implies line[j] != '=' by {
        assert(line[j] == name[j]);
    }
    lemma_index_of(line, '=', name.len() as int);
    assert(line.take(name.len() as int) =~= name);
    assert(line.skip((name.len() + 1) as int) =~= q);
}

/// An export read back by the `.env` preview gives each record's name and
/// value, on its own line, in order.
pub proof fn law_export_then_preview(rs: Seq<RecordView>)
    requires
        forall|k: int| 0 <= k < rs.len() ==> exports_cleanly(#[trigger] rs[k]),
    ensures
        ({
            let ls = lines_spec(join_lines(rs.map_values(|r: RecordView| export_line(r))));
            &&& ls.len() == rs.len()
            &&& forall|k: int| 0 <= k < rs.len() ==> #[trigger] preview_line((k + 1) as nat, ls[k]) == (PreviewView {
                line: (k + 1) as nat,
                key: Some(rs[k].name),
                value: Some(rs[k].value),
                status: EnvStatus::Ready,
            })
        }),
{
    let ls = rs.map_values(|r: RecordView| export_line(r));
    assert forall|k: int| 0 <= k < ls.len() implies (#[trigger] ls[k]).len() > 0 && ls[k].last() != '\r' by {
        let r = rs[k];
        assert(exports_cleanly(r));
        reveal_strlit("=");
        let q = quote_if_needed_spec(r.value);
        assert(ls[k] == r.name + seq!['='] + q);
        if q.len() > 0 {
            assert(ls[k].last() == q.last());
            if needs_quotes(r.value) {
                lemma_escape_plain(r.value);
                assert(q =~= seq!['"'] + r.value + seq!['"']);
            } else {
                assert(!is_white_space(r.value.last()));
            }
        }
    }
    assert forall|k: int, i: int| 0 <= k < ls.len() && 0 <= i < ls[k].len() implies (#[trigger] ls[k][i]) != '\n' by {
        let r = rs[k];
        assert(exports_cleanly(r));
        reveal_strlit("=");
        let q = quote_if_needed_spec(r.value);
        assert(ls[k] == r.name + seq!['='] + q);
        if needs_quotes(r.value) {
            lemma_escape_plain(r.value);
            assert(q =~= seq!['"'] + r.value + seq!['"']);
        }
        if i < r.name.len() {
            assert(ls[k][i] == r.name[i]);
        } else if i > r.name.len() {
            assert(ls[k][i] == q[i - r.name.len() - 1]);
        }
    }
    lemma_lines_of_joined(ls);
    assert forall|k: int| 0 <= k < rs.len() implies #[trigger] preview_line((k + 1) as nat, lines_spec(join_lines(ls))[k]) == (PreviewView {
        line: (k + 1) as nat,
        key: Some(rs[k].name),
        value: Some(rs[k].value),
        status: EnvStatus::Ready,
    }) by {
        law_export_line_reads_back(rs[k], (k + 1) as nat);
    }
}

/// An export writes live records only, each in the chosen workspace and
/// environment.
pub proof fn law_export_only_live(s: Seq<RecordView>, workspace: Option<Seq<char>>, environment: Option<Seq<char>>)
    ensures
        forall|k: int| 0 <= k < exported_records(s, workspace, environment).len() ==> {
            let r = #[trigger] exported_records(s, workspace, environment)[k];
            &&& r.deleted_at is None
            &&& s.contains(r)
            &&& cli_keep(r, workspace, environment, None)
        },
{
    let p = |r: RecordView| cli_keep(r, workspace, environment, None);
    crate::filter::lemma_keep_where_members(keep_visible(s), p);
    crate::record::law_visible_records_are_live(s);
    crate::record::lemma_keep_visible_members(s);
    assert forall|k: int| 0 <= k < exported_records(s, workspace, environment).len() implies {
        let r = #[trigger] exported_records(s, workspace, environment)[k];
        &&& r.deleted_at is None
        &&& s.contains(r)
        &&& cli_keep(r, workspace, environment, None)
    } by {
        let r = exported_records(s, workspace, environment)[k];
        let j = choose|j: int| 0 <= j < keep_visible(s).len() && keep_visible(s)[j] == r;
        assert(keep_visible(s)[j].deleted_at is None);
        assert(s.contains(keep_visible(s)[j]));
    }
}

} // verus!
