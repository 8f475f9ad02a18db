//! What the command line and the desktop app show: masked values, colours,
//! messages, filters and the listing table.
use vstd::prelude::*;
use crate::filter::ref_views;
use crate::record::{RecordView, SecretRecord};
use crate::text::{chars_of, push_str, string_push};
use vstd::utf8::{char_is_scalar, encode_scalar, encode_utf8, encode_utf8_decode_utf8};

verus! {

/// Number of bytes of the UTF-8 encoding of `c`.
pub open spec fn utf8_len(c: char) -> nat {
    let u = c as u32;
    if u < 0x80 {
        1
    } else if u < 0x800 {
        2
    } else if u < 0x10000 {
        3
    } else {
        4
    }
}

/// Number of bytes of the UTF-8 encoding of `s`, as `str::len` counts them.
pub open spec fn byte_len(s: Seq<char>) -> nat
    decreases s.len(),
{
    if s.len() == 0 {
        0
    } else {
        byte_len(s.drop_last()) + utf8_len(s.last())
    }
}

pub fn char_utf8_len(c: char) -> (n: u8)
    ensures
        n == utf8_len(c),
{
    let u = c as u32;
    if u < 0x80 {
        1
    } else if u < 0x800 {
        2
    } else if u < 0x10000 {
        3
    } else {
        4
    }
}

/// `n` bullet characters.
pub open spec fn bullets(n: nat) -> Seq<char> {
    Seq::new(n, |i: int| '•')
}

/// The last characters of `s` make up exactly four bytes, so that slicing
/// at byte `len - 4` stays on a character boundary.
pub open spec fn has_four_byte_suffix(s: Seq<char>) -> bool {
    exists|k: int| 0 <= k <= s.len() && byte_len(#[trigger] s.skip(k)) == 4
}

/// `mask` can show `s`: it is at most four bytes long, or its last four bytes
/// start on a character boundary.
pub open spec fn maskable(s: Seq<char>) -> bool {
    byte_len(s) <= 4 || has_four_byte_suffix(s)
}

/// What `mask` shows: one bullet per byte (at least one) for a short value,
/// else eight bullets and the last four bytes.
pub open spec fn mask_spec(s: Seq<char>) -> Seq<char> {
    if byte_len(s) <= 4 {
        bullets(if byte_len(s) == 0 { 1 } else { byte_len(s) })
    } else {
        bullets(8) + s.skip(choose|k: int| 0 <= k <= s.len() && byte_len(#[trigger] s.skip(k)) == 4)
    }
}

proof fn lemma_byte_len_push(s: Seq<char>, c: char)
    ensures
        byte_len(s.push(c)) == byte_len(s) + utf8_len(c),
{
    assert(s.push(c).drop_last() =~= s);
}

proof fn lemma_byte_len_prepend(c: char, s: Seq<char>)
    ensures
        byte_len(seq![c] + s) == utf8_len(c) + byte_len(s),
    decreases s.len(),
{
    if s.len() == 0 {
        assert((seq![c] + s).drop_last() =~= Seq::<char>::empty());
        assert(byte_len(Seq::<char>::empty()) == 0);
    } else {
        assert((seq![c] + s).drop_last() =~= seq![c] + s.drop_last());
        lemma_byte_len_prepend(c, s.drop_last());
    }
}

/// Dropping more characters from the front leaves fewer bytes.
proof fn lemma_skip_bytes_strict(s: Seq<char>, a: int, b: int)
    requires
        0 <= a < b <= s.len(),
    ensures
        byte_len(s.skip(b)) < byte_len(s.skip(a)),
    decreases b - a,
{
    assert(s.skip(a) =~= seq![s[a]] + s.skip(a + 1));
    lemma_byte_len_prepend(s[a], s.skip(a + 1));
    if a + 1 < b {
        lemma_skip_bytes_strict(s, a + 1, b);
    }
}

fn bullet_string(n: usize) -> (out: String)
    ensures
        out@ == bullets(n as nat),
{
    let mut out = String::new();
    let mut i: usize = 0;
    while i < n
        invariant
            i <= n,
            out@ == bullets(i as nat),
        decreases n - i,
    {
        string_push(&mut out, '•');
        assert(out@ =~= bullets((i + 1) as nat));
        i = i + 1;
    }
    out
}

/// Whether `mask` can show `value` (see `maskable`).
pub fn can_mask(value: &str) -> (b: bool)
    ensures
        b == maskable(value@),
{
    let v = chars_of(value);
    let n = v.len();
    let mut total: u128 = 0;
    let mut i: usize = 0;
    while i < n
        invariant
            i <= n == v@.len(),
            v@ == value@,
            total == byte_len(v@.take(i as int)),
            total <= 4 * i,
        decreases n - i,
    {
        proof {
            lemma_byte_len_push(v@.take(i as int), v@[i as int]);
            assert(v@.take(i + 1) =~= v@.take(i as int).push(v@[i as int]));
        }
        total = total + char_utf8_len(v[i]) as u128;
        i = i + 1;
    }
    assert(v@.take(n as int) =~= v@);
    if total <= 4 {
        return true;
    }
    let (found, _) = suffix_of_four(&v);
    found
}

/// Scans `v` from the end for a suffix of exactly four bytes.
fn suffix_of_four(v: &Vec<char>) -> (r: (bool, usize))
    ensures
        r.0 == has_four_byte_suffix(v@),
        r.0 ==> r.1 <= v@.len() && byte_len(v@.skip(r.1 as int)) == 4,
{
    let n = v.len();
    let mut j: usize = n;
    let mut acc: u8 = 0;
    assert(v@.skip(n as int) =~= Seq::<char>::empty());
    while acc < 4 && j > 0
        invariant
            j <= n == v@.len(),
            acc == byte_len(v@.skip(j as int)),
            acc <= 7,
            forall|k: int| j < k <= n ==> byte_len(#[trigger] v@.skip(k)) < 4,
        decreases j,
    {
        j = j - 1;
        proof {
            assert(v@.skip(j as int) =~= seq![v@[j as int]] + v@.skip(j + 1));
            lemma_byte_len_prepend(v@[j as int], v@.skip(j + 1));
        }
        acc = acc + char_utf8_len(v[j]);
    }
    if acc == 4 {
        return (true, j);
    }
    proof {
        assert forall|k: int| 0 <= k <= v@.len() implies byte_len(#[trigger] v@.skip(k)) != 4 by {
            if k < j {
                lemma_skip_bytes_strict(v@, k, j as int);
            }
        }
    }
    (false, 0)
}

/// The masked form of a secret value: bullets, and for a value longer than
/// four bytes, its last four bytes.
pub fn mask(value: &str) -> (out: String)
    requires
        maskable(value@),
    ensures
        out@ == mask_spec(value@),
{
    let v = chars_of(value);
    let n = v.len();
    let mut total: u128 = 0;
    let mut i: usize = 0;
    while i < n
        invariant
            i <= n == v@.len(),
            v@ == value@,
            total == byte_len(v@.take(i as int)),
            total <= 4 * i,
        decreases n - i,
    {
        proof {
            lemma_byte_len_push(v@.take(i as int), v@[i as int]);
            assert(v@.take(i + 1) =~= v@.take(i as int).push(v@[i as int]));
        }
        total = total + char_utf8_len(v[i]) as u128;
        i = i + 1;
    }
    assert(v@.take(n as int) =~= v@);
    if total <= 4 {
        let count: usize = if total == 0 { 1 } else { total as usize };
        return bullet_string(count);
    }
    let (found, j) = suffix_of_four(&v);
    if !found {
        assert(false);
        return String::new();
    }
    let mut out = bullet_string(8);
    let mut k = j;
    while k < n
        invariant
            j <= k <= n == v@.len(),
            out@ == bullets(8) + v@.subrange(j as int, k as int),
        decreases n - k,
    {
        string_push(&mut out, v[k]);
        assert(v@.subrange(j as int, k + 1) =~= v@.subrange(j as int, k as int).push(v@[k as int]));
        k = k + 1;
    }
    proof {
        let c = choose|k: int| 0 <= k <= v@.len() && byte_len(#[trigger] v@.skip(k)) == 4;
        if c < j {
            lemma_skip_bytes_strict(v@, c, j as int);
        } else if c > j {
            lemma_skip_bytes_strict(v@, j as int, c);
        }
        assert(v@.subrange(j as int, n as int) =~= v@.skip(j as int));
    }
    out
}

/// Terminal colouring; a disabled theme leaves text as it is.
pub struct Theme {
    pub enabled: bool,
}

/// The colour code of an environment's label: Dev cyan, Staging yellow, Prod
/// red, no colour for others.
pub open spec fn env_code(environment: Seq<char>) -> Option<Seq<char>> {
    if environment == "Dev"@ {
        Some("36"@)
    } else if environment == "Staging"@ {
        Some("33"@)
    } else if environment == "Prod"@ {
        Some("31"@)
    } else {
        None
    }
}

/// The colour code of a `.env` preview status: ready green, ignored dim,
/// invalid red, anything else yellow.
pub open spec fn status_code(status: Seq<char>) -> Seq<char> {
    if status == "ready"@ {
        "32"@
    } else if status == "ignored"@ {
        "2"@
    } else if status == "invalid"@ {
        "31"@
    } else {
        "33"@
    }
}

impl Theme {
    /// `value` wrapped in the ANSI escape for `code`, when colour is enabled.
    pub open spec fn painted(&self, value: Seq<char>, code: Seq<char>) -> Seq<char> {
        if self.enabled {
            "\u{1b}["@ + code + "m"@ + value + "\u{1b}[0m"@
        } else {
            value
        }
    }

    pub fn paint(&self, value: &str, code: &str) -> (out: String)
        ensures
            out@ == self.painted(value@, code@),
    {
        if self.enabled {
            let mut out = String::new();
            push_str(&mut out, "\u{1b}[");
            push_str(&mut out, code);
            push_str(&mut out, "m");
            push_str(&mut out, value);
            push_str(&mut out, "\u{1b}[0m");
            assert(out@ =~= Seq::<char>::empty() + "\u{1b}["@ + code@ + "m"@ + value@ + "\u{1b}[0m"@);
            assert(Seq::<char>::empty() + "\u{1b}["@ =~= "\u{1b}["@);
            out
        } else {
            value.to_owned()
        }
    }

    /// Green.
    pub fn success(&self, value: &str) -> (out: String)
        ensures
            out@ == self.painted(value@, "32"@),
    {
        self.paint(value, "32")
    }

    /// Bold red.
    pub fn error(&self, value: &str) -> (out: String)
        ensures
            out@ == self.painted(value@, "1;31"@),
    {
        self.paint(value, "1;31")
    }

    /// Bold cyan.
    pub fn key(&self, value: &str) -> (out: String)
        ensures
            out@ == self.painted(value@, "1;36"@),
    {
        self.paint(value, "1;36")
    }

    /// Dim.
    pub fn dim(&self, value: &str) -> (out: String)
        ensures
            out@ == self.painted(value@, "2"@),
    {
        self.paint(value, "2")
    }

    /// Dim and bold, for column headers.
    pub fn header(&self, value: &str) -> (out: String)
        ensures
            out@ == self.painted(value@, "2;1"@),
    {
        self.paint(value, "2;1")
    }

    /// The padded environment label, coloured by environment.
    pub fn env(&self, environment: &str, padded: &str) -> (out: String)
        ensures
            out@ == match env_code(environment@) {
                Some(code) => self.painted(padded@, code),
                None => padded@,
            },
    {
        if crate::text::str_eq(environment, "Dev") {
            self.paint(padded, "36")
        } else if crate::text::str_eq(environment, "Staging") {
            self.paint(padded, "33")
        } else if crate::text::str_eq(environment, "Prod") {
            self.paint(padded, "31")
        } else {
            padded.to_owned()
        }
    }

    /// A `.env` preview status, coloured by status.
    pub fn status(&self, value: &str) -> (out: String)
        ensures
            out@ == self.painted(value@, status_code(value@)),
    {
        if crate::text::str_eq(value, "ready") {
            self.paint(value, "32")
        } else if crate::text::str_eq(value, "ignored") {
            self.paint(value, "2")
        } else if crate::text::str_eq(value, "invalid") {
            self.paint(value, "31")
        } else {
            self.paint(value, "33")
        }
    }
}

/// The message for a key that the vault does not hold.
pub open spec fn not_found_spec(key: Seq<char>, workspace: Option<Seq<char>>, environment: Option<Seq<char>>) -> Seq<char> {
    let base = "no secret named "@ + key;
    let with_ws = match workspace {
        Some(w) => base + " in workspace "@ + w,
        None => base,
    };
    match environment {
        Some(e) => with_ws + " / env "@ + e,
        None => with_ws,
    }
}

pub fn not_found_error(key: &str, workspace: Option<&str>, environment: Option<&str>) -> (out: String)
    ensures
        out@ == not_found_spec(key@, crate::record::opt_view(workspace), crate::record::opt_view(environment)),
{
    let mut detail = String::new();
    push_str(&mut detail, "no secret named ");
    push_str(&mut detail, key);
    assert(detail@ =~= "no secret named "@ + key@);
    if let Some(w) = workspace {
        push_str(&mut detail, " in workspace ");
        push_str(&mut detail, w);
    }
    if let Some(e) = environment {
        push_str(&mut detail, " / env ");
        push_str(&mut detail, e);
    }
    detail
}

/// Number of UTF-8 bytes of `s`.
pub fn byte_count(s: &str) -> (n: u128)
    ensures
        n == byte_len(s@),
        n <= 4 * s@.len(),
{
    let v = chars_of(s);
    let count = v.len();
    let mut total: u128 = 0;
    let mut i: usize = 0;
    while i < count
        invariant
            i <= count == v@.len(),
            v@ == s@,
            total == byte_len(v@.take(i as int)),
            total <= 4 * i,
        decreases count - i,
    {
        proof {
            lemma_byte_len_push(v@.take(i as int), v@[i as int]);
            assert(v@.take(i + 1) =~= v@.take(i as int).push(v@[i as int]));
        }
        total = total + char_utf8_len(v[i]) as u128;
        i = i + 1;
    }
    assert(v@.take(count as int) =~= v@);
    total
}

/// `s` padded with spaces on the right to `width` characters, as `{:width$}`
/// formats a string.
pub open spec fn pad_spec(s: Seq<char>, width: nat) -> Seq<char> {
    if s.len() < width {
        s + Seq::new((width - s.len()) as nat, |i: int| ' ')
    } else {
        s
    }
}

pub fn pad(s: &str, width: u128) -> (out: String)
    ensures
        out@ == pad_spec(s@, width as nat),
{
    let v = chars_of(s);
    let mut out = s.to_owned();
    let mut n: u128 = v.len() as u128;
    if n >= width {
        return out;
    }
    let ghost start = n;
    while n < width
        invariant
            start == s@.len(),
            start <= n <= width,
            out@ == s@ + Seq::new((n - start) as nat, |i: int| ' '),
        decreases width - n,
    {
        string_push(&mut out, ' ');
        assert(out@ =~= s@ + Seq::new((n + 1 - start) as nat, |i: int| ' '));
        n = n + 1;
    }
    out
}

/// The widest byte length of a field over the records, and at least `floor`.
pub open spec fn column_width(rs: Seq<RecordView>, field: spec_fn(RecordView) -> Seq<char>, floor: nat) -> nat
    decreases rs.len(),
{
    if rs.len() == 0 {
        floor
    } else {
        let w = column_width(rs.drop_last(), field, floor);
        let b = byte_len(field(rs.last()));
        if b > w {
            b
        } else {
            w
        }
    }
}

pub open spec fn env_field() -> spec_fn(RecordView) -> Seq<char> {
    |r: RecordView| r.environment
}

pub open spec fn workspace_field() -> spec_fn(RecordView) -> Seq<char> {
    |r: RecordView| r.workspace
}

pub open spec fn name_field() -> spec_fn(RecordView) -> Seq<char> {
    |r: RecordView| r.name
}

/// The header line of the listing table.
pub open spec fn table_header(theme: Theme, ew: nat, ww: nat, kw: nat) -> Seq<char> {
    theme.painted(
        pad_spec("ENV"@, ew) + "  "@ + pad_spec("WORKSPACE"@, ww) + "  "@ + pad_spec("KEY"@, kw) + "  "@ + "VALUE"@,
        "2;1"@,
    )
}

/// One row of the listing table; the value is masked.
pub open spec fn table_row(theme: Theme, r: RecordView, ew: nat, ww: nat, kw: nat) -> Seq<char> {
    let env = pad_spec(r.environment, ew);
    let env_text = match env_code(r.environment) {
        Some(code) => theme.painted(env, code),
        None => env,
    };
    env_text + "  "@ + pad_spec(r.workspace, ww) + "  "@ + theme.painted(pad_spec(r.name, kw), "1;36"@) + "  "@
        + theme.painted(mask_spec(r.value), "2"@)
}

fn column_widths(records: &Vec<&SecretRecord>) -> (w: (u128, u128, u128))
    ensures
        w.0 == column_width(ref_views(records@), env_field(), 3),
        w.1 == column_width(ref_views(records@), workspace_field(), 9),
        w.2 == column_width(ref_views(records@), name_field(), 3),
{
    let ghost rs = ref_views(records@);
    let mut ew: u128 = 3;
    let mut ww: u128 = 9;
    let mut kw: u128 = 3;
    let mut i: usize = 0;
    while i < records.len()
        invariant
            i <= records@.len(),
            rs == ref_views(records@),
            ew == column_width(rs.take(i as int), env_field(), 3),
            ww == column_width(rs.take(i as int), workspace_field(), 9),
            kw == column_width(rs.take(i as int), name_field(), 3),
        decreases records@.len() - i,
    {
        let r = records[i];
        assert(rs.take(i + 1).drop_last() =~= rs.take(i as int));
        assert(rs.take(i + 1).last() == r@);
        let eb = byte_count(r.environment.as_str());
        let wb = byte_count(r.workspace.as_str());
        let kb = byte_count(r.name.as_str());
        if eb > ew {
            ew = eb;
        }
        if wb > ww {
            ww = wb;
        }
        if kb > kw {
            kw = kb;
        }
        i = i + 1;
    }
    assert(rs.take(records@.len() as int) =~= rs);
    (ew, ww, kw)
}

/// The lines of the listing table: a header, then one row per record, the
/// columns as wide as their widest entry (in bytes) and at least as wide as
/// their titles.
pub fn list_table_lines(records: &Vec<&SecretRecord>, theme: &Theme) -> (out: Vec<String>)
    requires
        forall|i: int| 0 <= i < records@.len() ==> maskable(#[trigger] records@[i].value@),
    ensures
        ({
            let rs = ref_views(records@);
            let ew = column_width(rs, env_field(), 3);
            let ww = column_width(rs, workspace_field(), 9);
            let kw = column_width(rs, name_field(), 3);
            &&& out@.len() == records@.len() + 1
            &&& out@[0]@ == table_header(*theme, ew, ww, kw)
            &&& forall|i: int| 0 <= i < records@.len() ==> (#[trigger] out@[i + 1])@ == table_row(*theme, rs[i], ew, ww, kw)
        }),
{
    let (ew, ww, kw) = column_widths(records);
    let mut header = String::new();
    let e = pad("ENV", ew);
    let w = pad("WORKSPACE", ww);
    let k = pad("KEY", kw);
    push_str(&mut header, e.as_str());
    push_str(&mut header, "  ");
    push_str(&mut header, w.as_str());
    push_str(&mut header, "  ");
    push_str(&mut header, k.as_str());
    push_str(&mut header, "  ");
    push_str(&mut header, "VALUE");
    assert(header@ =~= e@ + "  "@ + w@ + "  "@ + k@ + "  "@ + "VALUE"@);
    let mut out: Vec<String> = Vec::new();
    out.push(theme.header(header.as_str()));
    let mut i: usize = 0;
    while i < records.len()
        invariant
            i <= records@.len(),
            forall|j: int| 0 <= j < records@.len() ==> maskable(#[trigger] records@[j].value@),
            ew == column_width(ref_views(records@), env_field(), 3),
            ww == column_width(ref_views(records@), workspace_field(), 9),
            kw == column_width(ref_views(records@), name_field(), 3),
            out@.len() == i + 1,
            out@[0]@ == table_header(*theme, ew as nat, ww as nat, kw as nat),
            forall|j: int| 0 <= j < i ==> (#[trigger] out@[j + 1])@ == table_row(*theme, ref_views(records@)[j], ew as nat, ww as nat, kw as nat),
        decreases records@.len() - i,
    {
        let r = records[i];
        let env_padded = pad(r.environment.as_str(), ew);
        let env_text = theme.env(r.environment.as_str(), env_padded.as_str());
        let ws_padded = pad(r.workspace.as_str(), ww);
        let name_padded = pad(r.name.as_str(), kw);
        let key_text = theme.key(name_padded.as_str());
        let masked = mask(r.value.as_str());
        let value_text = theme.dim(masked.as_str());
        let mut row = String::new();
        push_str(&mut row, env_text.as_str());
        push_str(&mut row, "  ");
        push_str(&mut row, ws_padded.as_str());
        push_str(&mut row, "  ");
        push_str(&mut row, key_text.as_str());
        push_str(&mut row, "  ");
        push_str(&mut row, value_text.as_str());
        assert(row@ =~= env_text@ + "  "@ + ws_padded@ + "  "@ + key_text@ + "  "@ + value_text@);
        assert(ref_views(records@)[i as int] == r@);
        out.push(row);
        i = i + 1;
    }
    out
}

/// A separator between the words of a name: `_`, `-`, `.` or whitespace.
pub open spec fn is_word_separator(c: char) -> bool {
    c == '_' || c == '-' || c == '.' || crate::text::is_white_space(c)
}

/// Words found and the word being read, after scanning `s`.
pub open spec fn word_state(s: Seq<char>) -> (Seq<Seq<char>>, Seq<char>)
    decreases s.len(),
{
    if s.len() == 0 {
        (Seq::empty(), Seq::empty())
    } else {
        let (done, cur) = word_state(s.drop_last());
        if is_word_separator(s.last()) {
            if cur.len() > 0 {
                (done.push(cur), Seq::empty())
            } else {
                (done, cur)
            }
        } else {
            (done, cur.push(s.last()))
        }
    }
}

/// The non-empty pieces of `s` between separators.
pub open spec fn words(s: Seq<char>) -> Seq<Seq<char>> {
    let (done, cur) = word_state(s);
    if cur.len() > 0 {
        done.push(cur)
    } else {
        done
    }
}

/// The avatar letters of a name: the first letters of its first two words,
/// upper-cased; or, for a single word, its first letter upper-cased and its
/// second lower-cased; `·` for a blank name.
pub open spec fn initials_spec(name: Seq<char>) -> Seq<char> {
    let t = crate::text::trim(name);
    let w = words(t);
    if t.len() == 0 {
        seq!['·']
    } else if w.len() >= 2 {
        seq![crate::text::ascii_upper(w[0][0]), crate::text::ascii_upper(w[1][0])]
    } else {
        let head = if w.len() == 1 { w[0] } else { t };
        if head.len() >= 2 {
            seq![crate::text::ascii_upper(head[0]), crate::text::ascii_lower(head[1])]
        } else if head.len() == 1 {
            seq![crate::text::ascii_upper(head[0])]
        } else {
            seq!['·']
        }
    }
}

/// Splits `v` into its words.
fn split_words(v: &Vec<char>) -> (out: Vec<Vec<char>>)
    ensures
        out@.map_values(|w: Vec<char>| w@) == words(v@),
        forall|k: int| 0 <= k < out@.len() ==> (#[trigger] out@[k])@.len() > 0,
{
    let mut done: Vec<Vec<char>> = Vec::new();
    let mut cur: Vec<char> = Vec::new();
    let mut i: usize = 0;
    while i < v.len()
        invariant
            i <= v@.len(),
            done@.map_values(|w: Vec<char>| w@) == word_state(v@.take(i as int)).0,
            cur@ == word_state(v@.take(i as int)).1,
            forall|k: int| 0 <= k < done@.len() ==> (#[trigger] done@[k])@.len() > 0,
        decreases v@.len() - i,
    {
        assert(v@.take(i + 1).drop_last() =~= v@.take(i as int));
        let c = v[i];
        let sep = c == '_' || c == '-' || c == '.' || crate::text::char_is_whitespace(c);
        if sep {
            if cur.len() > 0 {
                let ghost w = cur@;
                done.push(cur);
                cur = Vec::new();
                assert(done@.map_values(|w: Vec<char>| w@) =~= word_state(v@.take(i as int)).0.push(w));
            }
        } else {
            cur.push(c);
        }
        i = i + 1;
    }
    assert(v@.take(v@.len() as int) =~= v@);
    if cur.len() > 0 {
        let ghost w = cur@;
        done.push(cur);
        assert(done@.map_values(|w: Vec<char>| w@) =~= word_state(v@).0.push(w));
    }
    done
}

/// The avatar letters of a record name.
pub fn initials(name: &str) -> (out: String)
    ensures
        out@ == initials_spec(name@),
{
    let trimmed = crate::text::trim_str(name);
    let t = chars_of(trimmed.as_str());
    let mut out = String::new();
    if t.len() == 0 {
        string_push(&mut out, '·');
        return out;
    }
    let parts = split_words(&t);
    proof {
        assert(parts@.len() == words(t@).len());
    }
    if parts.len() >= 2 {
        assert(parts@[0]@ == words(t@)[0]);
        assert(parts@[1]@ == words(t@)[1]);
        string_push(&mut out, crate::text::to_ascii_uppercase(parts[0][0]));
        string_push(&mut out, crate::text::to_ascii_uppercase(parts[1][0]));
        return out;
    }
    let head: &Vec<char> = if parts.len() == 1 { &parts[0] } else { &t };
    if parts.len() == 1 {
        assert(parts@[0]@ == words(t@)[0]);
    }
    if head.len() >= 2 {
        string_push(&mut out, crate::text::to_ascii_uppercase(head[0]));
        string_push(&mut out, crate::text::to_ascii_lowercase(head[1]));
    } else if head.len() == 1 {
        string_push(&mut out, crate::text::to_ascii_uppercase(head[0]));
    } else {
        string_push(&mut out, '·');
    }
    out
}

/// The status line after a copy, telling when the clipboard is cleared.
pub open spec fn clipboard_status_spec(prefix: Seq<char>, clear_seconds: Option<u32>) -> Seq<char> {
    match clear_seconds {
        Some(s) => prefix + " Clipboard clears in "@ + crate::text::decimal(s as nat) + "s."@,
        None => prefix + " Clipboard auto-clear is off."@,
    }
}

pub fn clipboard_status(prefix: &str, clear_seconds: Option<u32>) -> (out: String)
    ensures
        out@ == clipboard_status_spec(prefix@, clear_seconds),
{
    let mut out = prefix.to_owned();
    match clear_seconds {
        Some(s) => {
            push_str(&mut out, " Clipboard clears in ");
            let digits = crate::text::decimal_string(s as u128);
            push_str(&mut out, digits.as_str());
            push_str(&mut out, "s.");
        },
        None => {
            push_str(&mut out, " Clipboard auto-clear is off.");
        },
    }
    out
}

/// The status line under the list: how many secrets are shown.
pub open spec fn shown_status_spec(count: nat) -> Seq<char> {
    if count == 0 {
        Seq::empty()
    } else if count == 1 {
        "1 secret shown."@
    } else {
        crate::text::decimal(count) + " secrets shown."@
    }
}

pub fn shown_status(count: usize) -> (out: String)
    ensures
        out@ == shown_status_spec(count as nat),
{
    if count == 0 {
        String::new()
    } else if count == 1 {
        "1 secret shown.".to_owned()
    } else {
        let mut out = crate::text::decimal_string(count as u128);
        push_str(&mut out, " secrets shown.");
        out
    }
}

/// Title and text of the empty list: no secrets at all, no match for the
/// search, or nothing in the chosen environment.
pub open spec fn empty_state_spec(search: Seq<char>, total: nat) -> (Seq<char>, Seq<char>) {
    if total == 0 {
        (
            "No secrets yet"@,
            "Add your first API key or import a .env file. Everything is encrypted on disk with AES-256-GCM."@,
        )
    } else if crate::text::trim(search).len() > 0 {
        ("No matches"@, "Nothing matches “"@ + crate::text::trim(search) + "” in the current filters."@)
    } else {
        ("Nothing in this environment"@, "Switch to a different environment, or add a new secret here."@)
    }
}

pub fn empty_state(search: &str, total: usize) -> (out: (String, String))
    ensures
        (out.0@, out.1@) == empty_state_spec(search@, total as nat),
{
    if total == 0 {
        return (
            "No secrets yet".to_owned(),
            "Add your first API key or import a .env file. Everything is encrypted on disk with AES-256-GCM.".to_owned(),
        );
    }
    let trimmed = crate::text::trim_str(search);
    if !trimmed.as_str().is_empty() {
        let mut text = "Nothing matches “".to_owned();
        push_str(&mut text, trimmed.as_str());
        push_str(&mut text, "” in the current filters.");
        return ("No matches".to_owned(), text);
    }
    (
        "Nothing in this environment".to_owned(),
        "Switch to a different environment, or add a new secret here.".to_owned(),
    )
}

/// Whether an answer to a yes/no prompt is yes: `y`, `Y`, `yes` or `YES`
/// once trimmed.
pub open spec fn is_yes_spec(answer: Seq<char>) -> bool {
    let t = crate::text::trim(answer);
    t == "y"@ || t == "Y"@ || t == "yes"@ || t == "YES"@
}

pub fn is_yes_answer(answer: &str) -> (b: bool)
    ensures
        b == is_yes_spec(answer@),
{
    let t = crate::text::trim_str(answer);
    let s = t.as_str();
    crate::text::str_eq(s, "y") || crate::text::str_eq(s, "Y") || crate::text::str_eq(s, "yes")
        || crate::text::str_eq(s, "YES")
}

/// The message after the clipboard auto-clear setting changes.
pub open spec fn clipboard_setting_spec(seconds: Option<u32>) -> Seq<char> {
    match seconds {
        Some(v) => "Clipboard clears after "@ + crate::text::decimal(v as nat) + "s."@,
        None => "Clipboard auto-clear is off."@,
    }
}

pub fn clipboard_setting_message(seconds: Option<u32>) -> (out: String)
    ensures
        out@ == clipboard_setting_spec(seconds),
{
    match seconds {
        Some(v) => {
            let mut out = "Clipboard clears after ".to_owned();
            let digits = crate::text::decimal_string(v as u128);
            push_str(&mut out, digits.as_str());
            push_str(&mut out, "s.");
            out
        },
        None => "Clipboard auto-clear is off.".to_owned(),
    }
}

/// The status line after a dialog import.
pub open spec fn import_summary_spec(imported: nat, skipped: nat, invalid: nat) -> Seq<char> {
    "Imported "@ + crate::text::decimal(imported) + ", skipped "@ + crate::text::decimal(skipped) + ", invalid "@
        + crate::text::decimal(invalid) + "."@
}

pub fn import_summary(stats: &crate::import::ImportStats) -> (out: String)
    ensures
        out@ == import_summary_spec(stats.imported as nat, stats.skipped as nat, stats.invalid as nat),
{
    let mut out = "Imported ".to_owned();
    push_str(&mut out, crate::text::decimal_string(stats.imported as u128).as_str());
    push_str(&mut out, ", skipped ");
    push_str(&mut out, crate::text::decimal_string(stats.skipped as u128).as_str());
    push_str(&mut out, ", invalid ");
    push_str(&mut out, crate::text::decimal_string(stats.invalid as u128).as_str());
    push_str(&mut out, ".");
    out
}

/// The secret form can be saved: the key is not blank and the value not empty.
pub fn secret_input_is_complete(key: &str, value: &str) -> (b: bool)
    ensures
        b == (crate::text::trim(key@).len() > 0 && value@.len() > 0),
{
    let k = crate::text::trim_str(key);
    !k.as_str().is_empty() && !value.is_empty()
}

/// The clipboard is cleared only while it still holds the copied value.
pub fn clipboard_should_clear(current: Option<&str>, copied: &str) -> (b: bool)
    ensures
        b == (current matches Some(c) && c@ == copied@),
{
    match current {
        Some(c) => crate::text::str_eq(c, copied),
        None => false,
    }
}

/// The style class of an environment's badge in the desktop list.
pub fn env_pill_class(environment: &str) -> (class: Option<&'static str>)
    ensures
        class == (if environment@ == "Dev"@ {
            Some("dev")
        } else if environment@ == "Staging"@ {
            Some("staging")
        } else if environment@ == "Prod"@ {
            Some("prod")
        } else {
            None::<&'static str>
        }),
{
    if crate::text::str_eq(environment, "Dev") {
        Some("dev")
    } else if crate::text::str_eq(environment, "Staging") {
        Some("staging")
    } else if crate::text::str_eq(environment, "Prod") {
        Some("prod")
    } else {
        None
    }
}

/// A masked value shows only bullets and at most the last four bytes of the
/// secret: nothing of a value of four bytes or fewer, and exactly its last
/// four bytes otherwise.
pub proof fn law_mask_reveals_at_most_four_bytes(s: Seq<char>)
    requires
        maskable(s),
    ensures
        exists|n: nat, k: int| 0 <= k <= s.len() && byte_len(s.skip(k)) <= 4 && mask_spec(s) == bullets(n) + s.skip(k),
        byte_len(s) <= 4 ==> forall|i: int| 0 <= i < mask_spec(s).len() ==> #[trigger] mask_spec(s)[i] == '•',
{
    if byte_len(s) <= 4 {
        let n: nat = if byte_len(s) == 0 { 1 } else { byte_len(s) };
        assert(s.skip(s.len() as int) =~= Seq::<char>::empty());
        assert(byte_len(Seq::<char>::empty()) == 0);
        assert(mask_spec(s) =~= bullets(n) + s.skip(s.len() as int));
    } else {
        let k = choose|k: int| 0 <= k <= s.len() && byte_len(#[trigger] s.skip(k)) == 4;
        assert(mask_spec(s) == bullets(8) + s.skip(k));
    }
}

/// `byte_len` counts the bytes of the UTF-8 encoding.
proof fn lemma_encode_len(s: Seq<char>)
    ensures
        encode_utf8(s).len() == byte_len(s),
    decreases s.len(),
{
    if s.len() > 0 {
        lemma_encode_len(s.drop_first());
        assert(s =~= seq![s[0]] + s.drop_first());
        lemma_byte_len_prepend(s[0], s.drop_first());
        char_is_scalar(s[0]);
        assert(encode_scalar(s[0] as u32).len() == utf8_len(s[0]));
    }
}

/// Encoding distributes over concatenation.
proof fn lemma_encode_concat(x: Seq<char>, y: Seq<char>)
    ensures
        encode_utf8(x + y) == encode_utf8(x) + encode_utf8(y),
    decreases x.len(),
{
    if x.len() > 0 {
        assert((x + y).drop_first() =~= x.drop_first() + y);
        lemma_encode_concat(x.drop_first(), y);
        assert(encode_utf8(x + y) =~= encode_utf8(x) + encode_utf8(y));
    } else {
        assert(x + y =~= y);
        assert(encode_utf8(x) =~= Seq::<u8>::empty());
        assert(encode_utf8(x) + encode_utf8(y) =~= encode_utf8(y));
    }
}

/// The last `n` bytes of `bytes` (all of them if there are fewer).
pub open spec fn last_bytes(bytes: Seq<u8>, n: nat) -> Seq<u8> {
    if bytes.len() <= n { bytes } else { bytes.skip(bytes.len() - n) }
}

/// A suffix of characters that takes exactly four bytes encodes to the last
/// four bytes of the whole value, and there is only one such suffix.
proof fn lemma_four_byte_suffix(s: Seq<char>, k: int)
    requires
        0 <= k <= s.len(),
        byte_len(s.skip(k)) == 4,
    ensures
        encode_utf8(s.skip(k)) == last_bytes(encode_utf8(s), 4),
        forall|j: int| 0 <= j <= s.len() && byte_len(#[trigger] s.skip(j)) == 4 ==> j == k,
{
    assert(s =~= s.take(k) + s.skip(k));
    lemma_encode_concat(s.take(k), s.skip(k));
    lemma_encode_len(s.skip(k));
    lemma_encode_len(s.take(k));
    let e = encode_utf8(s);
    assert(e.len() >= 4);
    assert(e.skip(e.len() - 4) =~= encode_utf8(s.skip(k)));
    assert forall|j: int| 0 <= j <= s.len() && byte_len(#[trigger] s.skip(j)) == 4 implies j == k by {
        if j < k {
            lemma_skip_bytes_strict(s, j, k);
        } else if k < j {
            lemma_skip_bytes_strict(s, k, j);
        }
    }
}

/// The mask of a value depends on nothing but its byte length when it has at
/// most four bytes, and on nothing but its last four bytes otherwise (not
/// even on its length).
pub proof fn law_mask_depends_on_length_or_last_four_bytes(a: Seq<char>, b: Seq<char>)
    requires
        maskable(a),
        maskable(b),
        (byte_len(a) <= 4 && byte_len(a) == byte_len(b))
            || (byte_len(a) > 4 && byte_len(b) > 4
                && last_bytes(encode_utf8(a), 4) == last_bytes(encode_utf8(b), 4)),
    ensures
        mask_spec(a) == mask_spec(b),
{
    if byte_len(a) > 4 {
        let ka = choose|k: int| 0 <= k <= a.len() && byte_len(#[trigger] a.skip(k)) == 4;
        let kb = choose|k: int| 0 <= k <= b.len() && byte_len(#[trigger] b.skip(k)) == 4;
        lemma_four_byte_suffix(a, ka);
        lemma_four_byte_suffix(b, kb);
        encode_utf8_decode_utf8(a.skip(ka));
        encode_utf8_decode_utf8(b.skip(kb));
        assert(a.skip(ka) == b.skip(kb));
    }
}

/// With colour off, every painting function leaves its text as it is.
pub proof fn law_plain_theme_leaves_text(theme: Theme, value: Seq<char>, code: Seq<char>)
    requires
        !theme.enabled,
    ensures
        theme.painted(value, code) == value,
{
}

} // verus!
