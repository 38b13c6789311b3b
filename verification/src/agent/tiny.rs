//! A deterministic TOML-subset parser for the boot manifest.
//!
//! No hash tables anywhere, no outside crates, total over arbitrary input
//! (errors, never panics). Supported: `#` comments, blank lines, `[a]` /
//! `[a.b]` table headers (dotted segments descend through the LAST
//! element of an array-of-tables), `[[a]]` array-of-tables, bare keys,
//! basic `"strings"` with `\\ \" \n \t` escapes, decimal and `0x` hex
//! integers, and single-line `["string", ...]` arrays.
use crate::text::{
    char_debug_chars, char_debug_text, chars_eq, chars_of, copy_range, debug_chars,
    i64_from_str_radix, int_parse_error_text, lemma_trim_start_suffix,
    push_chars, push_dec, push_str, spec_chars_lt, spec_dec, spec_from_str_radix, spec_trim,
    spec_trim_start, spec_utf8_len, str_debug_text, string_from_chars, trim, trim_start,
    utf8_len,
};
use vstd::prelude::*;

verus! {

/// The value tree (accessor surface mirrors `toml::Value`).
#[derive(Debug, PartialEq)]
pub enum Value {
    /// Basic string.
    Str(String),
    /// Integer.
    Int(i64),
    /// Array (strings or tables in this subset).
    Array(Vec<Value>),
    /// Table.
    Table(Table),
}

/// A table: its entries in ascending key order, each key once.
#[derive(Debug, PartialEq)]
pub struct Table {
    entries: Vec<(String, Value)>,
}

/// The mathematical form of a value.
pub enum ValueModel {
    Str(Seq<char>),
    Int(i64),
    Array(Seq<ValueModel>),
    Table(Seq<(Seq<char>, ValueModel)>),
}

/// The mathematical form of a table: its entries in order.
pub type TableModel = Seq<(Seq<char>, ValueModel)>;

impl Value {
    /// The model of this value.
    pub closed spec fn model(&self) -> ValueModel
        decreases self, 0nat,
    {
        match self {
            Value::Str(s) => ValueModel::Str(s@),
            Value::Int(i) => ValueModel::Int(*i),
            Value::Array(a) => ValueModel::Array(values_model(a@)),
            Value::Table(t) => ValueModel::Table(entries_model(t.entries@)),
        }
    }
}

/// Which kind of value was parsed, and its content: a string's chars, an
/// integer, an array's element models in order, a table's entries.
pub proof fn lemma_value_model(v: &Value)
    ensures
        match v {
            Value::Str(s) => v.model() == ValueModel::Str(s@),
            Value::Int(i) => v.model() == ValueModel::Int(*i),
            Value::Array(a) => v.model() is Array && v.model()->Array_0.len() == a@.len() && forall|k: int|
                0 <= k < a@.len() ==> #[trigger] v.model()->Array_0[k] == a@[k].model(),
            Value::Table(t) => v.model() == ValueModel::Table(t@),
        },
{
    match v {
        Value::Array(a) => {
            lemma_values_model(a@);
        },
        _ => {},
    }
}

/// The models of a sequence of values.
pub closed spec fn values_model(s: Seq<Value>) -> Seq<ValueModel>
    decreases s, 1nat,
{
    if s.len() == 0 {
        Seq::empty()
    } else {
        values_model(s.subrange(0, s.len() - 1)).push(s[s.len() - 1].model())
    }
}

/// The models of a sequence of table entries.
pub closed spec fn entries_model(s: Seq<(String, Value)>) -> TableModel
    decreases s, 1nat,
{
    if s.len() == 0 {
        Seq::empty()
    } else {
        entries_model(s.subrange(0, s.len() - 1)).push(
            (s[s.len() - 1].0@, s[s.len() - 1].1.model()),
        )
    }
}

impl View for Value {
    type V = ValueModel;

    open spec fn view(&self) -> ValueModel {
        self.model()
    }
}

impl View for Table {
    type V = TableModel;

    closed spec fn view(&self) -> TableModel {
        entries_model(self.entries@)
    }
}

/// Each value's model, in order.
pub proof fn lemma_values_model(s: Seq<Value>)
    ensures
        values_model(s).len() == s.len(),
        forall|i: int| 0 <= i < s.len() ==> #[trigger] values_model(s)[i] == s[i]@,
    decreases s.len(),
{
    if s.len() > 0 {
        lemma_values_model(s.subrange(0, s.len() - 1));
    }
}

/// Each entry's model, in order.
pub proof fn lemma_entries_model(s: Seq<(String, Value)>)
    ensures
        entries_model(s).len() == s.len(),
        forall|i: int|
            0 <= i < s.len() ==> #[trigger] entries_model(s)[i] == (s[i].0@, s[i].1@),
    decreases s.len(),
{
    if s.len() > 0 {
        lemma_entries_model(s.subrange(0, s.len() - 1));
    }
}

/// The position of the first entry of `t` with key `k`, or -1.
pub open spec fn spec_find_key(t: TableModel, k: Seq<char>) -> int
    decreases t.len(),
{
    if t.len() == 0 {
        -1
    } else if t[0].0 == k {
        0
    } else {
        let r = spec_find_key(t.subrange(1, t.len() as int), k);
        if r < 0 {
            -1
        } else {
            r + 1
        }
    }
}

/// The value under key `k` in `t`.
pub open spec fn spec_lookup(t: TableModel, k: Seq<char>) -> Option<ValueModel> {
    let i = spec_find_key(t, k);
    if i < 0 {
        None
    } else {
        Some(t[i].1)
    }
}

/// `spec_find_key` is -1 or the first index holding `k`.
pub proof fn lemma_find_key(t: TableModel, k: Seq<char>)
    ensures
        -1 <= spec_find_key(t, k) < t.len(),
        spec_find_key(t, k) >= 0 ==> t[spec_find_key(t, k)].0 == k,
        forall|j: int|
            0 <= j < t.len() && (spec_find_key(t, k) < 0 || j < spec_find_key(t, k)) ==> t[j].0
                != k,
    decreases t.len(),
{
    if t.len() > 0 && t[0].0 != k {
        let u = t.subrange(1, t.len() as int);
        lemma_find_key(u, k);
        assert forall|j: int|
            0 <= j < t.len() && (spec_find_key(t, k) < 0 || j < spec_find_key(t, k)) implies t[j].0
            != k by {
            if j > 0 {
                assert(t[j] == u[j - 1]);
            }
        }
    }
}

/// The first index holding `k` is unique: any index that holds `k` with
/// none before it is `spec_find_key`.
pub proof fn lemma_find_key_unique(t: TableModel, k: Seq<char>, i: int)
    requires
        0 <= i < t.len(),
        t[i].0 == k,
        forall|j: int| 0 <= j < i ==> t[j].0 != k,
    ensures
        spec_find_key(t, k) == i,
{
    lemma_find_key(t, k);
}

impl Value {
    /// The table, if this is one.
    pub fn as_table(&self) -> (r: Option<&Table>)
        ensures
            match self@ {
                ValueModel::Table(m) => r matches Some(t) && t@ == m,
                _ => r is None,
            },
    {
        match self {
            Value::Table(t) => Some(t),
            _ => None,
        }
    }

    /// The integer, if this is one.
    pub fn as_integer(&self) -> (r: Option<i64>)
        ensures
            r == match self@ {
                ValueModel::Int(i) => Some(i),
                _ => None::<i64>,
            },
    {
        match self {
            Value::Int(i) => Some(*i),
            _ => None,
        }
    }

    /// The string, if this is one.
    pub fn as_str(&self) -> (r: Option<&str>)
        ensures
            match self@ {
                ValueModel::Str(m) => r matches Some(s) && s@ == m,
                _ => r is None,
            },
    {
        match self {
            Value::Str(s) => Some(s.as_str()),
            _ => None,
        }
    }

    /// The array, if this is one.
    pub fn as_array(&self) -> (r: Option<&Vec<Value>>)
        ensures
            match self@ {
                ValueModel::Array(m) => r matches Some(a) && values_model(a@) == m,
                _ => r is None,
            },
    {
        match self {
            Value::Array(a) => Some(a),
            _ => None,
        }
    }
}

impl Table {
    /// The position of key `k`, if present.
    fn find(&self, k: &[char]) -> (r: Option<usize>)
        ensures
            match r {
                Some(i) => i as int == spec_find_key(self@, k@),
                None => spec_find_key(self@, k@) < 0,
            },
    {
        proof {
            lemma_entries_model(self.entries@);
            lemma_find_key(self@, k@);
        }
        let mut i: usize = 0;
        while i < self.entries.len()
            invariant
                i <= self.entries@.len(),
                self@ == entries_model(self.entries@),
                self@.len() == self.entries@.len(),
                forall|j: int| 0 <= j < self.entries@.len() ==> #[trigger] self@[j] == (
                    self.entries@[j].0@,
                    self.entries@[j].1@,
                ),
                forall|j: int| 0 <= j < i ==> self@[j].0 != k@,
            decreases self.entries@.len() - i,
        {
            let kc = chars_of(self.entries[i].0.as_str());
            if crate::text::chars_eq(kc.as_slice(), k) {
                proof {
                    lemma_find_key_unique(self@, k@, i as int);
                }
                return Some(i);
            }
            i = i + 1;
        }
        None
    }

    /// The value under `key`, if present.
    pub fn get(&self, key: &str) -> (r: Option<&Value>)
        ensures
            match spec_lookup(self@, key@) {
                Some(m) => r matches Some(v) && v@ == m,
                None => r is None,
            },
    {
        let k = chars_of(key);
        match self.find(k.as_slice()) {
            Some(i) => {
                proof {
                    lemma_entries_model(self.entries@);
                    lemma_find_key(self@, k@);
                }
                Some(&self.entries[i].1)
            },
            None => None,
        }
    }

    /// The number of entries.
    pub fn len(&self) -> (r: usize)
        ensures
            r == self@.len(),
    {
        proof {
            lemma_entries_model(self.entries@);
        }
        self.entries.len()
    }

    /// Whether the table has no entries.
    pub fn is_empty(&self) -> (r: bool)
        ensures
            r == (self@.len() == 0),
    {
        proof {
            lemma_entries_model(self.entries@);
        }
        self.entries.len() == 0
    }
}

/// `l` without one trailing carriage return.
pub open spec fn spec_strip_cr(l: Seq<char>) -> Seq<char> {
    if l.len() > 0 && l[l.len() - 1] == '\r' {
        l.subrange(0, l.len() - 1)
    } else {
        l
    }
}

/// The lines of `s` after a line begun with `cur`, as `str::lines` splits
/// them: at `\n`, dropping a `\r` before it; a last line without `\n`
/// is kept as it is, and nothing follows a final `\n`.
pub open spec fn spec_lines_from(s: Seq<char>, cur: Seq<char>) -> Seq<Seq<char>>
    decreases s.len(),
{
    if s.len() == 0 {
        if cur.len() == 0 {
            Seq::empty()
        } else {
            seq![cur]
        }
    } else if s[0] == '\n' {
        seq![spec_strip_cr(cur)] + spec_lines_from(s.subrange(1, s.len() as int), Seq::empty())
    } else {
        spec_lines_from(s.subrange(1, s.len() as int), cur.push(s[0]))
    }
}

/// The lines of `s` (`str::lines`).
pub open spec fn spec_lines(s: Seq<char>) -> Seq<Seq<char>> {
    spec_lines_from(s, Seq::empty())
}

/// Where a `#` comment starts in `line` at or after `i`, scanning with
/// the string and escape state given (`line.len()` if none does).
pub open spec fn spec_comment_cut(line: Seq<char>, i: int, in_str: bool, escaped: bool) -> int
    decreases line.len() - i,
{
    if i < 0 || i >= line.len() {
        line.len() as int
    } else {
        let c = line[i];
        if c == '\\' && in_str && !escaped {
            spec_comment_cut(line, i + 1, in_str, true)
        } else if c == '"' && !escaped {
            spec_comment_cut(line, i + 1, !in_str, false)
        } else if c == '#' && !in_str {
            i
        } else {
            spec_comment_cut(line, i + 1, in_str, false)
        }
    }
}

/// `line` without its `#` comment (a `#` inside a string is no comment).
pub open spec fn spec_strip_comment(line: Seq<char>) -> Seq<char> {
    line.subrange(0, spec_comment_cut(line, 0, false, false))
}

/// A raw line as the parser reads it: comment stripped, then trimmed.
pub open spec fn spec_clean_line(raw: Seq<char>) -> Seq<char> {
    spec_trim(spec_strip_comment(raw))
}

/// A bare-key character: ASCII alphanumeric, `_` or `-`.
pub open spec fn spec_key_char(c: char) -> bool {
    ||| ('a' as u32) <= (c as u32) <= ('z' as u32)
    ||| ('A' as u32) <= (c as u32) <= ('Z' as u32)
    ||| ('0' as u32) <= (c as u32) <= ('9' as u32)
    ||| c == '_'
    ||| c == '-'
}

/// A valid bare key: non-empty, of key characters only.
pub open spec fn spec_valid_key(k: Seq<char>) -> bool {
    k.len() > 0 && forall|i: int| 0 <= i < k.len() ==> #[trigger] spec_key_char(k[i])
}

/// The pieces of `s` between dots, after a piece begun with `cur`.
pub open spec fn spec_split_dots_from(s: Seq<char>, cur: Seq<char>) -> Seq<Seq<char>>
    decreases s.len(),
{
    if s.len() == 0 {
        seq![cur]
    } else if s[0] == '.' {
        seq![cur] + spec_split_dots_from(s.subrange(1, s.len() as int), Seq::empty())
    } else {
        spec_split_dots_from(s.subrange(1, s.len() as int), cur.push(s[0]))
    }
}

/// The segments of a dotted header name: split at `.`, each trimmed.
pub open spec fn spec_segments(name: Seq<char>) -> Seq<Seq<char>> {
    spec_split_dots_from(name, Seq::empty()).map_values(|x: Seq<char>| spec_trim(x))
}

/// The character views of a sequence of character vectors.
pub open spec fn chars_views(v: Seq<Vec<char>>) -> Seq<Seq<char>> {
    v.map_values(|l: Vec<char>| l@)
}

/// The lines of `s`.
fn split_lines(s: &[char]) -> (r: Vec<Vec<char>>)
    ensures
        chars_views(r@) == spec_lines(s@),
{
    let mut out: Vec<Vec<char>> = Vec::new();
    let mut cur: Vec<char> = Vec::new();
    let mut i: usize = 0;
    proof {
        assert(s@.subrange(0, s@.len() as int) =~= s@);
        assert(chars_views(out@) + spec_lines(s@) =~= spec_lines(s@));
    }
    while i < s.len()
        invariant
            i <= s@.len(),
            chars_views(out@) + spec_lines_from(s@.subrange(i as int, s@.len() as int), cur@)
                == spec_lines(s@),
        decreases s@.len() - i,
    {
        let ghost rest = s@.subrange(i as int, s@.len() as int);
        let ghost old_model = chars_views(out@);
        let ghost old_cur = cur@;
        proof {
            assert(rest.subrange(1, rest.len() as int) =~= s@.subrange(i + 1, s@.len() as int));
            assert(rest[0] == s@[i as int]);
        }
        if s[i] == '\n' {
            let n = cur.len();
            let line = if n > 0 && cur[n - 1] == '\r' {
                copy_range(cur.as_slice(), 0, n - 1)
            } else {
                copy_range(cur.as_slice(), 0, n)
            };
            proof {
                assert(cur@.subrange(0, n as int) =~= cur@);
            }
            out.push(line);
            cur = Vec::new();
            proof {
                let tail = spec_lines_from(s@.subrange(i + 1, s@.len() as int), Seq::empty());
                assert(chars_views(out@) =~= old_model.push(spec_strip_cr(old_cur)));
                assert(old_model.push(spec_strip_cr(old_cur)) + tail =~= old_model + (seq![
                    spec_strip_cr(old_cur),
                ] + tail));
                assert(cur@ =~= Seq::<char>::empty());
            }
        } else {
            cur.push(s[i]);
        }
        i = i + 1;
    }
    let ghost old_model = chars_views(out@);
    if cur.len() > 0 {
        out.push(cur);
        proof {
            assert(chars_views(out@) =~= old_model + seq![cur@]);
        }
    } else {
        proof {
            assert(old_model + Seq::<Seq<char>>::empty() =~= old_model);
        }
    }
    out
}

/// `line` without its `#` comment.
fn strip_comment(line: &[char]) -> (r: Vec<char>)
    ensures
        r@ == spec_strip_comment(line@),
{
    let mut in_str = false;
    let mut escaped = false;
    let mut i: usize = 0;
    while i < line.len()
        invariant
            i <= line@.len(),
            spec_comment_cut(line@, 0, false, false) == spec_comment_cut(
                line@,
                i as int,
                in_str,
                escaped,
            ),
        decreases line@.len() - i,
    {
        let c = line[i];
        if c == '\\' && in_str && !escaped {
            escaped = true;
        } else if c == '"' && !escaped {
            in_str = !in_str;
            escaped = false;
        } else if c == '#' && !in_str {
            return copy_range(line, 0, i);
        } else {
            escaped = false;
        }
        i = i + 1;
    }
    copy_range(line, 0, line.len())
}

/// Whether `c` is a bare-key character.
fn key_char(c: char) -> (r: bool)
    ensures
        r == spec_key_char(c),
{
    let u = c as u32;
    (('a' as u32) <= u && u <= ('z' as u32)) || (('A' as u32) <= u && u <= ('Z' as u32)) || ((
    '0' as u32) <= u && u <= ('9' as u32)) || c == '_' || c == '-'
}

/// Whether `k` is a valid bare key.
fn valid_key(k: &[char]) -> (r: bool)
    ensures
        r == spec_valid_key(k@),
{
    if k.len() == 0 {
        return false;
    }
    let mut i: usize = 0;
    while i < k.len()
        invariant
            i <= k@.len(),
            forall|j: int| 0 <= j < i ==> #[trigger] spec_key_char(k@[j]),
        decreases k@.len() - i,
    {
        if !key_char(k[i]) {
            return false;
        }
        i = i + 1;
    }
    true
}

/// The trimmed dot-separated segments of `name`.
fn segments(name: &[char]) -> (r: Vec<Vec<char>>)
    ensures
        chars_views(r@) == spec_segments(name@),
        r@.len() >= 1,
{
    let mut pieces: Vec<Vec<char>> = Vec::new();
    let mut cur: Vec<char> = Vec::new();
    let mut i: usize = 0;
    proof {
        assert(name@.subrange(0, name@.len() as int) =~= name@);
        assert(chars_views(pieces@) + spec_split_dots_from(name@, Seq::empty())
            =~= spec_split_dots_from(name@, Seq::empty()));
    }
    while i < name.len()
        invariant
            i <= name@.len(),
            chars_views(pieces@) + spec_split_dots_from(
                name@.subrange(i as int, name@.len() as int),
                cur@,
            ) == spec_split_dots_from(name@, Seq::empty()),
        decreases name@.len() - i,
    {
        let ghost rest = name@.subrange(i as int, name@.len() as int);
        let ghost old_model = chars_views(pieces@);
        let ghost old_cur = cur@;
        proof {
            assert(rest.subrange(1, rest.len() as int) =~= name@.subrange(
                i + 1,
                name@.len() as int,
            ));
            assert(rest[0] == name@[i as int]);
        }
        if name[i] == '.' {
            pieces.push(cur);
            cur = Vec::new();
            proof {
                let tail = spec_split_dots_from(
                    name@.subrange(i + 1, name@.len() as int),
                    Seq::empty(),
                );
                assert(chars_views(pieces@) =~= old_model.push(old_cur));
                assert(old_model.push(old_cur) + tail =~= old_model + (seq![old_cur] + tail));
                assert(cur@ =~= Seq::<char>::empty());
            }
        } else {
            cur.push(name[i]);
        }
        i = i + 1;
    }
    let ghost old_model = chars_views(pieces@);
    pieces.push(cur);
    proof {
        assert(chars_views(pieces@) =~= old_model + seq![cur@]);
    }
    let mut out: Vec<Vec<char>> = Vec::new();
    let mut j: usize = 0;
    while j < pieces.len()
        invariant
            j <= pieces@.len(),
            chars_views(pieces@) == spec_split_dots_from(name@, Seq::empty()),
            out@.len() == j,
            forall|k: int| 0 <= k < j ==> #[trigger] out@[k]@ == spec_trim(pieces@[k]@),
        decreases pieces@.len() - j,
    {
        let t = trim(pieces[j].as_slice());
        out.push(t);
        j = j + 1;
    }
    proof {
        assert(chars_views(out@) =~= spec_segments(name@));
    }
    out
}

/// The error for an escape `\` followed by the character at `j` of `s`
/// (the `Debug` of what `char_indices` gave: the byte offset in the
/// string after its opening quote, and the character).
pub open spec fn spec_escape_error(s: Seq<char>, j: int) -> Seq<char> {
    "unsupported escape Some(("@ + spec_dec(spec_utf8_len(s.subrange(1, j))) + ", "@
        + char_debug_text(s[j]) + "))"@
}

/// Scan the body of a basic string in `s` from `i`, with `out` decoded
/// so far: the decoded string and the index after its closing quote.
pub open spec fn spec_scan_string(s: Seq<char>, i: int, out: Seq<char>) -> Result<
    (Seq<char>, int),
    Seq<char>,
>
    decreases s.len() - i,
{
    if i < 0 || i >= s.len() {
        Err("unterminated string"@)
    } else {
        let c = s[i];
        if c == '"' {
            Ok((out, i + 1))
        } else if c == '\\' {
            if i + 1 >= s.len() {
                Err("unsupported escape None"@)
            } else {
                let d = s[i + 1];
                if d == '"' {
                    spec_scan_string(s, i + 2, out.push('"'))
                } else if d == '\\' {
                    spec_scan_string(s, i + 2, out.push('\\'))
                } else if d == 'n' {
                    spec_scan_string(s, i + 2, out.push('\n'))
                } else if d == 't' {
                    spec_scan_string(s, i + 2, out.push('\t'))
                } else {
                    Err(spec_escape_error(s, i + 1))
                }
            }
        } else {
            spec_scan_string(s, i + 1, out.push(c))
        }
    }
}

/// A basic string at the start of `s`: its value and the index after it.
pub open spec fn spec_parse_string(s: Seq<char>) -> Result<(Seq<char>, int), Seq<char>> {
    if s.len() > 0 && s[0] == '"' {
        spec_scan_string(s, 1, Seq::empty())
    } else {
        Err("expected string at "@ + str_debug_text(s))
    }
}

/// A scanned string ends after where the scan began, within `s`.
pub proof fn lemma_scan_string_bounds(s: Seq<char>, i: int, out: Seq<char>)
    ensures
        spec_scan_string(s, i, out) matches Ok((_, j)) ==> i < j <= s.len(),
    decreases s.len() - i,
{
    if 0 <= i < s.len() {
        let c = s[i];
        if c == '\\' && i + 1 < s.len() {
            let d = s[i + 1];
            if d == '"' {
                lemma_scan_string_bounds(s, i + 2, out.push('"'));
            } else if d == '\\' {
                lemma_scan_string_bounds(s, i + 2, out.push('\\'));
            } else if d == 'n' {
                lemma_scan_string_bounds(s, i + 2, out.push('\n'));
            } else if d == 't' {
                lemma_scan_string_bounds(s, i + 2, out.push('\t'));
            }
        } else if c != '"' && c != '\\' {
            lemma_scan_string_bounds(s, i + 1, out.push(c));
        }
    }
}

/// The items of a single-line string array, `inner` being the trimmed
/// text between its brackets (a trailing comma is allowed).
pub open spec fn spec_parse_items(s: Seq<char>) -> Result<Seq<ValueModel>, Seq<char>>
    decreases s.len(),
{
    if s.len() == 0 {
        Ok(Seq::empty())
    } else {
        match spec_parse_string(s) {
            Err(e) => Err(e),
            Ok((v, j)) => {
                if j <= 0 || j > s.len() {
                    // A parsed string always ends inside `s`.
                    Err(Seq::empty())
                } else {
                    let r1 = spec_trim_start(s.subrange(j, s.len() as int));
                    if r1.len() > 0 && r1[0] == ',' {
                        let r2 = spec_trim_start(r1.subrange(1, r1.len() as int));
                        proof {
                            lemma_trim_start_suffix(s.subrange(j, s.len() as int));
                            lemma_trim_start_suffix(r1.subrange(1, r1.len() as int));
                        }
                        match spec_parse_items(r2) {
                            Ok(rest) => Ok(seq![ValueModel::Str(v)] + rest),
                            Err(e) => Err(e),
                        }
                    } else if r1.len() > 0 {
                        Err("expected ',' in array near "@ + str_debug_text(r1))
                    } else {
                        Ok(seq![ValueModel::Str(v)])
                    }
                }
            },
        }
    }
}

/// `s` without underscores.
pub open spec fn spec_drop_underscores(s: Seq<char>) -> Seq<char>
    decreases s.len(),
{
    if s.len() == 0 {
        s
    } else {
        let r = spec_drop_underscores(s.subrange(0, s.len() - 1));
        if s[s.len() - 1] == '_' {
            r
        } else {
            r.push(s[s.len() - 1])
        }
    }
}

/// The digits to convert and their radix: hex after `0x` / `0X`, else
/// decimal.
pub open spec fn spec_int_source(digits: Seq<char>) -> (Seq<char>, u32) {
    if digits.len() >= 2 && digits[0] == '0' && (digits[1] == 'x' || digits[1] == 'X') {
        (digits.subrange(2, digits.len() as int), 16)
    } else {
        (digits, 10)
    }
}

/// Negation that wraps `i64::MIN` to itself.
pub open spec fn spec_wrapping_neg(v: i64) -> i64 {
    if v == i64::MIN {
        v
    } else {
        (-v) as i64
    }
}

/// An integer: an optional sign, then decimal digits or `0x` hex digits,
/// underscores ignored; the digits are converted by `i64::from_str_radix`
/// (which takes a sign of its own too), and a leading `-` negates.
pub open spec fn spec_parse_int(s: Seq<char>) -> Result<i64, Seq<char>> {
    let t = spec_trim(s);
    let neg = t.len() > 0 && t[0] == '-';
    let body = if t.len() > 0 && (t[0] == '-' || t[0] == '+') {
        t.subrange(1, t.len() as int)
    } else {
        t
    };
    let (src, radix) = spec_int_source(spec_drop_underscores(body));
    match spec_from_str_radix(src, radix) {
        Some(v) => Ok(
            if neg {
                spec_wrapping_neg(v)
            } else {
                v
            },
        ),
        None => Err("bad integer "@ + str_debug_text(s) + ": "@ + int_parse_error_text(src, radix)),
    }
}

/// A value: a basic string, a string array, or an integer.
pub open spec fn spec_parse_value(s: Seq<char>) -> Result<ValueModel, Seq<char>> {
    let t = spec_trim(s);
    if t.len() > 0 && t[0] == '"' {
        match spec_parse_string(t) {
            Err(e) => Err(e),
            Ok((v, j)) => {
                let rest = t.subrange(j, t.len() as int);
                if spec_trim(rest).len() > 0 {
                    Err("trailing junk after string: "@ + str_debug_text(rest))
                } else {
                    Ok(ValueModel::Str(v))
                }
            },
        }
    } else if t.len() > 0 && t[0] == '[' {
        let inner = t.subrange(1, t.len() as int);
        if inner.len() > 0 && inner[inner.len() - 1] == ']' {
            match spec_parse_items(spec_trim(inner.subrange(0, inner.len() - 1))) {
                Ok(a) => Ok(ValueModel::Array(a)),
                Err(e) => Err(e),
            }
        } else {
            Err("unterminated array "@ + str_debug_text(t))
        }
    } else {
        match spec_parse_int(t) {
            Ok(v) => Ok(ValueModel::Int(v)),
            Err(e) => Err(e),
        }
    }
}

/// The message `a` followed by the characters `b`.
fn message(a: &str, b: &[char]) -> (r: Vec<char>)
    ensures
        r@ == a@ + b@,
{
    let mut m = chars_of(a);
    push_chars(&mut m, b);
    m
}

/// The message `a` followed by the `Debug` rendering of the `str` `b`.
fn message_debug(a: &str, b: &[char]) -> (r: Vec<char>)
    ensures
        r@ == a@ + str_debug_text(b@),
{
    let d = debug_chars(b);
    message(a, d.as_slice())
}

/// The basic string at the start of `s` and the index after it.
fn parse_string(s: &[char]) -> (r: Result<(Vec<char>, usize), Vec<char>>)
    ensures
        match spec_parse_string(s@) {
            Ok((v, j)) => r matches Ok((w, k)) && w@ == v && k == j,
            Err(e) => r matches Err(m) && m@ == e,
        },
{
    if s.len() == 0 || s[0] != '"' {
        return Err(message_debug("expected string at ", s));
    }
    let mut out: Vec<char> = Vec::new();
    let mut i: usize = 1;
    while i < s.len()
        invariant
            1 <= i <= s@.len(),
            s@[0] == '"',
            spec_parse_string(s@) == spec_scan_string(s@, i as int, out@),
        decreases s@.len() - i,
    {
        let c = s[i];
        if c == '"' {
            return Ok((out, i + 1));
        } else if c == '\\' {
            if i + 1 >= s.len() {
                return Err(chars_of("unsupported escape None"));
            }
            let d = s[i + 1];
            if d == '"' {
                out.push('"');
            } else if d == '\\' {
                out.push('\\');
            } else if d == 'n' {
                out.push('\n');
            } else if d == 't' {
                out.push('\t');
            } else {
                let tail = &s[1..s.len()];
                proof {
                    assert(tail@.subrange(0, i as int) =~= s@.subrange(1, i + 1));
                }
                let off = utf8_len(tail, i);
                let mut m = chars_of("unsupported escape Some((");
                push_dec(&mut m, off);
                push_str(&mut m, ", ");
                let cd = char_debug_chars(d);
                push_chars(&mut m, cd.as_slice());
                push_str(&mut m, "))");
                return Err(m);
            }
            i = i + 2;
        } else {
            out.push(c);
            i = i + 1;
        }
    }
    Err(chars_of("unterminated string"))
}

/// The models of `v` with one more value.
proof fn lemma_values_model_push(v: Seq<Value>, x: Value)
    ensures
        values_model(v.push(x)) == values_model(v).push(x@),
{
    assert(v.push(x).subrange(0, v.len() as int) =~= v);
}

/// The items of a string array, `s` being the trimmed text between its
/// brackets.
fn parse_items(s: &[char]) -> (r: Result<Vec<Value>, Vec<char>>)
    ensures
        match spec_parse_items(s@) {
            Ok(a) => r matches Ok(v) && values_model(v@) == a,
            Err(e) => r matches Err(m) && m@ == e,
        },
{
    let mut items: Vec<Value> = Vec::new();
    let mut rest: Vec<char> = copy_range(s, 0, s.len());
    proof {
        assert(s@.subrange(0, s@.len() as int) =~= s@);
        assert(values_model(items@) =~= Seq::<ValueModel>::empty());
        match spec_parse_items(rest@) {
            Ok(t) => {
                assert(values_model(items@) + t =~= t);
            },
            Err(e) => {},
        }
    }
    while rest.len() > 0
        invariant
            spec_parse_items(s@) == match spec_parse_items(rest@) {
                Ok(t) => Ok(values_model(items@) + t),
                Err(e) => Err(e),
            },
        decreases rest@.len(),
    {
        match parse_string(rest.as_slice()) {
            Err(e) => {
                return Err(e);
            },
            Ok((v, j)) => {
                proof {
                    lemma_scan_string_bounds(rest@, 1, Seq::empty());
                }
                let after = copy_range(rest.as_slice(), j, rest.len());
                let r1 = trim_start(after.as_slice());
                proof {
                    lemma_trim_start_suffix(after@);
                }
                let ghost old_items = values_model(items@);
                let ghost old_vec = items@;
                let sv = Value::Str(string_from_chars(v.as_slice()));
                items.push(sv);
                proof {
                    lemma_values_model_push(old_vec, sv);
                }
                if r1.len() > 0 && r1[0] == ',' {
                    let r1t = copy_range(r1.as_slice(), 1, r1.len());
                    rest = trim_start(r1t.as_slice());
                    proof {
                        lemma_trim_start_suffix(r1t@);
                        match spec_parse_items(rest@) {
                            Ok(t) => {
                                assert(old_items + (seq![ValueModel::Str(v@)] + t) =~= values_model(
                                    items@,
                                ) + t);
                            },
                            Err(e) => {},
                        }
                    }
                } else if r1.len() > 0 {
                    return Err(message_debug("expected ',' in array near ", r1.as_slice()));
                } else {
                    rest = Vec::new();
                    proof {
                        assert(old_items + seq![ValueModel::Str(v@)] =~= values_model(items@)
                            + Seq::<ValueModel>::empty());
                    }
                }
            },
        }
    }
    proof {
        assert(values_model(items@) + Seq::<ValueModel>::empty() =~= values_model(items@));
    }
    Ok(items)
}

/// `s` without underscores.
fn drop_underscores(s: &[char]) -> (r: Vec<char>)
    ensures
        r@ == spec_drop_underscores(s@),
{
    let mut out: Vec<char> = Vec::new();
    let mut i: usize = 0;
    while i < s.len()
        invariant
            i <= s@.len(),
            out@ == spec_drop_underscores(s@.subrange(0, i as int)),
        decreases s@.len() - i,
    {
        proof {
            assert(s@.subrange(0, i + 1).subrange(0, i as int) =~= s@.subrange(0, i as int));
        }
        if s[i] != '_' {
            out.push(s[i]);
        }
        i = i + 1;
    }
    proof {
        assert(s@.subrange(0, s@.len() as int) =~= s@);
    }
    out
}

/// An integer value.
fn parse_int(s: &[char]) -> (r: Result<i64, Vec<char>>)
    ensures
        match spec_parse_int(s@) {
            Ok(v) => r matches Ok(x) && x == v,
            Err(e) => r matches Err(m) && m@ == e,
        },
{
    let t = trim(s);
    let neg = t.len() > 0 && t[0] == '-';
    let body = if t.len() > 0 && (t[0] == '-' || t[0] == '+') {
        copy_range(t.as_slice(), 1, t.len())
    } else {
        copy_range(t.as_slice(), 0, t.len())
    };
    proof {
        assert(t@.subrange(0, t@.len() as int) =~= t@);
    }
    let digits = drop_underscores(body.as_slice());
    let hex = digits.len() >= 2 && digits[0] == '0' && (digits[1] == 'x' || digits[1] == 'X');
    let src = if hex {
        copy_range(digits.as_slice(), 2, digits.len())
    } else {
        copy_range(digits.as_slice(), 0, digits.len())
    };
    let radix: u32 = if hex {
        16
    } else {
        10
    };
    proof {
        assert(digits@.subrange(0, digits@.len() as int) =~= digits@);
    }
    let st = string_from_chars(src.as_slice());
    match i64_from_str_radix(st.as_str(), radix) {
        Ok(v) => {
            if neg {
                if v == i64::MIN {
                    Ok(v)
                } else {
                    Ok(-v)
                }
            } else {
                Ok(v)
            }
        },
        Err(e) => {
            let mut m = message_debug("bad integer ", s);
            push_str(&mut m, ": ");
            push_str(&mut m, e.as_str());
            Err(m)
        },
    }
}

/// A value.
fn parse_value(s: &[char]) -> (r: Result<Value, Vec<char>>)
    ensures
        match spec_parse_value(s@) {
            Ok(v) => r matches Ok(x) && x@ == v,
            Err(e) => r matches Err(m) && m@ == e,
        },
{
    let t = trim(s);
    if t.len() > 0 && t[0] == '"' {
        match parse_string(t.as_slice()) {
            Err(e) => Err(e),
            Ok((v, j)) => {
                proof {
                    lemma_scan_string_bounds(t@, 1, Seq::empty());
                }
                let rest = copy_range(t.as_slice(), j, t.len());
                let rt = trim(rest.as_slice());
                if rt.len() > 0 {
                    Err(message_debug("trailing junk after string: ", rest.as_slice()))
                } else {
                    Ok(Value::Str(string_from_chars(v.as_slice())))
                }
            },
        }
    } else if t.len() > 0 && t[0] == '[' {
        let inner = copy_range(t.as_slice(), 1, t.len());
        if inner.len() > 0 && inner[inner.len() - 1] == ']' {
            let within = copy_range(inner.as_slice(), 0, inner.len() - 1);
            let body = trim(within.as_slice());
            match parse_items(body.as_slice()) {
                Ok(a) => Ok(Value::Array(a)),
                Err(e) => Err(e),
            }
        } else {
            Err(message_debug("unterminated array ", t.as_slice()))
        }
    } else {
        match parse_int(t.as_slice()) {
            Ok(v) => Ok(Value::Int(v)),
            Err(e) => Err(e),
        }
    }
}

/// Where a new key `k` goes in `t`: before the first entry whose key
/// does not sort before `k`.
pub open spec fn spec_insert_pos(t: TableModel, k: Seq<char>) -> int
    decreases t.len(),
{
    if t.len() == 0 {
        0
    } else if !spec_chars_lt(t[0].0, k) {
        0
    } else {
        1 + spec_insert_pos(t.subrange(1, t.len() as int), k)
    }
}

/// `t` with the new entry `k = v` in key order.
pub open spec fn spec_table_insert(t: TableModel, k: Seq<char>, v: ValueModel) -> TableModel {
    t.insert(spec_insert_pos(t, k), (k, v))
}

/// `spec_insert_pos` is a position in `t`.
pub proof fn lemma_insert_pos(t: TableModel, k: Seq<char>)
    ensures
        0 <= spec_insert_pos(t, k) <= t.len(),
    decreases t.len(),
{
    if t.len() > 0 && spec_chars_lt(t[0].0, k) {
        lemma_insert_pos(t.subrange(1, t.len() as int), k);
    }
}

/// What a document line does to the table its path leads to.
pub enum DocOp {
    /// Only make sure the table exists (a `[table]` header).
    Touch,
    /// Append an empty table to the array of tables under this key (a
    /// `[[array]]` header).
    PushTable(Seq<char>),
    /// Add the key/value pair (a `key = value` line).
    Insert(Seq<char>, ValueModel),
}

/// `op` applied to the table `t` it is aimed at.
pub open spec fn spec_apply_op(t: TableModel, op: DocOp) -> Result<TableModel, Seq<char>> {
    match op {
        DocOp::Touch => Ok(t),
        DocOp::PushTable(last) => {
            let i = spec_find_key(t, last);
            if i >= 0 {
                match t[i].1 {
                    ValueModel::Array(a) => Ok(
                        t.update(
                            i,
                            (last, ValueModel::Array(a.push(ValueModel::Table(Seq::empty())))),
                        ),
                    ),
                    _ => Err(last + " is not an array of tables"@),
                }
            } else {
                Ok(
                    spec_table_insert(
                        t,
                        last,
                        ValueModel::Array(seq![ValueModel::Table(Seq::empty())]),
                    ),
                )
            }
        },
        DocOp::Insert(k, v) => {
            if spec_find_key(t, k) >= 0 {
                Err("duplicate key "@ + str_debug_text(k))
            } else {
                Ok(spec_table_insert(t, k, v))
            }
        },
    }
}

/// `t` with an entry under `seg` (an empty table added where there is
/// none), and that entry's position.
pub open spec fn spec_ensure_entry(t: TableModel, seg: Seq<char>) -> (TableModel, int) {
    let i = spec_find_key(t, seg);
    if i >= 0 {
        (t, i)
    } else {
        let p = spec_insert_pos(t, seg);
        (spec_table_insert(t, seg, ValueModel::Table(Seq::empty())), p)
    }
}

/// `op` applied at the table that `path` leads to from `t`, creating
/// tables on the way and descending through the last element of an
/// array of tables.
pub open spec fn spec_apply_at(t: TableModel, path: Seq<Seq<char>>, op: DocOp) -> Result<
    TableModel,
    Seq<char>,
>
    decreases path.len(),
{
    if path.len() == 0 {
        spec_apply_op(t, op)
    } else {
        let seg = path[0];
        let below = path.subrange(1, path.len() as int);
        if !spec_valid_key(seg) {
            Err("invalid table name segment "@ + str_debug_text(seg))
        } else {
            let (t1, i) = spec_ensure_entry(t, seg);
            match t1[i].1 {
                ValueModel::Table(inner) => match spec_apply_at(inner, below, op) {
                    Ok(inner2) => Ok(t1.update(i, (seg, ValueModel::Table(inner2)))),
                    Err(e) => Err(e),
                },
                ValueModel::Array(a) => {
                    if a.len() > 0 && a[a.len() - 1] is Table {
                        match spec_apply_at(a[a.len() - 1]->Table_0, below, op) {
                            Ok(inner2) => Ok(
                                t1.update(
                                    i,
                                    (
                                        seg,
                                        ValueModel::Array(
                                            a.update(a.len() - 1, ValueModel::Table(inner2)),
                                        ),
                                    ),
                                ),
                            ),
                            Err(e) => Err(e),
                        }
                    } else {
                        Err(seg + " is not a table array"@)
                    }
                },
                _ => Err(seg + " is not a table"@),
            }
        }
    }
}

/// A document operation with its payload.
enum DocAction {
    Touch,
    PushTable(Vec<char>),
    Insert(Vec<char>, Value),
}

impl DocAction {
    spec fn model(&self) -> DocOp {
        match self {
            DocAction::Touch => DocOp::Touch,
            DocAction::PushTable(k) => DocOp::PushTable(k@),
            DocAction::Insert(k, v) => DocOp::Insert(k@, v@),
        }
    }
}

/// The models of `e` after `Vec::insert`.
proof fn lemma_entries_insert(e: Seq<(String, Value)>, p: int, x: (String, Value))
    requires
        0 <= p <= e.len(),
    ensures
        entries_model(e.insert(p, x)) == entries_model(e).insert(p, (x.0@, x.1@)),
{
    lemma_entries_model(e);
    lemma_entries_model(e.insert(p, x));
    e.insert_ensures(p, x);
    entries_model(e).insert_ensures(p, (x.0@, x.1@));
    assert(entries_model(e.insert(p, x)) =~= entries_model(e).insert(p, (x.0@, x.1@)));
}

/// The models of `e` after replacing entry `p`.
proof fn lemma_entries_update(e: Seq<(String, Value)>, p: int, x: (String, Value))
    requires
        0 <= p < e.len(),
    ensures
        entries_model(e.update(p, x)) == entries_model(e).update(p, (x.0@, x.1@)),
{
    lemma_entries_model(e);
    lemma_entries_model(e.update(p, x));
    assert(entries_model(e.update(p, x)) =~= entries_model(e).update(p, (x.0@, x.1@)));
}

impl Table {
    /// An empty table.
    fn empty() -> (t: Table)
        ensures
            t@ == Seq::<(Seq<char>, ValueModel)>::empty(),
    {
        let t = Table { entries: Vec::new() };
        proof {
            assert(t@ =~= Seq::<(Seq<char>, ValueModel)>::empty());
        }
        t
    }

    /// Where a new key `k` goes.
    fn insert_pos(&self, k: &[char]) -> (r: usize)
        ensures
            r as int == spec_insert_pos(self@, k@),
            r <= self@.len(),
    {
        proof {
            lemma_entries_model(self.entries@);
            assert(self@.subrange(0, self@.len() as int) =~= self@);
        }
        let mut i: usize = 0;
        while i < self.entries.len()
            invariant
                i <= self.entries@.len(),
                self@.len() == self.entries@.len(),
                forall|j: int| 0 <= j < self.entries@.len() ==> #[trigger] self@[j] == (
                    self.entries@[j].0@,
                    self.entries@[j].1@,
                ),
                spec_insert_pos(self@, k@) == i + spec_insert_pos(
                    self@.subrange(i as int, self@.len() as int),
                    k@,
                ),
            decreases self.entries@.len() - i,
        {
            let ghost rest = self@.subrange(i as int, self@.len() as int);
            proof {
                assert(rest.subrange(1, rest.len() as int) =~= self@.subrange(
                    i + 1,
                    self@.len() as int,
                ));
                assert(rest[0] == self@[i as int]);
            }
            let kc = chars_of(self.entries[i].0.as_str());
            if !crate::text::chars_lt(kc.as_slice(), k) {
                return i;
            }
            i = i + 1;
        }
        i
    }

    /// Add the new entry `k = v` in key order.
    fn insert_new(&mut self, k: &[char], v: Value) -> (p: usize)
        ensures
            final(self)@ == spec_table_insert(old(self)@, k@, v@),
            p as int == spec_insert_pos(old(self)@, k@),
            p < final(self)@.len(),
    {
        proof {
            lemma_entries_model(self.entries@);
        }
        let p = self.insert_pos(k);
        let key = string_from_chars(k);
        proof {
            lemma_entries_insert(self.entries@, p as int, (key, v));
        }
        self.entries.insert(p, (key, v));
        proof {
            lemma_entries_model(self.entries@);
        }
        p
    }

    /// Apply `op` to this table.
    fn apply_op(&mut self, op: DocAction) -> (r: Result<(), Vec<char>>)
        ensures
            match spec_apply_op(old(self)@, op.model()) {
                Ok(t2) => r is Ok && final(self)@ == t2,
                Err(e) => r matches Err(m) && m@ == e,
            },
    {
        match op {
            DocAction::Touch => Ok(()),
            DocAction::PushTable(last) => {
                match self.find(last.as_slice()) {
                    Some(i) => {
                        proof {
                            lemma_entries_model(self.entries@);
                            lemma_find_key(self@, last@);
                        }
                        let (key, val) = self.entries.remove(i);
                        match val {
                            Value::Array(mut a) => {
                                let ghost a_old = a@;
                                let et = Value::Table(Table::empty());
                                a.push(et);
                                proof {
                                    lemma_values_model_push(a_old, et);
                                }
                                let ghost mid = self.entries@;
                                proof {
                                    lemma_entries_insert(mid, i as int, (key, Value::Array(a)));
                                    assert(mid.insert(i as int, (key, Value::Array(a))) =~= old(
                                        self,
                                    ).entries@.update(i as int, (key, Value::Array(a))));
                                    lemma_entries_update(
                                        old(self).entries@,
                                        i as int,
                                        (key, Value::Array(a)),
                                    );
                                }
                                self.entries.insert(i, (key, Value::Array(a)));
                                Ok(())
                            },
                            _ => {
                                let mut m = copy_range(last.as_slice(), 0, last.len());
                                push_str(&mut m, " is not an array of tables");
                                proof {
                                    assert(last@.subrange(0, last@.len() as int) =~= last@);
                                }
                                Err(m)
                            },
                        }
                    },
                    None => {
                        let mut a: Vec<Value> = Vec::new();
                        let et2 = Value::Table(Table::empty());
                        a.push(et2);
                        proof {
                            lemma_values_model_push(Seq::empty(), et2);
                            assert(Seq::<Value>::empty().push(et2) =~= a@);
                            assert(values_model(Seq::empty()) =~= Seq::<ValueModel>::empty());
                        }
                        self.insert_new(last.as_slice(), Value::Array(a));
                        Ok(())
                    },
                }
            },
            DocAction::Insert(k, v) => {
                match self.find(k.as_slice()) {
                    Some(_) => Err(message_debug("duplicate key ", k.as_slice())),
                    None => {
                        self.insert_new(k.as_slice(), v);
                        Ok(())
                    },
                }
            },
        }
    }

    /// Apply `op` at the table `path[i..]` leads to.
    fn apply_at(&mut self, path: &[Vec<char>], i: usize, op: DocAction) -> (r: Result<
        (),
        Vec<char>,
    >)
        requires
            i <= path@.len(),
        ensures
            match spec_apply_at(
                old(self)@,
                chars_views(path@).subrange(i as int, path@.len() as int),
                op.model(),
            ) {
                Ok(t2) => r is Ok && final(self)@ == t2,
                Err(e) => r matches Err(m) && m@ == e,
            },
        decreases path@.len() - i,
    {
        let ghost p = chars_views(path@).subrange(i as int, path@.len() as int);
        if i == path.len() {
            proof {
                assert(p.len() == 0);
            }
            return self.apply_op(op);
        }
        let seg = &path[i];
        proof {
            assert(p[0] == seg@);
            assert(p.subrange(1, p.len() as int) =~= chars_views(path@).subrange(
                i + 1,
                path@.len() as int,
            ));
        }
        if !valid_key(seg.as_slice()) {
            return Err(message_debug("invalid table name segment ", seg.as_slice()));
        }
        let idx = match self.find(seg.as_slice()) {
            Some(j) => j,
            None => self.insert_new(seg.as_slice(), Value::Table(Table::empty())),
        };
        proof {
            lemma_entries_model(self.entries@);
            lemma_find_key(old(self)@, seg@);
            lemma_find_key(self@, seg@);
        }
        let ghost t1 = self@;
        let ghost e1 = self.entries@;
        assert(t1 == spec_ensure_entry(old(self)@, seg@).0);
        assert(idx as int == spec_ensure_entry(old(self)@, seg@).1);
        assert(t1[idx as int].0 == seg@) by {
            if spec_find_key(old(self)@, seg@) < 0 {
                lemma_insert_pos(old(self)@, seg@);
                old(self)@.insert_ensures(
                    spec_insert_pos(old(self)@, seg@),
                    (seg@, ValueModel::Table(Seq::empty())),
                );
            }
        }
        assert(t1[idx as int] == (e1[idx as int].0@, e1[idx as int].1@));
        let (key, val) = self.entries.remove(idx);
        let ghost mid = self.entries@;
        proof {
            assert(key@ == seg@);
        }
        match val {
            Value::Table(mut inner) => {
                let r = inner.apply_at(path, i + 1, op);
                match r {
                    Ok(()) => {
                        proof {
                            assert(mid.insert(idx as int, (key, Value::Table(inner))) =~= e1.update(
                                idx as int,
                                (key, Value::Table(inner)),
                            ));
                            lemma_entries_update(e1, idx as int, (key, Value::Table(inner)));
                        }
                        self.entries.insert(idx, (key, Value::Table(inner)));
                        Ok(())
                    },
                    Err(m) => Err(m),
                }
            },
            Value::Array(mut a) => {
                let n = a.len();
                proof {
                    lemma_values_model(a@);
                }
                if n == 0 {
                    let mut m = copy_range(seg.as_slice(), 0, seg.len());
                    push_str(&mut m, " is not a table array");
                    proof {
                        assert(seg@.subrange(0, seg@.len() as int) =~= seg@);
                    }
                    return Err(m);
                }
                let ghost a_old = a@;
                let last = a.pop().unwrap();
                proof {
                    assert(a_old.subrange(0, a_old.len() - 1) =~= a@);
                }
                match last {
                    Value::Table(mut inner) => {
                        let r = inner.apply_at(path, i + 1, op);
                        match r {
                            Ok(()) => {
                                let nt = Value::Table(inner);
                                let ghost a_mid = a@;
                                a.push(nt);
                                proof {
                                    lemma_values_model_push(a_mid, nt);
                                    lemma_values_model(a_old);
                                    lemma_values_model(a@);
                                    assert(values_model(a@) =~= values_model(a_old).update(
                                        a_old.len() - 1,
                                        ValueModel::Table(inner@),
                                    ));
                                    assert(mid.insert(idx as int, (key, Value::Array(a)))
                                        =~= e1.update(idx as int, (key, Value::Array(a))));
                                    lemma_entries_update(e1, idx as int, (key, Value::Array(a)));
                                }
                                self.entries.insert(idx, (key, Value::Array(a)));
                                Ok(())
                            },
                            Err(m) => Err(m),
                        }
                    },
                    _ => {
                        let mut m = copy_range(seg.as_slice(), 0, seg.len());
                        push_str(&mut m, " is not a table array");
                        proof {
                            assert(seg@.subrange(0, seg@.len() as int) =~= seg@);
                        }
                        Err(m)
                    },
                }
            },
            _ => {
                let mut m = copy_range(seg.as_slice(), 0, seg.len());
                push_str(&mut m, " is not a table");
                proof {
                    assert(seg@.subrange(0, seg@.len() as int) =~= seg@);
                }
                Err(m)
            },
        }
    }
}

/// The position of the first `c` in `s`, or -1.
pub open spec fn spec_find_char(s: Seq<char>, c: char) -> int
    decreases s.len(),
{
    if s.len() == 0 {
        -1
    } else if s[0] == c {
        0
    } else {
        let r = spec_find_char(s.subrange(1, s.len() as int), c);
        if r < 0 {
            -1
        } else {
            r + 1
        }
    }
}

/// One cleaned line applied to the document `root` whose open table is
/// at `cur_path`: the new document and open-table path.
pub open spec fn spec_doc_line(line: Seq<char>, root: TableModel, cur_path: Seq<Seq<char>>) -> Result<
    (TableModel, Seq<Seq<char>>),
    Seq<char>,
> {
    if line.len() == 0 {
        Ok((root, cur_path))
    } else if line.len() >= 2 && line[0] == '[' && line[1] == '[' {
        let h = line.subrange(2, line.len() as int);
        if h.len() >= 2 && h[h.len() - 1] == ']' && h[h.len() - 2] == ']' {
            let segs = spec_segments(spec_trim(h.subrange(0, h.len() - 2)));
            let last = segs[segs.len() - 1];
            if !spec_valid_key(last) {
                Err("invalid table name "@ + str_debug_text(last))
            } else {
                match spec_apply_at(
                    root,
                    segs.subrange(0, segs.len() - 1),
                    DocOp::PushTable(last),
                ) {
                    Ok(r2) => Ok((r2, segs)),
                    Err(e) => Err(e),
                }
            }
        } else {
            Err("malformed [[header]]"@)
        }
    } else if line[0] == '[' {
        let h = line.subrange(1, line.len() as int);
        if h.len() >= 1 && h[h.len() - 1] == ']' {
            let segs = spec_segments(spec_trim(h.subrange(0, h.len() - 1)));
            match spec_apply_at(root, segs, DocOp::Touch) {
                Ok(r2) => Ok((r2, segs)),
                Err(e) => Err(e),
            }
        } else {
            Err("malformed [header]"@)
        }
    } else {
        let eq = spec_find_char(line, '=');
        if eq < 0 {
            Err("unrecognized line "@ + str_debug_text(line))
        } else {
            let key = spec_trim(line.subrange(0, eq));
            if !spec_valid_key(key) {
                Err("invalid key "@ + str_debug_text(key))
            } else {
                match spec_parse_value(line.subrange(eq + 1, line.len() as int)) {
                    Err(e) => Err(e),
                    Ok(v) => match spec_apply_at(root, cur_path, DocOp::Insert(key, v)) {
                        Ok(r2) => Ok((r2, cur_path)),
                        Err(e) => Err(e),
                    },
                }
            }
        }
    }
}

/// The document from line `i` of `lines` on, given the document so far
/// and its open-table path; an error names its 1-based line.
pub open spec fn spec_doc_from(
    lines: Seq<Seq<char>>,
    i: int,
    root: TableModel,
    cur_path: Seq<Seq<char>>,
) -> Result<TableModel, Seq<char>>
    decreases lines.len() - i,
{
    if i < 0 || i >= lines.len() {
        Ok(root)
    } else {
        match spec_doc_line(spec_clean_line(lines[i]), root, cur_path) {
            Ok((r2, p2)) => spec_doc_from(lines, i + 1, r2, p2),
            Err(m) => Err("line "@ + spec_dec((i + 1) as nat) + ": "@ + m),
        }
    }
}

/// The document `s` parses to: its root table, or the error text.
pub open spec fn spec_parse_doc(s: Seq<char>) -> Result<TableModel, Seq<char>> {
    spec_doc_from(spec_lines(s), 0, Seq::empty(), Seq::empty())
}

/// The position of the first `c` in `s`.
fn find_char(s: &[char], c: char) -> (r: Option<usize>)
    ensures
        match r {
            Some(i) => i as int == spec_find_char(s@, c) && i < s@.len(),
            None => spec_find_char(s@, c) < 0,
        },
{
    let mut i: usize = 0;
    proof {
        assert(s@.subrange(0, s@.len() as int) =~= s@);
    }
    while i < s.len()
        invariant
            i <= s@.len(),
            spec_find_char(s@, c) == if spec_find_char(s@.subrange(i as int, s@.len() as int), c)
                < 0 {
                -1
            } else {
                i + spec_find_char(s@.subrange(i as int, s@.len() as int), c)
            },
        decreases s@.len() - i,
    {
        let ghost rest = s@.subrange(i as int, s@.len() as int);
        proof {
            assert(rest.subrange(1, rest.len() as int) =~= s@.subrange(i + 1, s@.len() as int));
            assert(rest[0] == s@[i as int]);
        }
        if s[i] == c {
            return Some(i);
        }
        i = i + 1;
    }
    None
}

/// Apply one cleaned line to the document.
fn doc_line(line: &[char], root: &mut Table, cur_path: &mut Vec<Vec<char>>) -> (r: Result<
    (),
    Vec<char>,
>)
    ensures
        match spec_doc_line(line@, old(root)@, chars_views(old(cur_path)@)) {
            Ok((r2, p2)) => r is Ok && final(root)@ == r2 && chars_views(final(cur_path)@) == p2,
            Err(e) => r matches Err(m) && m@ == e,
        },
{
    let n = line.len();
    if n == 0 {
        return Ok(());
    }
    if n >= 2 && line[0] == '[' && line[1] == '[' {
        let h = copy_range(line, 2, n);
        let hn = h.len();
        if !(hn >= 2 && h[hn - 1] == ']' && h[hn - 2] == ']') {
            return Err(chars_of("malformed [[header]]"));
        }
        let within = copy_range(h.as_slice(), 0, hn - 2);
        let name = trim(within.as_slice());
        let segs = segments(name.as_slice());
        let sn = segs.len();
        let last = copy_range(segs[sn - 1].as_slice(), 0, segs[sn - 1].len());
        proof {
            assert(segs@[sn - 1]@.subrange(0, segs@[sn - 1]@.len() as int) =~= segs@[sn - 1]@);
            assert(chars_views(segs@)[sn - 1] == segs@[sn - 1]@);
        }
        if !valid_key(last.as_slice()) {
            return Err(message_debug("invalid table name ", last.as_slice()));
        }
        let parents = &segs.as_slice()[0..sn - 1];
        proof {
            assert(chars_views(parents@).subrange(0, parents@.len() as int) =~= chars_views(
                segs@,
            ).subrange(0, sn - 1));
        }
        match root.apply_at(parents, 0, DocAction::PushTable(last)) {
            Ok(()) => {
                *cur_path = segs;
                Ok(())
            },
            Err(e) => Err(e),
        }
    } else if line[0] == '[' {
        let h = copy_range(line, 1, n);
        let hn = h.len();
        if !(hn >= 1 && h[hn - 1] == ']') {
            return Err(chars_of("malformed [header]"));
        }
        let within = copy_range(h.as_slice(), 0, hn - 1);
        let name = trim(within.as_slice());
        let segs = segments(name.as_slice());
        proof {
            assert(chars_views(segs@).subrange(0, segs@.len() as int) =~= chars_views(segs@));
        }
        match root.apply_at(segs.as_slice(), 0, DocAction::Touch) {
            Ok(()) => {
                *cur_path = segs;
                Ok(())
            },
            Err(e) => Err(e),
        }
    } else {
        match find_char(line, '=') {
            None => Err(message_debug("unrecognized line ", line)),
            Some(eq) => {
                let kr = copy_range(line, 0, eq);
                let key = trim(kr.as_slice());
                if !valid_key(key.as_slice()) {
                    return Err(message_debug("invalid key ", key.as_slice()));
                }
                let vt = copy_range(line, eq + 1, n);
                match parse_value(vt.as_slice()) {
                    Err(e) => Err(e),
                    Ok(v) => {
                        proof {
                            assert(chars_views(cur_path@).subrange(0, cur_path@.len() as int)
                                =~= chars_views(cur_path@));
                        }
                        match root.apply_at(cur_path.as_slice(), 0, DocAction::Insert(key, v)) {
                            Ok(()) => Ok(()),
                            Err(e) => Err(e),
                        }
                    },
                }
            },
        }
    }
}

/// Parse a document into a root table.
pub fn parse_doc(text: &str) -> (r: Result<Value, String>)
    ensures
        match spec_parse_doc(text@) {
            Ok(t) => r matches Ok(v) && v@ == ValueModel::Table(t),
            Err(e) => r matches Err(m) && m@ == e,
        },
{
    let chars = chars_of(text);
    let lines = split_lines(chars.as_slice());
    let mut root = Table::empty();
    let mut cur_path: Vec<Vec<char>> = Vec::new();
    let mut i: usize = 0;
    proof {
        assert(chars_views(cur_path@) =~= Seq::<Seq<char>>::empty());
    }
    while i < lines.len()
        invariant
            i <= lines@.len(),
            chars_views(lines@) == spec_lines(text@),
            spec_parse_doc(text@) == spec_doc_from(
                chars_views(lines@),
                i as int,
                root@,
                chars_views(cur_path@),
            ),
        decreases lines@.len() - i,
    {
        let stripped = strip_comment(lines[i].as_slice());
        let line = trim(stripped.as_slice());
        proof {
            assert(chars_views(lines@)[i as int] == lines@[i as int]@);
        }
        match doc_line(line.as_slice(), &mut root, &mut cur_path) {
            Ok(()) => {},
            Err(m) => {
                let mut msg = chars_of("line ");
                push_dec(&mut msg, (i + 1) as u128);
                push_str(&mut msg, ": ");
                push_chars(&mut msg, m.as_slice());
                return Err(string_from_chars(msg.as_slice()));
            },
        }
        i = i + 1;
    }
    Ok(Value::Table(root))
}

} // verus!
