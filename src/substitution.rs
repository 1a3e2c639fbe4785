//! Substitution of placeholders in a message by values from a context field of
//! the record.
//!
//! A placeholder is the placeholder prefix, one or more identifier characters
//! (`A-Z`, `a-z`, `0-9`, `_`, `-`), then the placeholder suffix. The message is
//! scanned from the left; at each position the longest identifier that the suffix
//! can follow is taken, and scanning resumes after the placeholder.

use vstd::prelude::*;
use crate::json::{JsonValue, field_value, get_field};
use crate::style::{Color, Style, Weight, painted, bold, dim, plain, stylew};
use crate::text::{chars_of, chars_match_at, push_char, seq_starts_with, string_from_chars};
use crate::time::{all_digits, digit_value, digits_value, is_digit};
use crate::flatten::{digit_char, nat_text};

verus! {

/// A placeholder format that does not hold the word `key` exactly once.
#[derive(Debug, PartialEq, Eq)]
pub enum Error {
    MissingIdentifier,
}

pub open spec fn key_word() -> Seq<char> {
    seq!['k', 'e', 'y']
}

/// The first position at or after `from` where `f` holds the word `key`.
pub open spec fn key_position(f: Seq<char>, from: int) -> Option<int>
    decreases f.len() - from,
{
    if from < 0 || from >= f.len() {
        None
    } else if seq_starts_with(f.skip(from), key_word()) {
        Some(from)
    } else {
        key_position(f, from + 1)
    }
}

/// The prefix and suffix around the single `key` of a placeholder format.
pub open spec fn split_format(f: Seq<char>) -> Option<(Seq<char>, Seq<char>)> {
    match key_position(f, 0) {
        Some(i) => if key_position(f, i + 1) is None {
            Some((f.take(i), f.skip(i + 3)))
        } else {
            None
        },
        None => None,
    }
}

pub open spec fn is_ident_char(c: char) -> bool {
    ('a' <= c <= 'z') || ('A' <= c <= 'Z') || ('0' <= c <= '9') || c == '_' || c == '-'
}

/// Number of identifier characters in a row from position `j` of `m`.
pub open spec fn ident_run(m: Seq<char>, j: int) -> nat
    decreases m.len() - j,
{
    if 0 <= j < m.len() && is_ident_char(m[j]) {
        1 + ident_run(m, j + 1)
    } else {
        0
    }
}

/// The greatest `n <= k`, `n > 0`, such that `q` follows the `n` characters from `j`;
/// 0 when there is none.
pub open spec fn longest_ident(m: Seq<char>, j: int, q: Seq<char>, k: nat) -> nat
    decreases k,
{
    if k == 0 {
        0
    } else if seq_starts_with(m.skip(j + k), q) {
        k
    } else {
        longest_ident(m, j, q, (k - 1) as nat)
    }
}

/// The length of the identifier of a placeholder that starts at `i`; 0 when none does.
pub open spec fn placeholder_at(m: Seq<char>, i: int, p: Seq<char>, q: Seq<char>) -> nat {
    if seq_starts_with(m.skip(i), p) {
        longest_ident(m, i + p.len(), q, ident_run(m, i + p.len()))
    } else {
        0
    }
}

/// The value that `ident` names in the context: a field of an object, or the
/// zero-based element of an array.
pub open spec fn context_lookup(ctx: JsonValue, ident: Seq<char>) -> Option<JsonValue> {
    match ctx {
        JsonValue::Object(fields) => field_value(fields@, ident),
        JsonValue::Array(items) => if ident.len() > 0 && all_digits(ident) && digits_value(ident)
            < items@.len() {
            Some(items@[digits_value(ident) as int])
        } else {
            None
        },
        _ => None,
    }
}

/// How arrays and objects are laid out: `Compact` gives `[1, 2]` and `{a: 1, b: 2}`
/// with dimmed separators; `Spaced` gives `[1, 2]` and `{ a: 1, b: 2 }` with plain
/// separators.
#[derive(Clone, Copy, Debug, PartialEq, Eq)]
pub enum Layout {
    Compact,
    Spaced,
}

/// The text between two elements of an array.
pub open spec fn item_separator(nc: bool, lay: Layout) -> Seq<char> {
    match lay {
        Layout::Compact => painted(dim(), ", "@, nc),
        Layout::Spaced => seq![',', ' '],
    }
}

/// The text before a field of an object; `first` for the first field.
pub open spec fn field_lead(first: bool, nc: bool, lay: Layout) -> Seq<char> {
    match lay {
        Layout::Compact => if first { seq![] } else { painted(dim(), ", "@, nc) },
        Layout::Spaced => if first { seq![' '] } else { seq![',', ' '] },
    }
}

/// The text that closes an object.
pub open spec fn object_close(lay: Layout) -> Seq<char> {
    match lay {
        Layout::Compact => "}"@,
        Layout::Spaced => " }"@,
    }
}

/// A value rendered with colours by its type.
pub open spec fn value_text(v: JsonValue, nc: bool, lay: Layout) -> Seq<char>
    decreases v,
{
    match v {
        JsonValue::Str(s) => painted(bold(Color::Yellow), s@, nc),
        JsonValue::Number(n) => painted(bold(Color::Cyan), n@, nc),
        JsonValue::Bool(b) => if b {
            painted(bold(Color::Green), "true"@, nc)
        } else {
            painted(bold(Color::Red), "false"@, nc)
        },
        JsonValue::Null => painted(bold(Color::Primary), "null"@, nc),
        JsonValue::Array(items) => painted(dim(), "["@, nc) + items_text(items@, nc, lay) + painted(
            dim(),
            "]"@,
            nc,
        ),
        JsonValue::Object(fields) => painted(dim(), "{"@, nc) + fields_text(fields@, nc, lay)
            + painted(dim(), object_close(lay), nc),
    }
}

/// The elements of an array, separated by commas.
pub open spec fn items_text(items: Seq<JsonValue>, nc: bool, lay: Layout) -> Seq<char>
    decreases items,
{
    if items.len() == 0 {
        seq![]
    } else {
        items_text(items.drop_last(), nc, lay) + (if items.len() > 1 {
            item_separator(nc, lay)
        } else {
            seq![]
        }) + value_text(items.last(), nc, lay)
    }
}

/// The fields of an object as `key: value`, separated by commas.
pub open spec fn fields_text(fields: Seq<(String, JsonValue)>, nc: bool, lay: Layout) -> Seq<char>
    decreases fields,
{
    if fields.len() == 0 {
        seq![]
    } else {
        fields_text(fields.drop_last(), nc, lay) + field_lead(fields.len() == 1, nc, lay) + painted(
            plain(Color::Magenta),
            fields.last().0@,
            nc,
        ) + painted(dim(), ": "@, nc) + value_text(fields.last().1, nc, lay)
    }
}

/// What a placeholder becomes: the value it names, or, when it names none, the
/// placeholder itself with its identifier marked as an error.
pub open spec fn placeholder_text(
    ident: Seq<char>,
    ctx: JsonValue,
    p: Seq<char>,
    q: Seq<char>,
    nc: bool,
    lay: Layout,
) -> Seq<char> {
    match context_lookup(ctx, ident) {
        Some(v) => value_text(v, nc, lay),
        None => painted(dim(), p, nc) + painted(bold(Color::Red), ident, nc) + painted(dim(), q, nc),
    }
}

/// The message from position `i` on, with each placeholder replaced.
pub open spec fn substituted_from(
    m: Seq<char>,
    i: int,
    p: Seq<char>,
    q: Seq<char>,
    ctx: JsonValue,
    nc: bool,
    lay: Layout,
) -> Seq<char>
    decreases (if i < m.len() { m.len() - i } else { 0 }),
{
    if i < 0 || i >= m.len() {
        seq![]
    } else {
        let k = placeholder_at(m, i, p, q);
        if k > 0 {
            let start = i + p.len();
            placeholder_text(m.subrange(start, start + k), ctx, p, q, nc, lay) + substituted_from(
                m,
                start + k + q.len(),
                p,
                q,
                ctx,
                nc,
                lay,
            )
        } else {
            seq![m[i]] + substituted_from(m, i + 1, p, q, ctx, nc, lay)
        }
    }
}

/// Replaces placeholders in messages by values of a context field.
pub struct Substitution {
    pub context_key: String,
    placeholder_prefix: String,
    placeholder_suffix: String,
    no_color: bool,
}

impl Substitution {
    pub closed spec fn key_view(&self) -> Seq<char> {
        self.context_key@
    }

    pub closed spec fn prefix_view(&self) -> Seq<char> {
        self.placeholder_prefix@
    }

    pub closed spec fn suffix_view(&self) -> Seq<char> {
        self.placeholder_suffix@
    }

    pub closed spec fn colorless(&self) -> bool {
        self.no_color
    }

    /// A substitution with `context_key` (default `context`) and the placeholder
    /// format `placeholder_format` (default `{key}`), which must hold the word `key`
    /// exactly once.
    pub fn new(context_key: Option<String>, placeholder_format: Option<String>, no_color: bool) -> (r: Result<Substitution, Error>)
        ensures
            ({
                let f = match placeholder_format {
                    Some(f) => f@,
                    None => "{key}"@,
                };
                match split_format(f) {
                    Some((p, q)) => r matches Ok(s) && s.prefix_view() == p && s.suffix_view() == q
                        && s.colorless() == no_color && s.key_view() == match context_key {
                        Some(k) => k@,
                        None => "context"@,
                    },
                    None => r == Err::<Substitution, Error>(Error::MissingIdentifier),
                }
            }),
    {
        let format: String = match placeholder_format {
            Some(f) => f,
            None => "{key}".to_owned(),
        };
        match split_placeholder_format(format.as_str()) {
            None => Err(Error::MissingIdentifier),
            Some((prefix, suffix)) => {
                let key = match context_key {
                    Some(k) => k,
                    None => "context".to_owned(),
                };
                Ok(Substitution { context_key: key, placeholder_prefix: prefix, placeholder_suffix: suffix, no_color })
            },
        }
    }
}

/// The prefix and suffix around the single word `key` of `format`; `None` when the
/// word is missing or occurs more than once.
pub fn split_placeholder_format(format: &str) -> (r: Option<(String, String)>)
    ensures
        r is None <==> split_format(format@) is None,
        r matches Some((p, q)) ==> split_format(format@) == Some((p@, q@)),
{
    let fc = chars_of(format);
    let kw: Vec<char> = vec!['k', 'e', 'y'];
    assert(kw@ =~= key_word());
    match find_key(&fc, &kw, 0) {
        None => None,
        Some(i) => {
            if find_key(&fc, &kw, i + 1).is_some() {
                return None;
            }
            let prefix = string_from_chars(&fc, 0, i);
            let suffix = string_from_chars(&fc, i + 3, fc.len());
            assert(prefix@ =~= fc@.take(i as int));
            assert(suffix@ =~= fc@.skip(i + 3));
            Some((prefix, suffix))
        },
    }
}

impl Substitution {
    /// What `apply` gives for `message` and the record `log_entry`: nothing when the
    /// record has no context field, else the message with its placeholders replaced.
    pub open spec fn substitution_of(&self, message: Seq<char>, log_entry: Seq<(String, JsonValue)>) -> Option<Seq<char>> {
        match field_value(log_entry, self.key_view()) {
            Some(ctx) => Some(
                substituted_from(message, 0, self.prefix_view(), self.suffix_view(), ctx, self.colorless(), Layout::Compact),
            ),
            None => None,
        }
    }

    /// Replaces the placeholders of `message` by values of the context field of
    /// `log_entry`; `None` when the record has no context field.
    pub fn apply(&self, message: &str, log_entry: &Vec<(String, JsonValue)>) -> (r: Option<String>)
        ensures
            r is None <==> self.substitution_of(message@, log_entry@) is None,
            r matches Some(s) ==> self.substitution_of(message@, log_entry@) == Some(s@),
    {
        match get_field(log_entry, self.context_key.as_str()) {
            Some(ctx) => Some(
                substitute(message, ctx, &self.placeholder_prefix, &self.placeholder_suffix, self.no_color, Layout::Compact),
            ),
            None => None,
        }
    }
}

/// `message` with each placeholder between `prefix` and `suffix` replaced by what
/// it names in `ctx`.
pub fn substitute(message: &str, ctx: &JsonValue, prefix: &String, suffix: &String, nc: bool, lay: Layout) -> (r: String)
    ensures
        r@ == substituted_from(message@, 0, prefix@, suffix@, *ctx, nc, lay),
{
    let m = chars_of(message);
    let p = chars_of(prefix.as_str());
    let q = chars_of(suffix.as_str());
    let ghost whole = substituted_from(m@, 0, p@, q@, *ctx, nc, lay);
    let mut out = String::new();
    let mut i: usize = 0;
    while i < m.len()
        invariant
            i <= m@.len(),
            p@ == prefix@,
            q@ == suffix@,
            out@ + substituted_from(m@, i as int, p@, q@, *ctx, nc, lay) == whole,
        decreases m.len() - i,
    {
        let ghost before = out@;
        let k = placeholder_len(&m, i, &p, &q);
        if k > 0 {
            let start = i + p.len();
            let ident = string_from_chars(&m, start, start + k);
            let ident_chars = chars_of(ident.as_str());
            let ghost id = m@.subrange(start as int, start + k);
            assert(ident@ == id);
            match lookup_context(ctx, &ident_chars, &ident) {
                Some(v) => {
                    color_format(&mut out, v, nc, lay);
                    assert(out@ == before + placeholder_text(id, *ctx, p@, q@, nc, lay));
                },
                None => {
                    stylew(&mut out, Style { color: Color::Primary, weight: Weight::Dim }, prefix.as_str(), nc);
                    stylew(&mut out, Style { color: Color::Red, weight: Weight::Bold }, ident.as_str(), nc);
                    stylew(&mut out, Style { color: Color::Primary, weight: Weight::Dim }, suffix.as_str(), nc);
                    assert(out@ =~= before + placeholder_text(id, *ctx, p@, q@, nc, lay));
                },
            }
            let next = start + k + q.len();
            assert(out@ + substituted_from(m@, next as int, p@, q@, *ctx, nc, lay) =~= before
                + substituted_from(m@, i as int, p@, q@, *ctx, nc, lay));
            i = next;
        } else {
            crate::text::push_char(&mut out, m[i]);
            assert(out@ + substituted_from(m@, i + 1, p@, q@, *ctx, nc, lay) =~= before
                + substituted_from(m@, i as int, p@, q@, *ctx, nc, lay));
            i = i + 1;
        }
    }
    assert(out@ =~= whole);
    out
}

fn ident_char(c: char) -> (r: bool)
    ensures
        r == is_ident_char(c),
{
    ('a' <= c && c <= 'z') || ('A' <= c && c <= 'Z') || ('0' <= c && c <= '9') || c == '_' || c == '-'
}

fn ident_run_at(m: &Vec<char>, j: usize) -> (r: usize)
    requires
        j <= m@.len(),
    ensures
        r == ident_run(m@, j as int),
        j + r <= m@.len(),
{
    let mut e: usize = j;
    while e < m.len() && ident_char(m[e])
        invariant
            j <= e <= m@.len(),
            ident_run(m@, j as int) == (e - j) + ident_run(m@, e as int),
        decreases m.len() - e,
    {
        e = e + 1;
    }
    e - j
}

fn longest_ident_at(m: &Vec<char>, j: usize, q: &Vec<char>, k: usize) -> (r: usize)
    requires
        j + k <= m@.len(),
    ensures
        r == longest_ident(m@, j as int, q@, k as nat),
        r > 0 ==> j + r + q@.len() <= m@.len(),
{
    let mut n: usize = k;
    while n > 0 && !chars_match_at(m, j + n, q)
        invariant
            n <= k,
            j + k <= m.len(),
            longest_ident(m@, j as int, q@, k as nat) == longest_ident(m@, j as int, q@, n as nat),
        decreases n,
    {
        n = n - 1;
    }
    n
}

fn placeholder_len(m: &Vec<char>, i: usize, p: &Vec<char>, q: &Vec<char>) -> (r: usize)
    requires
        i <= m@.len(),
    ensures
        r == placeholder_at(m@, i as int, p@, q@),
        r > 0 ==> i + p@.len() + r + q@.len() <= m@.len(),
{
    if !chars_match_at(m, i, p) {
        return 0;
    }
    assert(m@.skip(i as int).len() == m@.len() - i);
    assert(i + p.len() <= m.len());
    let j = i + p.len();
    let run = ident_run_at(m, j);
    longest_ident_at(m, j, q, run)
}

/// The zero-based index that the identifier `ident` writes, when it is below `len`.
fn index_below(ident: &Vec<char>, len: usize) -> (r: Option<usize>)
    ensures
        r matches Some(n) ==> ident@.len() > 0 && all_digits(ident@) && digits_value(ident@) == n
            && n < len,
        r is None ==> !(ident@.len() > 0 && all_digits(ident@) && digits_value(ident@) < len),
{
    if ident.len() == 0 {
        return None;
    }
    let mut acc: u128 = 0;
    let mut over = len == 0;
    let mut i: usize = 0;
    assert(ident@.take(0) =~= Seq::<char>::empty());
    while i < ident.len()
        invariant
            i <= ident@.len(),
            all_digits(ident@.take(i as int)),
            over ==> digits_value(ident@.take(i as int)) >= len,
            !over ==> acc == digits_value(ident@.take(i as int)) && acc < len,
        decreases ident.len() - i,
    {
        let c = ident[i];
        let ghost prev = ident@.take(i as int);
        let ghost next = ident@.take(i + 1);
        assert(next.drop_last() =~= prev);
        if !('0' <= c && c <= '9') {
            assert(!is_digit(ident@[i as int]));
            return None;
        }
        assert(all_digits(next)) by {
            assert forall|j: int| 0 <= j < next.len() implies is_digit(#[trigger] next[j]) by {
                if j < prev.len() {
                    assert(next[j] == prev[j]);
                }
            }
        }
        assert(digits_value(next) >= digits_value(prev)) by (nonlinear_arith)
            requires digits_value(next) == digits_value(prev) * 10 + crate::time::digit_value(c);
        if !over {
            acc = acc * 10 + (c as u32 - '0' as u32) as u128;
            if acc >= len as u128 {
                over = true;
            }
        }
        i = i + 1;
    }
    assert(ident@.take(ident@.len() as int) =~= ident@);
    if over {
        None
    } else {
        Some(acc as usize)
    }
}

fn lookup_context<'a>(ctx: &'a JsonValue, ident: &Vec<char>, key: &String) -> (r: Option<&'a JsonValue>)
    requires
        ident@ == key@,
    ensures
        r is None <==> context_lookup(*ctx, ident@) is None,
        r matches Some(v) ==> context_lookup(*ctx, ident@) == Some(*v),
{
    match ctx {
        JsonValue::Object(fields) => get_field(fields, key.as_str()),
        JsonValue::Array(items) => match index_below(ident, items.len()) {
            Some(n) => Some(&items[n]),
            None => None,
        },
        _ => None,
    }
}

/// Appends `v`, rendered with colours by its type, to `out`.
fn color_format(out: &mut String, v: &JsonValue, nc: bool, lay: Layout)
    ensures
        final(out)@ == old(out)@ + value_text(*v, nc, lay),
    decreases v,
{
    let dim_style = Style { color: Color::Primary, weight: Weight::Dim };
    match v {
        JsonValue::Str(s) => stylew(out, Style { color: Color::Yellow, weight: Weight::Bold }, s.as_str(), nc),
        JsonValue::Number(n) => stylew(out, Style { color: Color::Cyan, weight: Weight::Bold }, n.as_str(), nc),
        JsonValue::Bool(b) => if *b {
            stylew(out, Style { color: Color::Green, weight: Weight::Bold }, "true", nc)
        } else {
            stylew(out, Style { color: Color::Red, weight: Weight::Bold }, "false", nc)
        },
        JsonValue::Null => stylew(out, Style { color: Color::Primary, weight: Weight::Bold }, "null", nc),
        JsonValue::Array(items) => {
            stylew(out, dim_style, "[", nc);
            color_items(out, items, nc, lay);
            stylew(out, dim_style, "]", nc);
            assert(out@ =~= old(out)@ + value_text(*v, nc, lay));
        },
        JsonValue::Object(fields) => {
            stylew(out, dim_style, "{", nc);
            color_fields(out, fields, nc, lay);
            match lay {
                Layout::Compact => stylew(out, dim_style, "}", nc),
                Layout::Spaced => stylew(out, dim_style, " }", nc),
            }
            assert(out@ =~= old(out)@ + value_text(*v, nc, lay));
        },
    }
}

fn color_items(out: &mut String, items: &Vec<JsonValue>, nc: bool, lay: Layout)
    ensures
        final(out)@ == old(out)@ + items_text(items@, nc, lay),
    decreases items,
{
    let mut i: usize = 0;
    assert(items@.take(0) =~= Seq::<JsonValue>::empty());
    assert(old(out)@ + items_text(items@.take(0), nc, lay) =~= old(out)@);
    while i < items.len()
        invariant
            i <= items@.len(),
            out@ == old(out)@ + items_text(items@.take(i as int), nc, lay),
        decreases items.len() - i,
    {
        if i > 0 {
            match lay {
                Layout::Compact => stylew(out, Style { color: Color::Primary, weight: Weight::Dim }, ", ", nc),
                Layout::Spaced => {
                    push_char(out, ',');
                    push_char(out, ' ');
                },
            }
        }
        color_format(out, &items[i], nc, lay);
        assert(items@.take(i + 1).drop_last() =~= items@.take(i as int));
        assert(out@ =~= old(out)@ + items_text(items@.take(i + 1), nc, lay));
        i = i + 1;
    }
    assert(items@.take(items@.len() as int) =~= items@);
}

fn push_field_lead(out: &mut String, first: bool, nc: bool, lay: Layout)
    ensures
        final(out)@ == old(out)@ + field_lead(first, nc, lay),
{
    match lay {
        Layout::Compact => if !first {
            stylew(out, Style { color: Color::Primary, weight: Weight::Dim }, ", ", nc);
        },
        Layout::Spaced => {
            if !first {
                push_char(out, ',');
            }
            push_char(out, ' ');
        },
    }
    assert(out@ =~= old(out)@ + field_lead(first, nc, lay));
}

fn color_fields(out: &mut String, fields: &Vec<(String, JsonValue)>, nc: bool, lay: Layout)
    ensures
        final(out)@ == old(out)@ + fields_text(fields@, nc, lay),
    decreases fields,
{
    let mut i: usize = 0;
    assert(fields@.take(0) =~= Seq::<(String, JsonValue)>::empty());
    assert(old(out)@ + fields_text(fields@.take(0), nc, lay) =~= old(out)@);
    while i < fields.len()
        invariant
            i <= fields@.len(),
            out@ == old(out)@ + fields_text(fields@.take(i as int), nc, lay),
        decreases fields.len() - i,
    {
        push_field_lead(out, i == 0, nc, lay);
        stylew(out, Style { color: Color::Magenta, weight: Weight::Normal }, fields[i].0.as_str(), nc);
        stylew(out, Style { color: Color::Primary, weight: Weight::Dim }, ": ", nc);
        color_format(out, &fields[i].1, nc, lay);
        assert(fields@.take(i + 1).drop_last() =~= fields@.take(i as int));
        assert(out@ =~= old(out)@ + fields_text(fields@.take(i + 1), nc, lay));
        i = i + 1;
    }
    assert(fields@.take(fields@.len() as int) =~= fields@);
}

impl Default for Substitution {
    /// Placeholders `{key}` in the field `context`, with colour.
    fn default() -> (r: Substitution)
        ensures
            r.key_view() == "context"@,
            r.prefix_view() == "{"@,
            r.suffix_view() == "}"@,
            !r.colorless(),
    {
        Substitution {
            context_key: "context".to_owned(),
            placeholder_prefix: "{".to_owned(),
            placeholder_suffix: "}".to_owned(),
            no_color: false,
        }
    }
}

/// The first position at or after `from` where `f` holds `kw`, the word `key`.
fn find_key(f: &Vec<char>, kw: &Vec<char>, from: usize) -> (r: Option<usize>)
    requires
        kw@ == key_word(),
    ensures
        r matches Some(i) ==> key_position(f@, from as int) == Some(i as int) && i + 3 <= f.len(),
        r is None ==> key_position(f@, from as int) is None,
    decreases f.len() - from,
{
    if from >= f.len() {
        return None;
    }
    if chars_match_at(f, from, kw) {
        Some(from)
    } else {
        find_key(f, kw, from + 1)
    }
}

proof fn lemma_ident_run_exact(m: Seq<char>, j: int, n: nat)
    requires
        0 <= j,
        j + n <= m.len(),
        forall|t: int| j <= t < j + n ==> is_ident_char(#[trigger] m[t]),
        j + n == m.len() || !is_ident_char(m[j + n]),
    ensures
        ident_run(m, j) == n,
    decreases n,
{
    if n > 0 {
        lemma_ident_run_exact(m, j + 1, (n - 1) as nat);
    }
}

/// A message that is a single placeholder becomes what that placeholder stands for,
/// when its suffix cannot be read as part of the identifier.
proof fn lemma_single_placeholder(p: Seq<char>, q: Seq<char>, ident: Seq<char>, ctx: JsonValue, nc: bool, lay: Layout)
    requires
        ident.len() > 0,
        forall|i: int| 0 <= i < ident.len() ==> is_ident_char(#[trigger] ident[i]),
        q.len() == 0 || !is_ident_char(q[0]),
    ensures
        substituted_from(p + ident + q, 0, p, q, ctx, nc, lay) == placeholder_text(ident, ctx, p, q, nc, lay),
{
    let m = p + ident + q;
    let j = p.len() as int;
    let n = ident.len();
    assert(m.skip(0) =~= m);
    assert(m.take(p.len() as int) =~= p);
    assert forall|t: int| j <= t < j + n implies is_ident_char(#[trigger] m[t]) by {
        assert(m[t] == ident[t - j]);
    }
    if j + n < m.len() {
        assert(m[j + n] == q[0]);
    }
    lemma_ident_run_exact(m, j, n);
    assert(m.skip(j + n) =~= q);
    assert(q.take(q.len() as int) =~= q);
    assert(longest_ident(m, j, q, n) == n);
    assert(placeholder_at(m, 0, p, q) == n);
    assert(m.subrange(j, j + n) =~= ident);
    assert(substituted_from(m, j + n + q.len(), p, q, ctx, nc, lay) == Seq::<char>::empty());
    assert(substituted_from(m, 0, p, q, ctx, nc, lay) =~= placeholder_text(ident, ctx, p, q, nc, lay));
}

/// A placeholder whose identifier names a value of the context is replaced by that
/// value's text; without colour, a string value appears literally.
pub proof fn lemma_placeholder_replaced_by_value(
    sub: Substitution,
    ident: Seq<char>,
    log_entry: Seq<(String, JsonValue)>,
    ctx: JsonValue,
)
    requires
        ident.len() > 0,
        forall|i: int| 0 <= i < ident.len() ==> is_ident_char(#[trigger] ident[i]),
        sub.suffix_view().len() == 0 || !is_ident_char(sub.suffix_view()[0]),
        field_value(log_entry, sub.key_view()) == Some(ctx),
        context_lookup(ctx, ident) is Some,
    ensures
        sub.substitution_of(sub.prefix_view() + ident + sub.suffix_view(), log_entry) == Some(
            value_text(context_lookup(ctx, ident)->0, sub.colorless(), Layout::Compact),
        ),
        sub.colorless() && context_lookup(ctx, ident)->0 is Str ==> sub.substitution_of(
            sub.prefix_view() + ident + sub.suffix_view(),
            log_entry,
        ) == Some(context_lookup(ctx, ident)->0->Str_0@),
{
    lemma_single_placeholder(sub.prefix_view(), sub.suffix_view(), ident, ctx, sub.colorless(), Layout::Compact);
}

/// A placeholder whose identifier names nothing in the context stays in place, its
/// identifier marked as an error; without colour the message is unchanged.
pub proof fn lemma_unresolved_placeholder_kept(
    sub: Substitution,
    ident: Seq<char>,
    log_entry: Seq<(String, JsonValue)>,
    ctx: JsonValue,
)
    requires
        ident.len() > 0,
        forall|i: int| 0 <= i < ident.len() ==> is_ident_char(#[trigger] ident[i]),
        sub.suffix_view().len() == 0 || !is_ident_char(sub.suffix_view()[0]),
        field_value(log_entry, sub.key_view()) == Some(ctx),
        context_lookup(ctx, ident) is None,
    ensures
        sub.substitution_of(sub.prefix_view() + ident + sub.suffix_view(), log_entry) == Some(
            painted(dim(), sub.prefix_view(), sub.colorless()) + painted(bold(Color::Red), ident, sub.colorless())
                + painted(dim(), sub.suffix_view(), sub.colorless()),
        ),
        sub.colorless() ==> sub.substitution_of(sub.prefix_view() + ident + sub.suffix_view(), log_entry)
            == Some(sub.prefix_view() + ident + sub.suffix_view()),
{
    lemma_single_placeholder(sub.prefix_view(), sub.suffix_view(), ident, ctx, sub.colorless(), Layout::Compact);
}

proof fn lemma_decimal_digits(n: nat)
    ensures
        nat_text(n).len() > 0,
        all_digits(nat_text(n)),
        digits_value(nat_text(n)) == n,
    decreases n,
{
    let d = n % 10;
    assert(is_digit(digit_char(d)) && digit_value(digit_char(d)) == d);
    if n >= 10 {
        lemma_decimal_digits(n / 10);
        let t = nat_text(n);
        assert(t.drop_last() =~= nat_text(n / 10));
        assert forall|i: int| 0 <= i < t.len() implies is_digit(#[trigger] t[i]) by {
            if i < t.len() - 1 {
                assert(t[i] == nat_text(n / 10)[i]);
            }
        }
        assert(t.last() == digit_char(d));
        assert(digits_value(t) == digits_value(nat_text(n / 10)) * 10 + d);
        assert((n / 10) * 10 + n % 10 == n) by (nonlinear_arith);
    } else {
        assert(nat_text(n) =~= seq![digit_char(n)]);
        assert(nat_text(n).drop_last() =~= Seq::<char>::empty());
        assert(d == n);
        assert(digits_value(nat_text(n)) == digits_value(Seq::<char>::empty()) * 10 + digit_value(digit_char(n)));
    }
}

/// In an array context the identifier is a zero-based index: `n` written in decimal
/// names element `n`, and nothing when `n` is past the end.
pub proof fn lemma_array_context_zero_based(ctx: JsonValue, n: nat)
    requires
        ctx is Array,
    ensures
        n < ctx->Array_0@.len() ==> context_lookup(ctx, nat_text(n)) == Some(ctx->Array_0@[n as int]),
        n >= ctx->Array_0@.len() ==> context_lookup(ctx, nat_text(n)) is None,
{
    lemma_decimal_digits(n);
}

/// Text in which no placeholder starts from position `i` on comes out unchanged, so
/// substituting again in text without placeholders changes nothing.
pub proof fn lemma_no_placeholder_unchanged(m: Seq<char>, i: int, p: Seq<char>, q: Seq<char>, ctx: JsonValue, nc: bool, lay: Layout)
    requires
        0 <= i <= m.len(),
        forall|j: int| i <= j < m.len() ==> #[trigger] placeholder_at(m, j, p, q) == 0,
    ensures
        substituted_from(m, i, p, q, ctx, nc, lay) == m.skip(i),
    decreases m.len() - i,
{
    if i < m.len() {
        lemma_no_placeholder_unchanged(m, i + 1, p, q, ctx, nc, lay);
        assert(placeholder_at(m, i, p, q) == 0);
        assert(m.skip(i) =~= seq![m[i]] + m.skip(i + 1));
    } else {
        assert(m.skip(i) =~= Seq::<char>::empty());
    }
}

} // verus!
