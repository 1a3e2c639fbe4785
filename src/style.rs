//! Terminal styling of text, and the pure helpers that templates use.
//!
//! Painting is one parameterised function: a style and a flag that turns all
//! colour off. yansi writes the escape sequence that opens a style.

use vstd::prelude::*;
use crate::text::{push_char, chars_of, string_from_chars, str_eq};

verus! {

/// A foreground colour.
#[derive(Clone, Copy, Debug, PartialEq, Eq)]
pub enum Color {
    Primary,
    Red,
    Green,
    Yellow,
    Blue,
    Magenta,
    Cyan,
    Rgb(u8, u8, u8),
}

/// The weight of the text.
#[derive(Clone, Copy, Debug, PartialEq, Eq)]
pub enum Weight {
    Normal,
    Bold,
    Dim,
}

/// A colour together with a weight.
#[derive(Clone, Copy, Debug, PartialEq, Eq)]
pub struct Style {
    pub color: Color,
    pub weight: Weight,
}

/// The escape sequence that opens text in `style`.
pub uninterp spec fn ansi_prefix(style: Style) -> Seq<char>;

/// Relies on yansi's `Style::prefix` for a style with a foreground colour and at most
/// one of bold and dim.
#[verifier::external_body]
fn style_prefix(style: Style) -> (r: String)
    ensures
        r@ == ansi_prefix(style),
{
    let color = match style.color {
        Color::Primary => yansi::Color::Primary,
        Color::Red => yansi::Color::Red,
        Color::Green => yansi::Color::Green,
        Color::Yellow => yansi::Color::Yellow,
        Color::Blue => yansi::Color::Blue,
        Color::Magenta => yansi::Color::Magenta,
        Color::Cyan => yansi::Color::Cyan,
        Color::Rgb(r, g, b) => yansi::Color::Rgb(r, g, b),
    };
    let plain = yansi::Style::new().fg(color);
    let styled = match style.weight { Weight::Normal => plain, Weight::Bold => plain.bold(), Weight::Dim => plain.dim() };
    styled.prefix().into_owned()
}

/// The escape sequence that ends styled text: select graphic rendition 0.
pub open spec fn ansi_reset() -> Seq<char> {
    seq!['\u{1b}', '[', '0', 'm']
}

/// `text` in `style`, or `text` alone when colour is off.
pub open spec fn painted(style: Style, text: Seq<char>, no_color: bool) -> Seq<char> {
    if no_color {
        text
    } else {
        ansi_prefix(style) + text + ansi_reset()
    }
}

pub open spec fn bold(color: Color) -> Style {
    Style { color, weight: Weight::Bold }
}

pub open spec fn dim() -> Style {
    Style { color: Color::Primary, weight: Weight::Dim }
}

pub open spec fn plain(color: Color) -> Style {
    Style { color, weight: Weight::Normal }
}

/// Appends `text` in the style `s` to `out`.
pub fn stylew(out: &mut String, s: Style, text: &str, no_color: bool)
    ensures
        final(out)@ == old(out)@ + painted(s, text@, no_color),
{
    if no_color {
        out.append(text);
    } else {
        let prefix = style_prefix(s);
        out.append(prefix.as_str());
        out.append(text);
        push_char(out, '\u{1b}');
        push_char(out, '[');
        push_char(out, '0');
        push_char(out, 'm');
        assert(out@ =~= old(out)@ + painted(s, text@, no_color));
    }
}

/// `text` in the style `s`, or `text` alone when colour is off.
pub fn style(s: Style, text: &str, no_color: bool) -> (r: String)
    ensures
        r@ == painted(s, text@, no_color),
{
    let mut r = String::new();
    stylew(&mut r, s, text, no_color);
    assert(r@ =~= painted(s, text@, no_color));
    r
}

/// `text` in the colour `c` at normal weight, or `text` alone when colour is off.
pub fn paint(c: Color, text: &str, no_color: bool) -> (r: String)
    ensures
        r@ == painted(plain(c), text@, no_color),
{
    style(Style { color: c, weight: Weight::Normal }, text, no_color)
}

/// Whether `c` has the Unicode White_Space property, as `char::is_whitespace` tells.
pub open spec fn is_white_space(c: char) -> bool {
    ||| '\u{9}' <= c <= '\u{d}'
    ||| c == ' ' || c == '\u{85}' || c == '\u{a0}' || c == '\u{1680}'
    ||| '\u{2000}' <= c <= '\u{200a}'
    ||| c == '\u{2028}' || c == '\u{2029}' || c == '\u{202f}' || c == '\u{205f}' || c == '\u{3000}'
}

fn white_space(c: char) -> (r: bool)
    ensures
        r == is_white_space(c),
{
    ('\u{9}' <= c && c <= '\u{d}') || c == ' ' || c == '\u{85}' || c == '\u{a0}' || c == '\u{1680}'
        || ('\u{2000}' <= c && c <= '\u{200a}') || c == '\u{2028}' || c == '\u{2029}'
        || c == '\u{202f}' || c == '\u{205f}' || c == '\u{3000}'
}

/// Number of white-space characters that `s` begins with.
pub open spec fn leading_space(s: Seq<char>) -> nat
    decreases s.len(),
{
    if s.len() > 0 && is_white_space(s[0]) { 1 + leading_space(s.drop_first()) } else { 0 }
}

/// Number of white-space characters that `s` ends with.
pub open spec fn trailing_space(s: Seq<char>) -> nat
    decreases s.len(),
{
    if s.len() > 0 && is_white_space(s.last()) { 1 + trailing_space(s.drop_last()) } else { 0 }
}

/// `s` without white space at either end, as `str::trim` gives it.
pub open spec fn trimmed(s: Seq<char>) -> Seq<char> {
    let t = s.skip(leading_space(s) as int);
    t.take(t.len() - trailing_space(t))
}

proof fn lemma_leading_space_bound(s: Seq<char>)
    ensures
        leading_space(s) <= s.len(),
    decreases s.len(),
{
    if s.len() > 0 && is_white_space(s[0]) {
        lemma_leading_space_bound(s.drop_first());
    }
}

proof fn lemma_trailing_space_bound(s: Seq<char>)
    ensures
        trailing_space(s) <= s.len(),
    decreases s.len(),
{
    if s.len() > 0 && is_white_space(s.last()) {
        lemma_trailing_space_bound(s.drop_last());
    }
}

/// `s` without white space at either end.
pub fn trim(s: &str) -> (r: String)
    ensures
        r@ == trimmed(s@),
{
    let cs = chars_of(s);
    let n = cs.len();
    let mut a: usize = 0;
    proof {
        lemma_leading_space_bound(s@);
    }
    assert(cs@.skip(0) =~= cs@);
    while a < n && white_space(cs[a])
        invariant
            a <= n == cs@.len(),
            cs@ == s@,
            leading_space(cs@.skip(a as int)) + a == leading_space(cs@),
        decreases n - a,
    {
        assert(cs@.skip(a as int).drop_first() =~= cs@.skip(a + 1));
        a = a + 1;
    }
    let ghost t = cs@.skip(a as int);
    proof {
        lemma_trailing_space_bound(t);
    }
    let mut b: usize = n;
    assert(t.take(t.len() as int) =~= t);
    while b > a && white_space(cs[b - 1])
        invariant
            a <= b <= n == cs@.len(),
            t == cs@.skip(a as int),
            trailing_space(t) == (n - b) + trailing_space(t.take(b - a)),
        decreases b,
    {
        assert(t.take(b - a).drop_last() =~= t.take(b - 1 - a));
        assert(t.take(b - a).last() == cs@[b - 1]);
        b = b - 1;
    }
    let r = string_from_chars(&cs, a, b);
    assert(r@ =~= trimmed(s@));
    r
}

/// A text of `n` spaces.
pub open spec fn spaces(n: nat) -> Seq<char> {
    Seq::new(n, |i: int| ' ')
}

/// `text` made exactly `n` characters long: cut at the end, or padded with spaces in
/// front.
pub open spec fn fixed_size_text(n: nat, text: Seq<char>) -> Seq<char> {
    if text.len() >= n { text.take(n as int) } else { spaces((n - text.len()) as nat) + text }
}

/// `text` padded with spaces in front to at least `n` characters.
pub open spec fn min_size_text(n: nat, text: Seq<char>) -> Seq<char> {
    if text.len() >= n { text } else { spaces((n - text.len()) as nat) + text }
}

fn push_spaces(out: &mut String, n: usize)
    ensures
        final(out)@ == old(out)@ + spaces(n as nat),
{
    let mut i: usize = 0;
    while i < n
        invariant
            i <= n,
            out@ == old(out)@ + spaces(i as nat),
        decreases n - i,
    {
        push_char(out, ' ');
        assert(old(out)@ + spaces((i + 1) as nat) =~= old(out)@ + spaces(i as nat) + seq![' ']);
        i = i + 1;
    }
}

/// `text` made exactly `size` characters long.
pub fn fixed_size(size: usize, text: &str) -> (r: String)
    ensures
        r@ == fixed_size_text(size as nat, text@),
{
    let cs = chars_of(text);
    if cs.len() >= size {
        string_from_chars(&cs, 0, size)
    } else {
        let mut r = String::new();
        push_spaces(&mut r, size - cs.len());
        r.append(text);
        assert(r@ =~= fixed_size_text(size as nat, text@));
        r
    }
}

/// `text` padded to at least `size` characters.
pub fn min_size(size: usize, text: &str) -> (r: String)
    ensures
        r@ == min_size_text(size as nat, text@),
{
    let cs = chars_of(text);
    let mut r = String::new();
    if cs.len() < size {
        push_spaces(&mut r, size - cs.len());
    }
    r.append(text);
    assert(r@ =~= min_size_text(size as nat, text@));
    r
}

/// `s` in lower case, by Unicode's case mapping.
pub uninterp spec fn lowercase_of(s: Seq<char>) -> Seq<char>;

/// Relies on `str::to_lowercase`: the result depends on the characters alone.
#[verifier::external_body]
fn to_lowercase(s: &str) -> (r: String)
    ensures
        r@ == lowercase_of(s@),
{
    s.to_lowercase()
}

/// The colour of a level, by its lower-case name; unknown levels are magenta.
pub open spec fn level_color_spec(name: Seq<char>) -> Color {
    if name == "trace"@ {
        Color::Cyan
    } else if name == "debug"@ {
        Color::Blue
    } else if name == "info"@ {
        Color::Green
    } else if name == "warn"@ || name == "warning"@ {
        Color::Yellow
    } else if name == "error"@ || name == "err"@ {
        Color::Red
    } else {
        Color::Magenta
    }
}

/// The colour of the level with lower-case name `name`.
pub fn color_for_level_name(name: &str) -> (r: Color)
    ensures
        r == level_color_spec(name@),
{
    if str_eq(name, "trace") {
        Color::Cyan
    } else if str_eq(name, "debug") {
        Color::Blue
    } else if str_eq(name, "info") {
        Color::Green
    } else if str_eq(name, "warn") || str_eq(name, "warning") {
        Color::Yellow
    } else if str_eq(name, "error") || str_eq(name, "err") {
        Color::Red
    } else {
        Color::Magenta
    }
}

/// The colour of a level as written in a record: trimmed and compared in lower case.
pub open spec fn level_color_of(level: Seq<char>) -> Color {
    level_color_spec(lowercase_of(trimmed(level)))
}

/// `level` in bold, in the colour of its level.
pub fn level_style(level: &str, no_color: bool) -> (r: String)
    ensures
        r@ == painted(bold(level_color_of(level@)), level@, no_color),
{
    let t = trim(level);
    let name = to_lowercase(t.as_str());
    let color = color_for_level_name(name.as_str());
    style(Style { color, weight: Weight::Bold }, level, no_color)
}

} // verus!
