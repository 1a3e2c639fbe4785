//! Decisions on each input line: whether it is a record, a record behind a prefix,
//! or a line to show as it came; and the marker lines shown in place of output.

use vstd::prelude::*;
use crate::style::{Color, Style, Weight, bold, painted, stylew};
use crate::text::{chars_of, string_from_chars, push_char};

verus! {

/// What to do with one line of input.
pub enum LineStep {
    /// The line is a record: render it.
    Entry,
    /// The line holds a record after a prefix: process `rest`, the text from the
    /// first `{` on, with `prefix`, the text before it.
    Retry { prefix: String, rest: String },
    /// The line is no record: show it as it came.
    Unparseable,
}

/// The position of the first `{` in `s`.
pub open spec fn first_brace(s: Seq<char>) -> Option<int>
    decreases s.len(),
{
    if s.len() == 0 {
        None
    } else {
        match first_brace(s.drop_last()) {
            Some(i) => Some(i),
            None => if s.last() == '{' { Some(s.len() - 1) } else { None },
        }
    }
}

/// What to do with the line `text`. `is_object` says whether it reads as a JSON
/// object, `has_prefix` whether a prefix was already split off it, and `with_prefix`
/// whether prefixes are looked for at all.
pub open spec fn line_step_spec(text: Seq<char>, is_object: bool, has_prefix: bool, with_prefix: bool) -> Option<Option<int>> {
    if is_object {
        None
    } else if with_prefix && !has_prefix {
        Some(first_brace(text))
    } else {
        Some(None)
    }
}

/// What to do with the line `text` (see `line_step_spec`: `None` is a record,
/// `Some(Some(i))` a retry from position `i`, `Some(None)` a line to show as it came).
#[verifier::loop_isolation(false)]
pub fn line_step(text: &str, is_object: bool, has_prefix: bool, with_prefix: bool) -> (r: LineStep)
    ensures
        r is Entry <==> line_step_spec(text@, is_object, has_prefix, with_prefix) is None,
        r is Unparseable <==> line_step_spec(text@, is_object, has_prefix, with_prefix) == Some(None::<int>),
        r matches LineStep::Retry { prefix, rest } ==> ({
            let i = first_brace(text@)->0;
            &&& line_step_spec(text@, is_object, has_prefix, with_prefix) == Some(Some(i))
            &&& prefix@ == text@.take(i)
            &&& rest@ == text@.skip(i)
        }),
{
    if is_object {
        return LineStep::Entry;
    }
    if !with_prefix || has_prefix {
        return LineStep::Unparseable;
    }
    let cs = chars_of(text);
    let mut i: usize = 0;
    assert(cs@.take(0) =~= Seq::<char>::empty());
    while i < cs.len()
        invariant
            i <= cs@.len(),
            cs@ == text@,
            first_brace(cs@.take(i as int)) is None,
        decreases cs.len() - i,
    {
        assert(cs@.take(i + 1).drop_last() =~= cs@.take(i as int));
        if cs[i] == '{' {
            proof {
                lemma_first_brace_prefix(cs@, (i + 1) as int);
            }
            let prefix = string_from_chars(&cs, 0, i);
            let rest = string_from_chars(&cs, i, cs.len());
            assert(prefix@ =~= text@.take(i as int));
            assert(rest@ =~= text@.skip(i as int));
            return LineStep::Retry { prefix, rest };
        }
        i = i + 1;
    }
    assert(cs@.take(cs@.len() as int) =~= cs@);
    LineStep::Unparseable
}

/// A `{` found in a beginning of `s` is the first of `s`.
proof fn lemma_first_brace_prefix(s: Seq<char>, n: int)
    requires
        0 <= n <= s.len(),
        first_brace(s.take(n)) is Some,
    ensures
        first_brace(s) == first_brace(s.take(n)),
    decreases s.len() - n,
{
    if n < s.len() {
        assert(s.take(n + 1).drop_last() =~= s.take(n));
        lemma_first_brace_prefix(s, n + 1);
    } else {
        assert(s.take(n) =~= s);
    }
}

pub open spec fn marker() -> Seq<char> {
    seq!['?', '?', '?', ' ', '>']
}

/// The colour of the marker before a line that is no record.
pub open spec fn orange() -> Color {
    Color::Rgb(255, 135, 22)
}

/// A line shown as it came: the marker in bold `color`, a space, then the line.
pub open spec fn raw_line_spec(line: Seq<char>, color: Color, no_color: bool) -> Seq<char> {
    painted(bold(color), marker(), no_color) + seq![' '] + line
}

/// The text shown for a line as it came, after a marker in bold `color`.
pub fn raw_line_text(line: &str, color: Color, no_color: bool) -> (r: String)
    ensures
        r@ == raw_line_spec(line@, color, no_color),
{
    let mut r = String::new();
    stylew(&mut r, Style { color, weight: Weight::Bold }, "??? >", no_color);
    push_char(&mut r, ' ');
    r.append(line);
    proof {
        reveal_strlit("??? >");
    }
    assert(r@ =~= raw_line_spec(line@, color, no_color));
    r
}

/// The text shown for a line that is no record.
pub fn unparseable_line_text(line: &str, no_color: bool) -> (r: String)
    ensures
        r@ == raw_line_spec(line@, orange(), no_color),
{
    raw_line_text(line, Color::Rgb(255, 135, 22), no_color)
}

/// The text shown in place of a main line whose template failed: the marker in bold
/// red, then the failure.
pub fn failed_line_text(error: &str, no_color: bool) -> (r: String)
    ensures
        r@ == painted(bold(Color::Red), marker(), no_color) + " Failed to process line: "@ + error@,
{
    let mut r = String::new();
    stylew(&mut r, Style { color: Color::Red, weight: Weight::Bold }, "??? >", no_color);
    r.append(" Failed to process line: ");
    r.append(error);
    proof {
        reveal_strlit("??? >");
    }
    assert(r@ =~= painted(bold(Color::Red), marker(), no_color) + " Failed to process line: "@ + error@);
    r
}

/// The text shown in place of an additional value whose template failed.
pub fn failed_value_text(error: &str, no_color: bool) -> (r: String)
    ensures
        r@ == "   "@ + painted(bold(Color::Red), marker(), no_color) + " Failed to process additional value: "@
            + error@,
{
    let mut r: String = "   ".to_owned();
    stylew(&mut r, Style { color: Color::Red, weight: Weight::Bold }, "??? >", no_color);
    r.append(" Failed to process additional value: ");
    r.append(error);
    proof {
        reveal_strlit("??? >");
    }
    assert(r@ =~= "   "@ + painted(bold(Color::Red), marker(), no_color) + " Failed to process additional value: "@ + error@);
    r
}

/// A line that does not read as a JSON object is, outside prefix mode, shown as it
/// came: after the marker and a space the line itself stands untouched, and
/// without colour the output is `??? > ` followed by the line.
pub proof fn lemma_unparseable_line_kept(text: Seq<char>, has_prefix: bool, nc: bool)
    ensures
        line_step_spec(text, false, has_prefix, false) == Some(None::<int>),
        raw_line_spec(text, orange(), nc).skip(
            raw_line_spec(text, orange(), nc).len() - text.len(),
        ) == text,
        nc ==> raw_line_spec(text, orange(), nc) == marker() + seq![' '] + text,
{
    let r = raw_line_spec(text, orange(), nc);
    assert(r.skip(r.len() - text.len()) =~= text);
}

} // verus!
