//! Filtering of records by a Lua expression.
//!
//! The record's top-level fields are bound as Lua variables by a bootstrap script
//! that this module writes; the expression then runs in a fresh Lua state and must
//! yield a boolean.

use vstd::prelude::*;
use crate::json::JsonValue;
use crate::flatten::bool_text;
use crate::text::push_char;

verus! {

#[verifier::external_type_specification]
#[verifier::external_body]
pub struct ExLua(mlua::Lua);

/// Relies on mlua's `Lua::new`: a fresh state with the safe standard libraries.
#[verifier::external_body]
fn new_lua() -> (r: mlua::Lua) {
    mlua::Lua::new()
}

/// Relies on mlua's `Chunk::exec`: runs `chunk` in `lua`, the error as its text.
#[verifier::external_body]
fn lua_exec(lua: &mlua::Lua, chunk: &str) -> (r: Result<(), String>) {
    lua.load(chunk).exec().map_err(|e| e.to_string())
}

/// Relies on mlua's `Chunk::eval` and `Value::as_boolean`: evaluates `chunk` in `lua`;
/// `Some` of the boolean it yields, `None` when it yields another kind of value.
#[verifier::external_body]
fn lua_eval(lua: &mlua::Lua, chunk: &str) -> (r: Result<Option<bool>, String>) {
    lua.load(chunk).eval::<mlua::Value>().map(|v| v.as_boolean()).map_err(|e| e.to_string())
}

/// Why a filter expression gave no verdict.
#[derive(Debug, PartialEq, Eq)]
pub enum FilterError {
    /// Lua refused the bootstrap script or the expression; its message.
    Script(String),
    /// The expression yielded a value that is not a boolean.
    NotBoolean,
}

/// The Lua text of a character inside a double-quoted string.
pub open spec fn lua_escape_char(c: char) -> Seq<char> {
    if c == '\n' {
        seq!['\\', 'n']
    } else if c == '\r' {
        seq!['\\', 'r']
    } else if c == '\t' {
        seq!['\\', 't']
    } else if c == '"' {
        seq!['\\', '"']
    } else if c == '\'' {
        seq!['\\', '\'']
    } else if c == '\\' {
        seq!['\\', '\\']
    } else {
        seq![c]
    }
}

/// `s` escaped for a double-quoted Lua string.
pub open spec fn lua_escaped(s: Seq<char>) -> Seq<char>
    decreases s.len(),
{
    if s.len() == 0 {
        seq![]
    } else {
        lua_escaped(s.drop_last()) + lua_escape_char(s.last())
    }
}

/// Escapes `src` for a double-quoted Lua string.
pub fn escape_lua_string(src: &str) -> (r: String)
    ensures
        r@ == lua_escaped(src@),
{
    let mut escaped = String::new();
    for c in it: src.chars()
        invariant
            it.seq() == src@,
            escaped@ == lua_escaped(src@.take(it.index() as int)),
    {
        let ghost before = escaped@;
        if c == '\n' {
            push_char(&mut escaped, '\\');
            push_char(&mut escaped, 'n');
        } else if c == '\r' {
            push_char(&mut escaped, '\\');
            push_char(&mut escaped, 'r');
        } else if c == '\t' {
            push_char(&mut escaped, '\\');
            push_char(&mut escaped, 't');
        } else if c == '"' {
            push_char(&mut escaped, '\\');
            push_char(&mut escaped, '"');
        } else if c == '\'' {
            push_char(&mut escaped, '\\');
            push_char(&mut escaped, '\'');
        } else if c == '\\' {
            push_char(&mut escaped, '\\');
            push_char(&mut escaped, '\\');
        } else {
            push_char(&mut escaped, c);
        }
        assert(src@.take(it.index() + 1).drop_last() =~= src@.take(it.index() as int));
        assert(escaped@ =~= before + lua_escape_char(c));
    }
    assert(src@.take(src@.len() as int) =~= src@);
    escaped
}

pub open spec fn is_lua_name_char(c: char) -> bool {
    ('A' <= c <= 'Z') || ('a' <= c <= 'z') || c == '_'
}

/// A key made a Lua name: each character other than a letter or `_` becomes `_`.
pub open spec fn lua_name(key: Seq<char>) -> Seq<char> {
    Seq::new(key.len(), |i: int| if is_lua_name_char(key[i]) { key[i] } else { '_' })
}

/// Appends `key`, made a Lua name, to `out`.
fn push_lua_name(out: &mut String, key: &str)
    ensures
        final(out)@ == old(out)@ + lua_name(key@),
{
    for c in it: key.chars()
        invariant
            it.seq() == key@,
            out@ == old(out)@ + lua_name(key@.take(it.index() as int)),
    {
        if ('A' <= c && c <= 'Z') || ('a' <= c && c <= 'z') || c == '_' {
            push_char(out, c);
        } else {
            push_char(out, '_');
        }
        assert(out@ =~= old(out)@ + lua_name(key@.take(it.index() + 1)));
    }
    assert(key@.take(key@.len() as int) =~= key@);
}

/// The Lua text of an array element: scalars as themselves, anything else as the
/// string `unsupported`.
pub open spec fn element_script(v: JsonValue) -> Seq<char> {
    match v {
        JsonValue::Str(s) => seq!['"'] + lua_escaped(s@) + seq!['"'],
        JsonValue::Bool(b) => bool_text(b),
        JsonValue::Number(n) => n@,
        _ => "\"unsupported\""@,
    }
}

/// The elements of an array as a Lua table body.
pub open spec fn elements_script(items: Seq<JsonValue>) -> Seq<char>
    decreases items.len(),
{
    if items.len() == 0 {
        seq![]
    } else {
        elements_script(items.drop_last()) + (if items.len() > 1 { seq![','] } else { seq![] })
            + element_script(items.last())
    }
}

/// The Lua text of a field's value.
pub open spec fn value_script(v: JsonValue) -> Seq<char>
    decreases v,
{
    match v {
        JsonValue::Str(s) => seq!['"'] + lua_escaped(s@) + seq!['"'],
        JsonValue::Bool(b) => bool_text(b),
        JsonValue::Number(n) => n@,
        JsonValue::Object(fields) => seq!['{'] + fields_script(fields@, true) + seq!['}'],
        JsonValue::Array(items) => seq!['{'] + elements_script(items@) + seq!['}'],
        JsonValue::Null => "\"unsupported\""@,
    }
}

/// The separator between assignments: a comma inside a table, a line break at the top.
pub open spec fn assignment_separator(nested: bool) -> Seq<char> {
    if nested { seq![','] } else { seq!['\n'] }
}

/// The fields of an object as Lua assignments `name = value`.
pub open spec fn fields_script(fields: Seq<(String, JsonValue)>, nested: bool) -> Seq<char>
    decreases fields,
{
    if fields.len() == 0 {
        seq![]
    } else {
        fields_script(fields.drop_last(), nested) + (if fields.len() > 1 {
            assignment_separator(nested)
        } else {
            seq![]
        }) + lua_name(fields.last().0@) + seq![' ', '=', ' '] + value_script(fields.last().1)
    }
}

fn push_quoted(out: &mut String, s: &str)
    ensures
        final(out)@ == old(out)@ + seq!['"'] + lua_escaped(s@) + seq!['"'],
{
    push_char(out, '"');
    let e = escape_lua_string(s);
    out.append(e.as_str());
    push_char(out, '"');
    assert(out@ =~= old(out)@ + seq!['"'] + lua_escaped(s@) + seq!['"']);
}

fn push_bool(out: &mut String, b: bool)
    ensures
        final(out)@ == old(out)@ + bool_text(b),
{
    if b {
        out.append("true");
    } else {
        out.append("false");
    }
    proof {
        reveal_strlit("true");
        reveal_strlit("false");
    }
    assert(out@ =~= old(out)@ + bool_text(b));
}

fn push_element(out: &mut String, v: &JsonValue)
    ensures
        final(out)@ == old(out)@ + element_script(*v),
{
    match v {
        JsonValue::Str(s) => push_quoted(out, s.as_str()),
        JsonValue::Bool(b) => push_bool(out, *b),
        JsonValue::Number(n) => out.append(n.as_str()),
        _ => out.append("\"unsupported\""),
    }
}

fn push_value(out: &mut String, v: &JsonValue)
    ensures
        final(out)@ == old(out)@ + value_script(*v),
    decreases v,
{
    match v {
        JsonValue::Str(s) => push_quoted(out, s.as_str()),
        JsonValue::Bool(b) => push_bool(out, *b),
        JsonValue::Number(n) => out.append(n.as_str()),
        JsonValue::Object(fields) => {
            push_char(out, '{');
            push_fields(out, fields, true);
            push_char(out, '}');
            assert(out@ =~= old(out)@ + value_script(*v));
        },
        JsonValue::Array(items) => {
            push_char(out, '{');
            let mut i: usize = 0;
            let ghost start = out@;
            assert(items@.take(0) =~= Seq::<JsonValue>::empty());
            assert(start + elements_script(items@.take(0)) =~= start);
            while i < items.len()
                invariant
                    i <= items@.len(),
                    out@ == start + elements_script(items@.take(i as int)),
                decreases items.len() - i,
            {
                if i > 0 {
                    push_char(out, ',');
                }
                push_element(out, &items[i]);
                assert(items@.take(i + 1).drop_last() =~= items@.take(i as int));
                assert(out@ =~= start + elements_script(items@.take(i + 1)));
                i = i + 1;
            }
            assert(items@.take(items@.len() as int) =~= items@);
            push_char(out, '}');
            assert(out@ =~= old(out)@ + value_script(*v));
        },
        JsonValue::Null => out.append("\"unsupported\""),
    }
}

fn push_fields(out: &mut String, fields: &Vec<(String, JsonValue)>, nested: bool)
    ensures
        final(out)@ == old(out)@ + fields_script(fields@, nested),
    decreases fields,
{
    let mut i: usize = 0;
    assert(fields@.take(0) =~= Seq::<(String, JsonValue)>::empty());
    assert(old(out)@ + fields_script(fields@.take(0), nested) =~= old(out)@);
    while i < fields.len()
        invariant
            i <= fields@.len(),
            out@ == old(out)@ + fields_script(fields@.take(i as int), nested),
        decreases fields.len() - i,
    {
        if i > 0 {
            if nested {
                push_char(out, ',');
            } else {
                push_char(out, '\n');
            }
        }
        push_lua_name(out, fields[i].0.as_str());
        push_char(out, ' ');
        push_char(out, '=');
        push_char(out, ' ');
        push_value(out, &fields[i].1);
        assert(fields@.take(i + 1).drop_last() =~= fields@.take(i as int));
        assert(out@ =~= old(out)@ + fields_script(fields@.take(i + 1), nested));
        i = i + 1;
    }
    assert(fields@.take(fields@.len() as int) =~= fields@);
}

/// The Lua script that binds the fields of `object`: one assignment per field,
/// separated by commas when `nested`, by line breaks otherwise.
pub fn object_to_record(object: &Vec<(String, JsonValue)>, nested: bool) -> (r: String)
    ensures
        r@ == fields_script(object@, nested),
{
    let mut r = String::new();
    push_fields(&mut r, object, nested);
    assert(r@ =~= fields_script(object@, nested));
    r
}

/// The chunk that runs for `filter_expr`: wrapped as `return <expr>;` when the return
/// is implicit, else the expression as it stands.
pub open spec fn filter_chunk_spec(filter_expr: Seq<char>, implicit_return: bool) -> Seq<char> {
    if implicit_return {
        "return "@ + filter_expr + seq![';']
    } else {
        filter_expr
    }
}

pub fn filter_chunk(filter_expr: &str, implicit_return: bool) -> (r: String)
    ensures
        r@ == filter_chunk_spec(filter_expr@, implicit_return),
{
    if implicit_return {
        let mut r: String = "return ".to_owned();
        r.append(filter_expr);
        push_char(&mut r, ';');
        r
    } else {
        filter_expr.to_owned()
    }
}

/// The verdict for what the expression's evaluation gave.
pub open spec fn filter_verdict_spec(evaluated: Result<Option<bool>, String>) -> Result<bool, FilterError> {
    match evaluated {
        Ok(Some(b)) => Ok(b),
        Ok(None) => Err(FilterError::NotBoolean),
        Err(e) => Err(FilterError::Script(e)),
    }
}

/// The verdict for what the expression's evaluation gave: its boolean, or the error.
pub fn filter_verdict(evaluated: Result<Option<bool>, String>) -> (r: Result<bool, FilterError>)
    ensures
        r == filter_verdict_spec(evaluated),
{
    match evaluated {
        Ok(Some(b)) => Ok(b),
        Ok(None) => Err(FilterError::NotBoolean),
        Err(e) => Err(FilterError::Script(e)),
    }
}

/// Whether `log_entry` passes `filter_expr`, evaluated in a fresh Lua state where the
/// record's fields are bound by `object_to_record`.
/// What the script and the expression do is Lua's to decide: the script is
/// `object_to_record(log_entry, false)`, the chunk `filter_chunk(filter_expr,
/// implicit_return)`, and the verdict `filter_verdict` of what it yields.
pub fn show_log_entry(log_entry: &Vec<(String, JsonValue)>, filter_expr: &str, implicit_return: bool) -> (r: Result<bool, FilterError>) {
    let script = object_to_record(log_entry, false);
    let lua = new_lua();
    if let Err(e) = lua_exec(&lua, script.as_str()) {
        return Err(FilterError::Script(e));
    }
    let chunk = filter_chunk(filter_expr, implicit_return);
    filter_verdict(lua_eval(&lua, chunk.as_str()))
}

} // verus!
