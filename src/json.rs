//! The JSON tree of one log record, as the library reads it.

use vstd::prelude::*;

verus! {

/// A JSON value. A number keeps the text it was written as; an object keeps its
/// fields in document order, each key once.
pub enum JsonValue {
    Null,
    Bool(bool),
    Number(String),
    Str(String),
    Array(Vec<JsonValue>),
    Object(Vec<(String, JsonValue)>),
}

/// The value under `key` among `fields`: the first field with that key.
pub open spec fn field_value(fields: Seq<(String, JsonValue)>, key: Seq<char>) -> Option<JsonValue>
    decreases fields.len(),
{
    if fields.len() == 0 {
        None
    } else if fields[0].0@ == key {
        Some(fields[0].1)
    } else {
        field_value(fields.drop_first(), key)
    }
}

/// Looks up `key` among the fields of an object.
pub fn get_field<'a>(fields: &'a Vec<(String, JsonValue)>, key: &str) -> (r: Option<&'a JsonValue>)
    ensures
        r is None <==> field_value(fields@, key@) is None,
        r matches Some(v) ==> field_value(fields@, key@) == Some(*v),
{
    let k: String = key.to_owned();
    let mut i: usize = 0;
    assert(fields@.skip(0) =~= fields@);
    while i < fields.len()
        invariant
            i <= fields@.len(),
            k@ == key@,
            field_value(fields@.skip(i as int), key@) == field_value(fields@, key@),
        decreases fields.len() - i,
    {
        if fields[i].0 == k {
            assert(fields@.skip(i as int)[0] == fields@[i as int]);
            return Some(&fields[i].1);
        }
        assert(fields@.skip(i as int).drop_first() =~= fields@.skip(i + 1));
        i = i + 1;
    }
    None
}

} // verus!
