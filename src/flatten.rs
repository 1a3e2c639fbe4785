//! Flattening of a nested JSON object into a single-level map from path to text.
//!
//! A scalar at path `P` gives the entry `P`; a nested object at `P` continues with
//! the prefix `P > `; the elements of an array at `P` sit at `P[1]`, `P[2]`, ...;
//! a null gives nothing. Entries are kept sorted by key.

use vstd::prelude::*;
use crate::json::JsonValue;
use crate::text::{push_char, seq_lt, lemma_seq_lt_irreflexive, lemma_seq_lt_total, lemma_seq_lt_transitive, chars_of, chars_lt};

verus! {

pub type Entry = (Seq<char>, Seq<char>);

pub open spec fn bool_text(b: bool) -> Seq<char> {
    if b { seq!['t', 'r', 'u', 'e'] } else { seq!['f', 'a', 'l', 's', 'e'] }
}

pub open spec fn digit_char(d: nat) -> char {
    if d == 0 { '0' } else if d == 1 { '1' } else if d == 2 { '2' } else if d == 3 { '3' }
    else if d == 4 { '4' } else if d == 5 { '5' } else if d == 6 { '6' } else if d == 7 { '7' }
    else if d == 8 { '8' } else { '9' }
}

/// The decimal text of `n`.
pub open spec fn nat_text(n: nat) -> Seq<char>
    decreases n,
{
    if n < 10 {
        seq![digit_char(n)]
    } else {
        nat_text(n / 10).push(digit_char(n % 10))
    }
}

pub open spec fn nested_separator() -> Seq<char> {
    seq![' ', '>', ' ']
}

/// The path of the element with 1-based position `n` of an array at `path`.
pub open spec fn element_path(path: Seq<char>, n: nat) -> Seq<char> {
    path.push('[') + nat_text(n).push(']')
}

/// The flat entries of the value `v` at `path`, in document order.
pub open spec fn value_entries(path: Seq<char>, v: JsonValue) -> Seq<Entry>
    decreases v,
{
    match v {
        JsonValue::Null => seq![],
        JsonValue::Bool(b) => seq![(path, bool_text(b))],
        JsonValue::Number(n) => seq![(path, n@)],
        JsonValue::Str(s) => seq![(path, s@)],
        JsonValue::Array(items) => items_entries(path, items@),
        JsonValue::Object(fields) => fields_entries(path + nested_separator(), fields@),
    }
}

/// The flat entries of the elements `items` of an array at `path`.
pub open spec fn items_entries(path: Seq<char>, items: Seq<JsonValue>) -> Seq<Entry>
    decreases items,
{
    if items.len() == 0 {
        seq![]
    } else {
        items_entries(path, items.drop_last()) + value_entries(
            element_path(path, items.len()),
            items.last(),
        )
    }
}

/// The flat entries of the fields of an object whose keys are written after `prefix`.
pub open spec fn fields_entries(prefix: Seq<char>, fields: Seq<(String, JsonValue)>) -> Seq<Entry>
    decreases fields,
{
    if fields.len() == 0 {
        seq![]
    } else {
        fields_entries(prefix, fields.drop_last()) + value_entries(
            prefix + fields.last().0@,
            fields.last().1,
        )
    }
}

pub open spec fn entry_views(s: Seq<(String, String)>) -> Seq<Entry> {
    s.map_values(|e: (String, String)| (e.0@, e.1@))
}

/// The map that `s` describes, a later entry replacing an earlier one with the same key.
pub open spec fn entries_map(s: Seq<Entry>) -> Map<Seq<char>, Seq<char>>
    decreases s.len(),
{
    if s.len() == 0 {
        Map::empty()
    } else {
        entries_map(s.drop_last()).insert(s.last().0, s.last().1)
    }
}

/// The keys of `s` are in strictly increasing lexicographic order.
pub open spec fn keys_sorted(s: Seq<Entry>) -> bool {
    forall|i: int, j: int| 0 <= i < j < s.len() ==> seq_lt(#[trigger] s[i].0, #[trigger] s[j].0)
}

/// In a sorted sequence each key occurs once, and the map holds exactly its entries.
pub proof fn lemma_sorted_entries_map(s: Seq<Entry>)
    requires
        keys_sorted(s),
    ensures
        forall|k: Seq<char>| #[trigger] entries_map(s).contains_key(k) <==> exists|i: int|
            0 <= i < s.len() && s[i].0 == k,
        forall|i: int| 0 <= i < s.len() ==> entries_map(s)[#[trigger] s[i].0] == s[i].1,
    decreases s.len(),
{
    if s.len() > 0 {
        let t = s.drop_last();
        assert(keys_sorted(t));
        lemma_sorted_entries_map(t);
        let n = s.len() - 1;
        assert forall|i: int| 0 <= i < n implies #[trigger] s[i].0 != s[n].0 by {
            assert(seq_lt(s[i].0, s[n].0));
            lemma_seq_lt_irreflexive(s[i].0);
        }
        assert forall|k: Seq<char>| #[trigger] entries_map(s).contains_key(k) <==> exists|i: int|
            0 <= i < s.len() && s[i].0 == k by {
            if entries_map(t).contains_key(k) {
                let i = choose|i: int| 0 <= i < t.len() && t[i].0 == k;
                assert(s[i].0 == k);
            }
            if exists|i: int| 0 <= i < s.len() && s[i].0 == k {
                let i = choose|i: int| 0 <= i < s.len() && s[i].0 == k;
                if i < n {
                    assert(t[i].0 == k);
                }
            }
        }
        assert forall|i: int| 0 <= i < s.len() implies entries_map(s)[#[trigger] s[i].0] == s[i].1 by {
            if i < n {
                assert(t[i] == s[i]);
            }
        }
    }
}

/// A sorted sequence of entries is fixed by the map it describes.
pub proof fn lemma_sorted_entries_unique(s1: Seq<Entry>, s2: Seq<Entry>)
    requires
        keys_sorted(s1),
        keys_sorted(s2),
        entries_map(s1) == entries_map(s2),
    ensures
        s1 == s2,
    decreases s1.len(),
{
    lemma_sorted_entries_map(s1);
    lemma_sorted_entries_map(s2);
    if s1.len() == 0 || s2.len() == 0 {
        if s2.len() > 0 {
            assert(entries_map(s2).contains_key(s2[0].0));
        }
        if s1.len() > 0 {
            assert(entries_map(s1).contains_key(s1[0].0));
        }
        assert(s1 =~= s2);
    } else {
        let n1 = s1.len() - 1;
        let n2 = s2.len() - 1;
        let k1 = s1[n1].0;
        let k2 = s2[n2].0;
        assert(entries_map(s2).contains_key(k1));
        let j = choose|j: int| 0 <= j < s2.len() && s2[j].0 == k1;
        assert(entries_map(s1).contains_key(k2));
        let i = choose|i: int| 0 <= i < s1.len() && s1[i].0 == k2;
        lemma_seq_lt_total(k1, k2);
        if k1 != k2 {
            assert(j < n2 ==> seq_lt(k1, k2));
            assert(i < n1 ==> seq_lt(k2, k1));
            assert(false);
        }
        let t1 = s1.drop_last();
        let t2 = s2.drop_last();
        assert(keys_sorted(t1));
        assert(keys_sorted(t2));
        lemma_sorted_entries_map(t1);
        lemma_sorted_entries_map(t2);
        assert forall|k: Seq<char>| #[trigger] entries_map(t1).contains_key(k) implies k != k1 by {
            let a = choose|a: int| 0 <= a < t1.len() && t1[a].0 == k;
            assert(seq_lt(s1[a].0, s1[n1].0));
            lemma_seq_lt_irreflexive(k);
        }
        assert forall|k: Seq<char>| #[trigger] entries_map(t2).contains_key(k) implies k != k1 by {
            let a = choose|a: int| 0 <= a < t2.len() && t2[a].0 == k;
            assert(seq_lt(s2[a].0, s2[n2].0));
            lemma_seq_lt_irreflexive(k);
        }
        assert(entries_map(t1) =~= entries_map(s1).remove(k1));
        assert(entries_map(t2) =~= entries_map(s2).remove(k1));
        lemma_sorted_entries_unique(t1, t2);
        assert(s1[n1].1 == entries_map(s1)[k1]);
        assert(s2[n2].1 == entries_map(s2)[k1]);
        assert(s1 =~= t1.push(s1[n1]));
        assert(s2 =~= t2.push(s2[n2]));
    }
}

/// A record flattened to a single level: text values under path keys, sorted by key.
pub struct FlatRecord {
    entries: Vec<(String, String)>,
}

impl View for FlatRecord {
    type V = Map<Seq<char>, Seq<char>>;

    open spec fn view(&self) -> Map<Seq<char>, Seq<char>> {
        entries_map(self.entries_view())
    }
}

impl FlatRecord {
    /// The entries, in key order.
    pub closed spec fn entries_view(&self) -> Seq<Entry> {
        entry_views(self.entries@)
    }

    pub open spec fn wf(&self) -> bool {
        keys_sorted(self.entries_view())
    }

    /// The keys, in order.
    pub open spec fn key_seq(&self) -> Seq<Seq<char>> {
        self.entries_view().map_values(|e: Entry| e.0)
    }

    /// Two well-formed records with the same map hold the same entries in the same
    /// order: the order of a record is fixed by its keys.
    pub proof fn lemma_entries_fixed_by_map(a: FlatRecord, b: FlatRecord)
        requires
            a.wf(),
            b.wf(),
            a@ == b@,
        ensures
            a.entries_view() == b.entries_view(),
    {
        lemma_sorted_entries_unique(a.entries_view(), b.entries_view());
    }

    pub fn new() -> (r: FlatRecord)
        ensures
            r.wf(),
            r.entries_view() == Seq::<Entry>::empty(),
            r@ == Map::<Seq<char>, Seq<char>>::empty(),
    {
        let r = FlatRecord { entries: Vec::new() };
        assert(r.entries_view() =~= Seq::<Entry>::empty());
        r
    }

    /// The entries, in key order.
    pub fn entries(&self) -> (r: &Vec<(String, String)>)
        ensures
            entry_views(r@) == self.entries_view(),
    {
        &self.entries
    }

    pub fn len(&self) -> (r: usize)
        ensures
            r == self.entries_view().len(),
    {
        self.entries.len()
    }

    /// The value under `key`.
    pub fn get(&self, key: &str) -> (r: Option<String>)
        requires
            self.wf(),
        ensures
            r is Some <==> self@.contains_key(key@),
            r matches Some(v) ==> v@ == self@[key@],
    {
        let k: String = key.to_owned();
        let mut i: usize = 0;
        while i < self.entries.len()
            invariant
                self.wf(),
                k@ == key@,
                i <= self.entries@.len(),
                forall|j: int| 0 <= j < i ==> #[trigger] self.entries_view()[j].0 != key@,
            decreases self.entries.len() - i,
        {
            assert(self.entries_view()[i as int] == (self.entries@[i as int].0@, self.entries@[i as int].1@));
            if self.entries[i].0 == k {
                proof {
                    lemma_sorted_entries_map(self.entries_view());
                }
                return Some(self.entries[i].1.clone());
            }
            i = i + 1;
        }
        proof {
            lemma_sorted_entries_map(self.entries_view());
        }
        None
    }

    /// Sets `key` to `value`, replacing what `key` held before.
    pub fn insert(&mut self, key: String, value: String)
        requires
            old(self).wf(),
        ensures
            final(self).wf(),
            final(self)@ == old(self)@.insert(key@, value@),
    {
        let ghost s = self.entries_view();
        let kc = chars_of(key.as_str());
        let n = self.entries.len();
        let mut i: usize = 0;
        while i < n
            invariant_except_break
                n == self.entries@.len(),
                s == self.entries_view(),
                i <= n,
                kc@ == key@,
                forall|j: int| 0 <= j < i ==> seq_lt(#[trigger] s[j].0, key@),
            ensures
                i <= n,
                n == self.entries@.len(),
                s == self.entries_view(),
                forall|j: int| 0 <= j < i ==> seq_lt(#[trigger] s[j].0, key@),
                i < n ==> !seq_lt(s[i as int].0, key@),
            decreases n - i,
        {
            let ec = chars_of(self.entries[i].0.as_str());
            assert(s[i as int].0 == self.entries@[i as int].0@);
            if !chars_lt(&ec, &kc) {
                break;
            }
            i = i + 1;
        }
        proof {
            lemma_sorted_entries_map(s);
        }
        let pair = (key, value);
        let ghost e: Entry = (pair.0@, pair.1@);
        if i < n && self.entries[i].0 == pair.0 {
            self.entries.set(i, pair);
            let ghost t = self.entries_view();
            assert(t =~= s.update(i as int, e));
            assert(keys_sorted(t)) by {
                assert forall|a: int, b: int| 0 <= a < b < t.len() implies seq_lt(#[trigger] t[a].0, #[trigger] t[b].0) by {
                    assert(t[a].0 == s[a].0);
                    assert(t[b].0 == s[b].0);
                }
            }
            proof {
                lemma_sorted_entries_map(t);
            }
            assert(self@ =~= old(self)@.insert(e.0, e.1)) by {
                assert forall|k: Seq<char>| #[trigger] self@.contains_key(k) <==> old(self)@.insert(e.0, e.1).contains_key(k) by {
                    if self@.contains_key(k) {
                        let j = choose|j: int| 0 <= j < t.len() && t[j].0 == k;
                        assert(s[j].0 == k);
                    }
                    if old(self)@.contains_key(k) {
                        let j = choose|j: int| 0 <= j < s.len() && s[j].0 == k;
                        assert(t[j].0 == k);
                    }
                    assert(t[i as int].0 == e.0);
                }
                assert forall|k: Seq<char>| #[trigger] self@.contains_key(k) implies self@[k] == old(self)@.insert(e.0, e.1)[k] by {
                    let j = choose|j: int| 0 <= j < t.len() && t[j].0 == k;
                    assert(self@[t[j].0] == t[j].1);
                    if j != i {
                        assert(old(self)@[s[j].0] == s[j].1);
                    }
                }
            }
        } else {
            proof {
                if i < n {
                    lemma_seq_lt_total(s[i as int].0, key@);
                }
            }
            self.entries.insert(i, pair);
            let ghost t = self.entries_view();
            assert(t =~= s.insert(i as int, e));
            assert(keys_sorted(t)) by {
                assert forall|a: int, b: int| 0 <= a < b < t.len() implies seq_lt(#[trigger] t[a].0, #[trigger] t[b].0) by {
                    if b < i {
                        assert(t[a] == s[a] && t[b] == s[b]);
                    } else if b == i {
                        assert(t[a] == s[a]);
                    } else if a == i {
                        assert(t[b] == s[b - 1]);
                        if b - 1 > i {
                            assert(seq_lt(s[i as int].0, s[b - 1].0));
                            lemma_seq_lt_transitive(key@, s[i as int].0, s[b - 1].0);
                        }
                    } else if a < i {
                        assert(t[a] == s[a] && t[b] == s[b - 1]);
                        if b - 1 >= i {
                            if b - 1 > i {
                                assert(seq_lt(s[i as int].0, s[b - 1].0));
                                lemma_seq_lt_transitive(key@, s[i as int].0, s[b - 1].0);
                            }
                            lemma_seq_lt_transitive(s[a].0, key@, s[b - 1].0);
                        }
                    } else {
                        assert(t[a] == s[a - 1] && t[b] == s[b - 1]);
                    }
                }
            }
            proof {
                lemma_sorted_entries_map(t);
            }
            assert(self@ =~= old(self)@.insert(e.0, e.1)) by {
                assert forall|k: Seq<char>| #[trigger] self@.contains_key(k) <==> old(self)@.insert(e.0, e.1).contains_key(k) by {
                    if self@.contains_key(k) {
                        let j = choose|j: int| 0 <= j < t.len() && t[j].0 == k;
                        if j < i {
                            assert(s[j].0 == k);
                        } else if j > i {
                            assert(s[j - 1].0 == k);
                        }
                    }
                    if old(self)@.contains_key(k) {
                        let j = choose|j: int| 0 <= j < s.len() && s[j].0 == k;
                        if j < i {
                            assert(t[j].0 == k);
                        } else {
                            assert(t[j + 1].0 == k);
                        }
                    }
                    assert(t[i as int].0 == e.0);
                }
                assert forall|k: Seq<char>| #[trigger] self@.contains_key(k) implies self@[k] == old(self)@.insert(e.0, e.1)[k] by {
                    let j = choose|j: int| 0 <= j < t.len() && t[j].0 == k;
                    assert(self@[t[j].0] == t[j].1);
                    if j < i {
                        assert(t[j] == s[j]);
                        lemma_seq_lt_irreflexive(k);
                        assert(old(self)@[s[j].0] == s[j].1);
                    } else if j > i {
                        assert(t[j] == s[j - 1]);
                        if j - 1 > i {
                            assert(seq_lt(s[i as int].0, s[j - 1].0));
                            lemma_seq_lt_transitive(key@, s[i as int].0, s[j - 1].0);
                        }
                        lemma_seq_lt_irreflexive(k);
                        assert(old(self)@[s[j - 1].0] == s[j - 1].1);
                    }
                }
            }
        }
    }
}

fn digit(d: usize) -> (r: char)
    requires
        d < 10,
    ensures
        r == digit_char(d as nat),
{
    if d == 0 { '0' } else if d == 1 { '1' } else if d == 2 { '2' } else if d == 3 { '3' }
    else if d == 4 { '4' } else if d == 5 { '5' } else if d == 6 { '6' } else if d == 7 { '7' }
    else if d == 8 { '8' } else { '9' }
}

/// Appends the decimal text of `n` to `s`.
pub fn push_decimal(s: &mut String, n: usize)
    ensures
        final(s)@ == old(s)@ + nat_text(n as nat),
    decreases n,
{
    if n >= 10 {
        push_decimal(s, n / 10);
    }
    push_char(s, digit(n % 10));
    proof {
        if n >= 10 {
            assert(old(s)@ + nat_text(n as nat) =~= old(s)@ + nat_text((n / 10) as nat) + seq![digit_char((n % 10) as nat)]);
        }
    }
}

fn push_entry(out: &mut Vec<(String, String)>, key: String, value: String)
    ensures
        entry_views(final(out)@) == entry_views(old(out)@).push((key@, value@)),
{
    out.push((key, value));
    assert(entry_views(out@) =~= entry_views(old(out)@).push((key@, value@)));
}

fn bool_string(b: bool) -> (r: String)
    ensures
        r@ == bool_text(b),
{
    let mut r = String::new();
    if b {
        push_char(&mut r, 't');
        push_char(&mut r, 'r');
        push_char(&mut r, 'u');
        push_char(&mut r, 'e');
    } else {
        push_char(&mut r, 'f');
        push_char(&mut r, 'a');
        push_char(&mut r, 'l');
        push_char(&mut r, 's');
        push_char(&mut r, 'e');
    }
    assert(r@ =~= bool_text(b));
    r
}

/// Appends the flat entries of `v` at `path` to `out`.
fn collect_value(path: &String, v: &JsonValue, out: &mut Vec<(String, String)>)
    ensures
        entry_views(final(out)@) == entry_views(old(out)@) + value_entries(path@, *v),
    decreases v,
{
    match v {
        JsonValue::Null => {
            assert(entry_views(out@) =~= entry_views(old(out)@) + value_entries(path@, *v));
        },
        JsonValue::Bool(b) => {
            push_entry(out, path.clone(), bool_string(*b));
            assert(entry_views(out@) =~= entry_views(old(out)@) + value_entries(path@, *v));
        },
        JsonValue::Number(n) => {
            push_entry(out, path.clone(), n.clone());
            assert(entry_views(out@) =~= entry_views(old(out)@) + value_entries(path@, *v));
        },
        JsonValue::Str(t) => {
            push_entry(out, path.clone(), t.clone());
            assert(entry_views(out@) =~= entry_views(old(out)@) + value_entries(path@, *v));
        },
        JsonValue::Array(items) => {
            collect_items(path, items, out);
        },
        JsonValue::Object(fields) => {
            let mut prefix = path.clone();
            push_char(&mut prefix, ' ');
            push_char(&mut prefix, '>');
            push_char(&mut prefix, ' ');
            assert(prefix@ =~= path@ + nested_separator());
            collect_fields(&prefix, fields, out);
        },
    }
}

/// Appends the flat entries of the elements `items` of an array at `path` to `out`.
fn collect_items(path: &String, items: &Vec<JsonValue>, out: &mut Vec<(String, String)>)
    ensures
        entry_views(final(out)@) == entry_views(old(out)@) + items_entries(path@, items@),
    decreases items,
{
    let mut i: usize = 0;
    assert(items@.take(0) =~= Seq::<JsonValue>::empty());
    while i < items.len()
        invariant
            i <= items@.len(),
            entry_views(out@) == entry_views(old(out)@) + items_entries(path@, items@.take(i as int)),
        decreases items.len() - i,
    {
        let mut p = path.clone();
        push_char(&mut p, '[');
        push_decimal(&mut p, i + 1);
        push_char(&mut p, ']');
        assert(p@ =~= element_path(path@, (i + 1) as nat));
        collect_value(&p, &items[i], out);
        assert(items@.take(i + 1).drop_last() =~= items@.take(i as int));
        assert(entry_views(out@) =~= entry_views(old(out)@) + items_entries(path@, items@.take(i + 1)));
        i = i + 1;
    }
    assert(items@.take(items@.len() as int) =~= items@);
}

/// Appends the flat entries of `fields`, keys written after `prefix`, to `out`.
fn collect_fields(prefix: &String, fields: &Vec<(String, JsonValue)>, out: &mut Vec<(String, String)>)
    ensures
        entry_views(final(out)@) == entry_views(old(out)@) + fields_entries(prefix@, fields@),
    decreases fields,
{
    let mut i: usize = 0;
    assert(fields@.take(0) =~= Seq::<(String, JsonValue)>::empty());
    while i < fields.len()
        invariant
            i <= fields@.len(),
            entry_views(out@) == entry_views(old(out)@) + fields_entries(prefix@, fields@.take(i as int)),
        decreases fields.len() - i,
    {
        let mut key = prefix.clone();
        key.append(fields[i].0.as_str());
        collect_value(&key, &fields[i].1, out);
        assert(fields@.take(i + 1).drop_last() =~= fields@.take(i as int));
        assert(entry_views(out@) =~= entry_views(old(out)@) + fields_entries(prefix@, fields@.take(i + 1)));
        i = i + 1;
    }
    assert(fields@.take(fields@.len() as int) =~= fields@);
}

/// Flattens the object `log_entry`, each key written after `prefix`.
pub fn flatten_json(log_entry: &Vec<(String, JsonValue)>, prefix: &str) -> (r: FlatRecord)
    ensures
        r.wf(),
        r@ == entries_map(fields_entries(prefix@, log_entry@)),
{
    let mut collected: Vec<(String, String)> = Vec::new();
    let p: String = prefix.to_owned();
    collect_fields(&p, log_entry, &mut collected);
    let ghost all = entry_views(collected@);
    assert(all =~= fields_entries(prefix@, log_entry@));
    let mut r = FlatRecord::new();
    let mut i: usize = 0;
    assert(all.take(0) =~= Seq::<Entry>::empty());
    while i < collected.len()
        invariant
            i <= collected@.len(),
            all == entry_views(collected@),
            r.wf(),
            r@ == entries_map(all.take(i as int)),
        decreases collected.len() - i,
    {
        let key = collected[i].0.clone();
        let value = collected[i].1.clone();
        r.insert(key, value);
        assert(all.take(i + 1).drop_last() =~= all.take(i as int));
        i = i + 1;
    }
    assert(all.take(all.len() as int) =~= all);
    r
}

/// The fields of an object whose values are all strings, as entries.
pub open spec fn string_fields(fields: Seq<(String, JsonValue)>) -> Seq<Entry> {
    fields.map_values(|f: (String, JsonValue)| (f.0@, f.1->Str_0@))
}

/// Flattening an already flat object, one whose values are all strings, yields its
/// fields unchanged: each key with its string.
pub proof fn lemma_flat_object_unchanged(fields: Seq<(String, JsonValue)>)
    requires
        forall|i: int| 0 <= i < fields.len() ==> #[trigger] fields[i].1 is Str,
    ensures
        fields_entries(Seq::empty(), fields) == string_fields(fields),
        entries_map(fields_entries(Seq::empty(), fields)) == entries_map(string_fields(fields)),
    decreases fields.len(),
{
    if fields.len() > 0 {
        let t = fields.drop_last();
        assert forall|i: int| 0 <= i < t.len() implies #[trigger] t[i].1 is Str by {
            assert(t[i] == fields[i]);
        }
        lemma_flat_object_unchanged(t);
        assert(fields[fields.len() - 1].1 is Str);
        assert(Seq::<char>::empty() + fields.last().0@ =~= fields.last().0@);
        let v = fields.last().1;
        let k = Seq::<char>::empty() + fields.last().0@;
        assert(value_entries(k, v) == seq![(k, v->Str_0@)]);
        assert(string_fields(fields) =~= string_fields(t).push((fields.last().0@, v->Str_0@)));
        assert(fields_entries(Seq::empty(), fields) =~= string_fields(fields));
    }
}

/// The elements of an array of strings at `path` sit at `path[1]`, `path[2]`, ...:
/// the element at zero-based position `i` under the index `i + 1`.
pub proof fn lemma_array_indices_from_one(path: Seq<char>, items: Seq<JsonValue>)
    requires
        forall|i: int| 0 <= i < items.len() ==> #[trigger] items[i] is Str,
    ensures
        items_entries(path, items) == Seq::new(
            items.len(),
            |i: int| (element_path(path, (i + 1) as nat), items[i]->Str_0@),
        ),
    decreases items.len(),
{
    if items.len() > 0 {
        let t = items.drop_last();
        assert forall|i: int| 0 <= i < t.len() implies #[trigger] t[i] is Str by {
            assert(t[i] == items[i]);
        }
        lemma_array_indices_from_one(path, t);
        assert(items[items.len() - 1] is Str);
        let v = items.last();
        let k = element_path(path, items.len());
        assert(value_entries(k, v) == seq![(k, v->Str_0@)]);
        assert(items_entries(path, items) =~= Seq::new(
            items.len(),
            |i: int| (element_path(path, (i + 1) as nat), items[i]->Str_0@),
        ));
    }
}

/// A null gives no entry, wherever it stands; an object whose values are all null
/// flattens to nothing.
pub proof fn lemma_null_gives_no_entry(path: Seq<char>, fields: Seq<(String, JsonValue)>)
    requires
        forall|i: int| 0 <= i < fields.len() ==> #[trigger] fields[i].1 is Null,
    ensures
        value_entries(path, JsonValue::Null) == Seq::<Entry>::empty(),
        fields_entries(path, fields) == Seq::<Entry>::empty(),
        entries_map(fields_entries(path, fields)) == Map::<Seq<char>, Seq<char>>::empty(),
    decreases fields.len(),
{
    if fields.len() > 0 {
        let t = fields.drop_last();
        assert forall|i: int| 0 <= i < t.len() implies #[trigger] t[i].1 is Null by {
            assert(t[i] == fields[i]);
        }
        lemma_null_gives_no_entry(path, t);
        assert(fields[fields.len() - 1].1 is Null);
        assert(value_entries(path + fields.last().0@, fields.last().1) == Seq::<Entry>::empty());
        assert(fields_entries(path, fields) =~= Seq::<Entry>::empty());
    }
}

} // verus!
