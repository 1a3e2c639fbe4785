//! What one record's output holds: the canonical fields of the main line and the
//! additional values printed below it.

use vstd::prelude::*;
use crate::flatten::{Entry, FlatRecord, entry_views, entries_map, fields_entries, flatten_json, keys_sorted};
use crate::json::JsonValue;
use crate::settings::{LogSettings, level_map_get, level_map_view, texts};
use crate::style::{trim, trimmed};
use crate::text::{lemma_seq_lt_irreflexive, seq_lt, seq_starts_with, str_starts_with};
use crate::time::{convert_timestamp_at, readable_timestamp, utc_now_millis};

verus! {

/// The value of the first of `keys` that `m` holds.
pub open spec fn first_value(m: Map<Seq<char>, Seq<char>>, keys: Seq<Seq<char>>) -> Option<Seq<char>>
    decreases keys.len(),
{
    if keys.len() == 0 {
        None
    } else if m.contains_key(keys[0]) {
        Some(m[keys[0]])
    } else {
        first_value(m, keys.drop_first())
    }
}

pub open spec fn value_or(v: Option<Seq<char>>, default: Seq<char>) -> Seq<char> {
    match v {
        Some(s) => s,
        None => default,
    }
}

/// The value of the first of `keys` that the record holds.
pub fn get_string_value(value: &FlatRecord, keys: &Vec<String>) -> (r: Option<String>)
    requires
        value.wf(),
    ensures
        r is Some <==> first_value(value@, texts(keys@)) is Some,
        r matches Some(v) ==> first_value(value@, texts(keys@)) == Some(v@),
{
    let ghost ks = texts(keys@);
    let mut i: usize = 0;
    assert(ks.skip(0) =~= ks);
    while i < keys.len()
        invariant
            value.wf(),
            ks == texts(keys@),
            i <= keys@.len(),
            first_value(value@, ks.skip(i as int)) == first_value(value@, ks),
        decreases keys.len() - i,
    {
        assert(ks.skip(i as int)[0] == keys@[i as int]@);
        assert(ks.skip(i as int).drop_first() =~= ks.skip(i + 1));
        match value.get(keys[i].as_str()) {
            Some(v) => return Some(v),
            None => {},
        }
        i = i + 1;
    }
    None
}

/// The value of the first of `keys` that the record holds, or `default`.
pub fn get_string_value_or_default(value: &FlatRecord, keys: &Vec<String>, default: &str) -> (r: String)
    requires
        value.wf(),
    ensures
        r@ == value_or(first_value(value@, texts(keys@)), default@),
{
    match get_string_value(value, keys) {
        Some(v) => v,
        None => default.to_owned(),
    }
}

/// The level of a record: the first level key's value (`unknown` when there is
/// none), replaced by its alias when the level map has one.
pub open spec fn level_of(m: Map<Seq<char>, Seq<char>>, settings: LogSettings) -> Seq<char> {
    let raw = value_or(first_value(m, texts(settings.level_keys@)), "unknown"@);
    let aliases = level_map_view(settings.level_map@);
    if aliases.contains_key(raw) { aliases[raw] } else { raw }
}

/// The message of a record: the first message key's value (empty when there is
/// none), with its placeholders substituted when substitution is on and the record
/// has a context field.
pub open spec fn message_of(
    m: Map<Seq<char>, Seq<char>>,
    log_entry: Seq<(String, JsonValue)>,
    settings: LogSettings,
) -> Seq<char> {
    let raw = value_or(first_value(m, texts(settings.message_keys@)), ""@);
    match settings.substitution {
        Some(s) => match s.substitution_of(raw, log_entry) {
            Some(t) => t,
            None => raw,
        },
        None => raw,
    }
}

/// The timestamp of a record: the first time key's value (empty when there is
/// none), made readable against the clock `now`.
pub open spec fn timestamp_of(m: Map<Seq<char>, Seq<char>>, settings: LogSettings, now: int) -> Seq<char> {
    readable_timestamp(value_or(first_value(m, texts(settings.time_keys@)), ""@), now)
}

pub open spec fn prefix_of(maybe_prefix: Option<Seq<char>>) -> Seq<char> {
    trimmed(value_or(maybe_prefix, ""@))
}

pub open spec fn nested_marker() -> Seq<char> {
    seq![' ', '>', ' ']
}

/// Whether the key `k` is the field `name` or lies below it.
pub open spec fn key_selected(k: Seq<char>, name: Seq<char>) -> bool {
    k == name || seq_starts_with(k, name + nested_marker())
}

/// The entries whose key is the field `name` or lies below it, in order.
pub open spec fn entries_under(entries: Seq<Entry>, name: Seq<char>) -> Seq<Entry>
    decreases entries.len(),
{
    if entries.len() == 0 {
        seq![]
    } else {
        entries_under(entries.drop_last(), name) + (if key_selected(entries.last().0, name) {
            seq![entries.last()]
        } else {
            seq![]
        })
    }
}

/// For each of `names` in turn, the entries it selects.
pub open spec fn entries_for(entries: Seq<Entry>, names: Seq<Seq<char>>) -> Seq<Entry>
    decreases names.len(),
{
    if names.len() == 0 {
        seq![]
    } else {
        entries_for(entries, names.drop_last()) + entries_under(entries, names.last())
    }
}

/// The keys of `entries` that `excluded` does not hold, in order.
pub open spec fn unexcluded_keys(entries: Seq<Entry>, excluded: Seq<Seq<char>>) -> Seq<Seq<char>>
    decreases entries.len(),
{
    if entries.len() == 0 {
        seq![]
    } else {
        unexcluded_keys(entries.drop_last(), excluded) + (if excluded.contains(entries.last().0) {
            seq![]
        } else {
            seq![entries.last().0]
        })
    }
}

/// The fields chosen for printing below the main line: every key but the excluded
/// ones when all are dumped, else the configured additional values.
pub open spec fn chosen_names(entries: Seq<Entry>, settings: LogSettings) -> Seq<Seq<char>> {
    if settings.dump_all {
        unexcluded_keys(entries, texts(settings.excluded_values@))
    } else {
        texts(settings.additional_values@)
    }
}

pub fn contains_text(v: &Vec<String>, s: &String) -> (r: bool)
    ensures
        r == texts(v@).contains(s@),
{
    let mut i: usize = 0;
    while i < v.len()
        invariant
            i <= v@.len(),
            forall|j: int| 0 <= j < i ==> #[trigger] v@[j]@ != s@,
        decreases v.len() - i,
    {
        if v[i] == *s {
            assert(texts(v@)[i as int] == s@);
            return true;
        }
        i = i + 1;
    }
    assert(!texts(v@).contains(s@)) by {
        if texts(v@).contains(s@) {
            let j = choose|j: int| 0 <= j < texts(v@).len() && texts(v@)[j] == s@;
            assert(v@[j]@ == s@);
        }
    }
    false
}

/// The keys of the record that `excluded_values` does not hold, in key order.
pub fn dump_all_names(log_entry: &FlatRecord, excluded_values: &Vec<String>) -> (r: Vec<String>)
    ensures
        texts(r@) == unexcluded_keys(log_entry.entries_view(), texts(excluded_values@)),
{
    let entries = log_entry.entries();
    let ghost s = entry_views(entries@);
    let mut r: Vec<String> = Vec::new();
    let mut i: usize = 0;
    assert(s.take(0) =~= Seq::<Entry>::empty());
    assert(texts(r@) =~= Seq::<Seq<char>>::empty());
    while i < entries.len()
        invariant
            i <= entries@.len(),
            s == entry_views(entries@),
            texts(r@) == unexcluded_keys(s.take(i as int), texts(excluded_values@)),
        decreases entries.len() - i,
    {
        assert(s.take(i + 1).drop_last() =~= s.take(i as int));
        assert(s.take(i + 1).last() == (entries@[i as int].0@, entries@[i as int].1@));
        if !contains_text(excluded_values, &entries[i].0) {
            r.push(entries[i].0.clone());
        }
        assert(texts(r@) =~= unexcluded_keys(s.take(i + 1), texts(excluded_values@)));
        i = i + 1;
    }
    assert(s.take(s.len() as int) =~= s);
    r
}

/// Appends the entries under the field `name`, in key order, to `out`.
fn push_entries_under(log_entry: &FlatRecord, name: &String, out: &mut Vec<(String, String)>)
    ensures
        entry_views(final(out)@) == entry_views(old(out)@) + entries_under(log_entry.entries_view(), name@),
{
    let entries = log_entry.entries();
    let ghost s = entry_views(entries@);
    let mut below = name.clone();
    below.append(" > ");
    proof {
        reveal_strlit(" > ");
    }
    assert(below@ =~= name@ + nested_marker());
    let mut i: usize = 0;
    assert(s.take(0) =~= Seq::<Entry>::empty());
    assert(entry_views(out@) =~= entry_views(old(out)@) + entries_under(s.take(0), name@));
    while i < entries.len()
        invariant
            i <= entries@.len(),
            s == entry_views(entries@),
            below@ == name@ + nested_marker(),
            entry_views(out@) == entry_views(old(out)@) + entries_under(s.take(i as int), name@),
        decreases entries.len() - i,
    {
        assert(s.take(i + 1).drop_last() =~= s.take(i as int));
        assert(s.take(i + 1).last() == (entries@[i as int].0@, entries@[i as int].1@));
        let ghost before = entry_views(out@);
        if entries[i].0 == *name || str_starts_with(entries[i].0.as_str(), below.as_str()) {
            out.push((entries[i].0.clone(), entries[i].1.clone()));
            assert(entry_views(out@) =~= before.push((entries@[i as int].0@, entries@[i as int].1@)));
        }
        assert(entry_views(out@) =~= entry_views(old(out)@) + entries_under(s.take(i + 1), name@));
        i = i + 1;
    }
    assert(s.take(s.len() as int) =~= s);
}

/// The entries that `names` select, name by name, each in key order.
pub fn select_additional_values(log_entry: &FlatRecord, names: &Vec<String>) -> (r: Vec<(String, String)>)
    ensures
        entry_views(r@) == entries_for(log_entry.entries_view(), texts(names@)),
{
    let mut r: Vec<(String, String)> = Vec::new();
    let ghost ns = texts(names@);
    let mut i: usize = 0;
    assert(ns.take(0) =~= Seq::<Seq<char>>::empty());
    assert(entry_views(r@) =~= Seq::<Entry>::empty());
    while i < names.len()
        invariant
            i <= names@.len(),
            ns == texts(names@),
            entry_views(r@) == entries_for(log_entry.entries_view(), ns.take(i as int)),
        decreases names.len() - i,
    {
        assert(ns.take(i + 1).drop_last() =~= ns.take(i as int));
        assert(ns.take(i + 1).last() == names@[i as int]@);
        push_entries_under(log_entry, &names[i], &mut r);
        i = i + 1;
    }
    assert(ns.take(ns.len() as int) =~= ns);
    r
}

/// The fields chosen for printing below the main line.
pub fn chosen_additional_names(log_entry: &FlatRecord, settings: &LogSettings) -> (r: Vec<String>)
    ensures
        texts(r@) == chosen_names(log_entry.entries_view(), *settings),
{
    if settings.dump_all {
        dump_all_names(log_entry, &settings.excluded_values)
    } else {
        settings.additional_values.clone()
    }
}

/// The output of one record: the fields of its main line and the additional values
/// printed below it.
pub struct LogLine {
    pub timestamp: String,
    pub level: String,
    pub message: String,
    pub prefix: String,
    pub additional_values: Vec<(String, String)>,
}

/// `line` is the output of `log_entry`, flattened as `flat`, against the clock `now`.
pub open spec fn is_output_of(
    line: LogLine,
    maybe_prefix: Option<Seq<char>>,
    log_entry: Seq<(String, JsonValue)>,
    flat: FlatRecord,
    settings: LogSettings,
    now: int,
) -> bool {
    &&& line.level@ == level_of(flat@, settings)
    &&& line.message@ == message_of(flat@, log_entry, settings)
    &&& line.timestamp@ == timestamp_of(flat@, settings, now)
    &&& line.prefix@ == prefix_of(maybe_prefix)
    &&& entry_views(line.additional_values@) == entries_for(flat.entries_view(), chosen_names(flat.entries_view(), settings))
}

pub open spec fn opt_view(p: Option<&str>) -> Option<Seq<char>> {
    match p {
        Some(s) => Some(s@),
        None => None,
    }
}

/// The output of the record `log_entry`, taking `now_ms` as the current time.
pub fn prepare_log_line_at(maybe_prefix: Option<&str>, log_entry: &Vec<(String, JsonValue)>, log_settings: &LogSettings, now_ms: i64) -> (r: LogLine)
    ensures
        exists|flat: FlatRecord| {
            &&& flat.wf()
            &&& flat@ == entries_map(fields_entries(""@, log_entry@))
            &&& is_output_of(r, opt_view(maybe_prefix), log_entry@, flat, *log_settings, now_ms as int)
        },
{
    let flat = flatten_json(log_entry, "");
    let raw_level = get_string_value_or_default(&flat, &log_settings.level_keys, "unknown");
    let level = match level_map_get(&log_settings.level_map, raw_level.as_str()) {
        Some(mapped) => mapped,
        None => raw_level,
    };
    let prefix = match maybe_prefix {
        Some(p) => trim(p),
        None => trim(""),
    };
    let raw_message = get_string_value_or_default(&flat, &log_settings.message_keys, "");
    let message = match &log_settings.substitution {
        Some(s) => match s.apply(raw_message.as_str(), log_entry) {
            Some(t) => t,
            None => raw_message,
        },
        None => raw_message,
    };
    let raw_time = get_string_value_or_default(&flat, &log_settings.time_keys, "");
    let timestamp = convert_timestamp_at(raw_time, now_ms);
    let names = chosen_additional_names(&flat, log_settings);
    let additional_values = select_additional_values(&flat, &names);
    let r = LogLine { timestamp, level, message, prefix, additional_values };
    assert(is_output_of(r, opt_view(maybe_prefix), log_entry@, flat, *log_settings, now_ms as int));
    r
}

/// The output of the record `log_entry` against the current time.
pub fn prepare_log_line(maybe_prefix: Option<&str>, log_entry: &Vec<(String, JsonValue)>, log_settings: &LogSettings) -> (r: LogLine)
    ensures
        exists|flat: FlatRecord, now: i64| {
            &&& flat.wf()
            &&& flat@ == entries_map(fields_entries(""@, log_entry@))
            &&& is_output_of(r, opt_view(maybe_prefix), log_entry@, flat, *log_settings, now as int)
        },
{
    let now = utc_now_millis();
    prepare_log_line_at(maybe_prefix, log_entry, log_settings, now)
}

/// Field resolution takes the first key of the list that the record holds: when
/// `keys[j]` is present and no key before it is, its value is the one resolved.
pub proof fn lemma_first_listed_key_wins(m: Map<Seq<char>, Seq<char>>, keys: Seq<Seq<char>>, j: int)
    requires
        0 <= j < keys.len(),
        m.contains_key(keys[j]),
        forall|i: int| 0 <= i < j ==> !m.contains_key(#[trigger] keys[i]),
    ensures
        first_value(m, keys) == Some(m[keys[j]]),
    decreases j,
{
    if j > 0 {
        let t = keys.drop_first();
        assert forall|i: int| 0 <= i < j - 1 implies !m.contains_key(#[trigger] t[i]) by {
            assert(t[i] == keys[i + 1]);
        }
        assert(!m.contains_key(keys[0]));
        lemma_first_listed_key_wins(m, t, j - 1);
    }
}

/// When every field is dumped, the fields come in strictly increasing key order and
/// none of them is excluded.
pub proof fn lemma_dump_all_sorted_and_unexcluded(entries: Seq<Entry>, excluded: Seq<Seq<char>>)
    requires
        keys_sorted(entries),
    ensures
        forall|i: int, j: int| 0 <= i < j < unexcluded_keys(entries, excluded).len() ==> seq_lt(
            #[trigger] unexcluded_keys(entries, excluded)[i],
            #[trigger] unexcluded_keys(entries, excluded)[j],
        ),
        forall|i: int| 0 <= i < unexcluded_keys(entries, excluded).len() ==> !excluded.contains(
            #[trigger] unexcluded_keys(entries, excluded)[i],
        ),
        forall|i: int| 0 <= i < unexcluded_keys(entries, excluded).len() ==> exists|k: int|
            0 <= k < entries.len() && entries[k].0 == #[trigger] unexcluded_keys(entries, excluded)[i],
    decreases entries.len(),
{
    if entries.len() > 0 {
        let t = entries.drop_last();
        assert(keys_sorted(t));
        lemma_dump_all_sorted_and_unexcluded(t, excluded);
        let u = unexcluded_keys(t, excluded);
        let n = entries.len() - 1;
        let all = unexcluded_keys(entries, excluded);
        assert forall|i: int| 0 <= i < u.len() implies #[trigger] seq_lt(u[i], entries[n].0) by {
            let k = choose|k: int| 0 <= k < t.len() && t[k].0 == u[i];
            assert(t[k] == entries[k]);
            assert(seq_lt(entries[k].0, entries[n].0));
        }
        assert forall|i: int| 0 <= i < all.len() implies exists|k: int|
            0 <= k < entries.len() && entries[k].0 == #[trigger] all[i] by {
            if i < u.len() {
                assert(all[i] == u[i]);
                let k = choose|k: int| 0 <= k < t.len() && t[k].0 == u[i];
                assert(t[k] == entries[k]);
            } else {
                assert(all[i] == entries[n].0);
            }
        }
        assert forall|i: int, j: int| 0 <= i < j < all.len() implies seq_lt(#[trigger] all[i], #[trigger] all[j]) by {
            if j < u.len() {
                assert(all[i] == u[i] && all[j] == u[j]);
            } else {
                assert(all[i] == u[i]);
                assert(all[j] == entries[n].0);
                assert(seq_lt(u[i], entries[n].0));
            }
        }
        assert forall|i: int| 0 <= i < all.len() implies !excluded.contains(#[trigger] all[i]) by {
            if i < u.len() {
                assert(all[i] == u[i]);
            }
        }
    }
}

/// No key of `entries` lies below another of its keys.
pub open spec fn no_nested_keys(entries: Seq<Entry>) -> bool {
    forall|i: int, j: int|
        0 <= i < entries.len() && 0 <= j < entries.len() ==> !seq_starts_with(
            #[trigger] entries[j].0,
            #[trigger] entries[i].0 + nested_marker(),
        )
}

/// The entries whose key `excluded` does not hold, in order.
pub open spec fn unexcluded_entries(entries: Seq<Entry>, excluded: Seq<Seq<char>>) -> Seq<Entry>
    decreases entries.len(),
{
    if entries.len() == 0 {
        seq![]
    } else {
        unexcluded_entries(entries.drop_last(), excluded) + (if excluded.contains(entries.last().0) {
            seq![]
        } else {
            seq![entries.last()]
        })
    }
}

proof fn lemma_entries_under_own_key(e: Seq<Entry>, m: int, p: int)
    requires
        keys_sorted(e),
        no_nested_keys(e),
        0 <= m < e.len(),
        0 <= p <= e.len(),
    ensures
        entries_under(e.take(p), e[m].0) == (if p > m { seq![e[m]] } else { Seq::<Entry>::empty() }),
    decreases p,
{
    if p > 0 {
        let x = p - 1;
        assert(e.take(p).drop_last() =~= e.take(x));
        assert(e.take(p).last() == e[x]);
        lemma_entries_under_own_key(e, m, x);
        assert(!seq_starts_with(e[x].0, e[m].0 + nested_marker()));
        if x != m {
            if x < m {
                assert(seq_lt(e[x].0, e[m].0));
            } else {
                assert(seq_lt(e[m].0, e[x].0));
            }
            lemma_seq_lt_irreflexive(e[m].0);
            assert(!key_selected(e[x].0, e[m].0));
        }
        assert(entries_under(e.take(p), e[m].0) =~= (if p > m { seq![e[m]] } else { Seq::<Entry>::empty() }));
    } else {
        assert(e.take(0) =~= Seq::<Entry>::empty());
    }
}

/// When every field is dumped and no key lies below another, the lines below the
/// main line are exactly the record's entries that are not excluded, in key order.
pub proof fn lemma_dump_all_output(entries: Seq<Entry>, excluded: Seq<Seq<char>>)
    requires
        keys_sorted(entries),
        no_nested_keys(entries),
    ensures
        entries_for(entries, unexcluded_keys(entries, excluded)) == unexcluded_entries(entries, excluded),
{
    lemma_dump_all_prefix(entries, excluded, entries.len() as int);
    assert(entries.take(entries.len() as int) =~= entries);
}

proof fn lemma_dump_all_prefix(e: Seq<Entry>, excluded: Seq<Seq<char>>, n: int)
    requires
        keys_sorted(e),
        no_nested_keys(e),
        0 <= n <= e.len(),
    ensures
        entries_for(e, unexcluded_keys(e.take(n), excluded)) == unexcluded_entries(e.take(n), excluded),
    decreases n,
{
    if n > 0 {
        let x = n - 1;
        assert(e.take(n).drop_last() =~= e.take(x));
        assert(e.take(n).last() == e[x]);
        lemma_dump_all_prefix(e, excluded, x);
        if !excluded.contains(e[x].0) {
            let names = unexcluded_keys(e.take(n), excluded);
            assert(names.drop_last() =~= unexcluded_keys(e.take(x), excluded));
            assert(names.last() == e[x].0);
            lemma_entries_under_own_key(e, x, e.len() as int);
            assert(e.take(e.len() as int) =~= e);
        }
    } else {
        assert(e.take(0) =~= Seq::<Entry>::empty());
    }
}

} // verus!
