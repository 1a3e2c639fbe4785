//! Settings of a run: the configuration file's values and the per-run log settings.

use vstd::prelude::*;
use crate::flatten::{Entry, entry_views, entries_map};
use crate::substitution::Substitution;

verus! {

/// The template of the main line of a record.
pub const DEFAULT_MAIN_LINE_FORMAT: &'static str = "{{bold(fixed_size 19 fblog_timestamp)}} {{level_style (uppercase (fixed_size 5 fblog_level))}}:{{#if fblog_prefix}} {{bold(cyan fblog_prefix)}}{{/if}} {{fblog_message}}";

/// The template of one additional value line.
pub const DEFAULT_ADDITIONAL_VALUE_FORMAT: &'static str = "{{bold (color_rgb 150 150 150 (min_size 25 key))}}: {{value}}";

/// The texts of a list of strings.
pub open spec fn texts(v: Seq<String>) -> Seq<Seq<char>> {
    v.map_values(|s: String| s@)
}

pub open spec fn default_message_keys_spec() -> Seq<Seq<char>> {
    seq!["short_message"@, "msg"@, "message"@]
}

pub open spec fn default_time_keys_spec() -> Seq<Seq<char>> {
    seq!["timestamp"@, "time"@, "@timestamp"@]
}

pub open spec fn default_level_keys_spec() -> Seq<Seq<char>> {
    seq!["level"@, "severity"@, "log.level"@, "loglevel"@]
}

pub fn default_message_keys() -> (r: Vec<String>)
    ensures
        texts(r@) == default_message_keys_spec(),
{
    let r = vec!["short_message".to_owned(), "msg".to_owned(), "message".to_owned()];
    assert(texts(r@) =~= default_message_keys_spec());
    r
}

pub fn default_time_keys() -> (r: Vec<String>)
    ensures
        texts(r@) == default_time_keys_spec(),
{
    let r = vec!["timestamp".to_owned(), "time".to_owned(), "@timestamp".to_owned()];
    assert(texts(r@) =~= default_time_keys_spec());
    r
}

pub fn default_dump_all_exclude() -> (r: Vec<String>)
    ensures
        r@.len() == 0,
{
    Vec::new()
}

pub fn default_always_print_fields() -> (r: Vec<String>)
    ensures
        r@.len() == 0,
{
    Vec::new()
}

pub fn default_level_keys() -> (r: Vec<String>)
    ensures
        texts(r@) == default_level_keys_spec(),
{
    let r = vec!["level".to_owned(), "severity".to_owned(), "log.level".to_owned(), "loglevel".to_owned()];
    assert(texts(r@) =~= default_level_keys_spec());
    r
}

pub fn default_level_map() -> (r: Vec<(String, String)>)
    ensures
        r@.len() == 0,
{
    Vec::new()
}

pub fn default_main_line_format() -> (r: String)
    ensures
        r@ == DEFAULT_MAIN_LINE_FORMAT@,
{
    DEFAULT_MAIN_LINE_FORMAT.to_owned()
}

pub fn default_additional_value_format() -> (r: String)
    ensures
        r@ == DEFAULT_ADDITIONAL_VALUE_FORMAT@,
{
    DEFAULT_ADDITIONAL_VALUE_FORMAT.to_owned()
}

/// The values of the configuration file. The level map is a list of pairs; a later
/// pair replaces an earlier one with the same raw level.
pub struct Config {
    pub message_keys: Vec<String>,
    pub time_keys: Vec<String>,
    pub dump_all_exclude: Vec<String>,
    pub always_print_fields: Vec<String>,
    pub level_keys: Vec<String>,
    pub level_map: Vec<(String, String)>,
    pub main_line_format: String,
    pub additional_value_format: String,
}

impl Config {
    pub open spec fn is_default(&self) -> bool {
        &&& texts(self.message_keys@) == default_message_keys_spec()
        &&& texts(self.time_keys@) == default_time_keys_spec()
        &&& texts(self.level_keys@) == default_level_keys_spec()
        &&& self.level_map@.len() == 0
        &&& self.dump_all_exclude@.len() == 0
        &&& self.always_print_fields@.len() == 0
        &&& self.main_line_format@ == DEFAULT_MAIN_LINE_FORMAT@
        &&& self.additional_value_format@ == DEFAULT_ADDITIONAL_VALUE_FORMAT@
    }

    /// The configuration with every value at its default.
    pub fn new() -> (r: Config)
        ensures
            r.is_default(),
    {
        Config {
            message_keys: default_message_keys(),
            time_keys: default_time_keys(),
            level_keys: default_level_keys(),
            level_map: default_level_map(),
            main_line_format: default_main_line_format(),
            additional_value_format: default_additional_value_format(),
            dump_all_exclude: default_dump_all_exclude(),
            always_print_fields: default_always_print_fields(),
        }
    }

    /// The configuration that was loaded, or the default when none was.
    pub fn get(loaded: Option<Config>) -> (r: Config)
        ensures
            match loaded {
                Some(c) => r == c,
                None => r.is_default(),
            },
    {
        match loaded {
            Some(c) => c,
            None => Config::new(),
        }
    }
}

/// The map that a level map's pairs describe.
pub open spec fn level_map_view(m: Seq<(String, String)>) -> Map<Seq<char>, Seq<char>> {
    entries_map(entry_views(m))
}

/// What `level` is mapped to, if anything: the last pair for it.
pub fn level_map_get(m: &Vec<(String, String)>, level: &str) -> (r: Option<String>)
    ensures
        r is Some <==> level_map_view(m@).contains_key(level@),
        r matches Some(v) ==> v@ == level_map_view(m@)[level@],
{
    let k: String = level.to_owned();
    let mut i: usize = m.len();
    let ghost s = entry_views(m@);
    assert(s.take(s.len() as int) =~= s);
    while i > 0
        invariant
            i <= m@.len(),
            s == entry_views(m@),
            k@ == level@,
            entries_map(s).contains_key(level@) == entries_map(s.take(i as int)).contains_key(level@),
            entries_map(s).contains_key(level@) ==> entries_map(s)[level@] == entries_map(s.take(i as int))[level@],
        decreases i,
    {
        assert(s.take(i as int).drop_last() =~= s.take(i - 1));
        assert(s.take(i as int).last() == (m@[i - 1].0@, m@[i - 1].1@));
        if m[i - 1].0 == k {
            return Some(m[i - 1].1.clone());
        }
        i = i - 1;
    }
    None
}

/// A copy of a list of pairs.
pub fn clone_pairs(v: &Vec<(String, String)>) -> (r: Vec<(String, String)>)
    ensures
        r@ == v@,
{
    let mut r: Vec<(String, String)> = Vec::new();
    let mut i: usize = 0;
    while i < v.len()
        invariant
            i <= v@.len(),
            r@ == v@.take(i as int),
        decreases v.len() - i,
    {
        r.push((v[i].0.clone(), v[i].1.clone()));
        assert(v@.take(i + 1) =~= v@.take(i as int).push(v@[i as int]));
        i = i + 1;
    }
    assert(v@.take(v@.len() as int) =~= v@);
    r
}

/// The settings of one run.
pub struct LogSettings {
    pub message_keys: Vec<String>,
    pub time_keys: Vec<String>,
    pub level_keys: Vec<String>,
    pub level_map: Vec<(String, String)>,
    pub additional_values: Vec<String>,
    pub excluded_values: Vec<String>,
    pub dump_all: bool,
    pub with_prefix: bool,
    pub print_lua: bool,
    pub no_color: bool,
    pub substitution: Option<Substitution>,
}

impl LogSettings {
    /// The settings that `config` gives, every switch off.
    pub fn from_config(config: &Config) -> (r: LogSettings)
        ensures
            r.message_keys@ == config.message_keys@,
            r.time_keys@ == config.time_keys@,
            r.level_keys@ == config.level_keys@,
            r.level_map@ == config.level_map@,
            r.additional_values@ == config.always_print_fields@,
            r.excluded_values@ == config.dump_all_exclude@,
            !r.dump_all && !r.with_prefix && !r.print_lua && !r.no_color,
            r.substitution is None,
    {
        LogSettings {
            message_keys: config.message_keys.clone(),
            time_keys: config.time_keys.clone(),
            level_keys: config.level_keys.clone(),
            level_map: clone_pairs(&config.level_map),
            additional_values: config.always_print_fields.clone(),
            excluded_values: config.dump_all_exclude.clone(),
            dump_all: false,
            with_prefix: false,
            print_lua: false,
            no_color: false,
            substitution: None,
        }
    }

    /// The settings of the default configuration.
    pub fn new_default_settings() -> (r: LogSettings)
        ensures
            texts(r.message_keys@) == default_message_keys_spec(),
            texts(r.time_keys@) == default_time_keys_spec(),
            texts(r.level_keys@) == default_level_keys_spec(),
            r.level_map@.len() == 0,
            r.additional_values@.len() == 0,
            r.excluded_values@.len() == 0,
            !r.dump_all && !r.with_prefix && !r.print_lua && !r.no_color,
            r.substitution is None,
    {
        let config = Config::new();
        LogSettings::from_config(&config)
    }

    /// Adds fields to print below the main line, after those already chosen.
    pub fn add_additional_values(&mut self, additional_values: Vec<String>)
        ensures
            final(self).additional_values@ == old(self).additional_values@ + additional_values@,
            final(self).message_keys@ == old(self).message_keys@,
            final(self).excluded_values@ == old(self).excluded_values@,
            final(self).dump_all == old(self).dump_all,
    {
        let mut more = additional_values;
        self.additional_values.append(&mut more);
    }

    /// Adds message keys, tried before those already there.
    pub fn add_message_keys(&mut self, message_keys: Vec<String>)
        ensures
            final(self).message_keys@ == message_keys@ + old(self).message_keys@,
            final(self).time_keys@ == old(self).time_keys@,
            final(self).level_keys@ == old(self).level_keys@,
    {
        let mut keys = message_keys;
        keys.append(&mut self.message_keys);
        self.message_keys = keys;
    }

    /// Adds time keys, tried before those already there.
    pub fn add_time_keys(&mut self, time_keys: Vec<String>)
        ensures
            final(self).time_keys@ == time_keys@ + old(self).time_keys@,
            final(self).message_keys@ == old(self).message_keys@,
            final(self).level_keys@ == old(self).level_keys@,
    {
        let mut keys = time_keys;
        keys.append(&mut self.time_keys);
        self.time_keys = keys;
    }

    /// Adds level keys, tried before those already there.
    pub fn add_level_keys(&mut self, level_keys: Vec<String>)
        ensures
            final(self).level_keys@ == level_keys@ + old(self).level_keys@,
            final(self).message_keys@ == old(self).message_keys@,
            final(self).time_keys@ == old(self).time_keys@,
    {
        let mut keys = level_keys;
        keys.append(&mut self.level_keys);
        self.level_keys = keys;
    }

    /// Adds level aliases; each replaces an earlier one for the same raw level.
    pub fn add_level_map(&mut self, values: Vec<(String, String)>)
        ensures
            final(self).level_map@ == old(self).level_map@ + values@,
    {
        let mut more = values;
        self.level_map.append(&mut more);
    }

    /// Adds fields to leave out when every field is printed.
    pub fn add_excluded_values(&mut self, excluded_values: Vec<String>)
        ensures
            final(self).excluded_values@ == old(self).excluded_values@ + excluded_values@,
            final(self).additional_values@ == old(self).additional_values@,
    {
        let mut more = excluded_values;
        self.excluded_values.append(&mut more);
    }

    /// Turns on placeholder substitution in messages.
    pub fn add_substitution(&mut self, message_template: Substitution)
        ensures
            final(self).substitution == Some(message_template),
            final(self).message_keys@ == old(self).message_keys@,
    {
        self.substitution = Some(message_template);
    }
}

} // verus!
