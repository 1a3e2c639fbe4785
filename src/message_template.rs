//! Message templates: placeholder substitution configured step by step, with
//! objects laid out with spaces inside their braces.

use vstd::prelude::*;
use crate::json::{JsonValue, field_value, get_field};
use crate::substitution::{Layout, split_format, split_placeholder_format, substitute, substituted_from};

verus! {

/// A key format that does not hold the word `key` exactly once.
#[derive(Debug, PartialEq, Eq)]
pub enum FormatError {
    MissingIdentifier,
}

/// Replaces placeholders in messages by values of the field `context`.
pub struct MessageTemplate {
    pub context: String,
    key_prefix: String,
    key_suffix: String,
    no_color: bool,
}

impl MessageTemplate {
    pub closed spec fn prefix_view(&self) -> Seq<char> {
        self.key_prefix@
    }

    pub closed spec fn suffix_view(&self) -> Seq<char> {
        self.key_suffix@
    }

    pub closed spec fn context_view(&self) -> Seq<char> {
        self.context@
    }

    pub closed spec fn colorless(&self) -> bool {
        self.no_color
    }

    /// A template reading the field `context`, with placeholders `{key}`.
    pub fn new(context: String, no_color: bool) -> (r: MessageTemplate)
        ensures
            r.context_view() == context@,
            r.prefix_view() == "{"@,
            r.suffix_view() == "}"@,
            r.colorless() == no_color,
    {
        MessageTemplate { context, key_prefix: "{".to_owned(), key_suffix: "}".to_owned(), no_color }
    }

    /// Sets the placeholder format, which must hold the word `key` exactly once; on
    /// failure the template is left as it was.
    pub fn set_key_format(&mut self, format: &str) -> (r: Result<(), FormatError>)
        ensures
            final(self).context_view() == old(self).context_view(),
            final(self).colorless() == old(self).colorless(),
            match split_format(format@) {
                Some((p, q)) => r is Ok && final(self).prefix_view() == p && final(self).suffix_view() == q,
                None => r == Err::<(), FormatError>(FormatError::MissingIdentifier) && final(self).prefix_view()
                    == old(self).prefix_view() && final(self).suffix_view() == old(self).suffix_view(),
            },
    {
        match split_placeholder_format(format) {
            None => Err(FormatError::MissingIdentifier),
            Some((prefix, suffix)) => {
                self.key_prefix = prefix;
                self.key_suffix = suffix;
                Ok(())
            },
        }
    }

    /// The template with the placeholder format `format`.
    pub fn with_key_format(self, format: &str) -> (r: Result<MessageTemplate, FormatError>)
        ensures
            match split_format(format@) {
                Some((p, q)) => r matches Ok(t) && t.prefix_view() == p && t.suffix_view() == q
                    && t.context_view() == self.context_view() && t.colorless() == self.colorless(),
                None => r == Err::<MessageTemplate, FormatError>(FormatError::MissingIdentifier),
            },
    {
        let mut t = self;
        match t.set_key_format(format) {
            Ok(()) => Ok(t),
            Err(e) => Err(e),
        }
    }

    /// What `apply` gives for `message` and the record `log_entry`.
    pub open spec fn template_of(&self, message: Seq<char>, log_entry: Seq<(String, JsonValue)>) -> Option<Seq<char>> {
        match field_value(log_entry, self.context_view()) {
            Some(ctx) => Some(
                substituted_from(message, 0, self.prefix_view(), self.suffix_view(), ctx, self.colorless(), Layout::Spaced),
            ),
            None => None,
        }
    }

    /// Replaces the placeholders of `message` by values of the context field of
    /// `log_entry`; `None` when the record has no context field.
    pub fn apply(&self, message: &str, log_entry: &Vec<(String, JsonValue)>) -> (r: Option<String>)
        ensures
            r is None <==> self.template_of(message@, log_entry@) is None,
            r matches Some(s) ==> self.template_of(message@, log_entry@) == Some(s@),
    {
        match get_field(log_entry, self.context.as_str()) {
            Some(ctx) => Some(substitute(message, ctx, &self.key_prefix, &self.key_suffix, self.no_color, Layout::Spaced)),
            None => None,
        }
    }
}

impl Default for MessageTemplate {
    /// Placeholders `{key}` in the field `context`, with colour.
    fn default() -> (r: MessageTemplate)
        ensures
            r.context_view() == "context"@,
            r.prefix_view() == "{"@,
            r.suffix_view() == "}"@,
            !r.colorless(),
    {
        MessageTemplate::new("context".to_owned(), false)
    }
}

} // verus!
