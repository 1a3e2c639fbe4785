//! Discovery of the keys that records hold, for inspecting an unknown log format.

use vstd::prelude::*;
use crate::flatten::{FlatRecord, entry_views};
use crate::settings::texts;
use crate::text::{lemma_seq_lt_irreflexive, push_char, seq_lt};

verus! {

/// The lines that announce the keys of `keys` not in `seen`, one per key, in order.
pub open spec fn unknown_keys_text(keys: Seq<Seq<char>>, seen: Set<Seq<char>>) -> Seq<char>
    decreases keys.len(),
{
    if keys.len() == 0 {
        seq![]
    } else {
        unknown_keys_text(keys.drop_last(), seen) + (if seen.contains(keys.last()) {
            seq![]
        } else {
            keys.last().push('\n')
        })
    }
}

/// Remembers the keys it has seen across records.
pub struct InspectLogger {
    keys: Vec<String>,
}

impl InspectLogger {
    /// The keys seen so far.
    pub closed spec fn seen(&self) -> Set<Seq<char>> {
        texts(self.keys@).to_set()
    }

    pub fn new() -> (r: InspectLogger)
        ensures
            r.seen() == Set::<Seq<char>>::empty(),
    {
        let r = InspectLogger { keys: Vec::new() };
        assert(r.seen() =~= Set::<Seq<char>>::empty());
        r
    }

    /// The keys of `log_entry` not seen before, each on a line of its own, in key
    /// order; they count as seen afterwards.
    pub fn print_unknown_keys(&mut self, log_entry: &FlatRecord) -> (r: String)
        requires
            log_entry.wf(),
        ensures
            r@ == unknown_keys_text(log_entry.key_seq(), old(self).seen()),
            final(self).seen() == old(self).seen() + log_entry.key_seq().to_set(),
    {
        let entries = log_entry.entries();
        let ghost s = entry_views(entries@);
        let ghost ks = log_entry.key_seq();
        let ghost seen0 = self.seen();
        let mut out = String::new();
        let mut i: usize = 0;
        assert(ks.take(0) =~= Seq::<Seq<char>>::empty());
        assert(seen0 + ks.take(0).to_set() =~= seen0);
        while i < entries.len()
            invariant
                i <= entries@.len(),
                s == entry_views(entries@),
                s == log_entry.entries_view(),
                log_entry.wf(),
                ks == log_entry.key_seq(),
                self.seen() == seen0 + ks.take(i as int).to_set(),
                out@ == unknown_keys_text(ks.take(i as int), seen0),
            decreases entries.len() - i,
        {
            let key = &entries[i].0;
            assert(ks[i as int] == key@);
            assert(ks.take(i + 1).drop_last() =~= ks.take(i as int));
            assert(!ks.take(i as int).contains(key@)) by {
                if ks.take(i as int).contains(key@) {
                    let j = choose|j: int| 0 <= j < i && ks.take(i as int)[j] == key@;
                    assert(ks[j] == s[j].0);
                    assert(seq_lt(s[j].0, s[i as int].0));
                    lemma_seq_lt_irreflexive(key@);
                }
            }
            let ghost keys_before = self.keys@;
            assert(texts(keys_before).to_set() == seen0 + ks.take(i as int).to_set());
            let found = crate::log::contains_text(&self.keys, key);
            assert(texts(keys_before).to_set().contains(key@) == texts(keys_before).contains(key@));
            assert(found == seen0.contains(key@));
            if !found {
                out.append(key.as_str());
                push_char(&mut out, '\n');
                self.keys.push(key.clone());
                assert(texts(self.keys@) =~= texts(keys_before).push(key@));
            }
            assert(ks.take(i + 1) =~= ks.take(i as int).push(key@));
            assert forall|a: Seq<char>| #[trigger] self.seen().contains(a) <==> (seen0 + ks.take(i + 1).to_set()).contains(a) by {
                assert(ks.take(i + 1).contains(a) <==> (ks.take(i as int).contains(a) || a == key@)) by {
                    if ks.take(i + 1).contains(a) {
                        let t = choose|t: int| 0 <= t < i + 1 && #[trigger] ks.take(i + 1)[t] == a;
                        if t < i {
                            assert(ks.take(i as int)[t] == a);
                        }
                    }
                    if ks.take(i as int).contains(a) {
                        let t = choose|t: int| 0 <= t < i && #[trigger] ks.take(i as int)[t] == a;
                        assert(ks.take(i + 1)[t] == a);
                    }
                    assert(ks.take(i + 1)[i as int] == key@);
                }
                assert((seen0 + ks.take(i as int).to_set()).contains(a) <==> (seen0.contains(a) || ks.take(i as int).contains(a)));
                assert(texts(keys_before).to_set().contains(a) <==> texts(keys_before).contains(a));
                assert(self.seen().contains(a) <==> texts(self.keys@).contains(a));
                if found {
                    assert(self.keys@ == keys_before);
                }
                if !found {
                    assert(texts(self.keys@).contains(a) <==> (texts(keys_before).contains(a) || a == key@)) by {
                        if texts(self.keys@).contains(a) {
                            let t = choose|t: int| 0 <= t < texts(self.keys@).len() && texts(self.keys@)[t] == a;
                            if t < texts(keys_before).len() {
                                assert(texts(keys_before)[t] == a);
                            }
                        }
                        if texts(keys_before).contains(a) {
                            let t = choose|t: int| 0 <= t < texts(keys_before).len() && texts(keys_before)[t] == a;
                            assert(texts(self.keys@)[t] == a);
                        }
                        assert(texts(self.keys@)[texts(keys_before).len() as int] == key@);
                    }
                }
            }
            assert(self.seen() =~= seen0 + ks.take(i + 1).to_set());
            assert(out@ =~= unknown_keys_text(ks.take(i + 1), seen0));
            i = i + 1;
        }
        assert(ks.take(ks.len() as int) =~= ks);
        out
    }
}

} // verus!
