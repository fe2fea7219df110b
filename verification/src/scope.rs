//! Scopes and their derivation. A scope is the flat key-value mapping being
//! decoded at one level of nesting: the entry list of an object-shaped
//! [`crate::value::Value`]. A nested field with prefix `p` selects from the
//! parent scope exactly the entries whose key starts with `p` followed by
//! the separator `_`, and sees them under the remainder of the key.

use vstd::prelude::*;

use crate::value::{entries_view, lemma_entries_view, value_view, EntryView, Value, ValueView};

verus! {

broadcast use vstd::seq::group_seq_axioms;

/// The character that joins a prefix to the rest of a flattened key.
pub const SEPARATOR: char = '_';

/// The full matching prefix of a nested field: its declared prefix with the
/// separator appended. A key equal to the bare prefix is never matched.
pub open spec fn match_prefix(prefix: Seq<char>) -> Seq<char> {
    prefix.push(SEPARATOR)
}

/// Whether `key` starts with the pattern `pat`.
pub open spec fn prefixed(key: Seq<char>, pat: Seq<char>) -> bool {
    pat.len() <= key.len() && key.subrange(0, pat.len() as int) == pat
}

/// `key` with its leading `pat` removed.
pub open spec fn strip_prefix(key: Seq<char>, pat: Seq<char>) -> Seq<char> {
    key.subrange(pat.len() as int, key.len() as int)
}

/// The child scope derived from `entries` for the full matching prefix
/// `pat`: the entries whose key starts with `pat`, in order, each seen
/// under its key with the leading `pat` removed. Non-matching entries are
/// dropped; the parent is read, never changed.
pub open spec fn derive_entries(entries: Seq<EntryView>, pat: Seq<char>) -> Seq<EntryView>
    decreases entries.len(),
{
    if entries.len() == 0 {
        Seq::empty()
    } else {
        let rest = derive_entries(entries.drop_last(), pat);
        if prefixed(entries.last().0, pat) {
            rest.push((strip_prefix(entries.last().0, pat), entries.last().1))
        } else {
            rest
        }
    }
}

/// The value under `name` in `entries`: the first entry whose key is
/// exactly `name`, if any.
pub open spec fn lookup(entries: Seq<EntryView>, name: Seq<char>) -> Option<ValueView>
    decreases entries.len(),
{
    if entries.len() == 0 {
        None
    } else if entries.first().0 == name {
        Some(entries.first().1)
    } else {
        lookup(entries.drop_first(), name)
    }
}

/// Whether two string slices hold the same characters.
pub fn str_eq(a: &str, b: &str) -> (r: bool)
    ensures
        r == (a@ == b@),
{
    let al = a.unicode_len();
    let bl = b.unicode_len();
    if al != bl {
        return false;
    }
    let mut i: usize = 0;
    while i < al
        invariant
            al == a@.len(),
            al == b@.len(),
            i <= al,
            forall|j: int| 0 <= j < i ==> a@[j] == b@[j],
        decreases al - i,
    {
        if a.get_char(i) != b.get_char(i) {
            return false;
        }
        i = i + 1;
    }
    proof {
        assert(a@ =~= b@);
    }
    true
}

/// Whether `key` starts with the characters of `pat`.
pub fn str_starts_with(key: &str, pat: &str) -> (r: bool)
    ensures
        r == prefixed(key@, pat@),
{
    let pl = pat.unicode_len();
    let kl = key.unicode_len();
    if kl < pl {
        return false;
    }
    let mut i: usize = 0;
    while i < pl
        invariant
            pl == pat@.len(),
            kl == key@.len(),
            pl <= kl,
            i <= pl,
            forall|j: int| 0 <= j < i ==> key@[j] == pat@[j],
        decreases pl - i,
    {
        if key.get_char(i) != pat.get_char(i) {
            proof {
                assert(key@.subrange(0, pl as int) != pat@) by {
                    assert(key@.subrange(0, pl as int)[i as int] == key@[i as int]);
                }
            }
            return false;
        }
        i = i + 1;
    }
    proof {
        assert(key@.subrange(0, pl as int) =~= pat@);
    }
    true
}

/// Whether the matching prefixes of `a` and `b` overlap: the one is a
/// prefix of the other, so keys selected for the one could be captured by
/// the other.
pub fn prefixes_overlap(a: &str, b: &str) -> (r: bool)
    ensures
        r == (prefixed(match_prefix(a@), match_prefix(b@)) || prefixed(
            match_prefix(b@),
            match_prefix(a@),
        )),
{
    let mut af = a.to_owned();
    af.append("_");
    let mut bf = b.to_owned();
    bf.append("_");
    proof {
        reveal_strlit("_");
        assert(af@ =~= match_prefix(a@));
        assert(bf@ =~= match_prefix(b@));
    }
    let forward = str_starts_with(af.as_str(), bf.as_str());
    let backward = str_starts_with(bf.as_str(), af.as_str());
    forward || backward
}

/// Whether `key` starts with `prefix` followed by the separator.
pub fn key_matches_prefix(key: &str, prefix: &str) -> (r: bool)
    ensures
        r == prefixed(key@, match_prefix(prefix@)),
{
    let pl = prefix.unicode_len();
    let kl = key.unicode_len();
    if kl <= pl {
        return false;
    }
    let mut i: usize = 0;
    while i < pl
        invariant
            pl == prefix@.len(),
            kl == key@.len(),
            pl < kl,
            i <= pl,
            forall|j: int| 0 <= j < i ==> key@[j] == prefix@[j],
        decreases pl - i,
    {
        if key.get_char(i) != prefix.get_char(i) {
            proof {
                assert(key@.subrange(0, pl + 1) != match_prefix(prefix@)) by {
                    assert(key@.subrange(0, pl + 1)[i as int] == key@[i as int]);
                    assert(match_prefix(prefix@)[i as int] == prefix@[i as int]);
                }
            }
            return false;
        }
        i = i + 1;
    }
    let sep = key.get_char(pl);
    proof {
        if sep == SEPARATOR {
            assert(key@.subrange(0, pl + 1) =~= match_prefix(prefix@));
        } else {
            assert(key@.subrange(0, pl + 1) != match_prefix(prefix@)) by {
                assert(key@.subrange(0, pl + 1)[pl as int] == key@[pl as int]);
                assert(match_prefix(prefix@)[pl as int] == SEPARATOR);
            }
        }
    }
    sep == SEPARATOR
}

/// `key` with the leading `prefix` and separator removed.
pub fn strip_key(key: &str, prefix: &str) -> (out: String)
    requires
        prefixed(key@, match_prefix(prefix@)),
    ensures
        out@ == strip_prefix(key@, match_prefix(prefix@)),
{
    let pl = prefix.unicode_len();
    let kl = key.unicode_len();
    key.substring_char(pl + 1, kl).to_owned()
}

/// Derives the child scope of `entries` for `prefix`: selects the entries
/// whose key starts with `prefix` and the separator, strips that lead from
/// each key, and copies the values into a fresh, independently owned list.
/// The parent is only read.
pub fn derive_scope(entries: &Vec<(String, Value)>, prefix: &str) -> (out: Vec<(String, Value)>)
    ensures
        entries_view(out@) == derive_entries(entries_view(entries@), match_prefix(prefix@)),
{
    let ghost sv = entries_view(entries@);
    let ghost pat = match_prefix(prefix@);
    let mut out: Vec<(String, Value)> = Vec::new();
    let n = entries.len();
    proof {
        lemma_entries_view(entries@);
    }
    let mut i: usize = 0;
    while i < n
        invariant
            n == entries@.len(),
            n == sv.len(),
            i <= n,
            sv == entries_view(entries@),
            pat == match_prefix(prefix@),
            entries_view(out@) == derive_entries(sv.subrange(0, i as int), pat),
        decreases n - i,
    {
        proof {
            lemma_entries_view(entries@);
        }
        let key: &String = &entries[i].0;
        if key_matches_prefix(key.as_str(), prefix) {
            let stripped = strip_key(key.as_str(), prefix);
            let copied = entries[i].1.deep_copy();
            let ghost old_out = out@;
            out.push((stripped, copied));
            proof {
                lemma_entries_view_push(old_out, (stripped, copied));
                assert(sv.subrange(0, i + 1).drop_last() =~= sv.subrange(0, i as int));
                assert(sv.subrange(0, i + 1).last() == sv[i as int]);
            }
        } else {
            proof {
                assert(sv.subrange(0, i + 1).drop_last() =~= sv.subrange(0, i as int));
                assert(sv.subrange(0, i + 1).last() == sv[i as int]);
            }
        }
        i = i + 1;
    }
    proof {
        assert(sv.subrange(0, n as int) =~= sv);
    }
    out
}

/// A reference to the value under `name` in `entries`, at the first entry
/// whose key is exactly `name`.
pub fn lookup_value<'a>(entries: &'a Vec<(String, Value)>, name: &str) -> (res: Option<
    &'a Value,
>)
    ensures
        match res {
            Some(v) => lookup(entries_view(entries@), name@) == Some(v@),
            None => lookup(entries_view(entries@), name@) is None,
        },
{
    let ghost sv = entries_view(entries@);
    let n = entries.len();
    proof {
        lemma_entries_view(entries@);
        assert(sv.subrange(0, n as int) =~= sv);
    }
    let mut i: usize = 0;
    while i < n
        invariant
            n == entries@.len(),
            n == sv.len(),
            i <= n,
            sv == entries_view(entries@),
            lookup(sv, name@) == lookup(sv.subrange(i as int, n as int), name@),
        decreases n - i,
    {
        proof {
            lemma_entries_view(entries@);
        }
        if str_eq(entries[i].0.as_str(), name) {
            proof {
                assert(sv.subrange(i as int, n as int).first() == sv[i as int]);
            }
            return Some(&entries[i].1);
        }
        proof {
            assert(sv.subrange(i as int, n as int).first() == sv[i as int]);
            assert(sv.subrange(i as int, n as int).drop_first() =~= sv.subrange(
                i + 1,
                n as int,
            ));
        }
        i = i + 1;
    }
    proof {
        assert(sv.subrange(n as int, n as int).len() == 0);
    }
    None
}

impl Value {
    /// The value under `key` when this value is an object that holds one:
    /// the first entry whose key is exactly `key`.
    pub fn get(&self, key: &str) -> (res: Option<&Value>)
        ensures
            match res {
                Option::Some(v) => self@ is Obj && lookup(self@->Obj_0, key@) == Option::Some(
                    v@,
                ),
                Option::None => self@ is Obj ==> lookup(self@->Obj_0, key@) is None,
            },
    {
        match self {
            Value::Obj(entries) => lookup_value(entries, key),
            _ => Option::None,
        }
    }
}

/// Pushing an entry extends its modelled entry list by the entry's model.
pub proof fn lemma_entries_view_push(s: Seq<(String, Value)>, p: (String, Value))
    ensures
        entries_view(s.push(p)) == entries_view(s).push((p.0@, value_view(p.1))),
{
    assert(s.push(p).drop_last() =~= s);
    assert(s.push(p).last() == p);
}

/// Whether the keys of an entry list are pairwise distinct, as the keys of
/// a mapping are.
pub open spec fn keys_unique(entries: Seq<EntryView>) -> bool {
    forall|i: int, j: int|
        0 <= i < j < entries.len() ==> (#[trigger] entries[i]).0 != (#[trigger] entries[j]).0
}

/// Two keys that carry the same pattern and agree after stripping it were
/// the same key.
pub proof fn lemma_strip_injective(a: Seq<char>, b: Seq<char>, pat: Seq<char>)
    requires
        prefixed(a, pat),
        prefixed(b, pat),
        strip_prefix(a, pat) == strip_prefix(b, pat),
    ensures
        a == b,
{
    assert(a =~= pat + strip_prefix(a, pat));
    assert(b =~= pat + strip_prefix(b, pat));
}

/// Every derived entry comes from a matching parent entry: its key is the
/// parent key with the pattern stripped, its value the parent value.
pub proof fn lemma_derive_provenance(entries: Seq<EntryView>, pat: Seq<char>)
    ensures
        forall|t: int|
            0 <= t < derive_entries(entries, pat).len() ==> exists|s: int|
                0 <= s < entries.len() && prefixed(#[trigger] entries[s].0, pat)
                    && #[trigger] derive_entries(entries, pat)[t] == (
                    strip_prefix(entries[s].0, pat),
                    entries[s].1,
                ),
    decreases entries.len(),
{
    if entries.len() > 0 {
        lemma_derive_provenance(entries.drop_last(), pat);
        let rest = derive_entries(entries.drop_last(), pat);
        assert forall|t: int|
            0 <= t < derive_entries(entries, pat).len() implies exists|s: int|
            0 <= s < entries.len() && prefixed(#[trigger] entries[s].0, pat)
                && #[trigger] derive_entries(entries, pat)[t] == (
                strip_prefix(entries[s].0, pat),
                entries[s].1,
            ) by {
            if t < rest.len() {
                let s = choose|s: int|
                    0 <= s < entries.drop_last().len() && prefixed(
                        entries.drop_last()[s].0,
                        pat,
                    ) && rest[t] == (
                        strip_prefix(entries.drop_last()[s].0, pat),
                        entries.drop_last()[s].1,
                    );
                assert(entries.drop_last()[s] == entries[s]);
                assert(prefixed(entries[s].0, pat) && derive_entries(entries, pat)[t] == (
                    strip_prefix(entries[s].0, pat),
                    entries[s].1,
                ));
            } else {
                let s = entries.len() - 1;
                assert(entries.last() == entries[s]);
                assert(prefixed(entries[s].0, pat) && derive_entries(entries, pat)[t] == (
                    strip_prefix(entries[s].0, pat),
                    entries[s].1,
                ));
            }
        }
    }
}

/// Derivation keeps the scope a mapping: when the parent's keys are
/// pairwise distinct, so are the derived child's, because stripping the
/// same pattern from distinct keys leaves them distinct.
pub proof fn lemma_derive_preserves_unique_keys(entries: Seq<EntryView>, pat: Seq<char>)
    requires
        keys_unique(entries),
    ensures
        keys_unique(derive_entries(entries, pat)),
    decreases entries.len(),
{
    if entries.len() > 0 {
        assert forall|i: int, j: int|
            0 <= i < j < entries.drop_last().len() implies (#[trigger] entries.drop_last()[i]).0
            != (#[trigger] entries.drop_last()[j]).0 by {
            assert(entries.drop_last()[i] == entries[i]);
            assert(entries.drop_last()[j] == entries[j]);
        }
        lemma_derive_preserves_unique_keys(entries.drop_last(), pat);
        let rest = derive_entries(entries.drop_last(), pat);
        let last = entries.last();
        if prefixed(last.0, pat) {
            lemma_derive_provenance(entries.drop_last(), pat);
            assert forall|t: int| 0 <= t < rest.len() implies (#[trigger] rest[t]).0
                != strip_prefix(last.0, pat) by {
                let s = choose|s: int|
                    0 <= s < entries.drop_last().len() && prefixed(
                        entries.drop_last()[s].0,
                        pat,
                    ) && rest[t] == (
                        strip_prefix(entries.drop_last()[s].0, pat),
                        entries.drop_last()[s].1,
                    );
                assert(entries.drop_last()[s] == entries[s]);
                assert(entries.last() == entries[entries.len() - 1]);
                if rest[t].0 == strip_prefix(last.0, pat) {
                    lemma_strip_injective(entries[s].0, last.0, pat);
                    assert(false);
                }
            }
            assert forall|i: int, j: int|
                0 <= i < j < derive_entries(entries, pat).len() implies (
            #[trigger] derive_entries(entries, pat)[i]).0 != (#[trigger] derive_entries(
                entries,
                pat,
            )[j]).0 by {
                if j < rest.len() {
                    assert(rest[i] == derive_entries(entries, pat)[i]);
                    assert(rest[j] == derive_entries(entries, pat)[j]);
                } else {
                    assert(rest[i] == derive_entries(entries, pat)[i]);
                }
            }
        }
    }
}
} // verus!
