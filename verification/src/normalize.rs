//! The name normalizer: candidate sheet names are capped at 31 characters
//! (over-long names are cut to 28 characters plus a three-dot marker), and
//! a registry of collision counters suffixes repeated names so that each
//! produced name differs from the base it was produced from.

use vstd::prelude::*;
use vstd::string::StrSliceExecFns;
use vstd::string::StringExecFns;
use crate::chars::char_len;
use crate::chars::spec_take_chars;
use crate::chars::take_chars;
use crate::digits::dec_str;
use crate::digits::lemma_dec_str_len_u64;
use crate::digits::u64_to_dec;

verus! {

/// The three-character marker that replaces the tail of an over-long name.
pub open spec fn ellipsis() -> Seq<char> {
    seq!['.', '.', '.']
}

/// Names longer than 31 characters are cut to their first 28 characters
/// followed by the three-dot marker; shorter names pass unchanged.
pub open spec fn spec_normalize(s: Seq<char>) -> Seq<char> {
    if s.len() > 31 {
        s.take(28) + ellipsis()
    } else {
        s
    }
}

/// Brings a candidate sheet name within the 31-character cap.
pub fn normalize_sheet_name(name: &str) -> (r: String)
    ensures
        r@ == spec_normalize(name@),
        r@.len() <= 31,
{
    let n = char_len(name);
    if n > 31 {
        let mut trimmed = take_chars(name, 28);
        trimmed.append("...");
        proof {
            reveal_strlit("...");
            assert("..."@ =~= ellipsis());
        }
        trimmed
    } else {
        name.to_owned()
    }
}

/// The collision counters of one extraction or merge operation, keyed by
/// normalized base name.  A count of `k` means the base was handed out
/// `k + 1` times so far.
pub struct NameRegistry {
    entries: Vec<(String, usize)>,
}

/// The counter map an entry list denotes.
pub open spec fn entries_map(s: Seq<(String, usize)>) -> Map<Seq<char>, nat>
    decreases s.len(),
{
    if s.len() == 0 {
        Map::empty()
    } else {
        entries_map(s.drop_last()).insert(s.last().0@, s.last().1 as nat)
    }
}

impl View for NameRegistry {
    type V = Map<Seq<char>, nat>;

    closed spec fn view(&self) -> Map<Seq<char>, nat> {
        entries_map(self.entries@)
    }
}

impl NameRegistry {
    /// Keys are stored at most once.
    pub closed spec fn wf(self) -> bool {
        forall|i: int, j: int|
            0 <= i < j < self.entries@.len() ==> self.entries@[i].0@ != self.entries@[j].0@
    }

    /// A fresh registry with no counters.
    pub fn new() -> (r: NameRegistry)
        ensures
            r.wf(),
            r@ == Map::<Seq<char>, nat>::empty(),
    {
        NameRegistry { entries: Vec::new() }
    }
}

proof fn lemma_entries_map_contains(s: Seq<(String, usize)>, k: Seq<char>)
    ensures
        entries_map(s).contains_key(k) <==> (exists|i: int| 0 <= i < s.len() && s[i].0@ == k),
    decreases s.len(),
{
    if s.len() > 0 {
        lemma_entries_map_contains(s.drop_last(), k);
        if s.last().0@ == k {
            assert(s[s.len() - 1].0@ == k);
        } else if entries_map(s).contains_key(k) {
            let i = choose|i: int| 0 <= i < s.drop_last().len() && s.drop_last()[i].0@ == k;
            assert(s[i].0@ == k);
        } else if exists|i: int| 0 <= i < s.len() && s[i].0@ == k {
            let i = choose|i: int| 0 <= i < s.len() && s[i].0@ == k;
            assert(s.drop_last()[i].0@ == k);
        }
    }
}

proof fn lemma_entries_map_value(s: Seq<(String, usize)>, i: int)
    requires
        forall|a: int, b: int| 0 <= a < b < s.len() ==> s[a].0@ != s[b].0@,
        0 <= i < s.len(),
    ensures
        entries_map(s).contains_key(s[i].0@),
        entries_map(s)[s[i].0@] == s[i].1 as nat,
    decreases s.len(),
{
    if i == s.len() - 1 {
    } else {
        lemma_entries_map_value(s.drop_last(), i);
        assert(s.drop_last()[i] == s[i]);
        assert(s.last().0@ != s[i].0@);
    }
}

proof fn lemma_entries_map_update(s: Seq<(String, usize)>, i: int, pair: (String, usize))
    requires
        forall|a: int, b: int| 0 <= a < b < s.len() ==> s[a].0@ != s[b].0@,
        0 <= i < s.len(),
        pair.0@ == s[i].0@,
    ensures
        entries_map(s.update(i, pair)) == entries_map(s).insert(pair.0@, pair.1 as nat),
    decreases s.len(),
{
    let t = s.update(i, pair);
    if i == s.len() - 1 {
        assert(t.drop_last() =~= s.drop_last());
        assert(t.last() == pair);
        assert(entries_map(t) =~= entries_map(s).insert(pair.0@, pair.1 as nat));
    } else {
        lemma_entries_map_update(s.drop_last(), i, pair);
        assert(t.drop_last() =~= s.drop_last().update(i, pair));
        assert(t.last() == s.last());
        assert(s.last().0@ != pair.0@);
        assert(entries_map(t) == entries_map(s.drop_last().update(i, pair)).insert(
            s.last().0@,
            s.last().1 as nat,
        ));
        assert(entries_map(t) =~= entries_map(s).insert(pair.0@, pair.1 as nat));
    }
}

proof fn lemma_entries_map_push(s: Seq<(String, usize)>, pair: (String, usize))
    ensures
        entries_map(s.push(pair)) == entries_map(s).insert(pair.0@, pair.1 as nat),
{
    assert(s.push(pair).drop_last() =~= s);
    assert(s.push(pair).last() == pair);
}

/// Index of the entry whose key reads `key`, if any.
fn find_entry(entries: &Vec<(String, usize)>, key: &String) -> (r: Option<usize>)
    ensures
        match r {
            Some(i) => i < entries@.len() && entries@[i as int].0@ == key@,
            None => forall|i: int| 0 <= i < entries@.len() ==> entries@[i].0@ != key@,
        },
{
    let mut i: usize = 0;
    while i < entries.len()
        invariant
            i <= entries@.len(),
            forall|k: int| 0 <= k < i ==> entries@[k].0@ != key@,
        decreases entries@.len() - i,
    {
        if entries[i].0 == *key {
            return Some(i);
        }
        i += 1;
    }
    None
}

/// The underscore-and-counter suffix for the `k`-th reuse of a base.
pub open spec fn spec_suffix(k: nat) -> Seq<char> {
    seq!['_'] + dec_str(k)
}

/// A base name with the `k`-th collision suffix, the base cut from the
/// front as far as needed for the whole to fit in 31 characters.
pub open spec fn spec_suffixed(nb: Seq<char>, k: nat) -> Seq<char> {
    let suf = spec_suffix(k);
    let maxb: int = if suf.len() > 31 {
        0
    } else {
        31 - suf.len()
    };
    spec_take_chars(nb, maxb) + suf
}

/// The name `unique_sheet_name` hands out for `base` against counters `m`.
pub open spec fn spec_unique_name(base: Seq<char>, m: Map<Seq<char>, nat>) -> Seq<char> {
    let nb = spec_normalize(base);
    if m.contains_key(nb) {
        spec_suffixed(nb, m[nb] + 1)
    } else {
        nb
    }
}

/// The counters after `unique_sheet_name` handled `base`.
pub open spec fn spec_register(base: Seq<char>, m: Map<Seq<char>, nat>) -> Map<Seq<char>, nat> {
    let nb = spec_normalize(base);
    if m.contains_key(nb) {
        m.insert(nb, m[nb] + 1)
    } else {
        m.insert(nb, 0)
    }
}

/// Normalizes `base` and makes the result unique against the registry: the
/// first use of a normalized base returns it unchanged, every further use
/// appends `_1`, `_2`, ... , shortening the base when needed so the result
/// stays within 31 characters.
pub fn unique_sheet_name(base: &str, counts: &mut NameRegistry) -> (name: String)
    requires
        old(counts).wf(),
        old(counts)@.contains_key(spec_normalize(base@)) ==> old(counts)@[spec_normalize(base@)]
            < usize::MAX as nat,
    ensures
        final(counts).wf(),
        name@ == spec_unique_name(base@, old(counts)@),
        final(counts)@ == spec_register(base@, old(counts)@),
        name@.len() <= 31,
{
    let nb = normalize_sheet_name(base);
    match find_entry(&counts.entries, &nb) {
        Some(i) => {
            proof {
                lemma_entries_map_value(counts.entries@, i as int);
            }
            let c: usize = counts.entries[i].1;
            let c1: usize = c + 1;
            proof {
                assert(c1 as nat <= u64::MAX as nat);
                lemma_dec_str_len_u64(c1 as nat);
            }
            let digits = u64_to_dec(c1 as u64);
            let mut suffix = "_".to_owned();
            suffix.append(digits.as_str());
            proof {
                reveal_strlit("_");
                assert(suffix@ =~= spec_suffix(c1 as nat));
            }
            let suf_len = char_len(suffix.as_str());
            let max_base: usize = if suf_len > 31 {
                0
            } else {
                31 - suf_len
            };
            let trimmed = take_chars(nb.as_str(), max_base);
            let name = trimmed.concat(suffix.as_str());
            counts.entries.set(i, (nb, c1));
            proof {
                let pair = counts.entries@[i as int];
                assert(counts.entries@ == old(counts).entries@.update(i as int, pair));
                lemma_entries_map_update(old(counts).entries@, i as int, pair);
                assert forall|a: int, b: int|
                    0 <= a < b < counts.entries@.len() implies counts.entries@[a].0@
                    != counts.entries@[b].0@ by {
                    assert(counts.entries@[a].0@ == old(counts).entries@[a].0@);
                    assert(counts.entries@[b].0@ == old(counts).entries@[b].0@);
                }
            }
            name
        },
        None => {
            proof {
                lemma_entries_map_contains(counts.entries@, nb@);
                assert(!old(counts)@.contains_key(nb@));
            }
            let key = nb.clone();
            counts.entries.push((key, 0));
            proof {
                let pair = counts.entries@.last();
                assert(counts.entries@ == old(counts).entries@.push(pair));
                lemma_entries_map_push(old(counts).entries@, pair);
                assert(pair.0@ == nb@);
                assert forall|a: int, b: int|
                    0 <= a < b < counts.entries@.len() implies counts.entries@[a].0@
                    != counts.entries@[b].0@ by {
                    assert(counts.entries@[a] == old(counts).entries@[a]);
                    if b < counts.entries@.len() - 1 {
                        assert(counts.entries@[b] == old(counts).entries@[b]);
                    }
                }
            }
            nb
        },
    }
}

} // verus!
