//! Keyed running totals: a sequence of `(key, amount)` items folded into one
//! entry per key, and the entries put in the order of their keys.

use vstd::prelude::*;

use crate::seqs::{first_where, lemma_first_where, lemma_first_where_at, lemma_first_where_none};
use crate::text::{lemma_str_lt_order, str_eq, str_lt, str_lt_spec};

verus! {

/// An entry whose key is `k`.
pub open spec fn key_is(k: Seq<char>) -> spec_fn((Seq<char>, int)) -> bool {
    |e: (Seq<char>, int)| e.0 == k
}

/// Adds one item to the totals: its amount joins the entry of its key, or a new
/// entry is appended when the key is not there yet.
pub open spec fn merge_item(t: Seq<(Seq<char>, int)>, item: (Seq<char>, int)) -> Seq<(Seq<char>, int)> {
    match first_where(t, key_is(item.0)) {
        Some(j) => t.update(j, (t[j].0, t[j].1 + item.1)),
        None => t.push(item),
    }
}

/// The totals of a sequence of items, one entry per key, in the order in which
/// each key first appears among the items.
pub open spec fn tally(items: Seq<(Seq<char>, int)>) -> Seq<(Seq<char>, int)>
    decreases items.len(),
{
    if items.len() == 0 {
        seq![]
    } else {
        merge_item(tally(items.drop_last()), items.last())
    }
}

/// Whether no key occurs twice.
pub open spec fn keys_distinct(t: Seq<(Seq<char>, int)>) -> bool {
    forall|i: int, j: int| 0 <= i < j < t.len() ==> #[trigger] t[i].0 != #[trigger] t[j].0
}

/// `b` holds the keys of `a` first, in the same order, each with an amount at
/// least as large.
pub open spec fn grows_into(a: Seq<(Seq<char>, int)>, b: Seq<(Seq<char>, int)>) -> bool {
    &&& a.len() <= b.len()
    &&& forall|j: int| 0 <= j < a.len() ==> b[j].0 == (#[trigger] a[j]).0 && a[j].1 <= b[j].1
}

/// Whether every amount is non-negative.
pub open spec fn amounts_nonneg(items: Seq<(Seq<char>, int)>) -> bool {
    forall|i: int| 0 <= i < items.len() ==> (#[trigger] items[i]).1 >= 0
}

/// Whether every total is at most `bound`.
pub open spec fn totals_at_most(t: Seq<(Seq<char>, int)>, bound: int) -> bool {
    forall|j: int| 0 <= j < t.len() ==> (#[trigger] t[j]).1 <= bound
}

/// One more item of a prefix is one more merge.
pub proof fn lemma_tally_step(items: Seq<(Seq<char>, int)>, i: int)
    requires
        0 <= i < items.len(),
    ensures
        tally(items.take(i + 1)) == merge_item(tally(items.take(i)), items[i]),
{
    assert(items.take(i + 1).drop_last() =~= items.take(i));
}

/// Merging an item keeps the keys distinct and only grows the totals.
pub proof fn lemma_merge_item(t: Seq<(Seq<char>, int)>, item: (Seq<char>, int))
    requires
        keys_distinct(t),
        item.1 >= 0,
    ensures
        keys_distinct(merge_item(t, item)),
        grows_into(t, merge_item(t, item)),
{
    lemma_first_where(t, key_is(item.0));
    let m = merge_item(t, item);
    if first_where(t, key_is(item.0)) is None {
        assert forall|i: int, j: int| 0 <= i < j < m.len() implies #[trigger] m[i].0 != #[trigger] m[j].0 by {
            if j == t.len() {
                assert(!key_is(item.0)(t[i]));
            }
        }
    }
}

/// The totals keep their keys distinct.
pub proof fn lemma_tally_distinct(items: Seq<(Seq<char>, int)>)
    requires
        amounts_nonneg(items),
    ensures
        keys_distinct(tally(items)),
    decreases items.len(),
{
    if items.len() > 0 {
        let prefix = items.drop_last();
        assert(amounts_nonneg(prefix)) by {
            assert forall|i: int| 0 <= i < prefix.len() implies (#[trigger] prefix[i]).1 >= 0 by {
                assert(prefix[i] == items[i]);
            }
        }
        lemma_tally_distinct(prefix);
        lemma_merge_item(tally(prefix), items.last());
    }
}

/// The totals of a prefix grow into the totals of the whole sequence.
pub proof fn lemma_tally_prefix(items: Seq<(Seq<char>, int)>, i: int)
    requires
        amounts_nonneg(items),
        0 <= i <= items.len(),
    ensures
        grows_into(tally(items.take(i)), tally(items)),
    decreases items.len() - i,
{
    if i == items.len() {
        assert(items.take(i) =~= items);
    } else {
        lemma_tally_prefix(items, i + 1);
        lemma_tally_step(items, i);
        let prefix = items.take(i);
        assert(amounts_nonneg(prefix)) by {
            assert forall|k: int| 0 <= k < prefix.len() implies (#[trigger] prefix[k]).1 >= 0 by {
                assert(prefix[k] == items[k]);
            }
        }
        lemma_tally_distinct(prefix);
        lemma_merge_item(tally(prefix), items[i]);
    }
}

/// The sum of all amounts.
pub open spec fn total(items: Seq<(Seq<char>, int)>) -> int
    decreases items.len(),
{
    if items.len() == 0 {
        0
    } else {
        total(items.drop_last()) + items.last().1
    }
}

/// Replacing one entry changes the sum by the difference of the amounts.
proof fn lemma_total_update(t: Seq<(Seq<char>, int)>, j: int, x: (Seq<char>, int))
    requires
        0 <= j < t.len(),
    ensures
        total(t.update(j, x)) == total(t) - t[j].1 + x.1,
    decreases t.len(),
{
    let u = t.update(j, x);
    if j == t.len() - 1 {
        assert(u.drop_last() =~= t.drop_last());
    } else {
        assert(u.drop_last() =~= t.drop_last().update(j, x));
        lemma_total_update(t.drop_last(), j, x);
    }
}

/// Totalling keeps the sum of the amounts: nothing is lost or counted twice.
pub proof fn lemma_tally_conserves(items: Seq<(Seq<char>, int)>)
    ensures
        total(tally(items)) == total(items),
    decreases items.len(),
{
    if items.len() > 0 {
        let prev = tally(items.drop_last());
        lemma_tally_conserves(items.drop_last());
        let item = items.last();
        match first_where(prev, key_is(item.0)) {
            Some(j) => {
                lemma_first_where(prev, key_is(item.0));
                lemma_total_update(prev, j, (prev[j].0, prev[j].1 + item.1));
            },
            None => {
                assert(prev.push(item).drop_last() =~= prev);
            },
        }
    }
}

/// Running totals kept as entries in the order of their keys.
pub struct Tally<V> {
    pub entries: Vec<(&'static str, V)>,
}

/// An entry of a `Tally` whose key is `key`.
pub open spec fn entry_key_is<V>(key: Seq<char>) -> spec_fn((&'static str, V)) -> bool {
    |e: (&'static str, V)| e.0@ == key
}

/// The index of the entry whose key is `key`, if any.
pub open spec fn entry_index<V>(entries: Seq<(&'static str, V)>, key: Seq<char>) -> Option<int> {
    first_where(entries, entry_key_is::<V>(key))
}

/// Finds the entry whose key is `key`.
pub fn find_entry<V>(entries: &Vec<(&'static str, V)>, key: &str) -> (r: Option<usize>)
    ensures
        match r {
            Some(i) => entry_index(entries@, key@) == Some(i as int) && i < entries@.len(),
            None => entry_index(entries@, key@) is None,
        },
{
    let ghost p = entry_key_is::<V>(key@);
    let mut i: usize = 0;
    while i < entries.len()
        invariant
            i <= entries@.len(),
            p == entry_key_is::<V>(key@),
            forall|j: int| 0 <= j < i ==> !p(#[trigger] entries@[j]),
        decreases entries@.len() - i,
    {
        if str_eq(entries[i].0, key) {
            proof { lemma_first_where_at(entries@, p, i as int); }
            return Some(i);
        }
        i = i + 1;
    }
    proof { lemma_first_where_none(entries@, p); }
    None
}

/// Whether the entries come in the order of their keys, each key before the next.
pub open spec fn keys_ascending<V>(entries: Seq<(&'static str, V)>) -> bool {
    forall|i: int, j: int|
        0 <= i < j < entries.len() ==> str_lt_spec((#[trigger] entries[i]).0@, (#[trigger] entries[j]).0@)
}

/// Whether `sorted` holds the entries of `entries`, each once, in the order of
/// their keys.
pub open spec fn sorted_from<V>(sorted: Seq<(&'static str, V)>, entries: Seq<(&'static str, V)>) -> bool {
    &&& keys_ascending(sorted)
    &&& sorted.len() == entries.len()
    &&& forall|i: int| 0 <= i < sorted.len() ==> entries.contains(#[trigger] sorted[i])
    &&& forall|j: int| 0 <= j < entries.len() ==> sorted.contains(#[trigger] entries[j])
}

/// Whether no two entries share a key.
pub open spec fn entry_keys_distinct<V>(entries: Seq<(&'static str, V)>) -> bool {
    forall|i: int, j: int|
        0 <= i < j < entries.len() ==> #[trigger] entries[i].0@ != #[trigger] entries[j].0@
}

/// Entries in key order have distinct keys.
pub proof fn lemma_ascending_distinct<V>(entries: Seq<(&'static str, V)>)
    requires
        keys_ascending(entries),
    ensures
        forall|i: int, j: int|
            0 <= i < j < entries.len() ==> #[trigger] entries[i].0@ != #[trigger] entries[j].0@,
{
    assert forall|i: int, j: int| 0 <= i < j < entries.len() implies #[trigger] entries[i].0@
        != #[trigger] entries[j].0@ by {
        lemma_str_lt_order(entries[i].0@, entries[i].0@, entries[i].0@);
    }
}

/// The entries reordered by key, as a `BTreeMap` keyed by them yields them.
pub fn sort_by_key<V: Copy>(entries: &Vec<(&'static str, V)>) -> (r: Vec<(&'static str, V)>)
    requires
        entry_keys_distinct(entries@),
    ensures
        sorted_from(r@, entries@),
{
    let mut out: Vec<(&'static str, V)> = Vec::new();
    let mut k: usize = 0;
    while k < entries.len()
        invariant
            k <= entries@.len(),
            entry_keys_distinct(entries@),
            keys_ascending(out@),
            out@.len() == k,
            forall|i: int| 0 <= i < out@.len() ==> entries@.take(k as int).contains(#[trigger] out@[i]),
            forall|j: int| 0 <= j < k ==> out@.contains(#[trigger] entries@[j]),
        decreases entries@.len() - k,
    {
        let x = entries[k];
        let mut p: usize = 0;
        while p < out.len() && str_lt(out[p].0, x.0)
            invariant
                p <= out@.len(),
                forall|i: int| 0 <= i < p ==> str_lt_spec((#[trigger] out@[i]).0@, x.0@),
            decreases out@.len() - p,
        {
            p = p + 1;
        }
        let ghost before = out@;
        proof {
            if p < before.len() {
                let w = choose|j: int| 0 <= j < entries@.take(k as int).len() && entries@.take(k as int)[j] == before[p as int];
                assert(entries@[w] == before[p as int]);
                assert(entries@[w].0@ != x.0@);
                lemma_str_lt_order(x.0@, before[p as int].0@, x.0@);
            }
        }
        out.insert(p, x);
        proof {
            assert forall|i: int, j: int| 0 <= i < j < out@.len() implies str_lt_spec(
                (#[trigger] out@[i]).0@,
                (#[trigger] out@[j]).0@,
            ) by {
                if j < p {
                    assert(out@[i] == before[i] && out@[j] == before[j]);
                } else if j == p {
                    assert(out@[i] == before[i]);
                } else if i == p {
                    assert(out@[j] == before[j - 1]);
                    if j - 1 > p {
                        lemma_str_lt_order(x.0@, before[p as int].0@, before[j - 1].0@);
                    }
                } else if i < p {
                    assert(out@[i] == before[i] && out@[j] == before[j - 1]);
                } else {
                    assert(out@[i] == before[i - 1] && out@[j] == before[j - 1]);
                }
            }
            assert forall|i: int| 0 <= i < out@.len() implies entries@.take(k + 1).contains(#[trigger] out@[i]) by {
                if i == p {
                    assert(entries@.take(k + 1)[k as int] == x);
                } else {
                    let b = if i < p { before[i] } else { before[i - 1] };
                    assert(out@[i] == b);
                    let w = choose|j: int| 0 <= j < entries@.take(k as int).len() && entries@.take(k as int)[j] == b;
                    assert(entries@.take(k + 1)[w] == b);
                }
            }
            assert forall|j: int| 0 <= j < k + 1 implies out@.contains(#[trigger] entries@[j]) by {
                if j == k {
                    assert(out@[p as int] == x);
                } else {
                    let w = choose|i: int| 0 <= i < before.len() && before[i] == entries@[j];
                    if w < p {
                        assert(out@[w] == before[w]);
                    } else {
                        assert(out@[w + 1] == before[w]);
                    }
                }
            }
        }
        k = k + 1;
    }
    assert(entries@.take(entries@.len() as int) =~= entries@);
    out
}

impl<V> Tally<V> {
    /// The invariant of a tally: its entries in the order of their keys, so
    /// that no key occurs twice.
    pub open spec fn wf(&self) -> bool {
        &&& keys_ascending(self.entries@)
        &&& entry_keys_distinct(self.entries@)
    }

    /// The number of distinct keys.
    pub fn len(&self) -> (r: usize)
        ensures
            r == self.entries@.len(),
    {
        self.entries.len()
    }

    /// The total kept for `key`, if the key occurs.
    pub fn get(&self, key: &str) -> (r: Option<&V>)
        ensures
            match entry_index(self.entries@, key@) {
                Some(i) => r == Some(&self.entries@[i].1),
                None => r is None,
            },
    {
        match find_entry(&self.entries, key) {
            Some(i) => Some(&self.entries[i].1),
            None => None,
        }
    }
}

} // verus!
