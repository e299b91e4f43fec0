//! Per-node timing and op counting for the graph walker, and the aggregates a
//! report reads from it. Times are whole nanoseconds.

use vstd::prelude::*;

use crate::tally::{
    keys_distinct, lemma_tally_distinct, lemma_tally_prefix,
    lemma_tally_step, lemma_tally_conserves, total, amounts_nonneg, key_is, merge_item, tally, totals_at_most,
    entry_index, entry_key_is, find_entry, lemma_ascending_distinct, sort_by_key, sorted_from, Tally,
};
use crate::seqs::{first_where, lemma_first_where, lemma_first_where_at, lemma_first_where_none};

verus! {

/// One node's measured execution: how long it took to build and to evaluate, the
/// tensor shapes it saw, and the backend's own cost counters for it.
pub struct NodeProfile {
    pub name: String,
    pub op_type: &'static str,
    /// Nanoseconds spent building the op.
    pub build: u128,
    /// Nanoseconds spent evaluating the op.
    pub eval: u128,
    pub input_lens: Vec<usize>,
    pub output_len: usize,
    /// Backend-declared cost counters; their names are opaque to the walker.
    pub counters: Vec<(&'static str, u64)>,
}

/// A whole graph walk, node by node, in evaluation order.
pub struct GraphProfile {
    pub backend: &'static str,
    /// Nanoseconds for the whole walk.
    pub total: u128,
    pub nodes: Vec<NodeProfile>,
}

/// Aggregated build and eval time (nanoseconds) and call count for one op type.
#[derive(Debug, Clone, Copy, PartialEq, Eq)]
pub struct OpTypeStats {
    pub calls: u32,
    pub build: u128,
    pub eval: u128,
}

/// One call of each node's op type.
pub open spec fn call_items(nodes: Seq<NodeProfile>) -> Seq<(Seq<char>, int)> {
    nodes.map_values(|n: NodeProfile| (n.op_type@, 1int))
}

/// Each node's build time under its op type.
pub open spec fn build_items(nodes: Seq<NodeProfile>) -> Seq<(Seq<char>, int)> {
    nodes.map_values(|n: NodeProfile| (n.op_type@, n.build as int))
}

/// Each node's eval time under its op type.
pub open spec fn eval_items(nodes: Seq<NodeProfile>) -> Seq<(Seq<char>, int)> {
    nodes.map_values(|n: NodeProfile| (n.op_type@, n.eval as int))
}

/// A node's counters as items.
pub open spec fn counter_model(cs: Seq<(&'static str, u64)>) -> Seq<(Seq<char>, int)> {
    cs.map_values(|c: (&'static str, u64)| (c.0@, c.1 as int))
}

/// Every node's counters, node after node.
pub open spec fn counter_items(nodes: Seq<NodeProfile>) -> Seq<(Seq<char>, int)>
    decreases nodes.len(),
{
    if nodes.len() == 0 {
        seq![]
    } else {
        counter_items(nodes.drop_last()) + counter_model(nodes.last().counters@)
    }
}

/// Whether the per-op-type sums fit the fields of `OpTypeStats`.
pub open spec fn op_stats_fit(nodes: Seq<NodeProfile>) -> bool {
    &&& totals_at_most(tally(call_items(nodes)), u32::MAX as int)
    &&& totals_at_most(tally(build_items(nodes)), u128::MAX as int)
    &&& totals_at_most(tally(eval_items(nodes)), u128::MAX as int)
}

/// The entries hold the three tallies: keys and calls, build and eval totals.
pub open spec fn stats_match(
    entries: Seq<(&'static str, OpTypeStats)>,
    calls: Seq<(Seq<char>, int)>,
    builds: Seq<(Seq<char>, int)>,
    evals: Seq<(Seq<char>, int)>,
) -> bool {
    &&& entries.len() == calls.len()
    &&& entries.len() == builds.len()
    &&& entries.len() == evals.len()
    &&& forall|j: int|
        0 <= j < entries.len() ==> {
            &&& (#[trigger] entries[j]).0@ == calls[j].0
            &&& builds[j].0 == calls[j].0
            &&& evals[j].0 == calls[j].0
            &&& entries[j].1.calls as int == calls[j].1
            &&& entries[j].1.build as int == builds[j].1
            &&& entries[j].1.eval as int == evals[j].1
        }
}

/// The entries hold a tally of counter items.
pub open spec fn counters_match(entries: Seq<(&'static str, u64)>, t: Seq<(Seq<char>, int)>) -> bool {
    &&& entries.len() == t.len()
    &&& forall|j: int|
        0 <= j < entries.len() ==> (#[trigger] entries[j]).0@ == t[j].0 && entries[j].1 as int
            == t[j].1
}

/// The entries hold a tally of counter items, kept wide.
pub open spec fn wide_match(entries: Seq<(&'static str, u128)>, t: Seq<(Seq<char>, int)>) -> bool {
    &&& entries.len() == t.len()
    &&& forall|j: int|
        0 <= j < entries.len() ==> (#[trigger] entries[j]).0@ == t[j].0 && entries[j].1 as int
            == t[j].1
}

/// An entry index found by key in the entries is the one the tally's merge uses.
proof fn lemma_index_agrees<V>(entries: Seq<(&'static str, V)>, t: Seq<(Seq<char>, int)>, k: Seq<char>)
    requires
        entries.len() == t.len(),
        forall|j: int| 0 <= j < entries.len() ==> (#[trigger] entries[j]).0@ == t[j].0,
    ensures
        entry_index(entries, k) == first_where(t, key_is(k)),
{
    let p = entry_key_is::<V>(k);
    lemma_first_where(entries, p);
    lemma_first_where(t, key_is(k));
    if let Some(i) = first_where(entries, p) {
        assert forall|j: int| 0 <= j < i implies !key_is(k)(#[trigger] t[j]) by {
            assert(!p(entries[j]));
        }
        assert(key_is(k)(t[i]));
        lemma_first_where_at(t, key_is(k), i);
    } else {
        assert forall|j: int| 0 <= j < t.len() implies !key_is(k)(#[trigger] t[j]) by {
            assert(!p(entries[j]));
        }
        lemma_first_where_none(t, key_is(k));
    }
}

/// The counters of a prefix of the nodes lead the counters of all nodes.
proof fn lemma_counter_prefix(nodes: Seq<NodeProfile>, i: int)
    requires
        0 <= i <= nodes.len(),
    ensures
        counter_items(nodes.take(i)).len() <= counter_items(nodes).len(),
        counter_items(nodes).take(counter_items(nodes.take(i)).len() as int) == counter_items(
            nodes.take(i),
        ),
    decreases nodes.len() - i,
{
    if i == nodes.len() {
        assert(nodes.take(i) =~= nodes);
        assert(counter_items(nodes).take(counter_items(nodes).len() as int) =~= counter_items(nodes));
    } else {
        lemma_counter_prefix(nodes, i + 1);
        assert(nodes.take(i + 1).drop_last() =~= nodes.take(i));
        let a = counter_items(nodes.take(i));
        let b = counter_items(nodes.take(i + 1));
        assert(b == a + counter_model(nodes[i].counters@));
        assert(counter_items(nodes).take(a.len() as int) =~= b.take(a.len() as int));
        assert(b.take(a.len() as int) =~= a);
    }
}

/// Amounts that come from unsigned values are non-negative.
proof fn lemma_items_nonneg(nodes: Seq<NodeProfile>)
    ensures
        amounts_nonneg(call_items(nodes)),
        amounts_nonneg(build_items(nodes)),
        amounts_nonneg(eval_items(nodes)),
        amounts_nonneg(counter_items(nodes)),
    decreases nodes.len(),
{
    if nodes.len() > 0 {
        lemma_items_nonneg(nodes.drop_last());
        let a = counter_items(nodes.drop_last());
        let b = counter_model(nodes.last().counters@);
        assert forall|i: int| 0 <= i < (a + b).len() implies (#[trigger] (a + b)[i]).1 >= 0 by {
            if i < a.len() {
                assert((a + b)[i] == a[i]);
            } else {
                assert((a + b)[i] == b[i - a.len()]);
            }
        }
    }
}

impl GraphProfile {
    /// Build and eval time and call count, aggregated by op type; the entries come
    /// in the order of their op types.
    pub fn by_op_type(&self) -> (r: Tally<OpTypeStats>)
        requires
            op_stats_fit(self.nodes@),
        ensures
            exists|seen: Seq<(&'static str, OpTypeStats)>|
                #[trigger] stats_match(
                    seen,
                    tally(call_items(self.nodes@)),
                    tally(build_items(self.nodes@)),
                    tally(eval_items(self.nodes@)),
                ) && sorted_from(r.entries@, seen),
            r.wf(),
    {
        let ghost ci = call_items(self.nodes@);
        let ghost bi = build_items(self.nodes@);
        let ghost ei = eval_items(self.nodes@);
        proof {
            lemma_items_nonneg(self.nodes@);
            assert(ci.take(0) =~= seq![]);
            assert(bi.take(0) =~= seq![]);
            assert(ei.take(0) =~= seq![]);
        }
        let mut entries: Vec<(&'static str, OpTypeStats)> = Vec::new();
        let mut i: usize = 0;
        while i < self.nodes.len()
            invariant
                i <= self.nodes@.len(),
                ci == call_items(self.nodes@),
                bi == build_items(self.nodes@),
                ei == eval_items(self.nodes@),
                amounts_nonneg(ci),
                amounts_nonneg(bi),
                amounts_nonneg(ei),
                op_stats_fit(self.nodes@),
                stats_match(entries@, tally(ci.take(i as int)), tally(bi.take(i as int)), tally(ei.take(i as int))),
            decreases self.nodes@.len() - i,
        {
            let node = &self.nodes[i];
            let ghost tc = tally(ci.take(i as int));
            let ghost tb = tally(bi.take(i as int));
            let ghost te = tally(ei.take(i as int));
            proof {
                lemma_tally_step(ci, i as int);
                lemma_tally_step(bi, i as int);
                lemma_tally_step(ei, i as int);
                lemma_tally_prefix(ci, i + 1);
                lemma_tally_prefix(bi, i + 1);
                lemma_tally_prefix(ei, i + 1);
                lemma_index_agrees(entries@, tc, node.op_type@);
                lemma_index_agrees(entries@, tb, node.op_type@);
                lemma_index_agrees(entries@, te, node.op_type@);
                assert(ci[i as int] == (node.op_type@, 1int));
                assert(bi[i as int] == (node.op_type@, node.build as int));
                assert(ei[i as int] == (node.op_type@, node.eval as int));
            }
            match find_entry(&entries, node.op_type) {
                Some(j) => {
                    let ghost nc = merge_item(tc, ci[i as int]);
                    let ghost nb = merge_item(tb, bi[i as int]);
                    let ghost ne = merge_item(te, ei[i as int]);
                    assert(nc[j as int].1 <= tally(ci)[j as int].1);
                    assert(nb[j as int].1 <= tally(bi)[j as int].1);
                    assert(ne[j as int].1 <= tally(ei)[j as int].1);
                    let old_stats = entries[j].1;
                    let key = entries[j].0;
                    let stats = OpTypeStats {
                        calls: old_stats.calls + 1,
                        build: old_stats.build + node.build,
                        eval: old_stats.eval + node.eval,
                    };
                    entries.set(j, (key, stats));
                },
                None => {
                    let ghost nc = merge_item(tc, ci[i as int]);
                    assert(nc[tc.len() as int].1 <= tally(ci)[tc.len() as int].1);
                    let stats = OpTypeStats { calls: 1, build: node.build, eval: node.eval };
                    entries.push((node.op_type, stats));
                },
            }
            i = i + 1;
        }
        proof {
            assert(ci.take(ci.len() as int) =~= ci);
            assert(bi.take(bi.len() as int) =~= bi);
            assert(ei.take(ei.len() as int) =~= ei);
        }
        proof {
            lemma_tally_distinct(call_items(self.nodes@));
            assert(tally(call_items(self.nodes@)).len() == entries@.len());
            let t = tally(call_items(self.nodes@));
            assert forall|i: int, j: int| 0 <= i < j < entries@.len() implies #[trigger] entries@[i].0@
                != #[trigger] entries@[j].0@ by {
                assert(t[i].0 != t[j].0);
            }
        }
        let sorted = sort_by_key(&entries);
        proof { lemma_ascending_distinct(sorted@); }
        Tally { entries: sorted }
    }

    /// Whether every counter's total across the nodes fits a `u64`, as
    /// `counter_totals` needs.
    pub fn counters_fit(&self) -> (r: bool)
        ensures
            r == totals_at_most(tally(counter_items(self.nodes@)), u64::MAX as int),
    {
        let ghost all = counter_items(self.nodes@);
        proof { lemma_items_nonneg(self.nodes@); }
        let mut entries: Vec<(&'static str, u128)> = Vec::new();
        let ghost mut done: Seq<(Seq<char>, int)> = seq![];
        let mut i: usize = 0;
        while i < self.nodes.len()
            invariant
                i <= self.nodes@.len(),
                all == counter_items(self.nodes@),
                amounts_nonneg(all),
                done == counter_items(self.nodes@.take(i as int)),
                wide_match(entries@, tally(done)),
                totals_at_most(tally(done), u64::MAX as int),
            decreases self.nodes@.len() - i,
        {
            let node = &self.nodes[i];
            let ghost cs = counter_model(node.counters@);
            proof {
                assert(self.nodes@.take(i + 1).drop_last() =~= self.nodes@.take(i as int));
                lemma_counter_prefix(self.nodes@, i + 1);
            }
            let ghost next = done + cs;
            assert(next == counter_items(self.nodes@.take(i + 1)));
            assert(done + cs.take(0) =~= done);
            let mut k: usize = 0;
            while k < node.counters.len()
                invariant
                    k <= node.counters@.len(),
                    node == &self.nodes@[i as int],
                    cs == counter_model(node.counters@),
                    all == counter_items(self.nodes@),
                    amounts_nonneg(all),
                    next == done + cs,
                    next.len() <= all.len(),
                    all.take(next.len() as int) == next,
                    wide_match(entries@, tally(done + cs.take(k as int))),
                    totals_at_most(tally(done + cs.take(k as int)), u64::MAX as int),
                decreases node.counters@.len() - k,
            {
                let ghost cur = done + cs.take(k as int);
                let ghost nxt = done + cs.take(k + 1);
                let ghost t = tally(cur);
                proof {
                    assert(nxt =~= all.take(cur.len() as int + 1));
                    assert(cur =~= all.take(cur.len() as int));
                    lemma_tally_step(all, cur.len() as int);
                    lemma_tally_prefix(all, cur.len() as int + 1);
                    assert(all[cur.len() as int] == cs[k as int]);
                    lemma_index_agrees(entries@, t, node.counters@[k as int].0@);
                }
                let (name, count) = node.counters[k];
                match find_entry(&entries, name) {
                    Some(j) => {
                        let ghost nt = merge_item(t, cs[k as int]);
                        let key = entries[j].0;
                        let total = entries[j].1 + count as u128;
                        if total > u64::MAX as u128 {
                            assert(nt[j as int].1 <= tally(all)[j as int].1);
                            assert(!totals_at_most(tally(all), u64::MAX as int)) by {
                                assert(tally(all)[j as int].1 > u64::MAX);
                            }
                            return false;
                        }
                        entries.set(j, (key, total));
                    },
                    None => {
                        entries.push((name, count as u128));
                    },
                }
                k = k + 1;
            }
            proof {
                assert(cs.take(cs.len() as int) =~= cs);
                done = next;
            }
            i = i + 1;
        }
        proof {
            assert(self.nodes@.take(self.nodes@.len() as int) =~= self.nodes@);
        }
        true
    }

    /// Every counter summed across nodes, one entry per counter name in the order
    /// of the names: the graph's cost proxy.
    pub fn counter_totals(&self) -> (r: Tally<u64>)
        requires
            totals_at_most(tally(counter_items(self.nodes@)), u64::MAX as int),
        ensures
            exists|seen: Seq<(&'static str, u64)>|
                #[trigger] counters_match(seen, tally(counter_items(self.nodes@))) && sorted_from(
                    r.entries@,
                    seen,
                ),
            r.wf(),
    {
        let ghost all = counter_items(self.nodes@);
        proof { lemma_items_nonneg(self.nodes@); }
        let mut entries: Vec<(&'static str, u64)> = Vec::new();
        let ghost mut done: Seq<(Seq<char>, int)> = seq![];
        let mut i: usize = 0;
        while i < self.nodes.len()
            invariant
                i <= self.nodes@.len(),
                all == counter_items(self.nodes@),
                amounts_nonneg(all),
                totals_at_most(tally(all), u64::MAX as int),
                done == counter_items(self.nodes@.take(i as int)),
                counters_match(entries@, tally(done)),
            decreases self.nodes@.len() - i,
        {
            let node = &self.nodes[i];
            let ghost cs = counter_model(node.counters@);
            proof {
                assert(self.nodes@.take(i + 1).drop_last() =~= self.nodes@.take(i as int));
                lemma_counter_prefix(self.nodes@, i + 1);
            }
            let ghost next = done + cs;
            assert(next == counter_items(self.nodes@.take(i + 1)));
            let mut k: usize = 0;
            while k < node.counters.len()
                invariant
                    k <= node.counters@.len(),
                    node == &self.nodes@[i as int],
                    cs == counter_model(node.counters@),
                    all == counter_items(self.nodes@),
                    amounts_nonneg(all),
                    totals_at_most(tally(all), u64::MAX as int),
                    next == done + cs,
                    next.len() <= all.len(),
                    all.take(next.len() as int) == next,
                    counters_match(entries@, tally(done + cs.take(k as int))),
                decreases node.counters@.len() - k,
            {
                let ghost cur = done + cs.take(k as int);
                let ghost nxt = done + cs.take(k + 1);
                let ghost t = tally(cur);
                proof {
                    assert(nxt =~= all.take(cur.len() as int + 1));
                    assert(cur =~= all.take(cur.len() as int));
                    lemma_tally_step(all, cur.len() as int);
                    lemma_tally_prefix(all, cur.len() as int + 1);
                    assert(all[cur.len() as int] == cs[k as int]);
                    lemma_index_agrees(entries@, t, node.counters@[k as int].0@);
                }
                let (name, count) = node.counters[k];
                match find_entry(&entries, name) {
                    Some(j) => {
                        let ghost nt = merge_item(t, cs[k as int]);
                        assert(nt[j as int].1 <= tally(all)[j as int].1);
                        let key = entries[j].0;
                        let total = entries[j].1 + count;
                        entries.set(j, (key, total));
                    },
                    None => {
                        let ghost nt = merge_item(t, cs[k as int]);
                        assert(nt[t.len() as int].1 <= tally(all)[t.len() as int].1);
                        entries.push((name, count));
                    },
                }
                k = k + 1;
            }
            proof {
                assert(cs.take(cs.len() as int) =~= cs);
                done = next;
            }
            i = i + 1;
        }
        proof {
            assert(self.nodes@.take(self.nodes@.len() as int) =~= self.nodes@);
        }
        proof {
            lemma_tally_distinct(counter_items(self.nodes@));
            assert(tally(counter_items(self.nodes@)).len() == entries@.len());
            let t = tally(counter_items(self.nodes@));
            assert forall|i: int, j: int| 0 <= i < j < entries@.len() implies #[trigger] entries@[i].0@
                != #[trigger] entries@[j].0@ by {
                assert(t[i].0 != t[j].0);
            }
        }
        let sorted = sort_by_key(&entries);
        proof { lemma_ascending_distinct(sorted@); }
        Tally { entries: sorted }
    }

    /// The op-type sequence in evaluation order.
    pub fn op_types(&self) -> (r: Vec<&'static str>)
        ensures
            r@ == self.nodes@.map_values(|n: NodeProfile| n.op_type),
    {
        let mut r: Vec<&'static str> = Vec::new();
        let mut i: usize = 0;
        while i < self.nodes.len()
            invariant
                i <= self.nodes@.len(),
                r@ == self.nodes@.take(i as int).map_values(|n: NodeProfile| n.op_type),
            decreases self.nodes@.len() - i,
        {
            r.push(self.nodes[i].op_type);
            assert(self.nodes@.take(i + 1).map_values(|n: NodeProfile| n.op_type) =~= self.nodes@.take(
                i as int,
            ).map_values(|n: NodeProfile| n.op_type).push(self.nodes@[i as int].op_type));
            i = i + 1;
        }
        assert(self.nodes@.take(self.nodes@.len() as int) =~= self.nodes@);
        r
    }
}

/// Every node is counted once under its op type: the call counts of all op
/// types sum to the number of nodes, and no op type has two entries.
pub proof fn lemma_calls_count_every_node(nodes: Seq<NodeProfile>)
    ensures
        total(tally(call_items(nodes))) == nodes.len(),
        keys_distinct(tally(call_items(nodes))),
    decreases nodes.len(),
{
    lemma_items_nonneg(nodes);
    lemma_tally_distinct(call_items(nodes));
    lemma_tally_conserves(call_items(nodes));
    lemma_call_items_total(nodes);
}

proof fn lemma_call_items_total(nodes: Seq<NodeProfile>)
    ensures
        total(call_items(nodes)) == nodes.len(),
    decreases nodes.len(),
{
    if nodes.len() > 0 {
        lemma_call_items_total(nodes.drop_last());
        assert(call_items(nodes).drop_last() =~= call_items(nodes.drop_last()));
    }
}

/// The counter totals keep the sum of every counter of every node.
pub proof fn lemma_counter_totals_conserve(nodes: Seq<NodeProfile>)
    ensures
        total(tally(counter_items(nodes))) == total(counter_items(nodes)),
        keys_distinct(tally(counter_items(nodes))),
{
    lemma_items_nonneg(nodes);
    lemma_tally_distinct(counter_items(nodes));
    lemma_tally_conserves(counter_items(nodes));
}

} // verus!
