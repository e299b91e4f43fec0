//! The committed regression baseline and the check of measured runs against it.
//! Only machine-independent fields are compared: parameters, wire sizes, cost
//! counters and label correctness, never timing.

use vstd::prelude::*;

use crate::ir::{cat, debug_str, debug_text, names};
use crate::seqs::{first_where, lemma_first_where, lemma_first_where_at, lemma_first_where_none};
use crate::text::{dec, str_eq, u64_text, usize_text};

verus! {

/// A single machine-independent baseline record for one (model, backend) pair.
/// The counter maps hold `(name, count)` pairs; an entry is well formed
/// (`entry_wf`) when no name occurs twice in either map.
#[derive(Debug, Clone, PartialEq, Eq)]
pub struct BaselineEntry {
    pub model: String,
    pub backend: String,
    pub profile: Option<String>,
    pub num_blocks: usize,
    pub client_key_bytes: usize,
    pub server_key_bytes: usize,
    pub input_ct_bytes: usize,
    pub output_ct_bytes: usize,
    pub cost_proxy: Vec<(String, u64)>,
    pub measured_totals: Vec<(String, u64)>,
    pub labels_matched: usize,
    pub labels_checked: usize,
}

/// A collection of baseline entries forming a regression check.
#[derive(Debug, Clone)]
pub struct Baseline {
    pub schema: u32,
    pub note: String,
    pub entries: Vec<BaselineEntry>,
}

/// The values of one measured (model, backend) run that the regression check
/// compares: its parameters,
/// wire sizes, counters, and per sample whether the decrypted label matched
/// (`None` where no label was checked).
#[derive(Debug, Clone)]
pub struct RunRecord {
    pub model: String,
    pub backend: String,
    pub profile: Option<String>,
    pub num_blocks: usize,
    pub client_key_bytes: usize,
    pub server_key_bytes: usize,
    pub input_ct_bytes: usize,
    pub output_ct_bytes: usize,
    pub cost_proxy: Vec<(String, u64)>,
    pub measured_totals: Vec<(String, u64)>,
    pub label_matches: Vec<Option<bool>>,
}

/// The characters of an optional string.
pub open spec fn opt_text(o: Option<String>) -> Option<Seq<char>> {
    match o {
        Some(s) => Some(s@),
        None => None,
    }
}

/// A counter map as `(name, count)` pairs of characters.
pub open spec fn counter_pairs(m: Seq<(String, u64)>) -> Seq<(Seq<char>, u64)> {
    m.map_values(|p: (String, u64)| (p.0@, p.1))
}

/// A pair whose name is `k`.
pub open spec fn pair_named(k: Seq<char>) -> spec_fn((Seq<char>, u64)) -> bool {
    |p: (Seq<char>, u64)| p.0 == k
}

/// The count a map holds for `k`, if any.
pub open spec fn lookup(m: Seq<(Seq<char>, u64)>, k: Seq<char>) -> Option<u64> {
    match first_where(m, pair_named(k)) {
        Some(i) => Some(m[i].1),
        None => None,
    }
}

/// `[m]` when `c` holds, else nothing.
pub open spec fn when(c: bool, m: Seq<char>) -> Seq<Seq<char>> {
    if c {
        seq![m]
    } else {
        seq![]
    }
}

/// The complaints about the expected counters, in their order: a changed count
/// or a counter the run lacks.
pub open spec fn expected_msgs(
    tag: Seq<char>,
    field: Seq<char>,
    expected: Seq<(Seq<char>, u64)>,
    actual: Seq<(Seq<char>, u64)>,
) -> Seq<Seq<char>>
    decreases expected.len(),
{
    if expected.len() == 0 {
        seq![]
    } else {
        let prev = expected_msgs(tag, field, expected.drop_last(), actual);
        let k = expected.last().0;
        let v = expected.last().1;
        match lookup(actual, k) {
            Some(a) => prev + when(
                v != a,
                tag + ": "@ + field + "."@ + k + " regressed: baseline "@ + dec(v as nat)
                    + ", measured "@ + dec(a as nat),
            ),
            None => prev.push(
                tag + ": "@ + field + "."@ + k + " missing from measured run (baseline "@ + dec(
                    v as nat,
                ) + ")"@,
            ),
        }
    }
}

/// The complaints about measured counters the baseline does not have, in their order.
pub open spec fn extra_msgs(
    tag: Seq<char>,
    field: Seq<char>,
    expected: Seq<(Seq<char>, u64)>,
    actual: Seq<(Seq<char>, u64)>,
) -> Seq<Seq<char>>
    decreases actual.len(),
{
    if actual.len() == 0 {
        seq![]
    } else {
        let prev = extra_msgs(tag, field, expected, actual.drop_last());
        let k = actual.last().0;
        prev + when(
            lookup(expected, k) is None,
            tag + ": "@ + field + "."@ + k + " extra key in measured run (value "@ + dec(
                actual.last().1 as nat,
            ) + ", not in baseline)"@,
        )
    }
}

/// Every complaint an exact comparison of two counter maps raises.
pub open spec fn map_msgs(
    tag: Seq<char>,
    field: Seq<char>,
    expected: Seq<(Seq<char>, u64)>,
    actual: Seq<(Seq<char>, u64)>,
) -> Seq<Seq<char>> {
    expected_msgs(tag, field, expected, actual) + extra_msgs(tag, field, expected, actual)
}

/// What `{:?}` writes for an optional string: `None`, or the string's `{:?}`
/// form in `Some(..)`.
pub open spec fn debug_opt_text(o: Option<Seq<char>>) -> Seq<char> {
    match o {
        None => "None"@,
        Some(s) => "Some("@ + debug_text(s) + ")"@,
    }
}

/// Formats an optional string as `{:?}` does.
fn debug_opt(o: &Option<String>) -> (r: String)
    ensures
        r@ == debug_opt_text(opt_text(*o)),
{
    match o {
        None => String::from_str("None"),
        Some(s) => {
            let m = cat(String::from_str("Some("), debug_str(s.as_str()).as_str());
            cat(m, ")")
        },
    }
}

/// The number of samples whose label matched.
pub open spec fn count_matched(ls: Seq<Option<bool>>) -> nat
    decreases ls.len(),
{
    if ls.len() == 0 {
        0
    } else {
        count_matched(ls.drop_last()) + if ls.last() == Some(true) {
            1nat
        } else {
            0nat
        }
    }
}

/// The number of samples whose label was checked.
pub open spec fn count_checked(ls: Seq<Option<bool>>) -> nat
    decreases ls.len(),
{
    if ls.len() == 0 {
        0
    } else {
        count_checked(ls.drop_last()) + if ls.last() is Some {
            1nat
        } else {
            0nat
        }
    }
}

/// The tag that names a run in every complaint: `model/backend`.
pub open spec fn run_tag(model: Seq<char>, backend: Seq<char>) -> Seq<char> {
    model + "/"@ + backend
}

/// A baseline entry for this model and backend.
pub open spec fn entry_for(model: Seq<char>, backend: Seq<char>) -> spec_fn(BaselineEntry) -> bool {
    |e: BaselineEntry| e.model@ == model && e.backend@ == backend
}

/// The complaint about a regressed size field.
pub open spec fn field_msg(tag: Seq<char>, field: Seq<char>, baseline: nat, measured: nat) -> Seq<char> {
    tag + ": "@ + field + " regressed: baseline "@ + dec(baseline) + ", measured "@ + dec(measured)
}

/// The complaint about a changed parameter profile.
pub open spec fn profile_msgs(tag: Seq<char>, e: BaselineEntry, run: RunRecord) -> Seq<Seq<char>> {
    when(
        opt_text(e.profile) != opt_text(run.profile),
        tag + ": profile mismatch: baseline "@ + debug_opt_text(opt_text(e.profile)) + ", measured "@
            + debug_opt_text(opt_text(run.profile)),
    )
}

/// The complaints about changed parameters and wire sizes.
pub open spec fn size_msgs(tag: Seq<char>, e: BaselineEntry, run: RunRecord) -> Seq<Seq<char>> {
    when(
        e.num_blocks != run.num_blocks,
        field_msg(tag, "num_blocks"@, e.num_blocks as nat, run.num_blocks as nat),
    ) + when(
        e.client_key_bytes != run.client_key_bytes,
        field_msg(tag, "client_key_bytes"@, e.client_key_bytes as nat, run.client_key_bytes as nat),
    ) + when(
        e.server_key_bytes != run.server_key_bytes,
        field_msg(tag, "server_key_bytes"@, e.server_key_bytes as nat, run.server_key_bytes as nat),
    ) + when(
        e.input_ct_bytes != run.input_ct_bytes,
        field_msg(tag, "input_ct_bytes"@, e.input_ct_bytes as nat, run.input_ct_bytes as nat),
    ) + when(
        e.output_ct_bytes != run.output_ct_bytes,
        field_msg(tag, "output_ct_bytes"@, e.output_ct_bytes as nat, run.output_ct_bytes as nat),
    )
}

/// The complaints about the two counter maps.
pub open spec fn counter_msgs(tag: Seq<char>, e: BaselineEntry, run: RunRecord) -> Seq<Seq<char>> {
    map_msgs(tag, "cost_proxy"@, counter_pairs(e.cost_proxy@), counter_pairs(run.cost_proxy@)) + map_msgs(
        tag,
        "measured_totals"@,
        counter_pairs(e.measured_totals@),
        counter_pairs(run.measured_totals@),
    )
}

/// The complaint about label correctness: a different number of labels
/// checked, or fewer matched.
pub open spec fn label_msgs(tag: Seq<char>, e: BaselineEntry, run: RunRecord) -> Seq<Seq<char>> {
    let matched = count_matched(run.label_matches@);
    let checked = count_checked(run.label_matches@);
    if checked != e.labels_checked {
        seq![field_msg(tag, "labels_checked"@, e.labels_checked as nat, checked)]
    } else if matched < e.labels_matched {
        seq![field_msg(tag, "labels_matched"@, e.labels_matched as nat, matched)]
    } else {
        seq![]
    }
}

/// Every complaint about one run against its baseline entry.
pub open spec fn entry_msgs(tag: Seq<char>, e: BaselineEntry, run: RunRecord) -> Seq<Seq<char>> {
    profile_msgs(tag, e, run) + size_msgs(tag, e, run) + counter_msgs(tag, e, run) + label_msgs(tag, e, run)
}

/// Every complaint about one run: it has no baseline entry, or it differs from it.
pub open spec fn run_msgs(entries: Seq<BaselineEntry>, run: RunRecord) -> Seq<Seq<char>> {
    let tag = run_tag(run.model@, run.backend@);
    match first_where(entries, entry_for(run.model@, run.backend@)) {
        None => seq![tag + ": missing from baseline; regenerate the baseline with --write-baseline"@],
        Some(i) => entry_msgs(tag, entries[i], run),
    }
}

/// Every complaint about the runs, run after run.
pub open spec fn violations(entries: Seq<BaselineEntry>, runs: Seq<RunRecord>) -> Seq<Seq<char>>
    decreases runs.len(),
{
    if runs.len() == 0 {
        seq![]
    } else {
        violations(entries, runs.drop_last()) + run_msgs(entries, runs.last())
    }
}

/// A run of this model and backend.
pub open spec fn run_of(model: Seq<char>, backend: Seq<char>) -> spec_fn(RunRecord) -> bool {
    |r: RunRecord| r.model@ == model && r.backend@ == backend
}

/// The warnings about baseline entries that no run exercised, in entry order.
pub open spec fn warnings(entries: Seq<BaselineEntry>, runs: Seq<RunRecord>) -> Seq<Seq<char>>
    decreases entries.len(),
{
    if entries.len() == 0 {
        seq![]
    } else {
        let e = entries.last();
        warnings(entries.drop_last(), runs) + when(
            first_where(runs, run_of(e.model@, e.backend@)) is None,
            e.model@ + "/"@ + e.backend@ + ": baseline entry not exercised by this run"@,
        )
    }
}

/// Finds the count for `k` in a counter map.
fn find_count(m: &Vec<(String, u64)>, k: &str) -> (r: Option<u64>)
    ensures
        r == lookup(counter_pairs(m@), k@),
{
    let ghost p = pair_named(k@);
    let ghost ms = counter_pairs(m@);
    let mut i: usize = 0;
    while i < m.len()
        invariant
            i <= m@.len(),
            p == pair_named(k@),
            ms == counter_pairs(m@),
            forall|j: int| 0 <= j < i ==> !p(#[trigger] ms[j]),
        decreases m@.len() - i,
    {
        if str_eq(m[i].0.as_str(), k) {
            assert(p(ms[i as int]));
            proof { lemma_first_where_at(ms, p, i as int); }
            return Some(m[i].1);
        }
        assert(!p(ms[i as int]));
        i = i + 1;
    }
    proof { lemma_first_where_none(ms, p); }
    None
}

/// The prefix `tag: field.key` of a counter complaint.
fn counter_prefix(tag: &str, field: &str, k: &str) -> (r: String)
    ensures
        r@ == tag@ + ": "@ + field@ + "."@ + k@,
{
    let m = cat(String::from_str(tag), ": ");
    let m = cat(m, field);
    let m = cat(m, ".");
    cat(m, k)
}

/// Compare two counter maps exactly, appending a complaint for every changed,
/// missing, or extra counter.
pub fn check_map_exact(
    tag: &str,
    field: &str,
    expected: &Vec<(String, u64)>,
    actual: &Vec<(String, u64)>,
    violations: &mut Vec<String>,
)
    ensures
        names(final(violations)@) == names(old(violations)@) + map_msgs(
            tag@,
            field@,
            counter_pairs(expected@),
            counter_pairs(actual@),
        ),
{
    let ghost ex = counter_pairs(expected@);
    let ghost ac = counter_pairs(actual@);
    let ghost start = names(violations@);
    let mut i: usize = 0;
    while i < expected.len()
        invariant
            i <= expected@.len(),
            ex == counter_pairs(expected@),
            ac == counter_pairs(actual@),
            names(violations@) == start + expected_msgs(tag@, field@, ex.take(i as int), ac),
        decreases expected@.len() - i,
    {
        assert(ex.take(i + 1).drop_last() =~= ex.take(i as int));
        assert(ex.take(i + 1).last() == ex[i as int]);
        let k = expected[i].0.as_str();
        let v_exp = expected[i].1;
        assert(ex[i as int] == (k@, v_exp));
        let ghost prev = names(violations@);
        match find_count(actual, k) {
            Some(v_act) => {
                if v_exp != v_act {
                    let m = counter_prefix(tag, field, k);
                    let m = cat(m, " regressed: baseline ");
                    let m = cat(m, u64_text(v_exp).as_str());
                    let m = cat(m, ", measured ");
                    let m = cat(m, u64_text(v_act).as_str());
                    violations.push(m);
                    assert(names(violations@) =~= prev + seq![m@]);
                } else {
                    assert(names(violations@) =~= prev + seq![]);
                }
            },
            None => {
                let m = counter_prefix(tag, field, k);
                let m = cat(m, " missing from measured run (baseline ");
                let m = cat(m, u64_text(v_exp).as_str());
                let m = cat(m, ")");
                violations.push(m);
                assert(names(violations@) =~= prev.push(m@));
            },
        }
        assert(names(violations@) =~= start + expected_msgs(tag@, field@, ex.take(i + 1), ac));
        i = i + 1;
    }
    assert(ex.take(ex.len() as int) =~= ex);
    let ghost mid = names(violations@);
    let mut j: usize = 0;
    while j < actual.len()
        invariant
            j <= actual@.len(),
            ex == counter_pairs(expected@),
            ac == counter_pairs(actual@),
            names(violations@) == mid + extra_msgs(tag@, field@, ex, ac.take(j as int)),
        decreases actual@.len() - j,
    {
        assert(ac.take(j + 1).drop_last() =~= ac.take(j as int));
        assert(ac.take(j + 1).last() == ac[j as int]);
        let k = actual[j].0.as_str();
        assert(ac[j as int] == (k@, actual@[j as int].1));
        let ghost prev = names(violations@);
        if find_count(expected, k).is_none() {
            let m = counter_prefix(tag, field, k);
            let m = cat(m, " extra key in measured run (value ");
            let m = cat(m, u64_text(actual[j].1).as_str());
            let m = cat(m, ", not in baseline)");
            violations.push(m);
            assert(names(violations@) =~= prev + seq![m@]);
        } else {
            assert(names(violations@) =~= prev + seq![]);
        }
        assert(names(violations@) =~= mid + extra_msgs(tag@, field@, ex, ac.take(j + 1)));
        j = j + 1;
    }
    assert(ac.take(ac.len() as int) =~= ac);
}

/// The complaint about a regressed size field.
fn field_text(tag: &str, field: &str, baseline: usize, measured: usize) -> (r: String)
    ensures
        r@ == field_msg(tag@, field@, baseline as nat, measured as nat),
{
    let m = cat(String::from_str(tag), ": ");
    let m = cat(m, field);
    let m = cat(m, " regressed: baseline ");
    let m = cat(m, usize_text(baseline).as_str());
    let m = cat(m, ", measured ");
    cat(m, usize_text(measured).as_str())
}

/// Appends the complaint about a size field when the measured value differs.
fn check_field(tag: &str, field: &str, baseline: usize, measured: usize, violations: &mut Vec<String>)
    ensures
        names(final(violations)@) == names(old(violations)@) + when(
            baseline != measured,
            field_msg(tag@, field@, baseline as nat, measured as nat),
        ),
{
    let ghost prev = names(violations@);
    if baseline != measured {
        violations.push(field_text(tag, field, baseline, measured));
    }
    assert(names(violations@) =~= prev + when(
        baseline != measured,
        field_msg(tag@, field@, baseline as nat, measured as nat),
    ));
}

/// Appending two pieces one after the other appends their concatenation.
proof fn lemma_append_assoc(a: Seq<Seq<char>>, b: Seq<Seq<char>>, c: Seq<Seq<char>>)
    ensures
        (a + b) + c == a + (b + c),
{
    assert((a + b) + c =~= a + (b + c));
}

/// Appends the complaints about changed parameters and wire sizes.
fn check_sizes(tag: &str, e: &BaselineEntry, run: &RunRecord, out: &mut Vec<String>)
    ensures
        names(final(out)@) == names(old(out)@) + size_msgs(tag@, *e, *run),
{
    let ghost start = names(out@);
    let ghost t = tag@;
    let ghost a1 = when(e.num_blocks != run.num_blocks, field_msg(t, "num_blocks"@, e.num_blocks as nat, run.num_blocks as nat));
    let ghost a2 = when(e.client_key_bytes != run.client_key_bytes, field_msg(t, "client_key_bytes"@, e.client_key_bytes as nat, run.client_key_bytes as nat));
    let ghost a3 = when(e.server_key_bytes != run.server_key_bytes, field_msg(t, "server_key_bytes"@, e.server_key_bytes as nat, run.server_key_bytes as nat));
    let ghost a4 = when(e.input_ct_bytes != run.input_ct_bytes, field_msg(t, "input_ct_bytes"@, e.input_ct_bytes as nat, run.input_ct_bytes as nat));
    let ghost a5 = when(e.output_ct_bytes != run.output_ct_bytes, field_msg(t, "output_ct_bytes"@, e.output_ct_bytes as nat, run.output_ct_bytes as nat));
    check_field(tag, "num_blocks", e.num_blocks, run.num_blocks, out);
    check_field(tag, "client_key_bytes", e.client_key_bytes, run.client_key_bytes, out);
    proof { lemma_append_assoc(start, a1, a2); }
    check_field(tag, "server_key_bytes", e.server_key_bytes, run.server_key_bytes, out);
    proof { lemma_append_assoc(start, a1 + a2, a3); }
    check_field(tag, "input_ct_bytes", e.input_ct_bytes, run.input_ct_bytes, out);
    proof { lemma_append_assoc(start, a1 + a2 + a3, a4); }
    check_field(tag, "output_ct_bytes", e.output_ct_bytes, run.output_ct_bytes, out);
    proof { lemma_append_assoc(start, a1 + a2 + a3 + a4, a5); }
}

/// Appends the complaints about label correctness.
fn check_labels(tag: &str, e: &BaselineEntry, run: &RunRecord, out: &mut Vec<String>)
    ensures
        names(final(out)@) == names(old(out)@) + label_msgs(tag@, *e, *run),
{
    let ghost start = names(out@);
    let (matched, checked) = count_labels(&run.label_matches);
    if checked != e.labels_checked {
        out.push(field_text(tag, "labels_checked", e.labels_checked, checked));
    } else if matched < e.labels_matched {
        out.push(field_text(tag, "labels_matched", e.labels_matched, matched));
    }
    assert(names(out@) =~= start + label_msgs(tag@, *e, *run));
}

/// Appends every complaint about a run against its baseline entry.
fn check_entry(tag: &str, e: &BaselineEntry, run: &RunRecord, out: &mut Vec<String>)
    ensures
        names(final(out)@) == names(old(out)@) + entry_msgs(tag@, *e, *run),
{
    let ghost start = names(out@);
    let ghost t = tag@;
    let same_profile = match (&e.profile, &run.profile) {
        (Some(a), Some(b)) => str_eq(a.as_str(), b.as_str()),
        (None, None) => true,
        _ => false,
    };
    if !same_profile {
        let m = cat(String::from_str(tag), ": profile mismatch: baseline ");
        let m = cat(m, debug_opt(&e.profile).as_str());
        let m = cat(m, ", measured ");
        let m = cat(m, debug_opt(&run.profile).as_str());
        out.push(m);
    }
    assert(names(out@) =~= start + profile_msgs(t, *e, *run));
    check_sizes(tag, e, run, out);
    proof { lemma_append_assoc(start, profile_msgs(t, *e, *run), size_msgs(t, *e, *run)); }
    let ghost q = profile_msgs(t, *e, *run) + size_msgs(t, *e, *run);
    let ghost before_maps = names(out@);
    check_map_exact(tag, "cost_proxy", &e.cost_proxy, &run.cost_proxy, out);
    check_map_exact(tag, "measured_totals", &e.measured_totals, &run.measured_totals, out);
    proof {
        let m1 = map_msgs(t, "cost_proxy"@, counter_pairs(e.cost_proxy@), counter_pairs(run.cost_proxy@));
        let m2 = map_msgs(t, "measured_totals"@, counter_pairs(e.measured_totals@), counter_pairs(run.measured_totals@));
        lemma_append_assoc(before_maps, m1, m2);
        lemma_append_assoc(start, q, m1 + m2);
    }
    check_labels(tag, e, run, out);
    proof {
        lemma_append_assoc(start, q + counter_msgs(t, *e, *run), label_msgs(t, *e, *run));
    }
}

/// Counts the matched and the checked labels.
fn count_labels(ls: &Vec<Option<bool>>) -> (r: (usize, usize))
    ensures
        r.0 == count_matched(ls@),
        r.1 == count_checked(ls@),
{
    let mut matched: usize = 0;
    let mut checked: usize = 0;
    let mut i: usize = 0;
    while i < ls.len()
        invariant
            i <= ls@.len(),
            matched == count_matched(ls@.take(i as int)),
            checked == count_checked(ls@.take(i as int)),
            matched <= i,
            checked <= i,
        decreases ls@.len() - i,
    {
        assert(ls@.take(i + 1).drop_last() =~= ls@.take(i as int));
        match ls[i] {
            Some(true) => {
                matched = matched + 1;
                checked = checked + 1;
            },
            Some(false) => {
                checked = checked + 1;
            },
            None => {},
        }
        i = i + 1;
    }
    assert(ls@.take(ls@.len() as int) =~= ls@);
    (matched, checked)
}

/// Finds the baseline entry for a model and backend.
fn find_baseline_entry(entries: &Vec<BaselineEntry>, model: &str, backend: &str) -> (r: Option<usize>)
    ensures
        match r {
            Some(i) => i < entries@.len() && first_where(entries@, entry_for(model@, backend@)) == Some(
                i as int,
            ),
            None => first_where(entries@, entry_for(model@, backend@)) is None,
        },
{
    let ghost p = entry_for(model@, backend@);
    let mut i: usize = 0;
    while i < entries.len()
        invariant
            i <= entries@.len(),
            p == entry_for(model@, backend@),
            forall|j: int| 0 <= j < i ==> !p(#[trigger] entries@[j]),
        decreases entries@.len() - i,
    {
        if str_eq(entries[i].model.as_str(), model) && str_eq(entries[i].backend.as_str(), backend) {
            proof { lemma_first_where_at(entries@, p, i as int); }
            return Some(i);
        }
        i = i + 1;
    }
    proof { lemma_first_where_none(entries@, p); }
    None
}

/// Whether some run exercised this model and backend.
fn exercised(runs: &[RunRecord], model: &str, backend: &str) -> (r: bool)
    ensures
        r == (first_where(runs@, run_of(model@, backend@)) is Some),
{
    let ghost p = run_of(model@, backend@);
    let mut i: usize = 0;
    while i < runs.len()
        invariant
            i <= runs@.len(),
            p == run_of(model@, backend@),
            forall|j: int| 0 <= j < i ==> !p(#[trigger] runs@[j]),
        decreases runs@.len() - i,
    {
        if str_eq(runs[i].model.as_str(), model) && str_eq(runs[i].backend.as_str(), backend) {
            proof { lemma_first_where_at(runs@, p, i as int); }
            return true;
        }
        i = i + 1;
    }
    proof { lemma_first_where_none(runs@, p); }
    false
}

/// Appends every complaint about one run.
fn check_run(entries: &Vec<BaselineEntry>, run: &RunRecord, out: &mut Vec<String>)
    ensures
        names(final(out)@) == names(old(out)@) + run_msgs(entries@, *run),
{
    let tag = cat(cat(String::from_str(run.model.as_str()), "/"), run.backend.as_str());
    let tag = tag.as_str();
    assert(tag@ == run_tag(run.model@, run.backend@));
    let ghost start = names(out@);
    let i = match find_baseline_entry(entries, run.model.as_str(), run.backend.as_str()) {
        Some(i) => i,
        None => {
            let m = cat(String::from_str(tag), ": missing from baseline; regenerate the baseline with --write-baseline");
            out.push(m);
            assert(names(out@) =~= start + run_msgs(entries@, *run));
            return;
        },
    };
    let e = &entries[i];
    check_entry(tag, e, run, out);
}

/// Compare measured runs against a committed baseline: `Ok(warnings)` names the
/// baseline entries no run exercised, `Err(violations)` lists every regression
/// or contract break, run by run.
pub fn check_against(baseline: &Baseline, runs: &[RunRecord]) -> (r: Result<Vec<String>, Vec<String>>)
    ensures
        violations(baseline.entries@, runs@).len() == 0 ==> (r matches Ok(w) && names(w@) == warnings(
            baseline.entries@,
            runs@,
        )),
        violations(baseline.entries@, runs@).len() > 0 ==> (r matches Err(v) && names(v@) == violations(
            baseline.entries@,
            runs@,
        )),
{
    let mut found: Vec<String> = Vec::new();
    let mut i: usize = 0;
    while i < runs.len()
        invariant
            i <= runs@.len(),
            names(found@) == violations(baseline.entries@, runs@.take(i as int)),
        decreases runs@.len() - i,
    {
        assert(runs@.take(i + 1).drop_last() =~= runs@.take(i as int));
        check_run(&baseline.entries, &runs[i], &mut found);
        i = i + 1;
    }
    assert(runs@.take(runs@.len() as int) =~= runs@);
    let mut warns: Vec<String> = Vec::new();
    let mut j: usize = 0;
    while j < baseline.entries.len()
        invariant
            j <= baseline.entries@.len(),
            names(warns@) == warnings(baseline.entries@.take(j as int), runs@),
        decreases baseline.entries@.len() - j,
    {
        assert(baseline.entries@.take(j + 1).drop_last() =~= baseline.entries@.take(j as int));
        let e = &baseline.entries[j];
        if !exercised(runs, e.model.as_str(), e.backend.as_str()) {
            let m = cat(cat(cat(String::from_str(e.model.as_str()), "/"), e.backend.as_str()), ": baseline entry not exercised by this run");
            warns.push(m);
        }
        assert(names(warns@) =~= warnings(baseline.entries@.take(j + 1), runs@));
        j = j + 1;
    }
    assert(baseline.entries@.take(baseline.entries@.len() as int) =~= baseline.entries@);
    if found.len() == 0 {
        Ok(warns)
    } else {
        Err(found)
    }
}


/// Copies a counter map.
fn copy_pairs(m: &Vec<(String, u64)>) -> (r: Vec<(String, u64)>)
    ensures
        counter_pairs(r@) == counter_pairs(m@),
{
    let mut r: Vec<(String, u64)> = Vec::new();
    let mut i: usize = 0;
    while i < m.len()
        invariant
            i <= m@.len(),
            counter_pairs(r@) == counter_pairs(m@.take(i as int)),
        decreases m@.len() - i,
    {
        let name = m[i].0.clone();
        assert(name@ == m@[i as int].0@);
        r.push((name, m[i].1));
        assert(counter_pairs(m@.take(i + 1)) =~= counter_pairs(m@.take(i as int)).push(
            (m@[i as int].0@, m@[i as int].1),
        ));
        assert(counter_pairs(r@) =~= counter_pairs(m@.take(i + 1)));
        i = i + 1;
    }
    assert(m@.take(m@.len() as int) =~= m@);
    r
}

/// Copies an optional string.
fn copy_opt(o: &Option<String>) -> (r: Option<String>)
    ensures
        opt_text(r) == opt_text(*o),
{
    match o {
        Some(s) => Some(s.clone()),
        None => None,
    }
}

/// The baseline entry that records a run exactly.
pub open spec fn records(e: BaselineEntry, run: RunRecord) -> bool {
    &&& e.model@ == run.model@
    &&& e.backend@ == run.backend@
    &&& opt_text(e.profile) == opt_text(run.profile)
    &&& e.num_blocks == run.num_blocks
    &&& e.client_key_bytes == run.client_key_bytes
    &&& e.server_key_bytes == run.server_key_bytes
    &&& e.input_ct_bytes == run.input_ct_bytes
    &&& e.output_ct_bytes == run.output_ct_bytes
    &&& counter_pairs(e.cost_proxy@) == counter_pairs(run.cost_proxy@)
    &&& counter_pairs(e.measured_totals@) == counter_pairs(run.measured_totals@)
    &&& e.labels_matched == count_matched(run.label_matches@)
    &&& e.labels_checked == count_checked(run.label_matches@)
}

/// Build a baseline that records each run exactly, one entry per run in order.
pub fn baseline_from_runs(runs: &[RunRecord]) -> (r: Baseline)
    ensures
        r.schema == 1,
        r.note@ == "Phase-10 committed regression baseline (tfhe-classic profile)"@,
        r.entries@.len() == runs@.len(),
        forall|i: int| 0 <= i < runs@.len() ==> records(#[trigger] r.entries@[i], runs@[i]),
        forall|i: int| 0 <= i < runs@.len() && run_wf(runs@[i]) ==> entry_wf(#[trigger] r.entries@[i]),
{
    let mut entries: Vec<BaselineEntry> = Vec::new();
    let mut i: usize = 0;
    while i < runs.len()
        invariant
            i <= runs@.len(),
            entries@.len() == i,
            forall|j: int| 0 <= j < i ==> records(#[trigger] entries@[j], runs@[j]),
        decreases runs@.len() - i,
    {
        let run = &runs[i];
        let (labels_matched, labels_checked) = count_labels(&run.label_matches);
        let entry = BaselineEntry {
            model: run.model.clone(),
            backend: run.backend.clone(),
            profile: copy_opt(&run.profile),
            num_blocks: run.num_blocks,
            client_key_bytes: run.client_key_bytes,
            server_key_bytes: run.server_key_bytes,
            input_ct_bytes: run.input_ct_bytes,
            output_ct_bytes: run.output_ct_bytes,
            cost_proxy: copy_pairs(&run.cost_proxy),
            measured_totals: copy_pairs(&run.measured_totals),
            labels_matched,
            labels_checked,
        };
        entries.push(entry);
        i = i + 1;
    }
    Baseline {
        schema: 1,
        note: String::from_str("Phase-10 committed regression baseline (tfhe-classic profile)"),
        entries,
    }
}


/// Whether no two runs share a model and backend.
pub open spec fn runs_distinct(runs: Seq<RunRecord>) -> bool {
    forall|i: int, j: int|
        0 <= i < j < runs.len() ==> !(#[trigger] runs[i].model@ == #[trigger] runs[j].model@
            && runs[i].backend@ == runs[j].backend@)
}

/// Whether no counter name occurs twice in a map.
pub open spec fn names_distinct(m: Seq<(Seq<char>, u64)>) -> bool {
    forall|i: int, j: int| 0 <= i < j < m.len() ==> #[trigger] m[i].0 != #[trigger] m[j].0
}

/// The invariant of a baseline entry: each counter map names a counter once.
pub open spec fn entry_wf(e: BaselineEntry) -> bool {
    names_distinct(counter_pairs(e.cost_proxy@)) && names_distinct(counter_pairs(e.measured_totals@))
}

/// Whether each counter map of a run names a counter once.
pub open spec fn run_wf(run: RunRecord) -> bool {
    names_distinct(counter_pairs(run.cost_proxy@)) && names_distinct(counter_pairs(run.measured_totals@))
}

/// In a map without repeated names, looking up an entry's name finds its count.
proof fn lemma_lookup_own(m: Seq<(Seq<char>, u64)>, i: int)
    requires
        names_distinct(m),
        0 <= i < m.len(),
    ensures
        lookup(m, m[i].0) == Some(m[i].1),
{
    let p = pair_named(m[i].0);
    assert forall|j: int| 0 <= j < i implies !p(#[trigger] m[j]) by {
        assert(m[j].0 != m[i].0);
    }
    lemma_first_where_at(m, p, i);
}

proof fn lemma_expected_msgs_empty(tag: Seq<char>, field: Seq<char>, e: Seq<(Seq<char>, u64)>, m: Seq<(Seq<char>, u64)>)
    ensures
        expected_msgs(tag, field, e, m).len() == 0 <==> forall|i: int|
            0 <= i < e.len() ==> lookup(m, (#[trigger] e[i]).0) == Some(e[i].1),
    decreases e.len(),
{
    if e.len() > 0 {
        let d = e.drop_last();
        lemma_expected_msgs_empty(tag, field, d, m);
        assert forall|i: int| 0 <= i < d.len() implies #[trigger] d[i] == e[i] by {}
        if forall|i: int| 0 <= i < e.len() ==> lookup(m, (#[trigger] e[i]).0) == Some(e[i].1) {
            assert(lookup(m, e[e.len() - 1].0) == Some(e[e.len() - 1].1));
            assert forall|i: int| 0 <= i < d.len() implies lookup(m, (#[trigger] d[i]).0) == Some(d[i].1) by {
                assert(lookup(m, e[i].0) == Some(e[i].1));
            }
        }
        if expected_msgs(tag, field, e, m).len() == 0 {
            assert forall|i: int| 0 <= i < e.len() implies lookup(m, (#[trigger] e[i]).0) == Some(e[i].1) by {
                if i < d.len() {
                    assert(lookup(m, d[i].0) == Some(d[i].1));
                }
            }
        }
    }
}

proof fn lemma_extra_msgs_empty(tag: Seq<char>, field: Seq<char>, e: Seq<(Seq<char>, u64)>, a: Seq<(Seq<char>, u64)>)
    ensures
        extra_msgs(tag, field, e, a).len() == 0 <==> forall|j: int|
            0 <= j < a.len() ==> lookup(e, (#[trigger] a[j]).0) is Some,
    decreases a.len(),
{
    if a.len() > 0 {
        let d = a.drop_last();
        lemma_extra_msgs_empty(tag, field, e, d);
        assert forall|j: int| 0 <= j < d.len() implies #[trigger] d[j] == a[j] by {}
        if forall|j: int| 0 <= j < a.len() ==> lookup(e, (#[trigger] a[j]).0) is Some {
            assert(lookup(e, a[a.len() - 1].0) is Some);
            assert forall|j: int| 0 <= j < d.len() implies lookup(e, (#[trigger] d[j]).0) is Some by {
                assert(lookup(e, a[j].0) is Some);
            }
        }
        if extra_msgs(tag, field, e, a).len() == 0 {
            assert forall|j: int| 0 <= j < a.len() implies lookup(e, (#[trigger] a[j]).0) is Some by {
                if j < d.len() {
                    assert(lookup(e, d[j].0) is Some);
                }
            }
        }
    }
}

/// The exact comparison of two counter maps, each naming a counter once, raises
/// no complaint exactly when the maps hold the same counters with the same counts.
pub proof fn lemma_map_msgs_quiet_iff_equal(
    tag: Seq<char>,
    field: Seq<char>,
    ex: Seq<(Seq<char>, u64)>,
    ac: Seq<(Seq<char>, u64)>,
)
    requires
        names_distinct(ex),
        names_distinct(ac),
    ensures
        map_msgs(tag, field, ex, ac).len() == 0 <==> forall|k: Seq<char>| #[trigger] lookup(ex, k) == lookup(ac, k),
{
    lemma_expected_msgs_empty(tag, field, ex, ac);
    lemma_extra_msgs_empty(tag, field, ex, ac);
    if forall|k: Seq<char>| #[trigger] lookup(ex, k) == lookup(ac, k) {
        assert forall|i: int| 0 <= i < ex.len() implies lookup(ac, (#[trigger] ex[i]).0) == Some(ex[i].1) by {
            lemma_lookup_own(ex, i);
            assert(lookup(ex, ex[i].0) == lookup(ac, ex[i].0));
        }
        assert forall|j: int| 0 <= j < ac.len() implies lookup(ex, (#[trigger] ac[j]).0) is Some by {
            lemma_lookup_own(ac, j);
            assert(lookup(ex, ac[j].0) == lookup(ac, ac[j].0));
        }
    }
    if map_msgs(tag, field, ex, ac).len() == 0 {
        assert forall|k: Seq<char>| #[trigger] lookup(ex, k) == lookup(ac, k) by {
            lemma_first_where(ex, pair_named(k));
            lemma_first_where(ac, pair_named(k));
            match first_where(ex, pair_named(k)) {
                Some(i) => {
                    assert(lookup(ac, ex[i].0) == Some(ex[i].1));
                },
                None => {
                    if let Some(j) = first_where(ac, pair_named(k)) {
                        assert(lookup(ex, ac[j].0) is Some);
                        assert(false);
                    }
                },
            }
        }
    }
}

/// No complaint arises about expected counters the actual map holds unchanged.
proof fn lemma_expected_quiet(tag: Seq<char>, field: Seq<char>, e: Seq<(Seq<char>, u64)>, m: Seq<(Seq<char>, u64)>)
    requires
        forall|i: int| 0 <= i < e.len() ==> lookup(m, (#[trigger] e[i]).0) == Some(e[i].1),
    ensures
        expected_msgs(tag, field, e, m) == Seq::<Seq<char>>::empty(),
    decreases e.len(),
{
    if e.len() > 0 {
        let d = e.drop_last();
        assert forall|i: int| 0 <= i < d.len() implies lookup(m, (#[trigger] d[i]).0) == Some(d[i].1) by {
            assert(d[i] == e[i]);
        }
        lemma_expected_quiet(tag, field, d, m);
        assert(e.last() == e[e.len() - 1]);
        assert(expected_msgs(tag, field, e, m) =~= Seq::<Seq<char>>::empty());
    }
}

/// No complaint arises about actual counters the expected map knows.
proof fn lemma_extra_quiet(tag: Seq<char>, field: Seq<char>, m: Seq<(Seq<char>, u64)>, a: Seq<(Seq<char>, u64)>)
    requires
        forall|i: int| 0 <= i < a.len() ==> lookup(m, (#[trigger] a[i]).0) is Some,
    ensures
        extra_msgs(tag, field, m, a) == Seq::<Seq<char>>::empty(),
    decreases a.len(),
{
    if a.len() > 0 {
        let d = a.drop_last();
        assert forall|i: int| 0 <= i < d.len() implies lookup(m, (#[trigger] d[i]).0) is Some by {
            assert(d[i] == a[i]);
        }
        lemma_extra_quiet(tag, field, m, d);
        assert(a.last() == a[a.len() - 1]);
        assert(extra_msgs(tag, field, m, a) =~= Seq::<Seq<char>>::empty());
    }
}

/// A counter map without repeated names compares equal to itself.
proof fn lemma_map_msgs_self(tag: Seq<char>, field: Seq<char>, m: Seq<(Seq<char>, u64)>)
    requires
        names_distinct(m),
    ensures
        map_msgs(tag, field, m, m) == Seq::<Seq<char>>::empty(),
{
    assert forall|i: int| 0 <= i < m.len() implies lookup(m, (#[trigger] m[i]).0) == Some(m[i].1) by {
        lemma_lookup_own(m, i);
    }
    lemma_expected_quiet(tag, field, m, m);
    lemma_extra_quiet(tag, field, m, m);
    assert(map_msgs(tag, field, m, m) =~= Seq::<Seq<char>>::empty());
}

/// No complaint arises from the runs of a prefix when each finds its own record.
proof fn lemma_violations_quiet(entries: Seq<BaselineEntry>, runs: Seq<RunRecord>, k: int)
    requires
        entries.len() == runs.len(),
        0 <= k <= runs.len(),
        forall|i: int| 0 <= i < runs.len() ==> records(#[trigger] entries[i], runs[i]),
        runs_distinct(runs),
        forall|i: int|
            0 <= i < runs.len() ==> names_distinct(counter_pairs((#[trigger] runs[i]).cost_proxy@))
                && names_distinct(counter_pairs(runs[i].measured_totals@)),
    ensures
        violations(entries, runs.take(k)) == Seq::<Seq<char>>::empty(),
    decreases k,
{
    if k > 0 {
        let i = k - 1;
        lemma_violations_quiet(entries, runs, i);
        assert(runs.take(k).drop_last() =~= runs.take(i));
        assert(runs.take(k).last() == runs[i]);
        let run = runs[i];
        let e = entries[i];
        let p = entry_for(run.model@, run.backend@);
        assert forall|j: int| 0 <= j < i implies !p(#[trigger] entries[j]) by {
            assert(records(entries[j], runs[j]));
            assert(!(runs[j].model@ == runs[i].model@ && runs[j].backend@ == runs[i].backend@));
        }
        assert(records(e, run));
        lemma_first_where_at(entries, p, i);
        let tag = run_tag(run.model@, run.backend@);
        lemma_map_msgs_self(tag, "cost_proxy"@, counter_pairs(run.cost_proxy@));
        lemma_map_msgs_self(tag, "measured_totals"@, counter_pairs(run.measured_totals@));
        assert(entry_msgs(tag, e, run) =~= Seq::<Seq<char>>::empty());
        assert(violations(entries, runs.take(k)) =~= Seq::<Seq<char>>::empty());
    }
}

/// No warning arises from the entries of a prefix when each was exercised.
proof fn lemma_warnings_quiet(entries: Seq<BaselineEntry>, runs: Seq<RunRecord>, k: int)
    requires
        entries.len() == runs.len(),
        0 <= k <= entries.len(),
        forall|i: int| 0 <= i < runs.len() ==> records(#[trigger] entries[i], runs[i]),
    ensures
        warnings(entries.take(k), runs) == Seq::<Seq<char>>::empty(),
    decreases k,
{
    if k > 0 {
        let i = k - 1;
        lemma_warnings_quiet(entries, runs, i);
        assert(entries.take(k).drop_last() =~= entries.take(i));
        assert(entries.take(k).last() == entries[i]);
        let e = entries[i];
        assert(records(e, runs[i]));
        lemma_first_where(runs, run_of(e.model@, e.backend@));
        if first_where(runs, run_of(e.model@, e.backend@)) is None {
            assert(!run_of(e.model@, e.backend@)(runs[i]));
        }
        assert(warnings(entries.take(k), runs) =~= Seq::<Seq<char>>::empty());
    }
}

/// A baseline that records each run passes those runs: no violation and no
/// warning, when no two runs share a model and backend and no counter map
/// repeats a name (as a map cannot).
pub proof fn lemma_recorded_runs_pass(b: Baseline, runs: Seq<RunRecord>)
    requires
        b.entries@.len() == runs.len(),
        forall|i: int| 0 <= i < runs.len() ==> records(#[trigger] b.entries@[i], runs[i]),
        runs_distinct(runs),
        forall|i: int|
            0 <= i < runs.len() ==> names_distinct(counter_pairs((#[trigger] runs[i]).cost_proxy@))
                && names_distinct(counter_pairs(runs[i].measured_totals@)),
    ensures
        violations(b.entries@, runs) == Seq::<Seq<char>>::empty(),
        warnings(b.entries@, runs) == Seq::<Seq<char>>::empty(),
{
    lemma_violations_quiet(b.entries@, runs, runs.len() as int);
    lemma_warnings_quiet(b.entries@, runs, runs.len() as int);
    assert(runs.take(runs.len() as int) =~= runs);
    assert(b.entries@.take(runs.len() as int) =~= b.entries@);
}


/// How many expected counters the run does not match: those it lacks or holds
/// with another count.
pub open spec fn mismatched_count(expected: Seq<(Seq<char>, u64)>, actual: Seq<(Seq<char>, u64)>) -> nat
    decreases expected.len(),
{
    if expected.len() == 0 {
        0
    } else {
        mismatched_count(expected.drop_last(), actual) + if lookup(actual, expected.last().0) == Some(
            expected.last().1,
        ) {
            0nat
        } else {
            1nat
        }
    }
}

/// How many measured counters the baseline does not name.
pub open spec fn unknown_count(expected: Seq<(Seq<char>, u64)>, actual: Seq<(Seq<char>, u64)>) -> nat
    decreases actual.len(),
{
    if actual.len() == 0 {
        0
    } else {
        unknown_count(expected, actual.drop_last()) + if lookup(expected, actual.last().0) is None {
            1nat
        } else {
            0nat
        }
    }
}

/// The exact comparison of two counter maps raises one complaint per expected
/// counter the run does not match and one per measured counter the baseline
/// lacks, and every complaint starts with `"{tag}: {field}."`.
pub proof fn lemma_map_msgs_count(
    tag: Seq<char>,
    field: Seq<char>,
    ex: Seq<(Seq<char>, u64)>,
    ac: Seq<(Seq<char>, u64)>,
)
    ensures
        map_msgs(tag, field, ex, ac).len() == mismatched_count(ex, ac) + unknown_count(ex, ac),
        forall|i: int|
            0 <= i < map_msgs(tag, field, ex, ac).len() ==> (#[trigger] map_msgs(tag, field, ex, ac)[i]).take(
                (tag + ": "@ + field + "."@).len() as int,
            ) == tag + ": "@ + field + "."@,
{
    lemma_expected_msgs_count(tag, field, ex, ac);
    lemma_extra_msgs_count(tag, field, ex, ac);
    let m = map_msgs(tag, field, ex, ac);
    let a = expected_msgs(tag, field, ex, ac);
    let b = extra_msgs(tag, field, ex, ac);
    assert forall|i: int| 0 <= i < m.len() implies (#[trigger] m[i]).take((tag + ": "@ + field + "."@).len() as int)
        == tag + ": "@ + field + "."@ by {
        if i < a.len() {
            assert(m[i] == a[i]);
        } else {
            assert(m[i] == b[i - a.len()]);
        }
    }
}

proof fn lemma_expected_msgs_count(
    tag: Seq<char>,
    field: Seq<char>,
    ex: Seq<(Seq<char>, u64)>,
    ac: Seq<(Seq<char>, u64)>,
)
    ensures
        expected_msgs(tag, field, ex, ac).len() == mismatched_count(ex, ac),
        forall|i: int|
            0 <= i < expected_msgs(tag, field, ex, ac).len() ==> (#[trigger] expected_msgs(tag, field, ex, ac)[i]).take(
                (tag + ": "@ + field + "."@).len() as int,
            ) == tag + ": "@ + field + "."@,
    decreases ex.len(),
{
    if ex.len() > 0 {
        let d = ex.drop_last();
        lemma_expected_msgs_count(tag, field, d, ac);
        let prev = expected_msgs(tag, field, d, ac);
        let m = expected_msgs(tag, field, ex, ac);
        let pre = tag + ": "@ + field + "."@;
        let k = ex.last().0;
        let v = ex.last().1;
        assert forall|i: int| 0 <= i < m.len() implies (#[trigger] m[i]).take(pre.len() as int) == pre by {
            if i < prev.len() {
                assert(m[i] == prev[i]);
            } else {
                match lookup(ac, k) {
                    Some(x) => {
                        let msg = tag + ": "@ + field + "."@ + k + " regressed: baseline "@ + dec(v as nat)
                            + ", measured "@ + dec(x as nat);
                        assert(m[i] == msg);
                        assert(msg =~= pre + (k + " regressed: baseline "@ + dec(v as nat) + ", measured "@
                            + dec(x as nat)));
                        assert(msg.take(pre.len() as int) =~= pre);
                    },
                    None => {
                        let msg = tag + ": "@ + field + "."@ + k + " missing from measured run (baseline "@
                            + dec(v as nat) + ")"@;
                        assert(m[i] == msg);
                        assert(msg =~= pre + (k + " missing from measured run (baseline "@ + dec(v as nat)
                            + ")"@));
                        assert(msg.take(pre.len() as int) =~= pre);
                    },
                }
            }
        }
    }
}

proof fn lemma_extra_msgs_count(
    tag: Seq<char>,
    field: Seq<char>,
    ex: Seq<(Seq<char>, u64)>,
    ac: Seq<(Seq<char>, u64)>,
)
    ensures
        extra_msgs(tag, field, ex, ac).len() == unknown_count(ex, ac),
        forall|i: int|
            0 <= i < extra_msgs(tag, field, ex, ac).len() ==> (#[trigger] extra_msgs(tag, field, ex, ac)[i]).take(
                (tag + ": "@ + field + "."@).len() as int,
            ) == tag + ": "@ + field + "."@,
    decreases ac.len(),
{
    if ac.len() > 0 {
        let d = ac.drop_last();
        lemma_extra_msgs_count(tag, field, ex, d);
        let prev = extra_msgs(tag, field, ex, d);
        let m = extra_msgs(tag, field, ex, ac);
        let pre = tag + ": "@ + field + "."@;
        let k = ac.last().0;
        assert forall|i: int| 0 <= i < m.len() implies (#[trigger] m[i]).take(pre.len() as int) == pre by {
            if i < prev.len() {
                assert(m[i] == prev[i]);
            } else {
                let msg = tag + ": "@ + field + "."@ + k + " extra key in measured run (value "@ + dec(
                    ac.last().1 as nat,
                ) + ", not in baseline)"@;
                assert(m[i] == msg);
                assert(msg =~= pre + (k + " extra key in measured run (value "@ + dec(ac.last().1 as nat)
                    + ", not in baseline)"@));
                assert(msg.take(pre.len() as int) =~= pre);
            }
        }
    }
}


/// Whether a run stays within its baseline entry `e`: same model, backend and
/// parameter profile, the same parameters and wire sizes, as many labels
/// checked and at least as many matched, and (where neither counter map repeats
/// a name) the same counts under every counter name.
pub open spec fn within_entry(e: BaselineEntry, run: RunRecord) -> bool {
    &&& e.model@ == run.model@
    &&& e.backend@ == run.backend@
    &&& opt_text(e.profile) == opt_text(run.profile)
    &&& e.num_blocks == run.num_blocks
    &&& e.client_key_bytes == run.client_key_bytes
    &&& e.server_key_bytes == run.server_key_bytes
    &&& e.input_ct_bytes == run.input_ct_bytes
    &&& e.output_ct_bytes == run.output_ct_bytes
    &&& e.labels_checked == count_checked(run.label_matches@)
    &&& e.labels_matched <= count_matched(run.label_matches@)
    &&& (names_distinct(counter_pairs(e.cost_proxy@)) && names_distinct(counter_pairs(run.cost_proxy@)))
        ==> forall|k: Seq<char>|
        #[trigger] lookup(counter_pairs(e.cost_proxy@), k) == lookup(counter_pairs(run.cost_proxy@), k)
    &&& (names_distinct(counter_pairs(e.measured_totals@)) && names_distinct(
        counter_pairs(run.measured_totals@),
    )) ==> forall|k: Seq<char>|
        #[trigger] lookup(counter_pairs(e.measured_totals@), k) == lookup(
            counter_pairs(run.measured_totals@),
            k,
        )
}

/// A run that raises no complaint stays within the baseline entry that names it.
proof fn lemma_quiet_run(entries: Seq<BaselineEntry>, run: RunRecord)
    requires
        run_msgs(entries, run).len() == 0,
    ensures
        first_where(entries, entry_for(run.model@, run.backend@)) matches Some(j) && within_entry(
            entries[j],
            run,
        ),
{
    let p = entry_for(run.model@, run.backend@);
    lemma_first_where(entries, p);
    let j = first_where(entries, p)->0;
    let e = entries[j];
    let tag = run_tag(run.model@, run.backend@);
    assert(p(e));
    let a = profile_msgs(tag, e, run);
    let b = size_msgs(tag, e, run);
    let c = counter_msgs(tag, e, run);
    let d = label_msgs(tag, e, run);
    assert(entry_msgs(tag, e, run) == a + b + c + d);
    assert(a.len() == 0 && b.len() == 0 && c.len() == 0 && d.len() == 0);
    let ex = counter_pairs(e.cost_proxy@);
    let ac = counter_pairs(run.cost_proxy@);
    if names_distinct(ex) && names_distinct(ac) {
        lemma_map_msgs_quiet_iff_equal(tag, "cost_proxy"@, ex, ac);
    }
    let ex2 = counter_pairs(e.measured_totals@);
    let ac2 = counter_pairs(run.measured_totals@);
    if names_distinct(ex2) && names_distinct(ac2) {
        lemma_map_msgs_quiet_iff_equal(tag, "measured_totals"@, ex2, ac2);
    }
}

/// A check that finds no violation means every run stays within the baseline
/// entry that names it: same parameters and wire sizes (every one of them),
/// same profile and label count, no fewer matched labels, and the same counter
/// totals. Any run that differs in one of these yields a violation.
pub proof fn lemma_quiet_check_means_within(entries: Seq<BaselineEntry>, runs: Seq<RunRecord>)
    requires
        violations(entries, runs).len() == 0,
    ensures
        forall|i: int|
            0 <= i < runs.len() ==> (first_where(entries, entry_for((#[trigger] runs[i]).model@, runs[i].backend@)) matches Some(j)
                && within_entry(entries[j], runs[i])),
    decreases runs.len(),
{
    if runs.len() > 0 {
        let prev = runs.drop_last();
        assert(violations(entries, runs) == violations(entries, prev) + run_msgs(entries, runs.last()));
        lemma_quiet_check_means_within(entries, prev);
        lemma_quiet_run(entries, runs.last());
        assert forall|i: int| 0 <= i < runs.len() implies (first_where(entries, entry_for((#[trigger] runs[i]).model@, runs[i].backend@)) matches Some(j)
            && within_entry(entries[j], runs[i])) by {
            if i < prev.len() {
                assert(runs[i] == prev[i]);
            }
        }
    }
}


/// The check warns of nothing exactly when every baseline entry is exercised:
/// some run has the entry's model and backend.
pub proof fn lemma_no_warnings_iff_all_exercised(entries: Seq<BaselineEntry>, runs: Seq<RunRecord>)
    ensures
        warnings(entries, runs).len() == 0 <==> forall|i: int|
            0 <= i < entries.len() ==> exists|j: int|
                0 <= j < runs.len() && (#[trigger] runs[j]).model@ == (#[trigger] entries[i]).model@
                    && runs[j].backend@ == entries[i].backend@,
    decreases entries.len(),
{
    if entries.len() > 0 {
        let prev = entries.drop_last();
        lemma_no_warnings_iff_all_exercised(prev, runs);
        let e = entries.last();
        let p = run_of(e.model@, e.backend@);
        lemma_first_where(runs, p);
        assert(forall|i: int| 0 <= i < prev.len() ==> #[trigger] prev[i] == entries[i]);
        if warnings(entries, runs).len() == 0 {
            assert(warnings(prev, runs).len() == 0);
            assert forall|i: int| 0 <= i < entries.len() implies exists|j: int|
                0 <= j < runs.len() && (#[trigger] runs[j]).model@ == (#[trigger] entries[i]).model@
                    && runs[j].backend@ == entries[i].backend@ by {
                if i < prev.len() {
                    assert(prev[i] == entries[i]);
                } else {
                    let j = first_where(runs, p)->0;
                    assert(p(runs[j]));
                }
            }
        }
        if forall|i: int|
            0 <= i < entries.len() ==> exists|j: int|
                0 <= j < runs.len() && (#[trigger] runs[j]).model@ == (#[trigger] entries[i]).model@
                    && runs[j].backend@ == entries[i].backend@ {
            assert forall|i: int| 0 <= i < prev.len() implies exists|j: int|
                0 <= j < runs.len() && (#[trigger] runs[j]).model@ == (#[trigger] prev[i]).model@
                    && runs[j].backend@ == prev[i].backend@ by {
                assert(prev[i] == entries[i]);
            }
            let last = entries.len() - 1;
            assert(entries[last] == e);
            let j = choose|j: int|
                0 <= j < runs.len() && (#[trigger] runs[j]).model@ == entries[last].model@
                    && runs[j].backend@ == entries[last].backend@;
            assert(p(runs[j]));
        }
    }
}

} // verus!
