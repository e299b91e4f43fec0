//! Provenance of a benchmark report, the per-sample decisions a report
//! records (how many samples run, whether a decrypted label matched), and the
//! integer cells of its tables.

use vstd::prelude::*;

use crate::ir::cat;
use crate::text::{dec, u64_text};

verus! {

/// Where a report came from: a result that cannot be attributed to a machine,
/// build profile, and HAL backend is not a comparison result.
#[derive(Debug, Clone)]
pub struct ReportMeta {
    pub os: String,
    pub arch: String,
    /// `false` means debug-build numbers, never publishable.
    pub release: bool,
    pub backends_compiled: Vec<String>,
    /// The HAL backend linked into this build; `None` without CKKS.
    pub ckks_hal: Option<String>,
    pub samples_requested: usize,
}

/// The number of samples a run evaluates: the samples requested, at most the
/// inputs available, and at least one.
pub fn sample_count(requested: usize, available: usize) -> (r: usize)
    ensures
        r == if requested <= available {
            if requested >= 1 { requested } else { 1 }
        } else {
            if available >= 1 { available } else { 1 }
        },
{
    let n = if requested <= available {
        requested
    } else {
        available
    };
    if n >= 1 {
        n
    } else {
        1
    }
}

/// The index of the largest value, the last one among equals; -1 when empty.
pub open spec fn last_max_index(s: Seq<i64>) -> int
    decreases s.len(),
{
    if s.len() == 0 {
        -1
    } else {
        let p = last_max_index(s.drop_last());
        if p == -1 || s.last() >= s[p] {
            s.len() - 1
        } else {
            p
        }
    }
}

/// The predicted label of decrypted logits: the index of the largest value, the
/// last one among equals, or -1 when there are none.
pub fn predicted_label(decrypted: &[i64]) -> (r: i64)
    requires
        decrypted@.len() <= i64::MAX,
    ensures
        r == last_max_index(decrypted@),
{
    let mut best: i64 = -1;
    let mut i: usize = 0;
    while i < decrypted.len()
        invariant
            i <= decrypted@.len(),
            decrypted@.len() <= i64::MAX,
            best == last_max_index(decrypted@.take(i as int)),
            -1 <= best < i,
        decreases decrypted@.len() - i,
    {
        assert(decrypted@.take(i + 1).drop_last() =~= decrypted@.take(i as int));
        if best == -1 || decrypted[i] >= decrypted[best as usize] {
            best = i as i64;
        }
        i = i + 1;
    }
    assert(decrypted@.take(decrypted@.len() as int) =~= decrypted@);
    best
}

/// Whether a sample's decrypted output carries its expected label: unknown
/// without an expected label or without output; a single output is compared
/// through the backend's own label decryption (`single_label`), several
/// outputs through their largest value.
pub fn sample_label_matches(decrypted: &[i64], expected: Option<i64>, single_label: i64) -> (r: Option<bool>)
    requires
        decrypted@.len() <= i64::MAX,
    ensures
        r == match expected {
            None => None,
            Some(e) => if decrypted@.len() == 1 {
                Some(single_label == e)
            } else if decrypted@.len() == 0 {
                None
            } else {
                Some(last_max_index(decrypted@) == e)
            },
        },
{
    match expected {
        None => None,
        Some(e) => {
            if decrypted.len() == 1 {
                Some(single_label == e)
            } else if decrypted.len() == 0 {
                None
            } else {
                Some(predicted_label(decrypted) == e)
            }
        },
    }
}


/// How many samples carry their expected label.
pub open spec fn matched_count(ms: Seq<Option<bool>>) -> nat
    decreases ms.len(),
{
    if ms.len() == 0 {
        0
    } else {
        matched_count(ms.drop_last()) + if ms.last() == Some(true) {
            1nat
        } else {
            0nat
        }
    }
}

/// How many samples have a known label outcome.
pub open spec fn known_count(ms: Seq<Option<bool>>) -> nat
    decreases ms.len(),
{
    if ms.len() == 0 {
        0
    } else {
        known_count(ms.drop_last()) + if ms.last() is Some {
            1nat
        } else {
            0nat
        }
    }
}

/// The label score of a run: how many samples carry their expected label,
/// and how many have a known outcome.
pub fn label_score(ms: &[Option<bool>]) -> (r: (usize, usize))
    ensures
        r.0 == matched_count(ms@),
        r.1 == known_count(ms@),
{
    let mut k: usize = 0;
    let mut n: usize = 0;
    let mut i: usize = 0;
    while i < ms.len()
        invariant
            i <= ms@.len(),
            k == matched_count(ms@.take(i as int)),
            n == known_count(ms@.take(i as int)),
            k <= n <= i,
        decreases ms@.len() - i,
    {
        assert(ms@.take(i + 1).drop_last() =~= ms@.take(i as int));
        match ms[i] {
            Some(true) => {
                k = k + 1;
                n = n + 1;
            },
            Some(false) => {
                n = n + 1;
            },
            None => {},
        }
        i = i + 1;
    }
    assert(ms@.take(ms@.len() as int) =~= ms@);
    (k, n)
}

/// Counters written `name: count`, joined with `", "`, each name after `lead`.
pub open spec fn counters_text(lead: Seq<char>, cs: Seq<(String, u64)>) -> Seq<char>
    decreases cs.len(),
{
    if cs.len() == 0 {
        seq![]
    } else if cs.len() == 1 {
        lead + cs[0].0@ + ": "@ + dec(cs[0].1 as nat)
    } else {
        counters_text(lead, cs.drop_last()) + ", "@ + lead + cs.last().0@ + ": "@ + dec(cs.last().1 as nat)
    }
}

/// The cost-proxy cell of a run: the scheme's counters, `none` when there are
/// none, followed by the measured totals, each marked `measured`.
pub open spec fn proxy_text(cost: Seq<(String, u64)>, measured: Seq<(String, u64)>) -> Seq<char> {
    if measured.len() == 0 {
        if cost.len() == 0 {
            "none"@
        } else {
            counters_text(""@, cost)
        }
    } else if cost.len() == 0 {
        counters_text("measured "@, measured)
    } else {
        counters_text(""@, cost) + ", "@ + counters_text("measured "@, measured)
    }
}

/// Writes counters as `counters_text` says.
fn write_counters(lead: &str, cs: &[(String, u64)]) -> (r: String)
    ensures
        r@ == counters_text(lead@, cs@),
{
    let mut out = String::new();
    let mut i: usize = 0;
    assert(cs@.take(0) =~= Seq::<(String, u64)>::empty());
    while i < cs.len()
        invariant
            i <= cs@.len(),
            out@ == counters_text(lead@, cs@.take(i as int)),
        decreases cs@.len() - i,
    {
        assert(cs@.take(i + 1).drop_last() =~= cs@.take(i as int));
        if i > 0 {
            out = cat(out, ", ");
        } else {
            assert(out@ == Seq::<char>::empty());
        }
        out = cat(out, lead);
        out = cat(out, cs[i].0.as_str());
        out = cat(out, ": ");
        out = cat(out, u64_text(cs[i].1).as_str());
        assert(cs@.take(i + 1)[i as int] == cs@[i as int]);
        assert(out@ =~= counters_text(lead@, cs@.take(i + 1)));
        i = i + 1;
    }
    assert(cs@.take(cs@.len() as int) =~= cs@);
    out
}

/// The cost-proxy cell of a run, as `proxy_text` says.
pub fn cost_proxy_text(cost: &[(String, u64)], measured: &[(String, u64)]) -> (r: String)
    ensures
        r@ == proxy_text(cost@, measured@),
{
    let base = if cost.len() == 0 {
        String::from_str("none")
    } else {
        write_counters("", cost)
    };
    if measured.len() == 0 {
        return base;
    }
    let parts = write_counters("measured ", measured);
    if cost.len() == 0 {
        parts
    } else {
        let m = cat(base, ", ");
        cat(m, parts.as_str())
    }
}


/// The predicted label is an argmax, the last among equals: for a non-empty
/// sequence it is an index whose value is at least every value, and every later
/// index holds a smaller value; for an empty one it is -1.
pub proof fn lemma_predicted_label_is_argmax(s: Seq<i64>)
    ensures
        s.len() == 0 ==> last_max_index(s) == -1,
        s.len() > 0 ==> {
            let r = last_max_index(s);
            &&& 0 <= r < s.len()
            &&& forall|j: int| 0 <= j < s.len() ==> #[trigger] s[j] <= s[r]
            &&& forall|j: int| r < j < s.len() ==> #[trigger] s[j] < s[r]
        },
    decreases s.len(),
{
    if s.len() > 0 {
        let prev = s.drop_last();
        lemma_predicted_label_is_argmax(prev);
        let p = last_max_index(prev);
        let r = last_max_index(s);
        assert forall|j: int| 0 <= j < s.len() implies #[trigger] s[j] <= s[r] by {
            if j < prev.len() {
                assert(s[j] == prev[j]);
            }
            if p != -1 {
                assert(s[p] == prev[p]);
            }
        }
        assert forall|j: int| r < j < s.len() implies #[trigger] s[j] < s[r] by {
            assert(s[p] == prev[p]);
            if j < prev.len() {
                assert(s[j] == prev[j]);
            }
        }
    }
}

} // verus!
