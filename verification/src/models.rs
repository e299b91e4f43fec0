//! The registry of committed model fixtures used by the comparison harness.

use vstd::prelude::*;

use crate::ir::{cat, Graph};
use crate::seqs::{first_where, lemma_first_where_at, lemma_first_where_none};
use crate::text::str_eq;

verus! {

/// A committed model fixture.
#[derive(Debug, Clone, Copy)]
pub struct ModelFixture {
    /// Registry key used on the command line and in the model selection.
    pub key: &'static str,
    /// Fixture path relative to the harness's crate directory.
    pub path: &'static str,
    /// Human label for the report.
    pub label: &'static str,
    /// Included in the default benchmark set (cheap enough to sample repeatedly).
    pub default_bench: bool,
}

/// A loaded model fixture ready for session evaluation.
pub struct LoadedModel {
    pub fixture: ModelFixture,
    pub graph: Graph,
    pub inputs: Vec<Vec<i64>>,
    pub expected_logits: Option<Vec<Vec<i64>>>,
    pub expected_labels: Option<Vec<i64>>,
}

/// The registry keys, in registry order.
pub open spec fn fixture_keys() -> Seq<Seq<char>> {
    seq![
        "phase2_logreg"@,
        "phase4_cnn"@,
        "phase5_digits"@,
        "phase5_qat"@,
        "phase6_onnx"@,
        "phase6_sklearn"@,
        "phase7_faces"@,
    ]
}

/// The registry keys of a table of fixtures.
pub open spec fn keys_of(v: Seq<ModelFixture>) -> Seq<Seq<char>> {
    v.map_values(|m: ModelFixture| m.key@)
}

/// The committed fixtures, in report order.
pub open spec fn registry() -> Seq<ModelFixture> {
    seq![
        ModelFixture {
            key: "phase2_logreg",
            path: "../../examples/mnist/phase2_fixture.json",
            label: "Phase-2 logreg",
            default_bench: true,
        },
        ModelFixture {
            key: "phase4_cnn",
            path: "../../examples/mnist/phase4_cnn_fixture.json",
            label: "Phase-4 CNN",
            default_bench: false,
        },
        ModelFixture {
            key: "phase5_digits",
            path: "../../examples/mnist/phase5_digits_fixture.json",
            label: "Phase-5 digits (PTQ)",
            default_bench: false,
        },
        ModelFixture {
            key: "phase5_qat",
            path: "../../examples/mnist/phase5_qat_fixture.json",
            label: "Phase-5 digits (QAT)",
            default_bench: false,
        },
        ModelFixture {
            key: "phase6_onnx",
            path: "../../examples/mnist/phase6_onnx_fixture.json",
            label: "Phase-6 ONNX",
            default_bench: false,
        },
        ModelFixture {
            key: "phase6_sklearn",
            path: "../../examples/mnist/phase6_sklearn_fixture.json",
            label: "Phase-6 sklearn",
            default_bench: false,
        },
        ModelFixture {
            key: "phase7_faces",
            path: "../../examples/faces/phase7_faces_fixture.json",
            label: "Phase-7 faces",
            default_bench: false,
        },
    ]
}

/// The registry fixture a key names (meaningful for a registry key).
pub open spec fn fixture_for(key: Seq<char>) -> ModelFixture {
    registry()[first_where(fixture_keys(), keyed(key))->0]
}

/// The registry fixtures the keys name, in order.
pub open spec fn fixtures_for(keys: Seq<Seq<char>>) -> Seq<ModelFixture> {
    keys.map_values(|k: Seq<char>| fixture_for(k))
}

/// Each registry key names its own fixture: the keys are distinct.
pub proof fn lemma_keys_name_their_fixtures()
    ensures
        fixtures_for(fixture_keys()) == registry(),
        keys_of(registry()) == fixture_keys(),
{
    reveal_strlit("phase2_logreg");
    reveal_strlit("phase4_cnn");
    reveal_strlit("phase5_digits");
    reveal_strlit("phase5_qat");
    reveal_strlit("phase6_onnx");
    reveal_strlit("phase6_sklearn");
    reveal_strlit("phase7_faces");
    let ks = fixture_keys();
    assert(keys_of(registry()) =~= ks);
    assert forall|j: int| 0 <= j < ks.len() implies first_where(ks, keyed(ks[j])) == Some(j) by {
        assert forall|l: int| 0 <= l < j implies !keyed(ks[j])(#[trigger] ks[l]) by {
            assert(ks[0].len() == 13 && ks[0][5] == '2');
            assert(ks[1].len() == 10 && ks[1][5] == '4');
            assert(ks[2].len() == 13 && ks[2][5] == '5');
            assert(ks[3].len() == 10 && ks[3][5] == '5');
            assert(ks[4].len() == 11 && ks[4][5] == '6');
            assert(ks[5].len() == 14 && ks[5][5] == '6');
            assert(ks[6].len() == 12 && ks[6][5] == '7');
            assert(l == 0 || l == 1 || l == 2 || l == 3 || l == 4 || l == 5);
            assert(j == 1 || j == 2 || j == 3 || j == 4 || j == 5 || j == 6);
        }
        lemma_first_where_at(ks, keyed(ks[j]), j);
    }
    assert(fixtures_for(ks) =~= registry());
}

/// Every committed fixture, in report order; only the first is in the default
/// benchmark set.
pub fn models() -> (r: Vec<ModelFixture>)
    ensures
        r@ == registry(),
        keys_of(r@) == fixture_keys(),
        r@[0].path@ == "../../examples/mnist/phase2_fixture.json"@,
        r@[0].label@ == "Phase-2 logreg"@,
        r@[1].path@ == "../../examples/mnist/phase4_cnn_fixture.json"@,
        r@[2].path@ == "../../examples/mnist/phase5_digits_fixture.json"@,
        r@[3].path@ == "../../examples/mnist/phase5_qat_fixture.json"@,
        r@[4].path@ == "../../examples/mnist/phase6_onnx_fixture.json"@,
        r@[5].path@ == "../../examples/mnist/phase6_sklearn_fixture.json"@,
        r@[6].path@ == "../../examples/faces/phase7_faces_fixture.json"@,
        forall|i: int| 0 <= i < r@.len() ==> (#[trigger] r@[i]).default_bench == (i == 0),
{
    let r = vec![
        ModelFixture {
            key: "phase2_logreg",
            path: "../../examples/mnist/phase2_fixture.json",
            label: "Phase-2 logreg",
            default_bench: true,
        },
        ModelFixture {
            key: "phase4_cnn",
            path: "../../examples/mnist/phase4_cnn_fixture.json",
            label: "Phase-4 CNN",
            default_bench: false,
        },
        ModelFixture {
            key: "phase5_digits",
            path: "../../examples/mnist/phase5_digits_fixture.json",
            label: "Phase-5 digits (PTQ)",
            default_bench: false,
        },
        ModelFixture {
            key: "phase5_qat",
            path: "../../examples/mnist/phase5_qat_fixture.json",
            label: "Phase-5 digits (QAT)",
            default_bench: false,
        },
        ModelFixture {
            key: "phase6_onnx",
            path: "../../examples/mnist/phase6_onnx_fixture.json",
            label: "Phase-6 ONNX",
            default_bench: false,
        },
        ModelFixture {
            key: "phase6_sklearn",
            path: "../../examples/mnist/phase6_sklearn_fixture.json",
            label: "Phase-6 sklearn",
            default_bench: false,
        },
        ModelFixture {
            key: "phase7_faces",
            path: "../../examples/faces/phase7_faces_fixture.json",
            label: "Phase-7 faces",
            default_bench: false,
        },
    ];
    assert(keys_of(r@) =~= fixture_keys());
    r
}

/// The keys joined with `", "`.
pub open spec fn joined(keys: Seq<Seq<char>>) -> Seq<char>
    decreases keys.len(),
{
    if keys.len() == 0 {
        seq![]
    } else if keys.len() == 1 {
        keys[0]
    } else {
        joined(keys.drop_last()) + ", "@ + keys.last()
    }
}

/// A fixture whose key is `key`.
pub open spec fn keyed(key: Seq<char>) -> spec_fn(Seq<char>) -> bool {
    |k: Seq<char>| k == key
}

/// The refusal of an unknown model key.
pub open spec fn unknown_model_msg(key: Seq<char>) -> Seq<char> {
    "unknown model '"@ + key + "'; valid models are: "@ + joined(fixture_keys())
}

/// Look up a model fixture by its key; an unknown key is refused with the list
/// of valid keys.
pub fn find(key: &str) -> (r: Result<ModelFixture, String>)
    ensures
        match first_where(fixture_keys(), keyed(key@)) {
            Some(i) => r matches Ok(m) && m == registry()[i] && m == fixture_for(key@) && m.key@
                == key@,
            None => r matches Err(e) && e@ == unknown_model_msg(key@),
        },
{
    let table = models();
    let ghost p = keyed(key@);
    let mut i: usize = 0;
    while i < table.len()
        invariant
            i <= table@.len(),
            keys_of(table@) == fixture_keys(),
            table@ == registry(),
            p == keyed(key@),
            forall|j: int| 0 <= j < i ==> !p(#[trigger] fixture_keys()[j]),
        decreases table@.len() - i,
    {
        if str_eq(table[i].key, key) {
            assert(keys_of(table@)[i as int] == table@[i as int].key@);
            proof { lemma_first_where_at(fixture_keys(), p, i as int); }
            return Ok(table[i]);
        }
        assert(keys_of(table@)[i as int] == table@[i as int].key@);
        i = i + 1;
    }
    proof { lemma_first_where_none(fixture_keys(), p); }
    let keys = model_keys();
    let valid = join_names(&keys);
    let m = cat(String::from_str("unknown model '"), key);
    let m = cat(m, "'; valid models are: ");
    Err(cat(m, valid.as_str()))
}

/// The characters of each name.
pub open spec fn strs(v: Seq<&'static str>) -> Seq<Seq<char>> {
    v.map_values(|s: &'static str| s@)
}

/// The names joined with `", "`.
pub fn join_names(v: &Vec<&'static str>) -> (r: String)
    ensures
        r@ == joined(strs(v@)),
{
    let mut out = String::new();
    let mut j: usize = 0;
    while j < v.len()
        invariant
            j <= v@.len(),
            out@ == joined(strs(v@).take(j as int)),
        decreases v@.len() - j,
    {
        assert(strs(v@).take(j + 1).drop_last() =~= strs(v@).take(j as int));
        if j == 0 {
            out = String::from_str(v[j]);
            assert(strs(v@).take(1) =~= seq![strs(v@)[0]]);
        } else {
            out = cat(cat(out, ", "), v[j]);
        }
        j = j + 1;
    }
    assert(strs(v@).take(v@.len() as int) =~= strs(v@));
    out
}

/// The registry keys, in registry order.
pub fn model_keys() -> (r: Vec<&'static str>)
    ensures
        strs(r@) == fixture_keys(),
{
    let table = models();
    let mut r: Vec<&'static str> = Vec::new();
    let mut i: usize = 0;
    while i < table.len()
        invariant
            i <= table@.len(),
            keys_of(table@) == fixture_keys(),
            strs(r@) == fixture_keys().take(i as int),
        decreases table@.len() - i,
    {
        assert(keys_of(table@)[i as int] == table@[i as int].key@);
        let ghost before = r@;
        r.push(table[i].key);
        assert(strs(r@) =~= strs(before).push(table@[i as int].key@));
        assert(fixture_keys().take(i + 1) =~= fixture_keys().take(i as int).push(
            fixture_keys()[i as int],
        ));
        i = i + 1;
    }
    assert(fixture_keys().take(table@.len() as int) =~= fixture_keys());
    r
}

/// The backends compiled into this build, in report order.
pub fn available_backends() -> (r: Vec<&'static str>)
    ensures
        r@.len() == 1,
        r@[0]@ == "tfhe"@,
{
    vec!["tfhe"]
}

} // verus!
