use penumbra::backend::EvalCtx;
use penumbra::error::PenumbraRuntimeError;
use penumbra::ir::{default_requant_mult, Graph, SCHEMA_VERSION};
use penumbra::models::{available_backends, find, models};
use penumbra::ckks::SCHEME_CKKS;
use penumbra::report::{cost_proxy_text, label_score};
use penumbra::wire::{check_key_tag, check_scheme_tag};

#[test]
fn find_returns_registered_fixture() {
    let m = find("phase4_cnn").expect("registered");
    assert_eq!(m.key, "phase4_cnn");
    assert_eq!(m.path, "../../examples/mnist/phase4_cnn_fixture.json");
    assert!(!m.default_bench);
    assert_eq!(models().len(), 7);
    assert!(models()[0].default_bench);
}

#[test]
fn find_refuses_unknown_key_listing_valid_ones() {
    let err = find("nope").unwrap_err();
    assert_eq!(
        err,
        "unknown model 'nope'; valid models are: phase2_logreg, phase4_cnn, phase5_digits, phase5_qat, phase6_onnx, phase6_sklearn, phase7_faces"
    );
    assert_eq!(available_backends(), vec!["tfhe"]);
}

#[test]
fn runtime_error_messages() {
    assert_eq!(
        PenumbraRuntimeError::KeyGen("x".to_string()).message(),
        "Failed to generate keys: x"
    );
    assert_eq!(PenumbraRuntimeError::Operation("y".to_string()).message(), "Operation failed: y");
}

#[test]
fn eval_ctx_holds_key_and_blocks() {
    let key = 7u32;
    let ctx = EvalCtx::new(&key, 6);
    assert_eq!(*ctx.sk, 7);
    assert_eq!(ctx.num_blocks, 6);
    assert_eq!(default_requant_mult(), 1);
}

#[test]
fn scheme_tag_is_checked_before_the_payload() {
    let tagged = bincode::serialize(&("tfhe".to_string(), vec![1u8, 2, 3])).unwrap();
    assert!(check_scheme_tag(&tagged, "tfhe", "ciphertext").is_ok());
    let err = check_scheme_tag(&tagged, "ckks", "ciphertext batch").unwrap_err();
    assert_eq!(
        err,
        "backend/scheme mismatch for ciphertext batch: expected 'ckks', but found 'tfhe' (ciphertext material is not portable across backends; see docs/BACKENDS.md)"
    );
    let err = check_scheme_tag(&[1, 2], "ckks", "ciphertext").unwrap_err();
    assert!(err.starts_with("cannot deserialize ciphertext (is it a Penumbra ciphertext?): "));
}

#[test]
fn schema_version_is_checked() {
    let mut g = Graph {
        schema_version: SCHEMA_VERSION.to_string(),
        num_blocks: 8,
        input_bits: 4,
        inputs: vec!["x".to_string()],
        outputs: vec!["y".to_string()],
        nodes: vec![],
    };
    assert!(g.check_schema_version().is_ok());
    g.schema_version = "0.0.1".to_string();
    let err = g.check_schema_version().unwrap_err();
    assert!(err.contains("schema-version mismatch"), "got: {err}");
    assert!(err.contains("file declares \"0.0.1\""), "got: {err}");
}

#[test]
fn ciphertext_scheme_mismatch_fails_loudly() {
    // A tagged envelope is its scheme string followed by its payload.
    let bytes = bincode::serialize(&("tfhe".to_string(), vec![123u8])).unwrap();

    let err = check_scheme_tag(&bytes, SCHEME_CKKS, "ciphertext").expect_err("mismatched single ciphertext must fail");
    assert!(
        err.contains("backend/scheme mismatch"),
        "expected error to mention scheme mismatch: {err}"
    );
    assert!(
        err.contains("expected 'ckks', but found 'tfhe'"),
        "expected error to name both schemes: {err}"
    );

    let err_batch =
        check_scheme_tag(&bytes, SCHEME_CKKS, "ciphertext batch").expect_err("mismatched ciphertext batch must fail");
    assert!(
        err_batch.contains("backend/scheme mismatch"),
        "expected error to mention scheme mismatch: {err_batch}"
    );
    assert!(
        err_batch.contains("expected 'ckks', but found 'tfhe'"),
        "expected error to name both schemes: {err_batch}"
    );
}

#[test]
fn client_key_scheme_mismatch_fails_loudly() {
    // A key tagged with "tfhe", with an empty payload.
    let bytes = bincode::serialize(&("tfhe".to_string(), ())).unwrap();

    let err = check_key_tag(&bytes, SCHEME_CKKS, "client key").expect_err("mismatched client key must fail");
    assert!(
        err.contains("backend/scheme mismatch"),
        "expected error to mention scheme mismatch: {err}"
    );
    assert!(
        err.contains("expected 'ckks', found 'tfhe'"),
        "expected error to name both schemes: {err}"
    );
}

#[test]
fn server_key_scheme_mismatch_fails_loudly() {
    let bytes = bincode::serialize(&("tfhe".to_string(), ())).unwrap();
    let err = match check_key_tag(&bytes, SCHEME_CKKS, "server key") {
        Ok(_) => panic!("mismatched server key must fail"),
        Err(e) => e,
    };
    assert!(
        err.contains("backend/scheme mismatch"),
        "expected error to mention scheme mismatch: {err}"
    );
    assert!(
        err.contains("expected 'ckks', found 'tfhe'"),
        "expected error to name both schemes: {err}"
    );
    assert_eq!(
        err,
        "backend/scheme mismatch for server key: expected 'ckks', found 'tfhe' (key material is not portable across backends; see docs/BACKENDS.md)"
    );
    let err = check_key_tag(&[7], SCHEME_CKKS, "client key").unwrap_err();
    assert!(err.starts_with("failed to parse key header: "), "{err}");
    assert!(check_key_tag(&bytes, "tfhe", "client key").is_ok());
}

#[test]
fn label_score_counts_matches_among_known_outcomes() {
    assert_eq!(label_score(&[Some(true), None, Some(false), Some(true)]), (2, 3));
    assert_eq!(label_score(&[]), (0, 0));
}

#[test]
fn cost_proxy_cell_lists_counters_then_measured_totals() {
    let c = |v: &[(&str, u64)]| v.iter().map(|(k, n)| (k.to_string(), *n)).collect::<Vec<_>>();
    assert_eq!(cost_proxy_text(&c(&[]), &c(&[])), "none");
    assert_eq!(cost_proxy_text(&c(&[("pbs", 12), ("ks", 3)]), &c(&[])), "pbs: 12, ks: 3");
    assert_eq!(cost_proxy_text(&c(&[]), &c(&[("pbs", 4)])), "measured pbs: 4");
    assert_eq!(cost_proxy_text(&c(&[("pbs", 1)]), &c(&[("pbs", 2), ("x", 0)])), "pbs: 1, measured pbs: 2, measured x: 0");
}
