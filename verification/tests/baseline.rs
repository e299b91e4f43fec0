use penumbra::baseline::{baseline_from_runs, check_against, check_map_exact, RunRecord};

fn dummy_run(model: &str, backend: &str, num_blocks: usize) -> RunRecord {
    RunRecord {
        backend: backend.to_string(),
        profile: Some("classic".to_string()),
        model: model.to_string(),
        num_blocks,
        client_key_bytes: 100,
        server_key_bytes: 200,
        input_ct_bytes: 300,
        output_ct_bytes: 400,
        cost_proxy: vec![("bootstraps".to_string(), 10)],
        measured_totals: vec![("pbs".to_string(), 20)],
        label_matches: vec![Some(true)],
    }
}

#[test]
fn test_baseline_exact_match_passes() {
    let run = dummy_run("m1", "tfhe", 6);
    let baseline = baseline_from_runs(std::slice::from_ref(&run));
    let res = check_against(&baseline, &[run]);
    assert!(res.is_ok());
    assert!(res.unwrap().is_empty());
}

#[test]
fn test_baseline_missing_entry_fails() {
    let run1 = dummy_run("m1", "tfhe", 6);
    let run2 = dummy_run("m2", "tfhe", 6);
    let baseline = baseline_from_runs(&[run1]);
    let res = check_against(&baseline, &[run2]);
    assert!(res.is_err());
    let violations = res.unwrap_err();
    assert!(violations.iter().any(|v| v.contains("missing from baseline")));
}

#[test]
fn test_baseline_profile_mismatch_fails() {
    let run = dummy_run("m1", "tfhe", 6);
    let baseline = baseline_from_runs(std::slice::from_ref(&run));
    let mut modified = run;
    modified.profile = Some("gaussian".to_string());
    let res = check_against(&baseline, &[modified]);
    assert!(res.is_err());
    assert!(res.unwrap_err().iter().any(|v| v.contains("profile mismatch")));
}

#[test]
fn test_baseline_num_blocks_mismatch_fails() {
    let run = dummy_run("m1", "tfhe", 6);
    let baseline = baseline_from_runs(std::slice::from_ref(&run));
    let mut modified = run;
    modified.num_blocks = 7;
    let res = check_against(&baseline, &[modified]);
    assert!(res.is_err());
    assert!(res.unwrap_err().iter().any(|v| v.contains("num_blocks regressed")));
}

#[test]
fn test_baseline_unexercised_entry_warns() {
    let run1 = dummy_run("m1", "tfhe", 6);
    let run2 = dummy_run("m2", "tfhe", 6);
    let baseline = baseline_from_runs(&[run1.clone(), run2]);
    let res = check_against(&baseline, &[run1]);
    assert!(res.is_ok());
    let warnings = res.unwrap();
    assert_eq!(warnings.len(), 1);
    assert!(warnings[0].contains("not exercised"));
}

#[test]
fn baseline_messages_are_exact() {
    let run = dummy_run("m1", "tfhe", 6);
    let baseline = baseline_from_runs(std::slice::from_ref(&run));
    assert_eq!(baseline.schema, 1);
    assert_eq!(baseline.entries[0].labels_matched, 1);
    assert_eq!(baseline.entries[0].labels_checked, 1);
    let mut modified = run.clone();
    modified.profile = None;
    modified.client_key_bytes = 101;
    modified.label_matches = vec![Some(true), None];
    let v = check_against(&baseline, &[modified]).unwrap_err();
    assert_eq!(
        v,
        vec![
            "m1/tfhe: profile mismatch: baseline Some(\"classic\"), measured None".to_string(),
            "m1/tfhe: client_key_bytes regressed: baseline 100, measured 101".to_string(),
        ]
    );
    let mut fewer = run.clone();
    fewer.label_matches = vec![Some(false)];
    let v = check_against(&baseline, &[fewer]).unwrap_err();
    assert_eq!(v, vec!["m1/tfhe: labels_matched regressed: baseline 1, measured 0".to_string()]);
    let mut more = run;
    more.label_matches = vec![Some(true), Some(true)];
    let v = check_against(&baseline, &[more]).unwrap_err();
    assert_eq!(v, vec!["m1/tfhe: labels_checked regressed: baseline 1, measured 2".to_string()]);
}

#[test]
fn counter_maps_compare_exactly() {
    let expected = vec![("a".to_string(), 1u64), ("b".to_string(), 2u64)];
    let actual = vec![("a".to_string(), 3u64), ("c".to_string(), 4u64)];
    let mut v: Vec<String> = Vec::new();
    check_map_exact("m/t", "cost_proxy", &expected, &actual, &mut v);
    assert_eq!(
        v,
        vec![
            "m/t: cost_proxy.a regressed: baseline 1, measured 3".to_string(),
            "m/t: cost_proxy.b missing from measured run (baseline 2)".to_string(),
            "m/t: cost_proxy.c extra key in measured run (value 4, not in baseline)".to_string(),
        ]
    );
    let mut none: Vec<String> = Vec::new();
    check_map_exact("m/t", "cost_proxy", &expected, &expected, &mut none);
    assert!(none.is_empty());
}
