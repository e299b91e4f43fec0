use penumbra::cli::{parse_args, select_bench_models, usage, CliArgs, CliCommand, OutputFormat};

fn args(v: &[&str]) -> Vec<String> {
    v.iter().map(|s| s.to_string()).collect()
}

fn run_of(v: &[&str]) -> CliArgs {
    match parse_args(&args(v)) {
        Ok(CliCommand::Run(a)) => a,
        Ok(CliCommand::Help) => panic!("expected a run, got help"),
        Err(e) => panic!("expected a run, got error: {e}"),
    }
}

fn err_of(v: &[&str]) -> String {
    match parse_args(&args(v)) {
        Err(e) => e,
        Ok(_) => panic!("expected a refusal"),
    }
}

fn keys(a: &CliArgs) -> Vec<&'static str> {
    a.models.iter().map(|m| m.key).collect()
}

#[test]
fn defaults_select_everything() {
    let a = run_of(&[]);
    assert_eq!(keys(&a).len(), 7);
    assert_eq!(keys(&a)[0], "phase2_logreg");
    assert_eq!(a.backends, vec!["tfhe".to_string()]);
    assert_eq!(a.samples, 1);
    assert!(a.format == OutputFormat::Markdown);
    assert_eq!(a.out_path, None);
}

#[test]
fn options_are_read_with_their_values() {
    let a = run_of(&[
        "--models", "phase4_cnn, phase2_logreg", "--samples", "+3", "--format", "JSON", "--out", "r.json",
        "--backends", " TFHE ,",
    ]);
    assert_eq!(keys(&a), vec!["phase4_cnn", "phase2_logreg"]);
    assert_eq!(a.samples, 3);
    assert!(a.format == OutputFormat::Json);
    assert_eq!(a.out_path, Some("r.json".to_string()));
    assert_eq!(a.backends, vec!["tfhe".to_string()]);
    assert_eq!(keys(&run_of(&["--models", "ALL"])).len(), 7);
    assert!(run_of(&["--format", "md"]).format == OutputFormat::Markdown);
}

#[test]
fn help_stops_the_reading() {
    assert!(matches!(parse_args(&args(&["-h", "--bogus"])), Ok(CliCommand::Help)));
    assert!(matches!(parse_args(&args(&["--samples", "2", "--help"])), Ok(CliCommand::Help)));
    assert_eq!(err_of(&["--bogus", "-h"]), "unknown option '--bogus'. Run with --help to see valid options.");
    let text = usage();
    assert!(text.starts_with("usage: penumbra-bench-report [OPTIONS]\n\nOptions:\n"));
    assert!(text.contains(
        "Valid keys: phase2_logreg, phase4_cnn, phase5_digits, phase5_qat, phase6_onnx, phase6_sklearn, phase7_faces\n"
    ));
    assert!(text.contains("--backends <name,...>    Backends to run (default: tfhe)\n                           Available: tfhe\n"));
    assert!(text.ends_with("  -h, --help               Show this help message"));
}

#[test]
fn malformed_options_are_refused() {
    assert_eq!(err_of(&["--models"]), "--models requires an argument (e.g. 'all' or 'phase2_logreg')");
    assert_eq!(err_of(&["--backends"]), "--backends requires an argument (e.g. 'tfhe' or 'tfhe,ckks')");
    assert_eq!(err_of(&["--samples"]), "--samples requires an integer argument");
    assert_eq!(err_of(&["--format"]), "--format requires an argument ('markdown' or 'json')");
    assert_eq!(err_of(&["--out"]), "--out requires a file path argument");
    assert_eq!(err_of(&["--samples", "0"]), "--samples must be >= 1");
    assert_eq!(err_of(&["--samples", "x"]), "invalid --samples value 'x': invalid digit found in string");
    assert_eq!(err_of(&["--format", "XML"]), "unknown format 'xml'; valid formats are 'markdown' or 'json'");
}

#[test]
fn selections_are_checked() {
    assert_eq!(err_of(&["--models", " , "]), "no valid models specified in --models");
    assert!(err_of(&["--models", "phase2_logreg,nope"]).starts_with("unknown model 'nope'; valid models are: phase2_logreg, "));
    assert_eq!(
        err_of(&["--backends", "CKKS"]),
        "backend 'ckks' is not compiled into this binary; rebuild with --features ckks on a nightly toolchain"
    );
    assert_eq!(err_of(&["--backends", "bfv"]), "unknown backend 'bfv'; available backends in this build: tfhe");
    assert_eq!(err_of(&["--backends", ","]), "no valid backends specified in --backends");
    // Options are read before the selections are checked.
    assert_eq!(err_of(&["--models", "nope", "--samples", "0"]), "--samples must be >= 1");
}

#[test]
fn bench_selection_reads_the_environment_value() {
    let pick = |v: Option<&str>| -> Vec<&'static str> {
        select_bench_models(v).expect("selection").iter().map(|m| m.key).collect()
    };
    assert_eq!(pick(None), vec!["phase2_logreg"]);
    assert_eq!(pick(Some("   ")), vec!["phase2_logreg"]);
    assert_eq!(pick(Some(" All ")).len(), 7);
    assert_eq!(pick(Some(" phase4_cnn ,, phase7_faces")), vec!["phase4_cnn", "phase7_faces"]);
    assert!(pick(Some(",")).is_empty());
    assert!(select_bench_models(Some("x")).is_err());
}

#[test]
fn samples_parse_errors_name_their_kind() {
    assert_eq!(err_of(&["--samples", ""]), "invalid --samples value '': cannot parse integer from empty string");
    assert_eq!(err_of(&["--samples", "+"]), "invalid --samples value '+': invalid digit found in string");
    assert_eq!(
        err_of(&["--samples", "99999999999999999999999"]),
        "invalid --samples value '99999999999999999999999': number too large to fit in target type"
    );
}

#[test]
fn selections_trim_unicode_white_space() {
    let keys: Vec<&'static str> = select_bench_models(Some("\u{3000}phase4_cnn\t,\u{a0}phase7_faces "))
        .expect("selection")
        .iter()
        .map(|m| m.key)
        .collect();
    assert_eq!(keys, vec!["phase4_cnn", "phase7_faces"]);
}

#[test]
fn sample_counts_are_read_as_std_reads_them() {
    assert_eq!(err_of(&["--samples", ""]), "invalid --samples value '': cannot parse integer from empty string");
    assert_eq!(err_of(&["--samples", "+"]), "invalid --samples value '+': invalid digit found in string");
    assert_eq!(err_of(&["--samples", "-1"]), "invalid --samples value '-1': invalid digit found in string");
    assert_eq!(err_of(&["--samples", "12a"]), "invalid --samples value '12a': invalid digit found in string");
    assert_eq!(
        err_of(&["--samples", "99999999999999999999999x"]),
        "invalid --samples value '99999999999999999999999x': number too large to fit in target type"
    );
    assert_eq!(run_of(&["--samples", "0042"]).samples, 42);
}

#[test]
fn selections_trim_unicode_white_space_and_ignore_ascii_case() {
    let a = run_of(&["--models", "\u{3000}phase4_cnn\u{2003},\tphase2_logreg\u{85}"]);
    assert_eq!(keys(&a), vec!["phase4_cnn", "phase2_logreg"]);
    assert_eq!(keys(&run_of(&["--models", "aLL"])).len(), 7);
}
