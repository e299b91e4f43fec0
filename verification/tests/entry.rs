use penumbra::entry::{
    check_profile_backend, key_scheme, unknown_backend_err, CryptoProfile, KeyHeader, KeyInfo,
    KeyScheme, ProfileInner,
};

fn tfhe_profile(name: &str) -> CryptoProfile {
    CryptoProfile { inner: ProfileInner::Tfhe { name: name.to_string() } }
}

/// The bincode layout of a leading string: its length as a little-endian u64,
/// then its bytes.
fn tagged(scheme: &str, rest: &[u8]) -> Vec<u8> {
    let mut v = (scheme.len() as u64).to_le_bytes().to_vec();
    v.extend_from_slice(scheme.as_bytes());
    v.extend_from_slice(rest);
    v
}

#[test]
fn ckks_profile_needs_a_positive_degree() {
    let err = match CryptoProfile::ckks(0) {
        Err(e) => e,
        Ok(_) => panic!("degree 0 must be refused"),
    };
    assert_eq!(err, "max_poly_degree must be >= 1, got 0");
    let p = CryptoProfile::ckks(16).expect("degree 16");
    assert_eq!(p.backend(), "ckks");
    assert_eq!(p.name(), "max_poly_degree=16");
    assert_eq!(p.repr(), "CryptoProfile(backend='ckks', name='max_poly_degree=16')");
    assert_eq!(p.as_ckks_poly(), Ok(16));
    assert_eq!(
        p.as_tfhe(),
        Err("profile/backend mismatch: profile is for backend 'ckks', but this run uses 'tfhe'".to_string())
    );
}

#[test]
fn tfhe_profile_reports_its_name() {
    let p = tfhe_profile("default");
    assert_eq!(p.backend(), "tfhe");
    assert_eq!(p.name(), "default");
    assert_eq!(p.repr(), "CryptoProfile(backend='tfhe', name='default')");
    assert_eq!(p.as_tfhe(), Ok("default".to_string()));
    assert_eq!(
        p.as_ckks_poly(),
        Err("profile/backend mismatch: profile is for backend 'tfhe', but this run uses 'ckks'".to_string())
    );
}

#[test]
fn profile_must_match_the_run_backend() {
    assert_eq!(check_profile_backend(None, "ckks"), Ok(()));
    let p = tfhe_profile("default");
    assert_eq!(check_profile_backend(Some(&p), "tfhe"), Ok(()));
    assert_eq!(
        check_profile_backend(Some(&p), "ckks"),
        Err("profile/backend mismatch: profile is for backend 'tfhe', but this run uses 'ckks'".to_string())
    );
}

#[test]
fn unknown_backends_are_refused_with_directions() {
    assert_eq!(unknown_backend_err("bfv"), "unknown backend 'bfv'; available backends: tfhe");
    let ckks = unknown_backend_err("ckks");
    assert!(ckks.starts_with("backend 'ckks' is not available in this build of penumbra-fhe"));
    assert!(ckks.ends_with("Available backends: tfhe"));
}

#[test]
fn key_info_describes_the_header() {
    let t = KeyInfo::from_header(&KeyHeader::Tfhe { num_blocks: 8, profile: "default".to_string() });
    assert_eq!(t.backend, "tfhe");
    assert_eq!(t.num_blocks, Some(8));
    assert_eq!(t.repr(), "KeyInfo(backend='tfhe', num_blocks=Some(8), profile='default')");
    let c = KeyInfo::from_header(&KeyHeader::Ckks { max_poly_degree: 7 });
    assert_eq!(c.repr(), "KeyInfo(backend='ckks', num_blocks=None, profile='max_poly_degree=7')");
}

#[test]
fn key_scheme_reads_the_leading_tag() {
    assert!(matches!(key_scheme(&tagged("tfhe", &[1, 2, 3])), Ok(KeyScheme::Tfhe)));
    assert!(matches!(key_scheme(&tagged("ckks", &[])), Ok(KeyScheme::Ckks)));
    let err = match key_scheme(&tagged("bfv", &[])) {
        Err(e) => e,
        Ok(_) => panic!("an unknown scheme must be refused"),
    };
    assert_eq!(
        err,
        "unknown key scheme 'bfv' (key material is not portable across backends; see docs/BACKENDS.md)"
    );
    let err = match key_scheme(&[1, 2]) {
        Err(e) => e,
        Ok(_) => panic!("a truncated key must be refused"),
    };
    assert!(err.starts_with("cannot deserialize key (is it a Penumbra key file?): "), "{err}");
}
