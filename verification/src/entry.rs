//! What the Python-facing entry points decide before any crypto runs: the
//! named crypto-parameter profile each backend takes, the refusal of a backend
//! this build does not have, and the metadata a key envelope describes.

use vstd::prelude::*;

use crate::ir::cat;
use crate::models::{available_backends, join_names, joined, strs};
use crate::text::{dec, str_eq, usize_text};
use crate::wire::{bincode_error_text, bincode_string, read_leading_string};

verus! {

/// The one override knob of a backend.
pub enum ProfileInner {
    /// A TFHE parameter profile, held by its canonical name.
    Tfhe { name: String },
    /// The largest polynomial degree any CKKS op may fit.
    Ckks { max_poly_degree: usize },
}

/// A named crypto-parameter profile: the single override knob per backend.
pub struct CryptoProfile {
    pub inner: ProfileInner,
}

/// The backend a profile is for.
pub open spec fn profile_backend(p: ProfileInner) -> Seq<char> {
    match p {
        ProfileInner::Tfhe { .. } => "tfhe"@,
        ProfileInner::Ckks { .. } => "ckks"@,
    }
}

/// How a CKKS degree bound is named.
pub open spec fn degree_name(max_poly_degree: nat) -> Seq<char> {
    "max_poly_degree="@ + dec(max_poly_degree)
}

/// The name of a profile.
pub open spec fn profile_name(p: ProfileInner) -> Seq<char> {
    match p {
        ProfileInner::Tfhe { name } => name@,
        ProfileInner::Ckks { max_poly_degree } => degree_name(max_poly_degree as nat),
    }
}

/// The refusal of a profile made for `profile` in a run of `run`.
pub open spec fn profile_mismatch_msg(profile: Seq<char>, run: Seq<char>) -> Seq<char> {
    "profile/backend mismatch: profile is for backend '"@ + profile + "', but this run uses '"@ + run
        + "'"@
}

/// The refusal of a profile made for `profile` in a run of `run`.
fn mismatch_text(profile: &str, run: &str) -> (r: String)
    ensures
        r@ == profile_mismatch_msg(profile@, run@),
{
    let m = cat(String::from_str("profile/backend mismatch: profile is for backend '"), profile);
    let m = cat(m, "', but this run uses '");
    let m = cat(m, run);
    cat(m, "'")
}

/// `"max_poly_degree=" + n`.
fn degree_text(max_poly_degree: usize) -> (r: String)
    ensures
        r@ == degree_name(max_poly_degree as nat),
{
    cat(String::from_str("max_poly_degree="), usize_text(max_poly_degree).as_str())
}

impl CryptoProfile {
    /// The CKKS knob: the largest polynomial degree any op may fit, at least 1.
    pub fn ckks(max_poly_degree: usize) -> (r: Result<CryptoProfile, String>)
        ensures
            max_poly_degree < 1 ==> (r matches Err(e) && e@ == "max_poly_degree must be >= 1, got "@
                + dec(max_poly_degree as nat)),
            max_poly_degree >= 1 ==> (r matches Ok(p) && p.inner == (ProfileInner::Ckks {
                max_poly_degree,
            })),
    {
        if max_poly_degree < 1 {
            return Err(
                cat(
                    String::from_str("max_poly_degree must be >= 1, got "),
                    usize_text(max_poly_degree).as_str(),
                ),
            );
        }
        Ok(CryptoProfile { inner: ProfileInner::Ckks { max_poly_degree } })
    }

    /// The backend this profile is for.
    pub fn backend(&self) -> (r: &'static str)
        ensures
            r@ == profile_backend(self.inner),
    {
        match &self.inner {
            ProfileInner::Tfhe { .. } => "tfhe",
            ProfileInner::Ckks { .. } => "ckks",
        }
    }

    /// The profile's name: the TFHE profile's own, or the CKKS degree bound.
    pub fn name(&self) -> (r: String)
        ensures
            r@ == profile_name(self.inner),
    {
        match &self.inner {
            ProfileInner::Tfhe { name } => name.clone(),
            ProfileInner::Ckks { max_poly_degree } => degree_text(*max_poly_degree),
        }
    }

    /// `CryptoProfile(backend='…', name='…')`.
    pub fn repr(&self) -> (r: String)
        ensures
            r@ == "CryptoProfile(backend='"@ + profile_backend(self.inner) + "', name='"@
                + profile_name(self.inner) + "')"@,
    {
        let m = cat(String::from_str("CryptoProfile(backend='"), self.backend());
        let m = cat(m, "', name='");
        let m = cat(m, self.name().as_str());
        cat(m, "')")
    }

    /// The TFHE profile's name; a CKKS profile is refused.
    pub fn as_tfhe(&self) -> (r: Result<String, String>)
        ensures
            self.inner is Tfhe ==> (r matches Ok(n) && n@ == self.inner->name@),
            self.inner is Ckks ==> (r matches Err(e) && e@ == profile_mismatch_msg("ckks"@, "tfhe"@)),
    {
        match &self.inner {
            ProfileInner::Tfhe { name } => Ok(name.clone()),
            ProfileInner::Ckks { .. } => Err(mismatch_text("ckks", "tfhe")),
        }
    }

    /// The CKKS degree bound; a TFHE profile is refused.
    pub fn as_ckks_poly(&self) -> (r: Result<usize, String>)
        ensures
            self.inner is Ckks ==> r == Ok::<usize, String>(self.inner->max_poly_degree),
            self.inner is Tfhe ==> (r matches Err(e) && e@ == profile_mismatch_msg("tfhe"@, "ckks"@)),
    {
        match &self.inner {
            ProfileInner::Ckks { max_poly_degree } => Ok(*max_poly_degree),
            ProfileInner::Tfhe { .. } => Err(mismatch_text("tfhe", "ckks")),
        }
    }
}

/// Refuse a profile made for another backend than the one a run uses; no
/// profile is always accepted.
pub fn check_profile_backend(profile: Option<&CryptoProfile>, backend: &str) -> (r: Result<(), String>)
    ensures
        match profile {
            None => r is Ok,
            Some(p) => if profile_backend(p.inner) == backend@ {
                r is Ok
            } else {
                r matches Err(e) && e@ == profile_mismatch_msg(profile_backend(p.inner), backend@)
            },
        },
{
    match profile {
        None => Ok(()),
        Some(p) => {
            if str_eq(p.backend(), backend) {
                Ok(())
            } else {
                Err(mismatch_text(p.backend(), backend))
            }
        },
    }
}

/// The refusal of the CKKS backend in a build without it.
pub open spec fn ckks_unavailable_msg() -> Seq<char> {
    "backend 'ckks' is not available in this build of penumbra-fhe: the CKKS backend needs a nightly Rust toolchain and is compiled out of published wheels. Build it from source with `maturin develop --release --features ckks` on nightly (see docs/BACKENDS.md). Available backends: tfhe"@
}

/// The refusal of a backend name this build does not know.
pub open spec fn unknown_backend_msg(backend: Seq<char>) -> Seq<char> {
    "unknown backend '"@ + backend + "'; available backends: "@ + joined(seq!["tfhe"@])
}

/// The error for a backend this build does not provide: CKKS gets directions
/// for building it, any other name the list of available backends.
pub fn unknown_backend_err(backend: &str) -> (r: String)
    ensures
        backend@ == "ckks"@ ==> r@ == ckks_unavailable_msg(),
        backend@ != "ckks"@ ==> r@ == unknown_backend_msg(backend@),
{
    if str_eq(backend, "ckks") {
        String::from_str(
            "backend 'ckks' is not available in this build of penumbra-fhe: the CKKS backend needs a nightly Rust toolchain and is compiled out of published wheels. Build it from source with `maturin develop --release --features ckks` on nightly (see docs/BACKENDS.md). Available backends: tfhe",
        )
    } else {
        let names = available_backends();
        assert(strs(names@) =~= seq!["tfhe"@]);
        let backends = join_names(&names);
        let m = cat(String::from_str("unknown backend '"), backend);
        let m = cat(m, "'; available backends: ");
        cat(m, backends.as_str())
    }
}

/// Key metadata, read from a key envelope without a sidecar file.
pub struct KeyInfo {
    pub backend: String,
    /// The radix width a TFHE key was made for; `None` for CKKS.
    pub num_blocks: Option<usize>,
    pub profile: String,
}

/// What `{:?}` writes for an optional width.
pub open spec fn optional_width_text(n: Option<usize>) -> Seq<char> {
    match n {
        Some(v) => "Some("@ + dec(v as nat) + ")"@,
        None => "None"@,
    }
}

impl KeyInfo {
    /// `KeyInfo(backend='…', num_blocks=…, profile='…')`, the width written as
    /// `Some(n)` or `None`.
    pub fn repr(&self) -> (r: String)
        ensures
            r@ == "KeyInfo(backend='"@ + self.backend@ + "', num_blocks="@ + optional_width_text(
                self.num_blocks,
            ) + ", profile='"@ + self.profile@ + "')"@,
    {
        let m = cat(String::from_str("KeyInfo(backend='"), self.backend.as_str());
        let m = cat(m, "', num_blocks=");
        let m = match self.num_blocks {
            Some(v) => {
                let m = cat(m, "Some(");
                let m = cat(m, usize_text(v).as_str());
                cat(m, ")")
            },
            None => cat(m, "None"),
        };
        let m = cat(m, ", profile='");
        let m = cat(m, self.profile.as_str());
        cat(m, "')")
    }

    /// The metadata a key header describes: a TFHE key's radix width and
    /// profile name, or a CKKS key's degree bound.
    pub fn from_header(header: &KeyHeader) -> (r: KeyInfo)
        ensures
            match header {
                KeyHeader::Tfhe { num_blocks, profile } => r.backend@ == "tfhe"@ && r.num_blocks
                    == Some(*num_blocks) && r.profile@ == profile@,
                KeyHeader::Ckks { max_poly_degree } => r.backend@ == "ckks"@ && r.num_blocks is None
                    && r.profile@ == degree_name(*max_poly_degree as nat),
            },
    {
        match header {
            KeyHeader::Tfhe { num_blocks, profile } => KeyInfo {
                backend: String::from_str("tfhe"),
                num_blocks: Some(*num_blocks),
                profile: profile.clone(),
            },
            KeyHeader::Ckks { max_poly_degree } => KeyInfo {
                backend: String::from_str("ckks"),
                num_blocks: None,
                profile: degree_text(*max_poly_degree),
            },
        }
    }
}

/// The scheme a key envelope is tagged with.
pub enum KeyScheme {
    Tfhe,
    Ckks,
}

/// What a key envelope's header holds beyond its scheme tag.
pub enum KeyHeader {
    /// A TFHE key: its radix width and the canonical name of its profile.
    Tfhe { num_blocks: usize, profile: String },
    /// A CKKS key: the degree bound of its parameters.
    Ckks { max_poly_degree: usize },
}

/// The prefix of the refusal of bytes that do not start with a scheme tag.
pub open spec fn unreadable_key_prefix() -> Seq<char> {
    "cannot deserialize key (is it a Penumbra key file?): "@
}

/// The refusal of a key tagged with a scheme no backend writes.
pub open spec fn unknown_scheme_msg(scheme: Seq<char>) -> Seq<char> {
    "unknown key scheme '"@ + scheme
        + "' (key material is not portable across backends; see docs/BACKENDS.md)"@
}

/// Read the scheme tag that leads a key envelope, refusing bytes without one
/// and a scheme no backend writes.
pub fn key_scheme(key: &[u8]) -> (r: Result<KeyScheme, String>)
    ensures
        match bincode_string(key@) {
            None => r matches Err(e) && e@.len() >= unreadable_key_prefix().len() && e@.subrange(
                0,
                unreadable_key_prefix().len() as int,
            ) == unreadable_key_prefix(),
            Some(s) => if s == "tfhe"@ {
                r matches Ok(KeyScheme::Tfhe)
            } else if s == "ckks"@ {
                r matches Ok(KeyScheme::Ckks)
            } else {
                r matches Err(e) && e@ == unknown_scheme_msg(s)
            },
        },
{
    let scheme = match read_leading_string(key) {
        Ok(s) => s,
        Err(e) => {
            let m = String::from_str("cannot deserialize key (is it a Penumbra key file?): ");
            let ghost prefix = m@;
            let m = cat(m, bincode_error_text(&e).as_str());
            assert(m@.subrange(0, prefix.len() as int) =~= prefix);
            return Err(m);
        },
    };
    if str_eq(scheme.as_str(), "tfhe") {
        Ok(KeyScheme::Tfhe)
    } else if str_eq(scheme.as_str(), "ckks") {
        Ok(KeyScheme::Ckks)
    } else {
        let m = cat(String::from_str("unknown key scheme '"), scheme.as_str());
        Err(
            cat(
                m,
                "' (key material is not portable across backends; see docs/BACKENDS.md)",
            ),
        )
    }
}

} // verus!
