//! The command line of the report tool: which models and backends to run, how
//! many samples per model, the output format and where the report goes.

use vstd::prelude::*;
use vstd::string::StrSliceExecFns;

use crate::ir::{cat, names};
use crate::models::{
    available_backends, find, fixture_for, fixture_keys, fixtures_for, join_names, joined, keyed,
    keys_of, lemma_keys_name_their_fixtures, model_keys, models, registry, strs, unknown_model_msg,
    ModelFixture,
};
use crate::seqs::first_where;
use crate::text::str_eq;

verus! {

/// The output format of a report.
#[derive(PartialEq, Eq, Structural)]
pub enum OutputFormat {
    Markdown,
    Json,
}

/// What the options of a run select.
pub struct CliArgs {
    pub models: Vec<ModelFixture>,
    pub backends: Vec<String>,
    pub samples: usize,
    pub format: OutputFormat,
    pub out_path: Option<String>,
}

/// What a command line asks for: the usage text, or a run.
pub enum CliCommand {
    Help,
    Run(CliArgs),
}

/// A decimal digit.
pub open spec fn is_digit(c: char) -> bool {
    '0' <= c && c <= '9'
}

/// The value of a string of decimal digits, `None` if a character is not one.
pub open spec fn digits_value(s: Seq<char>) -> Option<nat>
    decreases s.len(),
{
    if s.len() == 0 {
        Some(0)
    } else {
        match digits_value(s.drop_last()) {
            Some(v) => if is_digit(s.last()) {
                Some(v * 10 + ((s.last() as int) - ('0' as int)) as nat)
            } else {
                None
            },
            None => None,
        }
    }
}

/// The `usize` a string reads as: an optional `+`, then at least one decimal
/// digit, with a value that fits.
pub open spec fn decimal_usize(s: Seq<char>) -> Option<usize> {
    let body = if s.len() > 0 && s[0] == '+' {
        s.drop_first()
    } else {
        s
    };
    if body.len() == 0 {
        None
    } else {
        match digits_value(body) {
            Some(v) => if v <= usize::MAX {
                Some(v as usize)
            } else {
                None
            },
            None => None,
        }
    }
}

/// The fault met reading decimal digits from `s[i]` on, with the value `acc`
/// read so far: 0 for none, 1 for a character that is not a digit, 2 for a value
/// that outgrows `usize`; the first fault from the left counts.
pub open spec fn digit_fault(s: Seq<char>, i: nat, acc: nat) -> nat
    decreases s.len() - i,
{
    if i >= s.len() {
        0
    } else if !is_digit(s[i as int]) {
        1
    } else {
        let v = acc * 10 + ((s[i as int] as int) - ('0' as int)) as nat;
        if v > usize::MAX {
            2
        } else {
            digit_fault(s, i + 1, v)
        }
    }
}

/// The `Display` text of the error `str::parse::<usize>` gives for `s`: an empty
/// string, a sign alone or a character that is not a digit, or a value too
/// large, whichever is met first.
pub open spec fn usize_parse_error(s: Seq<char>) -> Seq<char> {
    if s.len() == 0 {
        "cannot parse integer from empty string"@
    } else {
        let body = if s[0] == '+' {
            s.drop_first()
        } else {
            s
        };
        if body.len() == 0 || digit_fault(body, 0, 0) == 1 {
            "invalid digit found in string"@
        } else {
            "number too large to fit in target type"@
        }
    }
}

/// One more character of a digit string extends its value by that digit, or
/// ends it when the character is no digit.
proof fn lemma_digits_take_step(b: Seq<char>, k: int)
    requires
        0 <= k < b.len(),
    ensures
        digits_value(b.take(k + 1)) == match digits_value(b.take(k)) {
            Some(v) => if is_digit(b[k]) {
                Some(v * 10 + ((b[k] as int) - ('0' as int)) as nat)
            } else {
                None
            },
            None => None,
        },
{
    assert(b.take(k + 1).drop_last() =~= b.take(k));
}

/// Reading on never makes the value of a digit string smaller, and a string
/// whose prefix is no digit string is none either.
proof fn lemma_digits_beyond(b: Seq<char>, k: int)
    requires
        0 <= k <= b.len(),
    ensures
        digits_value(b.take(k)) is None ==> digits_value(b) is None,
        digits_value(b.take(k)) matches Some(v) ==> (digits_value(b) matches Some(w) ==> w >= v),
    decreases b.len() - k,
{
    if k < b.len() {
        lemma_digits_take_step(b, k);
        lemma_digits_beyond(b, k + 1);
    } else {
        assert(b.take(k) =~= b);
    }
}

/// Reads a `usize` as `str::parse::<usize>` does: an optional `+`, then
/// decimal digits read from the left; the first character that is no digit,
/// or the first digit that takes the value past `usize::MAX`, ends the read
/// with std's message for that fault.
fn parse_usize(s: &str) -> (r: Result<usize, String>)
    ensures
        match r {
            Ok(n) => decimal_usize(s@) == Some(n),
            Err(e) => decimal_usize(s@) is None && e@ == usize_parse_error(s@),
        },
{
    let n = s.unicode_len();
    if n == 0 {
        return Err(String::from_str("cannot parse integer from empty string"));
    }
    let st: usize = if s.get_char(0) == '+' {
        1
    } else {
        0
    };
    let ghost body = s@.skip(st as int);
    proof {
        if st == 1 {
            assert(body =~= s@.drop_first());
        } else {
            assert(body =~= s@);
        }
    }
    if st == n {
        return Err(String::from_str("invalid digit found in string"));
    }
    let mut acc: usize = 0;
    let mut i: usize = st;
    assert(body.take(0) =~= Seq::<char>::empty());
    while i < n
        invariant
            n == s@.len(),
            st <= i <= n,
            st < n,
            body == s@.skip(st as int),
            body == (if s@.len() > 0 && s@[0] == '+' {
                s@.drop_first()
            } else {
                s@
            }),
            digits_value(body.take(i - st)) == Some(acc as nat),
            digit_fault(body, 0, 0) == digit_fault(body, (i - st) as nat, acc as nat),
        decreases n - i,
    {
        let c = s.get_char(i);
        let k: usize = i - st;
        assert(body[k as int] == c);
        proof {
            lemma_digits_take_step(body, k as int);
        }
        let v = c as u32;
        if v < 48 || v > 57 {
            proof {
                lemma_digits_beyond(body, k + 1);
            }
            return Err(String::from_str("invalid digit found in string"));
        }
        let d: u128 = (v - 48) as u128;
        assert(d == (c as int) - ('0' as int));
        let w: u128 = (acc as u128) * 10 + d;
        if w > usize::MAX as u128 {
            proof {
                lemma_digits_beyond(body, k + 1);
            }
            return Err(String::from_str("number too large to fit in target type"));
        }
        acc = w as usize;
        i = i + 1;
    }
    assert(body.take(n - st) =~= body);
    Ok(acc)
}

/// What `str::to_lowercase` makes of `s` (Unicode lowercase mapping).
pub uninterp spec fn lowercase(s: Seq<char>) -> Seq<char>;

/// Whether every character is ASCII.
pub open spec fn all_ascii(s: Seq<char>) -> bool {
    forall|i: int| 0 <= i < s.len() ==> (s[i] as int) < 128
}

/// What `str::to_lowercase` makes of `s`: on ASCII text the capitals `A`..`Z`
/// lowered, otherwise the named Unicode mapping.
pub open spec fn lowered(s: Seq<char>) -> Seq<char> {
    if all_ascii(s) {
        s.map_values(|c: char| ascii_lower(c))
    } else {
        lowercase(s)
    }
}

/// Lowercases with `str::to_lowercase`. The Unicode mapping is only named: the
/// result is `lowercase` of the input; on ASCII text the Unicode lowercase
/// mapping lowers exactly the capitals `A`..`Z`, so there it is stated.
#[verifier::external_body]
fn to_lower(s: &str) -> (r: String)
    ensures
        r@ == lowercase(s@),
        r@ == lowered(s@),
{
    s.to_lowercase()
}

/// A character with the Unicode `White_Space` property.
pub open spec fn is_white_space(c: char) -> bool {
    let v = c as int;
    ||| 0x9 <= v <= 0xD
    ||| v == 0x20
    ||| v == 0x85
    ||| v == 0xA0
    ||| v == 0x1680
    ||| 0x2000 <= v <= 0x200A
    ||| v == 0x2028
    ||| v == 0x2029
    ||| v == 0x202F
    ||| v == 0x205F
    ||| v == 0x3000
}

/// `s` without its leading white space.
pub open spec fn trim_start(s: Seq<char>) -> Seq<char>
    decreases s.len(),
{
    if s.len() > 0 && is_white_space(s[0]) {
        trim_start(s.drop_first())
    } else {
        s
    }
}

/// `s` without its trailing white space.
pub open spec fn trim_end(s: Seq<char>) -> Seq<char>
    decreases s.len(),
{
    if s.len() > 0 && is_white_space(s.last()) {
        trim_end(s.drop_last())
    } else {
        s
    }
}

/// What `str::trim` leaves of `s`: white space removed at both ends.
pub open spec fn trimmed(s: Seq<char>) -> Seq<char> {
    trim_end(trim_start(s))
}

/// Whether `c` has the Unicode `White_Space` property.
fn white_space(c: char) -> (r: bool)
    ensures
        r == is_white_space(c),
{
    let v = c as u32;
    (0x9 <= v && v <= 0xD) || v == 0x20 || v == 0x85 || v == 0xA0 || v == 0x1680 || (0x2000 <= v
        && v <= 0x200A) || v == 0x2028 || v == 0x2029 || v == 0x202F || v == 0x205F || v == 0x3000
}

/// Leading white space does not change what `trim_start` leaves.
proof fn lemma_trim_start_skip(s: Seq<char>, i: int)
    requires
        0 <= i <= s.len(),
        forall|j: int| 0 <= j < i ==> is_white_space(#[trigger] s[j]),
    ensures
        trim_start(s) == trim_start(s.skip(i)),
    decreases i,
{
    if i > 0 {
        assert(is_white_space(s[0]));
        lemma_trim_start_skip(s.drop_first(), i - 1);
        assert(s.drop_first().skip(i - 1) =~= s.skip(i));
    } else {
        assert(s.skip(0) =~= s);
    }
}

/// Trailing white space does not change what `trim_end` leaves.
proof fn lemma_trim_end_take(s: Seq<char>, k: int)
    requires
        0 <= k <= s.len(),
        forall|j: int| k <= j < s.len() ==> is_white_space(#[trigger] s[j]),
    ensures
        trim_end(s) == trim_end(s.take(k)),
    decreases s.len() - k,
{
    if k < s.len() {
        assert(is_white_space(s.last()));
        lemma_trim_end_take(s.drop_last(), k);
        assert(s.drop_last().take(k) =~= s.take(k));
    } else {
        assert(s.take(k) =~= s);
    }
}

/// Removes leading and trailing characters with the Unicode `White_Space`
/// property, as `str::trim` does.
fn trim_str(s: &str) -> (r: &str)
    ensures
        r@ == trimmed(s@),
{
    let n = s.unicode_len();
    let mut st: usize = 0;
    while st < n && white_space(s.get_char(st))
        invariant
            n == s@.len(),
            st <= n,
            forall|j: int| 0 <= j < st ==> is_white_space(#[trigger] s@[j]),
        decreases n - st,
    {
        st = st + 1;
    }
    let mut en: usize = n;
    while en > st && white_space(s.get_char(en - 1))
        invariant
            n == s@.len(),
            st <= en <= n,
            forall|j: int| en <= j < n ==> is_white_space(#[trigger] s@[j]),
        decreases en - st,
    {
        en = en - 1;
    }
    proof {
        lemma_trim_start_skip(s@, st as int);
        let t = s@.skip(st as int);
        if st < n {
            assert(!is_white_space(s@[st as int]));
            assert(t[0] == s@[st as int]);
        } else {
            assert(t.len() == 0);
        }
        assert(trim_start(t) == t);
        assert forall|j: int| en - st <= j < t.len() implies is_white_space(#[trigger] t[j]) by {
            assert(t[j] == s@[st + j]);
        }
        lemma_trim_end_take(t, en - st);
        let u = t.take(en - st);
        if en > st {
            assert(u.last() == s@[en - 1]);
        }
        assert(trim_end(u) == u);
        assert(u =~= s@.subrange(st as int, en as int));
    }
    s.substring_char(st, en)
}

/// `c` with an ASCII capital letter lowered, any other character unchanged.
pub open spec fn ascii_lower(c: char) -> char {
    if 'A' <= c && c <= 'Z' {
        ((c as int) + 32) as char
    } else {
        c
    }
}

/// Whether two strings are equal once ASCII capitals are lowered.
pub open spec fn ascii_case_eq(a: Seq<char>, b: Seq<char>) -> bool {
    &&& a.len() == b.len()
    &&& forall|i: int| 0 <= i < a.len() ==> ascii_lower(a[i]) == ascii_lower(b[i])
}

/// The code of `c` with an ASCII capital letter lowered.
fn ascii_lower_code(c: char) -> (r: u32)
    ensures
        r == ascii_lower(c) as u32,
{
    let v = c as u32;
    if 65 <= v && v <= 90 {
        assert((((c as int) + 32) as char) as u32 == v + 32);
        v + 32
    } else {
        v
    }
}

/// Whether two strings are equal once their ASCII capitals are lowered, as
/// `str::eq_ignore_ascii_case` decides it, character by character.
fn eq_ignore_ascii_case(a: &str, b: &str) -> (r: bool)
    ensures
        r == ascii_case_eq(a@, b@),
{
    let n = a.unicode_len();
    let m = b.unicode_len();
    if n != m {
        return false;
    }
    let mut i: usize = 0;
    while i < n
        invariant
            n == a@.len(),
            m == b@.len(),
            n == m,
            i <= n,
            forall|j: int| 0 <= j < i ==> ascii_lower(#[trigger] a@[j]) == ascii_lower(b@[j]),
        decreases n - i,
    {
        let x = a.get_char(i);
        let y = b.get_char(i);
        if ascii_lower_code(x) != ascii_lower_code(y) {
            assert(ascii_lower(a@[i as int]) != ascii_lower(b@[i as int]));
            return false;
        }
        assert(ascii_lower(x) as u32 == ascii_lower(y) as u32);
        i = i + 1;
    }
    true
}

/// The pieces of `s` between commas, in order; a string without commas is one
/// piece, and an empty string is one empty piece.
pub open spec fn split_commas(s: Seq<char>) -> Seq<Seq<char>>
    decreases s.len(),
{
    if s.len() == 0 {
        seq![Seq::<char>::empty()]
    } else {
        let rest = split_commas(s.drop_last());
        if s.last() == ',' {
            rest.push(Seq::<char>::empty())
        } else {
            rest.update(rest.len() - 1, rest.last().push(s.last()))
        }
    }
}

/// The pieces of `s` between its commas, in order, each copied into a
/// `String`, as `str::split(',')` yields them.
fn split_at_commas(s: &str) -> (r: Vec<String>)
    ensures
        names(r@) == split_commas(s@),
{
    let n = s.unicode_len();
    let mut out: Vec<String> = Vec::new();
    let mut start: usize = 0;
    let mut i: usize = 0;
    assert(s@.take(0) =~= Seq::<char>::empty());
    assert(s@.subrange(0, 0) =~= Seq::<char>::empty());
    assert(names(out@).push(s@.subrange(0, 0)) =~= split_commas(s@.take(0)));
    while i < n
        invariant
            n == s@.len(),
            start <= i <= n,
            names(out@).push(s@.subrange(start as int, i as int)) == split_commas(s@.take(i as int)),
        decreases n - i,
    {
        let c = s.get_char(i);
        let ghost prev = split_commas(s@.take(i as int));
        assert(s@.take(i + 1).drop_last() =~= s@.take(i as int));
        assert(s@.take(i + 1).last() == c);
        if c == ',' {
            let piece = String::from_str(s.substring_char(start, i));
            out.push(piece);
            assert(names(out@) =~= prev);
            assert(s@.subrange(i + 1, i + 1) =~= Seq::<char>::empty());
            assert(names(out@).push(s@.subrange(i + 1, i + 1)) =~= prev.push(Seq::<char>::empty()));
            start = i + 1;
        } else {
            assert(s@.subrange(start as int, i + 1) =~= s@.subrange(start as int, i as int).push(c));
            assert(names(out@).push(s@.subrange(start as int, i + 1)) =~= prev.update(
                prev.len() - 1,
                prev.last().push(c),
            ));
        }
        i = i + 1;
    }
    let last = String::from_str(s.substring_char(start, n));
    out.push(last);
    assert(s@.take(n as int) =~= s@);
    assert(names(out@) =~= split_commas(s@));
    out
}

/// The options read so far.
pub struct ScanState {
    pub models_arg: Option<Seq<char>>,
    pub backends_arg: Option<Seq<char>>,
    pub samples: usize,
    pub format: OutputFormat,
    pub out_path: Option<Seq<char>>,
}

/// Where reading the options ends: at a request for help, or with all options read.
pub enum Scanned {
    Help,
    Options(ScanState),
}

/// The defaults: all models, all backends, one sample, Markdown, standard output.
pub open spec fn initial_scan() -> ScanState {
    ScanState {
        models_arg: None,
        backends_arg: None,
        samples: 1,
        format: OutputFormat::Markdown,
        out_path: None,
    }
}

/// The output format a `--format` value names, case-insensitively.
pub open spec fn format_of(f: Seq<char>) -> Option<OutputFormat> {
    let l = lowered(f);
    if l == "markdown"@ || l == "md"@ {
        Some(OutputFormat::Markdown)
    } else if l == "json"@ {
        Some(OutputFormat::Json)
    } else {
        None
    }
}

/// Read the options from `args[i]` on, each option followed by its value; help
/// stops the reading, the first malformed option is refused.
pub open spec fn scan_options(args: Seq<Seq<char>>, i: nat, st: ScanState) -> Result<Scanned, Seq<char>>
    decreases args.len() - i,
{
    if i >= args.len() {
        Ok(Scanned::Options(st))
    } else {
        let a = args[i as int];
        let has_value = i + 1 < args.len();
        let v = args[i + 1 as int];
        if a == "--models"@ {
            if has_value {
                scan_options(args, i + 2, ScanState { models_arg: Some(v), ..st })
            } else {
                Err("--models requires an argument (e.g. 'all' or 'phase2_logreg')"@)
            }
        } else if a == "--backends"@ {
            if has_value {
                scan_options(args, i + 2, ScanState { backends_arg: Some(v), ..st })
            } else {
                Err("--backends requires an argument (e.g. 'tfhe' or 'tfhe,ckks')"@)
            }
        } else if a == "--samples"@ {
            if !has_value {
                Err("--samples requires an integer argument"@)
            } else {
                match decimal_usize(v) {
                    None => Err("invalid --samples value '"@ + v + "': "@ + usize_parse_error(v)),
                    Some(n) => if n == 0 {
                        Err("--samples must be >= 1"@)
                    } else {
                        scan_options(args, i + 2, ScanState { samples: n, ..st })
                    },
                }
            }
        } else if a == "--format"@ {
            if !has_value {
                Err("--format requires an argument ('markdown' or 'json')"@)
            } else {
                match format_of(v) {
                    Some(f) => scan_options(args, i + 2, ScanState { format: f, ..st }),
                    None => Err(
                        "unknown format '"@ + lowered(v)
                            + "'; valid formats are 'markdown' or 'json'"@,
                    ),
                }
            }
        } else if a == "--out"@ {
            if has_value {
                scan_options(args, i + 2, ScanState { out_path: Some(v), ..st })
            } else {
                Err("--out requires a file path argument"@)
            }
        } else if a == "-h"@ || a == "--help"@ {
            Ok(Scanned::Help)
        } else {
            Err("unknown option '"@ + a + "'. Run with --help to see valid options."@)
        }
    }
}

/// `r` with `prefix` put in front of its list.
pub open spec fn prepended(prefix: Seq<Seq<char>>, r: Result<Seq<Seq<char>>, Seq<char>>) -> Result<
    Seq<Seq<char>>,
    Seq<char>,
> {
    match r {
        Ok(rest) => Ok(prefix + rest),
        Err(e) => Err(e),
    }
}

/// The registry keys named by the pieces from `k` on, trimmed, blanks skipped;
/// the first key not in the registry is refused.
pub open spec fn pick_models(pieces: Seq<Seq<char>>, k: nat) -> Result<Seq<Seq<char>>, Seq<char>>
    decreases pieces.len() - k,
{
    if k >= pieces.len() {
        Ok(seq![])
    } else {
        let key = trimmed(pieces[k as int]);
        if key.len() == 0 {
            pick_models(pieces, k + 1)
        } else if first_where(fixture_keys(), keyed(key)) is None {
            Err(unknown_model_msg(key))
        } else {
            prepended(seq![key], pick_models(pieces, k + 1))
        }
    }
}

/// The keys of the models a `--models` value selects: every model by default or
/// for `all` (in any case), else the comma-separated keys, at least one.
pub open spec fn select_models(arg: Option<Seq<char>>) -> Result<Seq<Seq<char>>, Seq<char>> {
    match arg {
        None => Ok(fixture_keys()),
        Some(m) => if ascii_case_eq(m, "all"@) {
            Ok(fixture_keys())
        } else {
            match pick_models(split_commas(m), 0) {
                Ok(keys) => if keys.len() == 0 {
                    Err("no valid models specified in --models"@)
                } else {
                    Ok(keys)
                },
                Err(e) => Err(e),
            }
        },
    }
}

/// The backends this build runs.
pub open spec fn available_names() -> Seq<Seq<char>> {
    seq!["tfhe"@]
}

/// The refusal of the CKKS backend in a build without it.
pub open spec fn ckks_not_compiled_msg() -> Seq<char> {
    "backend 'ckks' is not compiled into this binary; rebuild with --features ckks on a nightly toolchain"@
}

/// The refusal of a backend this build does not know.
pub open spec fn unknown_run_backend_msg(name: Seq<char>) -> Seq<char> {
    "unknown backend '"@ + name + "'; available backends in this build: "@ + joined(available_names())
}

/// The backend names given by the pieces from `k` on, trimmed and lowercased,
/// blanks skipped; the first name this build lacks is refused.
pub open spec fn pick_backends(pieces: Seq<Seq<char>>, k: nat) -> Result<Seq<Seq<char>>, Seq<char>>
    decreases pieces.len() - k,
{
    if k >= pieces.len() {
        Ok(seq![])
    } else {
        let name = lowered(trimmed(pieces[k as int]));
        if name.len() == 0 {
            pick_backends(pieces, k + 1)
        } else if name == "ckks"@ && !available_names().contains("ckks"@) {
            Err(ckks_not_compiled_msg())
        } else if !available_names().contains(name) {
            Err(unknown_run_backend_msg(name))
        } else {
            prepended(seq![name], pick_backends(pieces, k + 1))
        }
    }
}

/// The backends a `--backends` value selects: every available one by default,
/// else the comma-separated names, at least one.
pub open spec fn select_backends(arg: Option<Seq<char>>) -> Result<Seq<Seq<char>>, Seq<char>> {
    match arg {
        None => Ok(available_names()),
        Some(b) => match pick_backends(split_commas(b), 0) {
            Ok(bs) => if bs.len() == 0 {
                Err("no valid backends specified in --backends"@)
            } else {
                Ok(bs)
            },
            Err(e) => Err(e),
        },
    }
}

/// What a command line asks for, by its model.
pub enum CliOutcome {
    Help,
    Run {
        models: Seq<Seq<char>>,
        backends: Seq<Seq<char>>,
        samples: usize,
        format: OutputFormat,
        out_path: Option<Seq<char>>,
    },
}

/// The meaning of the arguments after the program name: the options are read
/// first, then the models, then the backends are selected, and the first
/// refusal is the answer.
pub open spec fn parse_spec(args: Seq<Seq<char>>) -> Result<CliOutcome, Seq<char>> {
    match scan_options(args, 0, initial_scan()) {
        Err(e) => Err(e),
        Ok(Scanned::Help) => Ok(CliOutcome::Help),
        Ok(Scanned::Options(st)) => match select_models(st.models_arg) {
            Err(e) => Err(e),
            Ok(ms) => match select_backends(st.backends_arg) {
                Err(e) => Err(e),
                Ok(bs) => Ok(
                    CliOutcome::Run {
                        models: ms,
                        backends: bs,
                        samples: st.samples,
                        format: st.format,
                        out_path: st.out_path,
                    },
                ),
            },
        },
    }
}

/// The characters of an optional string.
pub open spec fn opt_chars(o: Option<String>) -> Option<Seq<char>> {
    match o {
        Some(s) => Some(s@),
        None => None,
    }
}

/// Whether `v` holds a name equal to `s`.
fn contains_name(v: &Vec<&'static str>, s: &str) -> (r: bool)
    ensures
        r == strs(v@).contains(s@),
{
    let mut j: usize = 0;
    while j < v.len()
        invariant
            j <= v@.len(),
            forall|k: int| 0 <= k < j ==> strs(v@)[k] != s@,
        decreases v@.len() - j,
    {
        if str_eq(v[j], s) {
            assert(strs(v@)[j as int] == s@);
            return true;
        }
        j = j + 1;
    }
    false
}

/// The registry fixtures the pieces name, as `pick_models` says.
fn collect_models(pieces: &Vec<String>) -> (r: Result<Vec<ModelFixture>, String>)
    ensures
        match pick_models(names(pieces@), 0) {
            Ok(keys) => r matches Ok(v) && keys_of(v@) == keys && v@ == fixtures_for(keys),
            Err(e) => r matches Err(x) && x@ == e,
        },
{
    let ghost ps = names(pieces@);
    let mut list: Vec<ModelFixture> = Vec::new();
    let mut k: usize = 0;
    while k < pieces.len()
        invariant
            k <= pieces@.len(),
            names(pieces@) == ps,
            pick_models(ps, 0) == prepended(keys_of(list@), pick_models(ps, k as nat)),
            forall|j: int| 0 <= j < list@.len() ==> #[trigger] list@[j] == fixture_for(list@[j].key@),
        decreases pieces@.len() - k,
    {
        let key = trim_str(pieces[k].as_str());
        assert(names(pieces@)[k as int] == pieces@[k as int]@);
        if !key.is_empty() {
            match find(key) {
                Ok(f) => {
                    let ghost before = list@;
                    list.push(f);
                    assert(keys_of(list@) =~= keys_of(before) + seq![key@]);
                    assert(pick_models(ps, 0) == prepended(keys_of(list@), pick_models(ps, (k + 1) as nat))) by {
                        match pick_models(ps, (k + 1) as nat) {
                            Ok(rest) => {
                                assert(keys_of(before) + (seq![key@] + rest) =~= keys_of(list@) + rest);
                            },
                            Err(e) => {},
                        }
                    }
                },
                Err(e) => {
                    return Err(e);
                },
            }
        }
        k = k + 1;
    }
    assert(pick_models(ps, 0) == Ok::<Seq<Seq<char>>, Seq<char>>(keys_of(list@))) by {
        assert(keys_of(list@) + seq![] =~= keys_of(list@));
    }
    assert(list@ =~= fixtures_for(keys_of(list@)));
    Ok(list)
}

/// The models a `--models` value selects, as `select_models` says.
fn choose_models(arg: &Option<String>) -> (r: Result<Vec<ModelFixture>, String>)
    ensures
        match select_models(opt_chars(*arg)) {
            Ok(keys) => r matches Ok(v) && keys_of(v@) == keys && v@ == fixtures_for(keys),
            Err(e) => r matches Err(x) && x@ == e,
        },
{
    proof { lemma_keys_name_their_fixtures(); }
    let m = match arg {
        None => {
            return Ok(models());
        },
        Some(m) => m,
    };
    if eq_ignore_ascii_case(m.as_str(), "all") {
        return Ok(models());
    }
    let pieces = split_at_commas(m.as_str());
    let list = match collect_models(&pieces) {
        Ok(l) => l,
        Err(e) => {
            return Err(e);
        },
    };
    if list.len() == 0 {
        return Err(String::from_str("no valid models specified in --models"));
    }
    Ok(list)
}

/// The registry keys of the default benchmark set.
pub open spec fn default_bench_keys() -> Seq<Seq<char>> {
    seq![fixture_keys()[0]]
}

/// The fixtures of the default benchmark set, in registry order.
pub fn default_bench_models() -> (r: Vec<ModelFixture>)
    ensures
        keys_of(r@) == default_bench_keys(),
        r@ == fixtures_for(default_bench_keys()),
{
    proof { lemma_keys_name_their_fixtures(); }
    let table = models();
    let mut r: Vec<ModelFixture> = Vec::new();
    let mut i: usize = 0;
    while i < table.len()
        invariant
            i <= table@.len(),
            keys_of(table@) == fixture_keys(),
            forall|j: int| 0 <= j < table@.len() ==> (#[trigger] table@[j]).default_bench == (j == 0),
            i == 0 ==> r@.len() == 0,
            i > 0 ==> keys_of(r@) == default_bench_keys(),
            i > 0 ==> r@ == seq![registry()[0]],
            table@ == registry(),
            fixtures_for(fixture_keys()) == registry(),
        decreases table@.len() - i,
    {
        if table[i].default_bench {
            assert(i == 0);
            r.push(table[i]);
            assert(keys_of(table@)[0] == table@[0].key@);
            assert(keys_of(r@) =~= default_bench_keys());
        }
        i = i + 1;
    }
    assert(keys_of(table@).len() == table@.len());
    assert(fixtures_for(default_bench_keys()) =~= seq![fixtures_for(fixture_keys())[0]]);
    r
}

/// The models a `PENUMBRA_BENCH_MODELS` value selects: trimmed, an empty
/// value is the default set, `all` (in any case) every model, otherwise the
/// comma-separated keys, trimmed, blanks skipped.
pub open spec fn bench_selection(val: Option<Seq<char>>) -> Result<Seq<Seq<char>>, Seq<char>> {
    match val {
        None => Ok(default_bench_keys()),
        Some(v) => {
            let t = trimmed(v);
            if t.len() == 0 {
                Ok(default_bench_keys())
            } else if ascii_case_eq(t, "all"@) {
                Ok(fixture_keys())
            } else {
                pick_models(split_commas(t), 0)
            }
        },
    }
}

/// The benchmark selection for the value of `PENUMBRA_BENCH_MODELS`, `None`
/// when it is not set.
pub fn select_bench_models(val: Option<&str>) -> (r: Result<Vec<ModelFixture>, String>)
    ensures
        match bench_selection(
            match val {
                Some(v) => Some(v@),
                None => None,
            },
        ) {
            Ok(keys) => r matches Ok(v) && keys_of(v@) == keys && v@ == fixtures_for(keys),
            Err(e) => r matches Err(x) && x@ == e,
        },
{
    proof { lemma_keys_name_their_fixtures(); }
    match val {
        None => Ok(default_bench_models()),
        Some(v) => {
            let t = trim_str(v);
            if t.is_empty() {
                Ok(default_bench_models())
            } else if eq_ignore_ascii_case(t, "all") {
                Ok(models())
            } else {
                let pieces = split_at_commas(t);
                collect_models(&pieces)
            }
        },
    }
}

/// The backends a `--backends` value selects, as `select_backends` says.
#[verifier::loop_isolation(false)]
fn choose_backends(arg: &Option<String>) -> (r: Result<Vec<String>, String>)
    ensures
        match select_backends(opt_chars(*arg)) {
            Ok(bs) => r matches Ok(v) && names(v@) == bs,
            Err(e) => r matches Err(x) && x@ == e,
        },
{
    let avail = available_backends();
    assert(strs(avail@) =~= available_names());
    let b = match arg {
        None => {
            let mut all: Vec<String> = Vec::new();
            all.push(String::from_str(avail[0]));
            assert(names(all@) =~= available_names());
            return Ok(all);
        },
        Some(b) => b,
    };
    let pieces = split_at_commas(b.as_str());
    let ghost ps = split_commas(b@);
    let mut list: Vec<String> = Vec::new();
    let mut k: usize = 0;
    while k < pieces.len()
        invariant
            k <= pieces@.len(),
            names(pieces@) == ps,
            strs(avail@) == available_names(),
            pick_backends(ps, 0) == prepended(names(list@), pick_backends(ps, k as nat)),
        decreases pieces@.len() - k,
    {
        let name = to_lower(trim_str(pieces[k].as_str()));
        assert(names(pieces@)[k as int] == pieces@[k as int]@);
        if !name.as_str().is_empty() {
            if str_eq(name.as_str(), "ckks") && !contains_name(&avail, "ckks") {
                return Err(
                    String::from_str(
                        "backend 'ckks' is not compiled into this binary; rebuild with --features ckks on a nightly toolchain",
                    ),
                );
            }
            if !contains_name(&avail, name.as_str()) {
                let m = cat(String::from_str("unknown backend '"), name.as_str());
                let m = cat(m, "'; available backends in this build: ");
                return Err(cat(m, join_names(&avail).as_str()));
            }
            let ghost before = list@;
            let ghost n = name@;
            list.push(name);
            assert(names(list@) =~= names(before) + seq![n]);
            assert(pick_backends(ps, 0) == prepended(names(list@), pick_backends(ps, (k + 1) as nat))) by {
                match pick_backends(ps, (k + 1) as nat) {
                    Ok(rest) => {
                        assert(names(before) + (seq![n] + rest) =~= names(list@) + rest);
                    },
                    Err(e) => {},
                }
            }
        }
        k = k + 1;
    }
    assert(pick_backends(ps, 0) == Ok::<Seq<Seq<char>>, Seq<char>>(names(list@))) by {
        assert(names(list@) + seq![] =~= names(list@));
    }
    if list.len() == 0 {
        return Err(String::from_str("no valid backends specified in --backends"));
    }
    Ok(list)
}

/// The view of the options read so far.
pub open spec fn scan_state(
    models_arg: Option<String>,
    backends_arg: Option<String>,
    samples: usize,
    format: OutputFormat,
    out_path: Option<String>,
) -> ScanState {
    ScanState {
        models_arg: opt_chars(models_arg),
        backends_arg: opt_chars(backends_arg),
        samples,
        format,
        out_path: opt_chars(out_path),
    }
}

/// Parse the arguments after the program name: `--models`, `--backends`,
/// `--samples`, `--format` and `--out` each take a value, `-h` or `--help` asks
/// for the usage text; the answer is `parse_spec` of the arguments.
pub fn parse_args(args: &Vec<String>) -> (r: Result<CliCommand, String>)
    ensures
        match parse_spec(names(args@)) {
            Err(e) => r matches Err(x) && x@ == e,
            Ok(CliOutcome::Help) => r matches Ok(CliCommand::Help),
            Ok(CliOutcome::Run { models, backends, samples, format, out_path }) => r matches Ok(
                CliCommand::Run(a),
            ) && keys_of(a.models@) == models && a.models@ == fixtures_for(models) && names(a.backends@) == backends && a.samples
                == samples && a.format == format && opt_chars(a.out_path) == out_path,
        },
{
    let ghost all = names(args@);
    let mut models_arg: Option<String> = None;
    let mut backends_arg: Option<String> = None;
    let mut samples: usize = 1;
    let mut format = OutputFormat::Markdown;
    let mut out_path: Option<String> = None;
    let mut i: usize = 0;
    while i < args.len()
        invariant
            i <= args@.len(),
            all == names(args@),
            scan_options(all, 0, initial_scan()) == scan_options(
                all,
                i as nat,
                scan_state(models_arg, backends_arg, samples, format, out_path),
            ),
        decreases args@.len() - i,
    {
        let a = args[i].as_str();
        let has_value = i + 1 < args.len();
        assert(all[i as int] == a@);
        if has_value {
            assert(all[i + 1] == args@[i + 1]@);
        }
        if str_eq(a, "--models") {
            if !has_value {
                return Err(
                    String::from_str(
                        "--models requires an argument (e.g. 'all' or 'phase2_logreg')",
                    ),
                );
            }
            models_arg = Some(args[i + 1].clone());
        } else if str_eq(a, "--backends") {
            if !has_value {
                return Err(
                    String::from_str("--backends requires an argument (e.g. 'tfhe' or 'tfhe,ckks')"),
                );
            }
            backends_arg = Some(args[i + 1].clone());
        } else if str_eq(a, "--samples") {
            if !has_value {
                return Err(String::from_str("--samples requires an integer argument"));
            }
            let s = args[i + 1].as_str();
            match parse_usize(s) {
                Ok(n) => {
                    if n == 0 {
                        return Err(String::from_str("--samples must be >= 1"));
                    }
                    samples = n;
                },
                Err(e) => {
                    let m = cat(String::from_str("invalid --samples value '"), s);
                    let m = cat(m, "': ");
                    return Err(cat(m, e.as_str()));
                },
            }
        } else if str_eq(a, "--format") {
            if !has_value {
                return Err(String::from_str("--format requires an argument ('markdown' or 'json')"));
            }
            let f = to_lower(args[i + 1].as_str());
            if str_eq(f.as_str(), "markdown") || str_eq(f.as_str(), "md") {
                format = OutputFormat::Markdown;
            } else if str_eq(f.as_str(), "json") {
                format = OutputFormat::Json;
            } else {
                let m = cat(String::from_str("unknown format '"), f.as_str());
                return Err(cat(m, "'; valid formats are 'markdown' or 'json'"));
            }
        } else if str_eq(a, "--out") {
            if !has_value {
                return Err(String::from_str("--out requires a file path argument"));
            }
            out_path = Some(args[i + 1].clone());
        } else if str_eq(a, "-h") || str_eq(a, "--help") {
            return Ok(CliCommand::Help);
        } else {
            let m = cat(String::from_str("unknown option '"), a);
            return Err(cat(m, "'. Run with --help to see valid options."));
        }
        i = i + 2;
    }
    let selected = match choose_models(&models_arg) {
        Ok(v) => v,
        Err(e) => {
            return Err(e);
        },
    };
    let backends = match choose_backends(&backends_arg) {
        Ok(v) => v,
        Err(e) => {
            return Err(e);
        },
    };
    Ok(CliCommand::Run(CliArgs { models: selected, backends, samples, format, out_path }))
}

/// The usage text: the options, the valid model keys and the available backends.
pub open spec fn usage_text() -> Seq<char> {
    "usage: penumbra-bench-report [OPTIONS]\n\nOptions:\n  --models <all|key,...>   Models to run (default: all)\n                           Valid keys: "@
        + joined(fixture_keys())
        + "\n  --backends <name,...>    Backends to run (default: "@ + joined(available_names())
        + ")\n                           Available: "@ + joined(available_names())
        + "\n  --samples <N>            Number of samples to evaluate per model (default: 1)\n  --format <markdown|json> Output format (default: markdown)\n  --out <PATH>             Write output to PATH instead of stdout\n  -h, --help               Show this help message"@
}

/// The usage text printed for `--help`.
pub fn usage() -> (r: String)
    ensures
        r@ == usage_text(),
{
    let avail = available_backends();
    assert(strs(avail@) =~= available_names());
    let avail_text = join_names(&avail);
    let keys = model_keys();
    let m = cat(
        String::from_str(
            "usage: penumbra-bench-report [OPTIONS]\n\nOptions:\n  --models <all|key,...>   Models to run (default: all)\n                           Valid keys: ",
        ),
        join_names(&keys).as_str(),
    );
    let m = cat(m, "\n  --backends <name,...>    Backends to run (default: ");
    let m = cat(m, avail_text.as_str());
    let m = cat(m, ")\n                           Available: ");
    let m = cat(m, avail_text.as_str());
    cat(
        m,
        "\n  --samples <N>            Number of samples to evaluate per model (default: 1)\n  --format <markdown|json> Output format (default: markdown)\n  --out <PATH>             Write output to PATH instead of stdout\n  -h, --help               Show this help message",
    )
}

} // verus!
