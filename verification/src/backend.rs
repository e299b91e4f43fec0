//! The backend contract: the evaluation context handed to every op, the trait a
//! pluggable FHE scheme implements, and the op interface it builds.

use vstd::prelude::*;

use crate::ir::{Graph, GraphModel, OpModel, OpSpec};

verus! {

/// The mathematical value of a tensor: its ciphertexts in order.
pub type Tensor<Ct> = Seq<Ct>;

/// The values of an ordered list of tensors.
pub type Tensors<Ct> = Seq<Seq<Ct>>;

/// Cleartext integer values, as encrypted and decrypted.
pub type Values = Seq<i64>;

/// The lengths of an op's input tensors, in order.
pub type Lengths = Seq<usize>;

/// An op's cost counters: each counter's name and count.
pub type Counters = Seq<(&'static str, u64)>;

/// What a serialization gives: the wire bytes, or the backend's refusal.
pub type Wire = Result<Seq<u8>, Seq<char>>;

/// The values of the tensors a slice of references points at.
pub open spec fn tensors_of<Ct>(refs: Seq<&Vec<Ct>>) -> Tensors<Ct> {
    refs.map_values(|v: &Vec<Ct>| v@)
}

/// A serialization result by its model.
pub open spec fn wire_of(r: Result<Vec<u8>, String>) -> Wire {
    match r {
        Ok(b) => Ok(b@),
        Err(e) => Err(e@),
    }
}

/// Shared, read-only evaluation context handed to every op during graph execution.
pub struct EvalCtx<'a, K> {
    /// Public evaluation key enabling plaintext-weight arithmetic and bootstrapping.
    pub sk: &'a K,
    /// Central bit-width budget (radix width shared across the model).
    pub num_blocks: usize,
}

impl<'a, K> EvalCtx<'a, K> {
    /// A context over `sk` with `num_blocks` radix blocks.
    pub fn new(sk: &'a K, num_blocks: usize) -> (r: Self)
        ensures
            r.sk == sk,
            r.num_blocks == num_blocks,
    {
        EvalCtx { sk, num_blocks }
    }
}

/// An FHE scheme: op instantiation, server-side evaluation primitives, and the
/// client-side key and encryption boundary. Implemented by each backend crate.
pub trait Backend: Sized {
    /// The ciphertext representation for this backend.
    type Ciphertext: Clone;
    /// The public evaluation / server key.
    type ServerKey;
    /// The secret client key.
    type ClientKey;

    /// The backend's name, as `name` returns it.
    spec fn spec_name(&self) -> &'static str;

    /// Unique identifier for this backend scheme (e.g. `"tfhe"` or `"ckks"`).
    fn name(&self) -> (r: &'static str)
        ensures
            r == self.spec_name(),
    ;

    /// Whether this backend builds an op for the op spec `op`.
    spec fn build_accepts(&self, op: OpModel) -> bool;

    /// The backend's own refusal of an op spec it does not build.
    spec fn build_refusal(&self, op: OpModel) -> String;

    /// The tensor the op `op` computes on this backend from the input tensors
    /// `ins`, under server key `sk` at `num_blocks` radix blocks.
    spec fn apply_op(
        &self,
        op: OpModel,
        sk: Self::ServerKey,
        num_blocks: usize,
        ins: Tensors<Self::Ciphertext>,
    ) -> Tensor<Self::Ciphertext>;

    /// The cost counters the op for `op` reports for inputs of lengths `input_lens`.
    spec fn op_cost(&self, op: OpModel, input_lens: Lengths) -> Counters;

    /// Build a runnable op for this backend from an op spec, failing loudly when the
    /// op is unsupported here. The op built computes what `apply_op` says of the
    /// spec, and reports the counters `op_cost` says.
    fn build_op(&self, spec: &OpSpec) -> (r: Result<Box<dyn Op<Self::Ciphertext, Self::ServerKey>>, String>)
        ensures
            match r {
                Ok(b) => self.build_accepts(spec@) && (forall|sk: Self::ServerKey, nb: usize, ins: Tensors<Self::Ciphertext>|
                    #[trigger] b.eval_n_spec(sk, nb, ins) == self.apply_op(spec@, sk, nb, ins))
                    && (forall|lens: Lengths| #[trigger] b.cost_spec(lens) == self.op_cost(spec@, lens)),
                Err(e) => !self.build_accepts(spec@) && e@ == self.build_refusal(spec@)@,
            },
    ;

    /// The backend's refusal of a graph over its resource budget, if any.
    spec fn budget_refusal(&self, graph: GraphModel) -> Option<String>;

    /// Validate a graph against this backend's resource budget before any crypto
    /// runs, naming the offending node on failure.
    fn check_graph_budget(&self, graph: &Graph) -> (r: Result<(), String>)
        ensures
            match self.budget_refusal(graph@) {
                None => r is Ok,
                Some(e) => r matches Err(x) && x@ == e@,
            },
    ;

    /// A trivial (plaintext) encryption of zero sized to `num_blocks`.
    fn create_trivial_zero(&self, sk: &Self::ServerKey, num_blocks: usize) -> Self::Ciphertext;

    /// Ciphertext-ciphertext addition.
    fn add(&self, sk: &Self::ServerKey, a: &Self::Ciphertext, b: &Self::Ciphertext) -> Self::Ciphertext;

    /// Ciphertext-plaintext scalar multiplication.
    fn scalar_mul(&self, sk: &Self::ServerKey, a: &Self::Ciphertext, scalar: i64) -> Self::Ciphertext;

    /// Ciphertext-plaintext scalar addition.
    fn scalar_add(&self, sk: &Self::ServerKey, a: &Self::Ciphertext, scalar: i64) -> Self::Ciphertext;

    /// Ciphertext-scalar comparison (`ct >= threshold`).
    fn scalar_ge(&self, sk: &Self::ServerKey, a: &Self::Ciphertext, threshold: i64) -> Self::Ciphertext;

    /// Elementwise ciphertext maximum.
    fn max(&self, sk: &Self::ServerKey, a: &Self::Ciphertext, b: &Self::Ciphertext) -> Self::Ciphertext;

    /// Scalar maximum (`max(ct, scalar)`).
    fn scalar_max(&self, sk: &Self::ServerKey, a: &Self::Ciphertext, scalar: i64) -> Self::Ciphertext;

    /// Scalar minimum (`min(ct, scalar)`).
    fn scalar_min(&self, sk: &Self::ServerKey, a: &Self::Ciphertext, scalar: i64) -> Self::Ciphertext;

    /// Arithmetic right shift.
    fn scalar_right_shift(&self, sk: &Self::ServerKey, a: &Self::Ciphertext, shift: u32) -> Self::Ciphertext;

    /// Apply a univariate lookup table.
    fn apply_lut(
        &self,
        sk: &Self::ServerKey,
        a: &Self::Ciphertext,
        lut: &[u64],
        num_blocks: usize,
    ) -> Self::Ciphertext;

    /// Whether `(ck, sk)` is a client and server key pair for `num_blocks` blocks.
    spec fn key_pair(&self, ck: Self::ClientKey, sk: Self::ServerKey, num_blocks: usize) -> bool;

    /// Generate a fresh client and server key pair for `num_blocks` blocks. Key
    /// generation is randomized: what holds of every result is that it is such a
    /// key pair.
    fn keygen(&self, num_blocks: usize) -> (r: (Self::ClientKey, Self::ServerKey))
        ensures
            self.key_pair(r.0, r.1, num_blocks),
    ;

    /// Whether `cts` is an encryption of the values `input` under client key `ck`.
    spec fn encrypts(&self, ck: Self::ClientKey, input: Values, cts: Tensor<Self::Ciphertext>) -> bool;

    /// Encrypt signed integer inputs. Encryption is randomized: what holds of
    /// every result is that it encrypts `input` under `ck`.
    fn encrypt(&self, ck: &Self::ClientKey, input: &[i64]) -> (r: Vec<Self::Ciphertext>)
        ensures
            self.encrypts(*ck, input@, r@),
    ;

    /// The label a single-element output decrypts to under `ck`.
    spec fn label_of(&self, ck: Self::ClientKey, out: Tensor<Self::Ciphertext>) -> i64;

    /// Decrypt a single-element output to a scalar label.
    fn decrypt_label(&self, ck: &Self::ClientKey, out: &[Self::Ciphertext]) -> (r: i64)
        ensures
            r == self.label_of(*ck, out@),
    ;

    /// The integer values output ciphertexts decrypt to under `ck`.
    spec fn values_of(&self, ck: Self::ClientKey, out: Tensor<Self::Ciphertext>) -> Values;

    /// Decrypt output ciphertexts to integer values.
    fn decrypt_vec(&self, ck: &Self::ClientKey, out: &[Self::Ciphertext]) -> (r: Vec<i64>)
        ensures
            r@ == self.values_of(*ck, out@),
    ;

    /// The wire form of a ciphertext list, or the backend's refusal.
    spec fn cts_wire(&self, cts: Tensor<Self::Ciphertext>) -> Wire;

    /// Serialize ciphertexts to a scheme-tagged byte buffer.
    fn serialize_cts(&self, cts: &[Self::Ciphertext]) -> (r: Result<Vec<u8>, String>)
        ensures
            wire_of(r) == self.cts_wire(cts@),
    ;

    /// Deserialize ciphertexts from a scheme-tagged byte buffer.
    fn deserialize_cts(&self, bytes: &[u8]) -> Result<Vec<Self::Ciphertext>, String>;

    /// The wire form of a client key at `num_blocks` blocks, or the refusal.
    spec fn client_key_wire(&self, ck: Self::ClientKey, num_blocks: usize) -> Wire;

    /// Serialize the client secret key to its tagged wire bytes.
    fn serialize_client_key(&self, ck: &Self::ClientKey, num_blocks: usize) -> (r: Result<Vec<u8>, String>)
        ensures
            wire_of(r) == self.client_key_wire(*ck, num_blocks),
    ;

    /// The wire form of a server key at `num_blocks` blocks, or the refusal.
    spec fn server_key_wire(&self, sk: Self::ServerKey, num_blocks: usize) -> Wire;

    /// Serialize the public server key to its tagged wire bytes.
    fn serialize_server_key(&self, sk: &Self::ServerKey, num_blocks: usize) -> (r: Result<Vec<u8>, String>)
        ensures
            wire_of(r) == self.server_key_wire(*sk, num_blocks),
    ;
}

/// The op interface a backend builds for each node: evaluation over encrypted
/// tensors of ciphertexts `Ct` under server key `Sk`, and the op's bit-width growth.
pub trait Op<Ct, Sk> {
    /// The tensor the op computes from the input tensors `inputs`, under server
    /// key `sk` at `num_blocks` radix blocks.
    spec fn eval_n_spec(&self, sk: Sk, num_blocks: usize, inputs: Tensors<Ct>) -> Tensor<Ct>;

    /// Evaluate over one input tensor.
    fn eval(&self, ctx: &EvalCtx<Sk>, inputs: &Vec<Ct>) -> (r: Vec<Ct>)
        ensures
            r@ == self.eval_n_spec(*ctx.sk, ctx.num_blocks, seq![inputs@]),
    ;

    /// Evaluate over an ordered slice of input tensors; a single-input op forwards
    /// its one input to `eval`.
    fn eval_n(&self, ctx: &EvalCtx<Sk>, inputs: &[&Vec<Ct>]) -> (r: Vec<Ct>)
        ensures
            r@ == self.eval_n_spec(*ctx.sk, ctx.num_blocks, tensors_of(inputs@)),
    ;

    /// The output width the op declares for a single input of `input_bits` bits.
    spec fn out_bits_spec(&self, input_bits: usize) -> usize;

    /// The output width given the width of the single input.
    fn output_bits(&self, input_bits: usize) -> (r: usize)
        ensures
            r == self.out_bits_spec(input_bits),
    ;

    /// The output width given the input widths.
    fn output_bits_n(&self, input_bits: &[usize]) -> usize;

    /// The peak internal width this op materializes, given its input widths.
    fn internal_bits_n(&self, input_bits: &[usize]) -> usize;

    /// The counters the op reports for inputs of lengths `input_lens`.
    spec fn cost_spec(&self, input_lens: Lengths) -> Counters;

    /// The op's scheme-specific cost counters for these input lengths; names are
    /// opaque to the walker.
    fn cost(&self, input_lens: &[usize]) -> (r: Vec<(&'static str, u64)>)
        ensures
            r@ == self.cost_spec(input_lens@),
    ;
}

} // verus!
