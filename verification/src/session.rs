//! An evaluation session: a backend with its key pair, sized for one graph.

use vstd::prelude::*;

use crate::backend::{Backend, EvalCtx};
use crate::bitwidth::propagate_defined;
use crate::backend::Tensor;
use crate::bridge::{sample_outcome, sample_value};
use crate::eval::{
    clone_of, debug_list, debug_list_text, elapsed, input_values, provided_names, records_measures, records_nodes,
    walk_env, walked_graph, Clock,
};
use crate::ir::{cat, names, Graph};
use crate::optimize::{first_fusion, lemma_optimize_shape, optimize_defined, optimize_spec};
use crate::profile::GraphProfile;
use crate::text::{dec, usize_text};

verus! {

/// A configured evaluation session binding a backend, its keys, and the radix
/// width of the graph it was made for.
pub struct Session<B: Backend> {
    pub backend: B,
    pub ck: B::ClientKey,
    pub sk: B::ServerKey,
    pub num_blocks: usize,
    /// Nanoseconds key generation took.
    pub keygen: u128,
}

/// The refusal of a graph without exactly one input.
pub open spec fn single_input_msg(inputs: Seq<Seq<char>>) -> Seq<char> {
    "Session::eval expects single-input graph; got "@ + dec(inputs.len()) + " inputs: "@
        + debug_list_text(inputs)
}

/// The refusal of a graph without exactly one output.
pub open spec fn single_output_msg(outputs: Seq<Seq<char>>) -> Seq<char> {
    "Session::eval expects single-output graph; got "@ + dec(outputs.len()) + " outputs: "@
        + debug_list_text(outputs)
}

impl<B: Backend> Session<B> {
    /// Run the backend's own budget preflight on `graph`, then generate keys for
    /// its radix width, timing the key generation on `clock`.
    pub fn new<C: Clock>(backend: B, graph: &Graph, clock: &C) -> (r: Result<Self, String>)
        ensures
            match backend.budget_refusal(graph@) {
                Some(e) => r matches Err(x) && x@ == e@,
                None => r matches Ok(s) && s.num_blocks == graph.num_blocks && s.backend == backend
                    && backend.key_pair(s.ck, s.sk, graph.num_blocks),
            },
    {
        match backend.check_graph_budget(graph) {
            Ok(()) => {},
            Err(e) => {
                return Err(e);
            },
        }
        let t = clock.now_nanos();
        let (ck, sk) = backend.keygen(graph.num_blocks);
        let end = clock.now_nanos();
        let keygen = if end >= t {
            end - t
        } else {
            0
        };
        Ok(Session { backend, ck, sk, num_blocks: graph.num_blocks, keygen })
    }

    /// Encrypt an input vector with the session's client key.
    pub fn encrypt(&self, input: &[i64]) -> (r: Vec<B::Ciphertext>)
        ensures
            self.backend.encrypts(self.ck, input@, r@),
    {
        self.backend.encrypt(&self.ck, input)
    }

    /// The measured forward pass of a single-input, single-output graph: one call
    /// into the shared walker, returning the output tensor and the walk's profile.
    pub fn eval<C: Clock>(&self, graph: &Graph, input: &Vec<B::Ciphertext>, clock: &C) -> (r: Result<
        (Vec<B::Ciphertext>, GraphProfile),
        String,
    >)
        requires
            optimize_defined(graph@, graph@.nodes.len()),
            first_fusion(graph@, 0) is Some ==> propagate_defined(optimize_spec(graph@)),
        ensures
            graph.inputs@.len() != 1 ==> (r matches Err(e) && e@ == single_input_msg(names(graph.inputs@))),
            graph.inputs@.len() == 1 ==> match sample_outcome(&self.backend, graph@) {
                Err(e) => r matches Err(x) && x@ == e,
                Ok(_) => if graph.outputs@.len() != 1 {
                    r matches Err(x) && x@ == single_output_msg(names(graph.outputs@))
                } else {
                    r matches Ok((out, p)) && (exists|c: Tensor<B::Ciphertext>|
                        #[trigger] clone_of(input@, c) && clone_of(
                            sample_value(&self.backend, graph@, self.sk, self.num_blocks, c),
                            out@,
                        ) && records_measures(
                            &self.backend,
                            self.sk,
                            self.num_blocks,
                            p.nodes@,
                            walked_graph(graph@).nodes,
                            Map::empty().insert(graph@.inputs[0], c),
                        )) && p.backend == self.backend.spec_name() && records_nodes(
                        p.nodes@,
                        walked_graph(graph@).nodes,
                    )
                },
            },
    {
        if graph.inputs.len() != 1 {
            let m = cat(
                String::from_str("Session::eval expects single-input graph; got "),
                usize_text(graph.inputs.len()).as_str(),
            );
            let m = cat(m, " inputs: ");
            let m = cat(m, debug_list(&graph.inputs).as_str());
            return Err(m);
        }
        let input_name = graph.inputs[0].clone();
        let input_copy = input.clone();
        let ghost copy = input_copy@;
        let mut env: Vec<(String, Vec<B::Ciphertext>)> = Vec::new();
        env.push((input_name, input_copy));
        let ghost env_names = env@;
        proof {
            assert(env_names.drop_first() =~= Seq::<(String, Vec<B::Ciphertext>)>::empty());
            assert(input_values(env_names.drop_first()) == Map::<Seq<char>, Tensor<B::Ciphertext>>::empty());
        assert(env_names[0].0@ == graph@.inputs[0]);
        assert(env_names[0].1@ == copy);
        assert(input_values(env_names) =~= Map::<Seq<char>, Tensor<B::Ciphertext>>::empty().insert(graph@.inputs[0], copy));
            assert(provided_names(env_names) =~= names(graph.inputs@));
        }
        let ctx = EvalCtx::new(&self.sk, self.num_blocks);
        let mut profile = GraphProfile { backend: "", total: 0, nodes: Vec::new() };
        let (outputs, t_total) = match walk_env(&self.backend, &ctx, graph, env, clock, &mut profile, true) {
            Ok(o) => o,
            Err(e) => {
                return Err(e);
            },
        };
        if graph.outputs.len() != 1 {
            let m = cat(
                String::from_str("Session::eval expects single-output graph; got "),
                usize_text(graph.outputs.len()).as_str(),
            );
            let m = cat(m, " outputs: ");
            let m = cat(m, debug_list(&graph.outputs).as_str());
            return Err(m);
        }
        let output_name = &graph.outputs[0];
        proof {
            lemma_optimize_shape(graph@);
            assert(graph@.outputs[0] == output_name@);
            assert(graph@.outputs.to_set().contains(output_name@));
            assert(clone_of(input@, copy));
        }
        match outputs.get(output_name.as_str()) {
            Some(out) => {
                let o = out.clone();
                profile.total = elapsed(t_total, clock.now_nanos());
                Ok((o, profile))
            },
            None => {
                let m = cat(String::from_str("missing output tensor '"), output_name.as_str());
                Err(cat(m, "' in result"))
            },
        }
    }

    /// Decrypt output ciphertexts to signed integers.
    pub fn decrypt(&self, cts: &[B::Ciphertext]) -> (r: Vec<i64>)
        ensures
            r@ == self.backend.values_of(self.ck, cts@),
    {
        self.backend.decrypt_vec(&self.ck, cts)
    }

    /// Decrypt a single-output ciphertext to a label.
    pub fn decrypt_label(&self, cts: &[B::Ciphertext]) -> (r: i64)
        ensures
            r == self.backend.label_of(self.ck, cts@),
    {
        self.backend.decrypt_label(&self.ck, cts)
    }

    /// The wire sizes of the client and the server key.
    pub fn key_bytes(&self) -> (r: Result<(usize, usize), String>)
        ensures
            match self.backend.client_key_wire(self.ck, self.num_blocks) {
                Err(e) => r matches Err(x) && x@ == e,
                Ok(c) => match self.backend.server_key_wire(self.sk, self.num_blocks) {
                    Err(e) => r matches Err(x) && x@ == e,
                    Ok(s) => r matches Ok((a, b)) && a == c.len() && b == s.len(),
                },
            },
    {
        let ck_bytes = match self.backend.serialize_client_key(&self.ck, self.num_blocks) {
            Ok(b) => b,
            Err(e) => {
                return Err(e);
            },
        };
        let sk_bytes = match self.backend.serialize_server_key(&self.sk, self.num_blocks) {
            Ok(b) => b,
            Err(e) => {
                return Err(e);
            },
        };
        Ok((ck_bytes.len(), sk_bytes.len()))
    }

    /// The wire size of a ciphertext slice.
    pub fn ct_bytes(&self, cts: &[B::Ciphertext]) -> (r: Result<usize, String>)
        ensures
            match self.backend.cts_wire(cts@) {
                Err(e) => r matches Err(x) && x@ == e,
                Ok(b) => r matches Ok(n) && n == b.len(),
            },
    {
        match self.backend.serialize_cts(cts) {
            Ok(b) => Ok(b.len()),
            Err(e) => Err(e),
        }
    }
}

} // verus!
