//! The summary interface every op exposes for bit-width tracking.

use vstd::prelude::*;

use crate::bitwidth::{
    internal_bits_defined, internal_bits_spec, op_spec_internal_bits_n, op_spec_output_bits_n,
    output_bits_defined, output_bits_spec,
};
use crate::ir::{validate_spec, OpSpec};

verus! {

/// Summary interface for bit-width tracking and conformance checking.
pub trait OpSummary {
    /// The output width given the input widths.
    spec fn spec_output_bits_n(&self, input_bits: Seq<usize>) -> int;

    /// Whether the output width is defined for these input widths.
    spec fn spec_output_defined(&self, input_bits: Seq<usize>) -> bool;

    /// The peak internal width given the input widths.
    spec fn spec_internal_bits_n(&self, input_bits: Seq<usize>) -> int;

    /// Whether the internal width is defined for these input widths.
    spec fn spec_internal_defined(&self, input_bits: Seq<usize>) -> bool;

    fn output_bits(&self, input_bits: usize) -> (r: usize)
        requires
            self.spec_output_defined(seq![input_bits]),
        ensures
            r == self.spec_output_bits_n(seq![input_bits]),
    ;

    fn output_bits_n(&self, input_bits: &[usize]) -> (r: usize)
        requires
            self.spec_output_defined(input_bits@),
        ensures
            r == self.spec_output_bits_n(input_bits@),
    ;

    fn internal_bits_n(&self, input_bits: &[usize]) -> (r: usize)
        requires
            self.spec_internal_defined(input_bits@),
        ensures
            r == self.spec_internal_bits_n(input_bits@),
    ;
}

impl OpSummary for OpSpec {
    open spec fn spec_output_bits_n(&self, input_bits: Seq<usize>) -> int {
        output_bits_spec(self@, input_bits)
    }

    open spec fn spec_output_defined(&self, input_bits: Seq<usize>) -> bool {
        output_bits_defined(self@, input_bits)
    }

    open spec fn spec_internal_bits_n(&self, input_bits: Seq<usize>) -> int {
        internal_bits_spec(self@, input_bits)
    }

    open spec fn spec_internal_defined(&self, input_bits: Seq<usize>) -> bool {
        internal_bits_defined(self@, input_bits)
    }

    fn output_bits(&self, input_bits: usize) -> (r: usize) {
        let v = vec![input_bits];
        assert(v@ =~= seq![input_bits]);
        self.output_bits_n(v.as_slice())
    }

    fn output_bits_n(&self, input_bits: &[usize]) -> (r: usize) {
        op_spec_output_bits_n(self, input_bits)
    }

    fn internal_bits_n(&self, input_bits: &[usize]) -> (r: usize) {
        op_spec_internal_bits_n(self, input_bits)
    }
}

impl OpSpec {
    /// Validates the op's fields and, when they are valid, returns its bit-width
    /// summary: a boxed copy of the op, whose `OpSummary` methods compute the
    /// widths of `output_bits_spec` and `internal_bits_spec`.
    pub fn build(&self) -> (r: Result<Box<OpSpec>, String>)
        requires
            crate::ir::sizes_fit(self@),
        ensures
            match r {
                Ok(b) => validate_spec(self@) is Ok && (*b)@ == self@,
                Err(e) => validate_spec(self@) == Err::<(), Seq<char>>(e@),
            },
    {
        match self.validate() {
            Ok(()) => Ok(Box::new(self.duplicate())),
            Err(e) => Err(e),
        }
    }
}

} // verus!
