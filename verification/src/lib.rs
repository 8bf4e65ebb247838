//! A verified interpreter for a minimal eight-instruction tape language.
//!
//! A program is a sequence of characters; the eight recognized instruction
//! characters move a data pointer over a growable byte tape, change the
//! current cell, perform character input and output, and form loops with a
//! pair of bracket instructions. The loader validates bracket balance up
//! front; the machine executes one instruction at a time, growing the tape
//! on demand, and fails on a data-pointer underflow or on a bracket whose
//! match cannot be found.

use vstd::prelude::*;

mod brackets;
mod laws;
mod loader;
mod machine;

pub use brackets::{
    bracket_delta, bwd_match, bwd_match_at, fwd_match, fwd_match_at, has_bwd_match, has_fwd_match,
    net, net_depth,
};
pub use laws::{
    lemma_cell_arithmetic_wraps, lemma_completion_is_terminal, lemma_failure_is_terminal,
    lemma_pointer_underflow_aborts, lemma_tape_grows_on_demand, lemma_tight_loop_runs_forever,
};
pub use loader::{
    chars_view, is_valid_bf_inst, kept_instructions, kept_line, load_from_line, load_from_lines,
};
pub use machine::{
    grow, lemma_step_preserves_wf, line_view, lines_view, push_out, run_n, step, wf_state,
    BfProgram, MachineState, RunOutcome, RunStatus, StepOutcome,
};

verus! {

/// The ways a run or a load can fail.
#[derive(Clone, Copy, Debug, PartialEq, Eq, Structural)]
pub enum BfError {
    /// The data pointer would move below the first tape cell.
    DataPtrOutOfBounds,
    /// A loop-start bracket has no matching loop-end.
    UnmatchedLoopStart,
    /// A loop-end bracket has no matching loop-start.
    UnmatchedLoopEnd,
}

/// Whether a character is one of the eight instruction symbols.
pub open spec fn is_instruction(c: char) -> bool {
    c == '>' || c == '<' || c == '+' || c == '-' || c == '.' || c == ',' || c == '[' || c == ']'
}

} // verus!
