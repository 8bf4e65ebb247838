//! General laws of the interpreter, stated over the step and run semantics
//! and proved once for all programs, tapes, and inputs.

use vstd::prelude::*;
use crate::brackets::lemma_bwd_match_is;
use crate::machine::{run_n, step, wf_state, MachineState, RunOutcome, StepOutcome};
use crate::BfError;

verus! {

/// Cell arithmetic is modulo 256 in both directions: an increment or a
/// decrement replaces the current cell by its value plus or minus one,
/// wrapped; in particular incrementing a cell holding 255 yields 0 and
/// decrementing a cell holding 0 yields 255.
pub proof fn lemma_cell_arithmetic_wraps(s: MachineState, input: Option<Seq<u8>>)
    requires
        wf_state(s),
        s.ip < s.program.len(),
        s.program[s.ip] == '+' || s.program[s.ip] == '-',
    ensures
        ({
            let v = if s.program[s.ip] == '+' {
                ((s.data[s.dp] + 1) % 256) as u8
            } else {
                ((s.data[s.dp] + 255) % 256) as u8
            };
            step(s, input) matches StepOutcome::Next { s: s2, out } && s2.data == s.data.update(
                s.dp,
                v,
            ) && out == Option::<u8>::None
        }),
        s.program[s.ip] == '+' && s.data[s.dp] == 255 ==> (step(s, input) matches
        StepOutcome::Next { s: s2, out } && s2.data[s.dp] == 0),
        s.program[s.ip] == '-' && s.data[s.dp] == 0 ==> (step(s, input) matches StepOutcome::Next {
            s: s2,
            out,
        } && s2.data[s.dp] == 255),
{
}

/// Moving the data pointer left of the first cell is a bounds failure: the
/// step aborts with `DataPtrOutOfBounds` and changes nothing.
pub proof fn lemma_pointer_underflow_aborts(s: MachineState, input: Option<Seq<u8>>)
    requires
        0 <= s.ip < s.program.len(),
        s.program[s.ip] == '<',
        s.dp == 0,
    ensures
        step(s, input) == (StepOutcome::Fail { err: BfError::DataPtrOutOfBounds }),
{
}

/// A failure is terminal: once a run has aborted, no further instructions
/// execute, and the error and the output produced so far stay as they are.
pub proof fn lemma_failure_is_terminal(s0: MachineState, inputs: Seq<Seq<u8>>, n: nat, m: nat)
    requires
        n <= m,
        run_n(s0, inputs, n) is Failed,
    ensures
        run_n(s0, inputs, m) == run_n(s0, inputs, n),
    decreases m - n,
{
    if m > n {
        lemma_failure_is_terminal(s0, inputs, n, (m - 1) as nat);
    }
}

/// Completion is terminal: a run that has ended stays ended, with its final
/// state and output unchanged.
pub proof fn lemma_completion_is_terminal(s0: MachineState, inputs: Seq<Seq<u8>>, n: nat, m: nat)
    requires
        n <= m,
        run_n(s0, inputs, n) is Done,
    ensures
        run_n(s0, inputs, m) == run_n(s0, inputs, n),
    decreases m - n,
{
    if m > n {
        lemma_completion_is_terminal(s0, inputs, n, (m - 1) as nat);
    }
}

/// The tape grows exactly on demand: after `k` pointer-increment
/// instructions of a program of `n` of them, started on a fresh tape, the
/// tape has exactly `k + 1` cells, every cell is zero, and the data pointer
/// sits on the last cell.
pub proof fn lemma_tape_grows_on_demand(n: nat, inputs: Seq<Seq<u8>>, k: nat)
    requires
        k <= n,
    ensures
        ({
            let p = Seq::new(n, |i: int| '>');
            let s0 = MachineState { program: p, data: seq![0u8], ip: 0, dp: 0 };
            run_n(s0, inputs, k) == (RunOutcome::Running {
                s: MachineState {
                    program: p,
                    data: Seq::new(k + 1, |i: int| 0u8),
                    ip: k as int,
                    dp: k as int,
                },
                consumed: 0,
                out: Seq::<u8>::empty(),
            })
        }),
    decreases k,
{
    let p = Seq::new(n, |i: int| '>');
    let s0 = MachineState { program: p, data: seq![0u8], ip: 0, dp: 0 };
    if k == 0 {
        assert(seq![0u8] =~= Seq::new(1, |i: int| 0u8));
        assert(run_n(s0, inputs, 0) =~~= (RunOutcome::Running {
            s: MachineState { program: p, data: Seq::new(1, |i: int| 0u8), ip: 0, dp: 0 },
            consumed: 0,
            out: Seq::<u8>::empty(),
        }));
    } else {
        lemma_tape_grows_on_demand(n, inputs, (k - 1) as nat);
        let prev = MachineState {
            program: p,
            data: Seq::new(((k - 1) + 1) as nat, |i: int| 0u8),
            ip: k - 1,
            dp: k - 1,
        };
        assert(p[k - 1] == '>');
        assert(Seq::new(k as nat, |i: int| 0u8).push(0u8) =~= Seq::new(k + 1, |i: int| 0u8));
        assert(step(prev, None) =~~= (StepOutcome::Next {
            s: MachineState {
                program: p,
                data: Seq::new(k + 1, |i: int| 0u8),
                ip: k as int,
                dp: k as int,
            },
            out: Option::<u8>::None,
        }));
    }
}

/// The two-instruction program of a bare loop — the simplest loop whose
/// body never changes the cell it tests — runs forever when entered with a
/// non-zero cell: however many steps it is given, the machine is still
/// running — never done, never failed — and has written nothing.
pub proof fn lemma_tight_loop_runs_forever(c: u8, inputs: Seq<Seq<u8>>, k: nat)
    requires
        c != 0,
    ensures
        ({
            let p = seq!['[', ']'];
            let s0 = MachineState { program: p, data: seq![c], ip: 0, dp: 0 };
            let s1 = MachineState { program: p, data: seq![c], ip: 1, dp: 0 };
            run_n(s0, inputs, k) == (RunOutcome::Running {
                s: if k == 0 {
                    s0
                } else {
                    s1
                },
                consumed: 0,
                out: Seq::<u8>::empty(),
            })
        }),
    decreases k,
{
    let p = seq!['[', ']'];
    let s0 = MachineState { program: p, data: seq![c], ip: 0, dp: 0 };
    let s1 = MachineState { program: p, data: seq![c], ip: 1, dp: 0 };
    assert(p.len() == 2 && p[0] == '[' && p[1] == ']');
    if k == 0 {
    } else if k == 1 {
        assert(step(s0, None) =~~= (StepOutcome::Next { s: s1, out: Option::<u8>::None }));
    } else {
        lemma_tight_loop_runs_forever(c, inputs, (k - 1) as nat);
        assert(crate::brackets::net(p, 0, 0) == 0);
        assert(crate::brackets::net(p, 0, 1) == 1);
        assert(crate::brackets::bwd_match_at(p, 1, 0));
        lemma_bwd_match_is(p, 1, 0);
        assert(step(s1, None) =~~= (StepOutcome::Next { s: s1, out: Option::<u8>::None }));
    }
}

} // verus!
