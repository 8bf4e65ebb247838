//! The machine: a program, a growable byte tape, and the two pointers,
//! executed one instruction at a time.
//!
//! The meaning of one execution step is the spec function [`step`]; the
//! executable [`BfProgram::perform_instruction`] is proved to implement it
//! exactly. The meaning of a whole run is [`run_n`], the machine after a
//! given number of steps against a fixed queue of input lines; the
//! executable [`BfProgram::run`] is proved to land on a state that `run_n`
//! reaches.

use vstd::prelude::*;
use crate::brackets::{
    bwd_match, bwd_match_at, fwd_match, fwd_match_at, has_bwd_match, has_fwd_match,
    lemma_bwd_match_is, lemma_fwd_match_is,
};
use crate::BfError;

verus! {

/// The mathematical value of a machine: the program, the tape, and the two
/// pointers.
#[verifier::ext_equal]
pub struct MachineState {
    pub program: Seq<char>,
    pub data: Seq<u8>,
    pub ip: int,
    pub dp: int,
}

/// The machine's invariant: the instruction pointer is at most one past the
/// program's end, and the data pointer addresses a cell of the tape.
pub open spec fn wf_state(s: MachineState) -> bool {
    &&& 0 <= s.ip <= s.program.len()
    &&& 0 <= s.dp < s.data.len()
}

/// What one execution step yields: the next state and an optional output
/// byte, or the error that aborts the run.
#[verifier::ext_equal]
pub enum StepOutcome {
    Next { s: MachineState, out: Option<u8> },
    Fail { err: BfError },
}

/// The tape after the unconditional growth check: one zero cell is appended
/// when the data pointer has moved past the last cell.
pub open spec fn grow(data: Seq<u8>, dp: int) -> Seq<u8> {
    if dp >= data.len() {
        data.push(0u8)
    } else {
        data
    }
}

/// The line handed to the input instruction, if one was read:
/// `None` stands for a failed read.
pub open spec fn line_view(input: Option<&Vec<u8>>) -> Option<Seq<u8>> {
    match input {
        Some(l) => Some(l@),
        None => None,
    }
}

/// One execution step of the machine at state `s`, with `input` the line
/// available to the input instruction. A loop-start with a zero cell jumps
/// onto its matching loop-end, a loop-end with a non-zero cell onto its
/// matching loop-start, and any character that is not an instruction is a
/// no-op. After the instruction's effect the tape grows on demand and the
/// instruction pointer advances by one.
pub open spec fn step(s: MachineState, input: Option<Seq<u8>>) -> StepOutcome
    recommends
        wf_state(s),
        s.ip < s.program.len(),
{
    let c = s.program[s.ip];
    if c == '<' && s.dp == 0 {
        StepOutcome::Fail { err: BfError::DataPtrOutOfBounds }
    } else if c == '[' && s.data[s.dp] == 0 && !has_fwd_match(s.program, s.ip) {
        StepOutcome::Fail { err: BfError::UnmatchedLoopStart }
    } else if c == ']' && s.data[s.dp] != 0 && !has_bwd_match(s.program, s.ip) {
        StepOutcome::Fail { err: BfError::UnmatchedLoopEnd }
    } else {
        let dp1 = if c == '>' {
            s.dp + 1
        } else if c == '<' {
            s.dp - 1
        } else {
            s.dp
        };
        let data1 = if c == '+' {
            s.data.update(s.dp, (((s.data[s.dp] + 1) % 256) as u8))
        } else if c == '-' {
            s.data.update(s.dp, (((s.data[s.dp] + 255) % 256) as u8))
        } else if c == ',' {
            match input {
                Some(line) => if line.len() > 0 {
                    s.data.update(s.dp, line[0])
                } else {
                    s.data
                },
                None => s.data,
            }
        } else {
            s.data
        };
        let ip1 = if c == '[' && s.data[s.dp] == 0 {
            fwd_match(s.program, s.ip)
        } else if c == ']' && s.data[s.dp] != 0 {
            bwd_match(s.program, s.ip)
        } else {
            s.ip
        };
        let out = if c == '.' {
            Some(s.data[s.dp])
        } else {
            None
        };
        StepOutcome::Next {
            s: MachineState { program: s.program, data: grow(data1, dp1), ip: ip1 + 1, dp: dp1 },
            out,
        }
    }
}

/// A step that does not fail lands on a well-formed state and never touches
/// the program.
pub proof fn lemma_step_preserves_wf(s: MachineState, input: Option<Seq<u8>>)
    requires
        wf_state(s),
        s.ip < s.program.len(),
    ensures
        (match step(s, input) {
            StepOutcome::Next { s: s2, out } => wf_state(s2) && s2.program == s.program,
            StepOutcome::Fail { err } => true,
        }),
{
    let c = s.program[s.ip];
    if c == '[' && s.data[s.dp] == 0 && has_fwd_match(s.program, s.ip) {
        assert(fwd_match_at(s.program, s.ip, fwd_match(s.program, s.ip)));
    }
    if c == ']' && s.data[s.dp] != 0 && has_bwd_match(s.program, s.ip) {
        assert(bwd_match_at(s.program, s.ip, bwd_match(s.program, s.ip)));
    }
}

/// A machine mid-run: its state, the number of input lines consumed so far,
/// and the bytes output so far — or the terminal outcomes, the program run
/// to completion or aborted.
#[verifier::ext_equal]
pub enum RunOutcome {
    Running { s: MachineState, consumed: int, out: Seq<u8> },
    Done { s: MachineState, consumed: int, out: Seq<u8> },
    Failed { err: BfError, consumed: int, out: Seq<u8> },
}

/// The output so far, extended by what one step emitted.
pub open spec fn push_out(out: Seq<u8>, o: Option<u8>) -> Seq<u8> {
    match o {
        Some(b) => out.push(b),
        None => out,
    }
}

/// The machine after `n` execution steps from state `s0`, drawing on
/// `inputs` as the queue of lines available to the input instruction; a
/// queue that has run dry reads as a failed read. Completion and failure
/// are absorbing.
pub open spec fn run_n(s0: MachineState, inputs: Seq<Seq<u8>>, n: nat) -> RunOutcome
    decreases n,
{
    if n == 0 {
        RunOutcome::Running { s: s0, consumed: 0, out: Seq::empty() }
    } else {
        match run_n(s0, inputs, (n - 1) as nat) {
            RunOutcome::Running { s, consumed, out } => {
                if s.ip == s.program.len() {
                    RunOutcome::Done { s, consumed, out }
                } else {
                    let takes_input = 0 <= s.ip < s.program.len() && s.program[s.ip] == ',';
                    let line = if takes_input && consumed < inputs.len() {
                        Some(inputs[consumed])
                    } else {
                        None
                    };
                    let consumed2 = if takes_input && consumed < inputs.len() {
                        consumed + 1
                    } else {
                        consumed
                    };
                    match step(s, line) {
                        StepOutcome::Next { s: s2, out: o } => RunOutcome::Running {
                            s: s2,
                            consumed: consumed2,
                            out: push_out(out, o),
                        },
                        StepOutcome::Fail { err } => RunOutcome::Failed { err, consumed, out },
                    }
                }
            },
            outcome => outcome,
        }
    }
}

/// The byte sequences of a vector of input lines.
pub open spec fn lines_view(v: Seq<Vec<u8>>) -> Seq<Seq<u8>> {
    v.map_values(|l: Vec<u8>| l@)
}

/// How a bounded run ended when it did not abort.
#[derive(Clone, Copy, Debug, PartialEq, Eq, Structural)]
pub enum RunStatus {
    /// The instruction pointer ran past the end of the program.
    Finished,
    /// The step budget was exhausted while the program was still running.
    StepLimit,
}

/// A machine: the loaded program, the data tape, and the two pointers.
pub struct BfProgram {
    pub program: Vec<char>,
    pub data: Vec<u8>,
    pub inst_ptr: usize,
    pub data_ptr: usize,
}

impl View for BfProgram {
    type V = MachineState;

    open spec fn view(&self) -> MachineState {
        MachineState {
            program: self.program@,
            data: self.data@,
            ip: self.inst_ptr as int,
            dp: self.data_ptr as int,
        }
    }
}

impl BfProgram {
    /// A fresh machine over `instructions`: both pointers at zero and a
    /// tape of exactly one zero cell.
    pub fn new(instructions: Vec<char>) -> (r: Self)
        ensures
            r@.program == instructions@,
            r@.data == seq![0u8],
            r@.ip == 0,
            r@.dp == 0,
            wf_state(r@),
    {
        let mut data: Vec<u8> = Vec::new();
        data.push(0u8);
        let r = Self { program: instructions, data, inst_ptr: 0, data_ptr: 0 };
        proof {
            assert(r@.data =~= seq![0u8]);
        }
        r
    }

    /// Whether the instruction pointer has run past the end of the program.
    pub fn is_finished(&self) -> (r: bool)
        ensures
            r == (self@.ip == self@.program.len()),
    {
        self.inst_ptr == self.program.len()
    }

    /// Whether the next instruction to execute is the input instruction,
    /// so that a caller can read a line for it before stepping.
    pub fn wants_input(&self) -> (r: bool)
        ensures
            r == (self@.ip < self@.program.len() && self@.program[self@.ip] == ','),
    {
        self.inst_ptr < self.program.len() && self.program[self.inst_ptr] == ','
    }

    /// The position of the loop-end matching the loop-start at the current
    /// instruction pointer, found by a forward counter-scan, or an
    /// unmatched-loop-start error when the scan runs off the program's end.
    pub fn _find_loop_end(&self) -> (r: Result<usize, BfError>)
        requires
            self@.ip < self@.program.len(),
        ensures
            (match r {
                Ok(j) => fwd_match_at(self@.program, self@.ip, j as int),
                Err(e) => e == BfError::UnmatchedLoopStart && !has_fwd_match(
                    self@.program,
                    self@.ip,
                ),
            }),
    {
        let n = self.program.len();
        let ghost p = self.program@;
        let ghost i = self.inst_ptr as int;
        let mut ctr: usize = 1;
        let mut pos: usize = self.inst_ptr;
        while ctr > 0 && pos + 1 < n
            invariant
                n == p.len(),
                p == self.program@,
                i == self.inst_ptr as int,
                i <= pos < n,
                ctr == 1 + crate::brackets::net(p, i + 1, pos + 1),
                forall|k: int| i < k < pos ==> 1 + #[trigger] crate::brackets::net(p, i + 1, k + 1)
                    != 0,
            decreases n - pos,
        {
            proof {
                crate::brackets::lemma_net_bounds(p, i + 1, pos + 1);
            }
            pos = pos + 1;
            let c = self.program[pos];
            if c == '[' {
                ctr = ctr + 1;
            } else if c == ']' {
                ctr = ctr - 1;
            }
        }
        if ctr == 0 {
            Ok(pos)
        } else {
            proof {
                if has_fwd_match(p, i) {
                    let j = choose|j: int| fwd_match_at(p, i, j);
                    assert(1 + crate::brackets::net(p, i + 1, j + 1) == 0);
                    assert(false);
                }
            }
            Err(BfError::UnmatchedLoopStart)
        }
    }

    /// The position of the loop-start matching the loop-end at the current
    /// instruction pointer, found by a backward counter-scan, or an
    /// unmatched-loop-end error when the scan runs off the program's start.
    pub fn _find_loop_beg(&self) -> (r: Result<usize, BfError>)
        requires
            self@.ip < self@.program.len(),
        ensures
            (match r {
                Ok(j) => bwd_match_at(self@.program, self@.ip, j as int),
                Err(e) => e == BfError::UnmatchedLoopEnd && !has_bwd_match(
                    self@.program,
                    self@.ip,
                ),
            }),
    {
        let n = self.program.len();
        let ghost p = self.program@;
        let ghost i = self.inst_ptr as int;
        let mut ctr: usize = 1;
        let mut pos: usize = self.inst_ptr;
        while ctr > 0 && pos > 0
            invariant
                n == p.len(),
                p == self.program@,
                i == self.inst_ptr as int,
                i < p.len(),
                pos <= i,
                ctr == 1 - crate::brackets::net(p, pos as int, i),
                forall|k: int| pos < k < i ==> #[trigger] crate::brackets::net(p, k, i) != 1,
            decreases pos,
        {
            proof {
                crate::brackets::lemma_net_bounds(p, pos as int, i);
                assert(ctr <= 1 + i - pos);
                crate::brackets::lemma_net_unfold_left(p, pos - 1, i);
            }
            pos = pos - 1;
            let c = self.program[pos];
            if c == ']' {
                ctr = ctr + 1;
            } else if c == '[' {
                ctr = ctr - 1;
            }
        }
        if ctr == 0 {
            Ok(pos)
        } else {
            proof {
                if has_bwd_match(p, i) {
                    let j = choose|j: int| bwd_match_at(p, i, j);
                    assert(crate::brackets::net(p, j, i) == 1);
                    assert(false);
                }
            }
            Err(BfError::UnmatchedLoopEnd)
        }
    }

    /// Execute exactly the instruction at the current instruction pointer:
    /// the executable form of [`step`]. `input` is the line read for the
    /// input instruction, `None` standing for a failed read; it is ignored
    /// by every other instruction. Returns the byte written by the output
    /// instruction, if any; on an error the machine is left unchanged.
    pub fn perform_instruction(&mut self, input: Option<&Vec<u8>>) -> (r: Result<
        Option<u8>,
        BfError,
    >)
        requires
            wf_state(old(self)@),
            old(self)@.ip < old(self)@.program.len(),
        ensures
            wf_state(final(self)@),
            final(self)@.program == old(self)@.program,
            (match r {
                Ok(out) => step(old(self)@, line_view(input)) == (StepOutcome::Next {
                    s: final(self)@,
                    out,
                }),
                Err(e) => step(old(self)@, line_view(input)) == (StepOutcome::Fail { err: e })
                    && final(self)@ == old(self)@,
            }),
    {
        let ghost pre = self@;
        let ghost inp = line_view(input);
        let pl = self.program.len();
        let inst = self.program[self.inst_ptr];
        let mut out: Option<u8> = None;

        if inst == '>' {
            let dl = self.data.len();
            assert(self.data_ptr < dl);
            self.data_ptr = self.data_ptr + 1;
        } else if inst == '<' {
            if self.data_ptr == 0 {
                return Err(BfError::DataPtrOutOfBounds);
            }
            self.data_ptr = self.data_ptr - 1;
        } else if inst == '+' {
            let v = self.data[self.data_ptr];
            let nv: u8 = if v == 255 {
                0
            } else {
                v + 1
            };
            self.data[self.data_ptr] = nv;
        } else if inst == '-' {
            let v = self.data[self.data_ptr];
            let nv: u8 = if v == 0 {
                255
            } else {
                v - 1
            };
            self.data[self.data_ptr] = nv;
        } else if inst == '.' {
            out = Some(self.data[self.data_ptr]);
        } else if inst == ',' {
            match input {
                Some(line) => {
                    if line.len() > 0 {
                        let b = line[0];
                        self.data[self.data_ptr] = b;
                    }
                },
                None => {},
            }
        } else if inst == '[' {
            if self.data[self.data_ptr] == 0 {
                match self._find_loop_end() {
                    Ok(j) => {
                        proof {
                            lemma_fwd_match_is(pre.program, pre.ip, j as int);
                        }
                        self.inst_ptr = j;
                    },
                    Err(e) => {
                        return Err(e);
                    },
                }
            }
        } else if inst == ']' {
            if self.data[self.data_ptr] != 0 {
                match self._find_loop_beg() {
                    Ok(j) => {
                        proof {
                            lemma_bwd_match_is(pre.program, pre.ip, j as int);
                        }
                        self.inst_ptr = j;
                    },
                    Err(e) => {
                        return Err(e);
                    },
                }
            }
        }

        if self.data_ptr >= self.data.len() {
            self.data.push(0u8);
        }
        assert(self.inst_ptr < pl);
        self.inst_ptr = self.inst_ptr + 1;

        proof {
            lemma_step_preserves_wf(pre, inp);
            assert(step(pre, inp) =~~= (StepOutcome::Next { s: self@, out }));
        }
        Ok(out)
    }

    /// Run the machine for at most `max_steps` instructions, drawing input
    /// lines from the front of `inputs` (a drained queue reads as a failed
    /// read) and collecting the output bytes, which are returned alongside
    /// the result even when the run aborts.
    #[verifier::loop_isolation(false)]
    pub fn run(&mut self, inputs: &Vec<Vec<u8>>, max_steps: usize) -> (r: (
        Result<RunStatus, BfError>,
        Vec<u8>,
    ))
        requires
            wf_state(old(self)@),
        ensures
            wf_state(final(self)@),
            final(self)@.program == old(self)@.program,
            r.0 == Ok::<RunStatus, BfError>(RunStatus::Finished) ==> final(self)@.ip
                == final(self)@.program.len() && exists|n: nat|
                n <= max_steps + 1 && (#[trigger] run_n(old(self)@, lines_view(inputs@), n)
                    matches RunOutcome::Done { s, consumed, out } && s == final(self)@ && out
                    == r.1@),
            r.0 == Ok::<RunStatus, BfError>(RunStatus::StepLimit) ==> final(self)@.ip
                < final(self)@.program.len() && (run_n(old(self)@, lines_view(inputs@), max_steps as nat) matches
            RunOutcome::Running { s, consumed, out } && s == final(self)@ && out == r.1@),
            r.0 is Err ==> exists|n: nat|
                n <= max_steps + 1 && (#[trigger] run_n(old(self)@, lines_view(inputs@), n)
                    matches RunOutcome::Failed { err, consumed, out } && err == r.0->Err_0 && out
                    == r.1@),
    {
        let ghost s0 = self@;
        let ghost ins = lines_view(inputs@);
        let mut output: Vec<u8> = Vec::new();
        let mut next_input: usize = 0;
        let mut steps_done: usize = 0;
        while steps_done < max_steps && self.inst_ptr != self.program.len()
            invariant
                wf_state(self@),
                self@.program == s0.program,
                steps_done <= max_steps,
                next_input <= inputs@.len(),
                ins == lines_view(inputs@),
                run_n(s0, ins, steps_done as nat) == (RunOutcome::Running {
                    s: self@,
                    consumed: next_input as int,
                    out: output@,
                }),
            decreases max_steps - steps_done,
        {
            let ghost pre = self@;
            let ghost pre_in = next_input as int;
            let ghost out_pre = output@;
            let takes = self.wants_input();
            let line: Option<&Vec<u8>> = if takes && next_input < inputs.len() {
                let l = &inputs[next_input];
                next_input = next_input + 1;
                Some(l)
            } else {
                None
            };
            let res = self.perform_instruction(line);
            match res {
                Ok(o) => {
                    match o {
                        Some(b) => {
                            output.push(b);
                        },
                        None => {},
                    }
                    proof {
                        assert(run_n(s0, ins, steps_done as nat + 1) == (RunOutcome::Running {
                            s: self@,
                            consumed: next_input as int,
                            out: output@,
                        }));
                    }
                },
                Err(e) => {
                    proof {
                        let nw: nat = steps_done as nat + 1;
                        assert(run_n(old(self)@, lines_view(inputs@), nw) == (RunOutcome::Failed {
                            err: e,
                            consumed: pre_in,
                            out: output@,
                        }));
                    }
                    return (Err(e), output);
                },
            }
            steps_done = steps_done + 1;
        }
        if self.inst_ptr == self.program.len() {
            proof {
                let nw: nat = steps_done as nat + 1;
                assert(run_n(old(self)@, lines_view(inputs@), nw) == (RunOutcome::Done {
                    s: self@,
                    consumed: next_input as int,
                    out: output@,
                }));
            }
            (Ok(RunStatus::Finished), output)
        } else {
            proof {
                assert(steps_done == max_steps);
                assert(run_n(old(self)@, lines_view(inputs@), max_steps as nat)
                    == (RunOutcome::Running {
                    s: self@,
                    consumed: next_input as int,
                    out: output@,
                }));
            }
            (Ok(RunStatus::StepLimit), output)
        }
    }
}

} // verus!
