use bfi::{load_from_line, load_from_lines, BfError, BfProgram, RunStatus};

fn chars(s: &str) -> Vec<char> {
    s.chars().collect()
}

fn machine(s: &str) -> BfProgram {
    BfProgram::new(chars(s))
}

const PLENTY: usize = 1_000_000;

#[test]
fn fresh_machine_has_one_zero_cell() {
    let m = machine("+");
    assert_eq!(m.data, vec![0u8]);
    assert_eq!(m.inst_ptr, 0);
    assert_eq!(m.data_ptr, 0);
    assert!(!m.is_finished());
}

#[test]
fn empty_program_finishes_immediately() {
    let mut m = machine("");
    assert!(m.is_finished());
    let (status, output) = m.run(&Vec::new(), PLENTY);
    assert_eq!(status, Ok(RunStatus::Finished));
    assert!(output.is_empty());
}

#[test]
fn increment_wraps_from_255_to_0() {
    let mut m = machine("+");
    m.data[0] = 255;
    let r = m.perform_instruction(None);
    assert_eq!(r, Ok(None));
    assert_eq!(m.data[0], 0);
}

#[test]
fn decrement_wraps_from_0_to_255() {
    let mut m = machine("-");
    let (status, output) = m.run(&Vec::new(), PLENTY);
    assert_eq!(status, Ok(RunStatus::Finished));
    assert!(output.is_empty());
    assert_eq!(m.data[0], 255);
}

#[test]
fn decrement_then_increment_returns_to_zero() {
    let mut m = machine("-+");
    let (status, _) = m.run(&Vec::new(), PLENTY);
    assert_eq!(status, Ok(RunStatus::Finished));
    assert_eq!(m.data[0], 0);
}

#[test]
fn pointer_underflow_aborts_the_run() {
    let mut m = machine("<+++");
    let (status, output) = m.run(&Vec::new(), PLENTY);
    assert_eq!(status, Err(BfError::DataPtrOutOfBounds));
    assert!(output.is_empty());
    // No further instruction executed: the machine still sits on the
    // failing instruction and the tape was never touched.
    assert_eq!(m.inst_ptr, 0);
    assert_eq!(m.data, vec![0u8]);
}

#[test]
fn tape_grows_one_zero_cell_per_pointer_increment() {
    let mut m = machine(">>>>");
    let (status, _) = m.run(&Vec::new(), PLENTY);
    assert_eq!(status, Ok(RunStatus::Finished));
    assert_eq!(m.data, vec![0u8, 0, 0, 0, 0]);
    assert_eq!(m.data_ptr, 4);
}

#[test]
fn tight_loop_over_nonzero_cell_hits_the_step_limit() {
    let mut m = machine("+[]");
    let (status, output) = m.run(&Vec::new(), 10_000);
    assert_eq!(status, Ok(RunStatus::StepLimit));
    assert!(output.is_empty());
    assert!(!m.is_finished());
}

#[test]
fn tight_loop_stays_put_under_a_step_harness() {
    let mut m = machine("[]");
    m.data[0] = 5;
    for _ in 0..100 {
        assert_eq!(m.perform_instruction(None), Ok(None));
        assert!(!m.is_finished());
    }
    assert_eq!(m.data[0], 5);
}

#[test]
fn loop_with_zero_cell_is_skipped() {
    let mut m = machine("[+++]");
    let (status, _) = m.run(&Vec::new(), PLENTY);
    assert_eq!(status, Ok(RunStatus::Finished));
    assert_eq!(m.data[0], 0);
}

#[test]
fn loop_counts_down_to_zero() {
    // Move three into the second cell, then drain it back.
    let mut m = machine("+++[->+<]>[-<+>]<");
    let (status, _) = m.run(&Vec::new(), PLENTY);
    assert_eq!(status, Ok(RunStatus::Finished));
    assert_eq!(m.data[0], 3);
    assert_eq!(m.data[1], 0);
}

#[test]
fn loop_start_with_zero_cell_skips_past_nested_loops() {
    let mut m = machine("[[]].");
    let (status, output) = m.run(&Vec::new(), PLENTY);
    assert_eq!(status, Ok(RunStatus::Finished));
    assert_eq!(output, vec![0u8]);
}

#[test]
fn nested_loop_multiplies() {
    // Three times two: the outer loop drains the first cell, the inner
    // body adds two to the second cell each time around.
    let mut m = machine("+++[>++<-]");
    let (status, _) = m.run(&Vec::new(), PLENTY);
    assert_eq!(status, Ok(RunStatus::Finished));
    assert_eq!(m.data[0], 0);
    assert_eq!(m.data[1], 6);
}

#[test]
fn a_run_cut_short_by_the_step_limit_can_be_resumed() {
    let mut m = machine("+++");
    let (status, _) = m.run(&Vec::new(), 1);
    assert_eq!(status, Ok(RunStatus::StepLimit));
    assert_eq!(m.data[0], 1);
    let (status, _) = m.run(&Vec::new(), PLENTY);
    assert_eq!(status, Ok(RunStatus::Finished));
    assert_eq!(m.data[0], 3);
}

#[test]
fn output_collects_the_current_cell() {
    let mut m = machine("+++.-.");
    let (status, output) = m.run(&Vec::new(), PLENTY);
    assert_eq!(status, Ok(RunStatus::Finished));
    assert_eq!(output, vec![3u8, 2]);
}

#[test]
fn input_takes_first_byte_of_the_line() {
    let mut m = machine(",.");
    let inputs = vec![b"Abc".to_vec()];
    let (status, output) = m.run(&inputs, PLENTY);
    assert_eq!(status, Ok(RunStatus::Finished));
    assert_eq!(output, vec![b'A']);
}

#[test]
fn input_at_end_of_stream_leaves_cell_unchanged() {
    let mut m = machine(",.");
    let (status, output) = m.run(&Vec::new(), PLENTY);
    assert_eq!(status, Ok(RunStatus::Finished));
    assert_eq!(output, vec![0u8]);
}

#[test]
fn empty_input_line_leaves_cell_unchanged() {
    let mut m = machine("+++,.");
    let inputs = vec![Vec::new()];
    let (status, output) = m.run(&inputs, PLENTY);
    assert_eq!(status, Ok(RunStatus::Finished));
    assert_eq!(output, vec![3u8]);
}

#[test]
fn each_input_instruction_consumes_one_line() {
    let mut m = machine(",.,.");
    let inputs = vec![b"x".to_vec(), b"y".to_vec()];
    let (status, output) = m.run(&inputs, PLENTY);
    assert_eq!(status, Ok(RunStatus::Finished));
    assert_eq!(output, vec![b'x', b'y']);
}

#[test]
fn unmatched_loop_start_at_run_time_aborts() {
    // "][" balances overall, so it loads, but the machine cannot find a
    // match for the loop-start it then reaches.
    let program = load_from_line(&chars("][")).unwrap();
    let mut m = BfProgram::new(program);
    let (status, output) = m.run(&Vec::new(), PLENTY);
    assert_eq!(status, Err(BfError::UnmatchedLoopStart));
    assert!(output.is_empty());
}

#[test]
fn unmatched_loop_end_at_run_time_aborts() {
    let mut m = BfProgram::new(chars("+]"));
    let (status, _) = m.run(&Vec::new(), PLENTY);
    assert_eq!(status, Err(BfError::UnmatchedLoopEnd));
}

#[test]
fn unrecognized_characters_are_no_ops_at_run_time() {
    let program = load_from_line(&chars("+a+b+\n")).unwrap();
    let mut m = BfProgram::new(program);
    let (status, output) = m.run(&Vec::new(), PLENTY);
    assert_eq!(status, Ok(RunStatus::Finished));
    assert!(output.is_empty());
    assert_eq!(m.data[0], 3);
}

#[test]
fn wants_input_only_at_the_input_instruction() {
    let mut m = machine("+,");
    assert!(!m.wants_input());
    assert_eq!(m.perform_instruction(None), Ok(None));
    assert!(m.wants_input());
}

#[test]
fn hello_fragment_runs_to_completion_and_prints_hello() {
    let lines = vec![chars(
        "++++++++[>++++[>++>+++>+++>+<<<<-]>+>+>->>+[<]<-]>>.>---.+++++++..+++.",
    )];
    let program = load_from_lines(&lines).unwrap();
    let mut m = BfProgram::new(program);
    let (status, output) = m.run(&Vec::new(), PLENTY);
    assert_eq!(status, Ok(RunStatus::Finished));
    assert_eq!(output, b"Hello".to_vec());
    assert!(output.iter().all(|&b| (32..127).contains(&b)));
}
