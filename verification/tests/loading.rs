use bfi::{load_from_line, load_from_lines, is_valid_bf_inst, BfError};

fn chars(s: &str) -> Vec<char> {
    s.chars().collect()
}

#[test]
fn recognizes_exactly_the_eight_instructions() {
    for c in ['>', '<', '+', '-', '.', ',', '[', ']'] {
        assert!(is_valid_bf_inst(c));
    }
    for c in ['a', ' ', '\n', '0', '{', ')', '#'] {
        assert!(!is_valid_bf_inst(c));
    }
}

#[test]
fn file_loading_filters_comments_and_whitespace() {
    let lines = vec![chars("+ hello + [ ignore ]"), chars("world > . <")];
    let program = load_from_lines(&lines).unwrap();
    assert_eq!(program, chars("++[]>.<"));
}

#[test]
fn file_loading_of_balanced_source_keeps_every_instruction() {
    let lines = vec![chars("++++++++[>++++[>++>+++>+++>+<<<<-]>+>+>->>+[<]<-]")];
    let program = load_from_lines(&lines).unwrap();
    assert_eq!(program.len(), 49);
}

#[test]
fn file_loading_of_empty_source_yields_empty_program() {
    let program = load_from_lines(&Vec::new()).unwrap();
    assert!(program.is_empty());
}

#[test]
fn file_loading_rejects_extra_loop_start() {
    let lines = vec![chars("+[[-]")];
    assert_eq!(load_from_lines(&lines), Err(BfError::UnmatchedLoopStart));
}

#[test]
fn file_loading_rejects_extra_loop_end() {
    let lines = vec![chars("+[-]]")];
    assert_eq!(load_from_lines(&lines), Err(BfError::UnmatchedLoopEnd));
}

#[test]
fn file_loading_balance_spans_lines() {
    let lines = vec![chars("++["), chars("-"), chars("]")];
    let program = load_from_lines(&lines).unwrap();
    assert_eq!(program, chars("++[-]"));
}

#[test]
fn stdin_loading_keeps_the_line_verbatim() {
    let line = chars("a+b[c]d\n");
    let program = load_from_line(&line).unwrap();
    assert_eq!(program, line);
}

#[test]
fn stdin_loading_rejects_extra_loop_start() {
    assert_eq!(load_from_line(&chars("[")), Err(BfError::UnmatchedLoopStart));
}

#[test]
fn stdin_loading_rejects_lone_loop_end() {
    assert_eq!(load_from_line(&chars("]")), Err(BfError::UnmatchedLoopEnd));
}

#[test]
fn loading_accepts_end_before_start_when_counts_agree() {
    // Only the overall counts are checked at load time; the machine itself
    // reports the unmatched bracket when such a program runs.
    let program = load_from_line(&chars("][")).unwrap();
    assert_eq!(program, chars("]["));
}
