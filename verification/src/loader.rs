//! Loading and validating a program from raw source characters.
//!
//! Two entry points mirror the two sources a program can come from. A
//! file-sourced program is filtered: only the eight instruction characters
//! are kept. A program taken from one line of standard input is kept
//! verbatim, unrecognized characters included; they are ignored at
//! execution time. Both paths reject a source whose brackets do not
//! balance overall, naming the bracket kind that is left unmatched.

use vstd::prelude::*;
use crate::brackets::{bracket_delta, lemma_net_same_range, net, net_depth};
use crate::{is_instruction, BfError};

verus! {

/// Whether a character is one of the eight instruction symbols.
pub fn is_valid_bf_inst(c: char) -> (r: bool)
    ensures
        r == is_instruction(c),
{
    c == '>' || c == '<' || c == '+' || c == '-' || c == '.' || c == ',' || c == '[' || c == ']'
}

/// The characters of one source line that survive the loader's filter.
pub open spec fn kept_line(line: Seq<char>) -> Seq<char> {
    line.filter(|c: char| is_instruction(c))
}

/// The instruction characters of a whole source, line by line, in order.
pub open spec fn kept_instructions(lines: Seq<Seq<char>>) -> Seq<char>
    decreases lines.len(),
{
    if lines.len() == 0 {
        Seq::empty()
    } else {
        kept_instructions(lines.drop_last()) + kept_line(lines.last())
    }
}

/// The character sequences of a vector of character vectors.
pub open spec fn chars_view(lines: Seq<Vec<char>>) -> Seq<Seq<char>> {
    lines.map_values(|l: Vec<char>| l@)
}

/// Appending a character to a line extends its kept part by that character
/// exactly when the character is an instruction.
proof fn lemma_kept_line_push(line: Seq<char>, c: char)
    ensures
        kept_line(line.push(c)) == if is_instruction(c) {
            kept_line(line).push(c)
        } else {
            kept_line(line)
        },
{
    reveal_with_fuel(Seq::<_>::filter, 2);
    assert(line.push(c).drop_last() =~= line);
    assert(line.push(c).last() == c);
}

/// Appending a character to a sequence of characters adds that character's
/// bracket contribution to the sequence's net depth.
proof fn lemma_net_depth_push(p: Seq<char>, c: char)
    ensures
        net_depth(p.push(c)) == net_depth(p) + bracket_delta(c),
{
    let q = p.push(c);
    lemma_net_same_range(p, q, 0, p.len() as int);
    assert(net(q, 0, q.len() as int) == net(q, 0, p.len() as int) + bracket_delta(q[p.len() as int]));
}

/// Build a program from the lines of a source file: keep only the
/// instruction characters and reject a source whose brackets do not
/// balance, naming the bracket kind left unmatched.
pub fn load_from_lines(lines: &Vec<Vec<char>>) -> (r: Result<Vec<char>, BfError>)
    ensures
        ({
            let kept = kept_instructions(chars_view(lines@));
            match r {
                Ok(p) => p@ == kept && net_depth(kept) == 0,
                Err(e) => (e == BfError::UnmatchedLoopStart && net_depth(kept) > 0) || (
                e == BfError::UnmatchedLoopEnd && net_depth(kept) < 0),
            }
        }),
{
    let mut program: Vec<char> = Vec::new();
    let mut opens: usize = 0;
    let mut closes: usize = 0;
    let mut li: usize = 0;
    while li < lines.len()
        invariant
            li <= lines.len(),
            program@ == kept_instructions(chars_view(lines@).take(li as int)),
            opens <= program@.len(),
            closes <= program@.len(),
            opens - closes == net_depth(program@),
        decreases lines@.len() - li,
    {
        let line = &lines[li];
        let mut ci: usize = 0;
        while ci < line.len()
            invariant
                li < lines.len(),
                ci <= line.len(),
                line@ == lines@[li as int]@,
                program@ == kept_instructions(chars_view(lines@).take(li as int)) + kept_line(
                    line@.take(ci as int),
                ),
                opens <= program@.len(),
                closes <= program@.len(),
                opens - closes == net_depth(program@),
            decreases line@.len() - ci,
        {
            let c = line[ci];
            proof {
                assert(line@.take(ci as int + 1) =~= line@.take(ci as int).push(c));
                lemma_kept_line_push(line@.take(ci as int), c);
                if is_instruction(c) {
                    lemma_net_depth_push(program@, c);
                }
            }
            if is_valid_bf_inst(c) {
                program.push(c);
                let n = program.len();
                assert(opens < n && closes < n);
                if c == '[' {
                    opens = opens + 1;
                } else if c == ']' {
                    closes = closes + 1;
                }
            }
            ci = ci + 1;
        }
        proof {
            assert(chars_view(lines@).take(li as int + 1).drop_last() =~= chars_view(lines@).take(
                li as int,
            ));
            assert(chars_view(lines@).take(li as int + 1).last() == line@);
            assert(line@.take(line@.len() as int) =~= line@);
        }
        li = li + 1;
    }
    proof {
        assert(chars_view(lines@).take(lines@.len() as int) =~= chars_view(lines@));
    }
    if opens > closes {
        Err(BfError::UnmatchedLoopStart)
    } else if closes > opens {
        Err(BfError::UnmatchedLoopEnd)
    } else {
        Ok(program)
    }
}

/// Build a program from one line of standard input: every character of the
/// line is kept verbatim, but the line's brackets must balance overall,
/// as in a file-sourced program.
pub fn load_from_line(line: &Vec<char>) -> (r: Result<Vec<char>, BfError>)
    ensures
        match r {
            Ok(p) => p@ == line@ && net_depth(line@) == 0,
            Err(e) => (e == BfError::UnmatchedLoopStart && net_depth(line@) > 0) || (e
                == BfError::UnmatchedLoopEnd && net_depth(line@) < 0),
        },
{
    let mut program: Vec<char> = Vec::new();
    let mut opens: usize = 0;
    let mut closes: usize = 0;
    let mut ci: usize = 0;
    while ci < line.len()
        invariant
            ci <= line.len(),
            program@ == line@.take(ci as int),
            opens <= ci,
            closes <= ci,
            opens - closes == net(line@, 0, ci as int),
        decreases line@.len() - ci,
    {
        let c = line[ci];
        program.push(c);
        if c == '[' {
            opens = opens + 1;
        } else if c == ']' {
            closes = closes + 1;
        }
        proof {
            assert(line@.take(ci as int + 1) =~= line@.take(ci as int).push(c));
        }
        ci = ci + 1;
    }
    proof {
        assert(line@.take(line@.len() as int) =~= line@);
    }
    if opens > closes {
        Err(BfError::UnmatchedLoopStart)
    } else if closes > opens {
        Err(BfError::UnmatchedLoopEnd)
    } else {
        Ok(program)
    }
}

} // verus!
