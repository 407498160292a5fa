use vstd::prelude::*;
use vstd::std_specs::iter::IteratorSpec;
use crate::errors::BRError;
use crate::instructions::{Instruction, instruction_of};

verus! {

/// The program that text `s` writes: the instruction of each significant
/// character, in order; every other character is dropped.
pub open spec fn translate(s: Seq<char>) -> Seq<Instruction>
    decreases s.len(),
{
    if s.len() == 0 {
        Seq::empty()
    } else {
        let rest = translate(s.drop_last());
        match instruction_of(s.last()) {
            Some(i) => rest.push(i),
            None => rest,
        }
    }
}

/// Whether `c` is one of the eight characters that write an instruction.
pub open spec fn is_significant(c: char) -> bool {
    instruction_of(c) is Some
}

/// Reads a program from text. Every character that writes no instruction is
/// noise and is dropped, so reading never fails.
pub fn parse_input(input: &str) -> (r: Result<Vec<Instruction>, BRError>)
    ensures
        r is Ok,
        r matches Ok(v) && v@ == translate(input@),
{
    broadcast use vstd::string::group_string_axioms;

    let mut chars = input.chars();
    let mut out: Vec<Instruction> = Vec::new();
    let ghost n = input@.len();
    let ghost mut k: int = 0;
    loop
        invariant
            0 <= k <= n,
            n == input@.len(),
            chars.remaining() == input@.subrange(k, n as int),
            out@ == translate(input@.subrange(0, k)),
        ensures
            k == n,
            out@ == translate(input@.subrange(0, k)),
        decreases n - k,
    {
        match chars.next() {
            Some(c) => {
                proof {
                    let s = input@.subrange(0, k + 1);
                    assert(s.drop_last() =~= input@.subrange(0, k));
                    assert(input@.subrange(k, n as int)[0] == input@[k]);
                    assert(chars.remaining() =~= input@.subrange(k + 1, n as int));
                }
                match Instruction::from_char(c) {
                    Some(i) => out.push(i),
                    None => {},
                }
                proof {
                    k = k + 1;
                }
            },
            None => {
                break ;
            },
        }
    }
    assert(input@.subrange(0, k) =~= input@);
    Ok(out)
}

} // verus!
