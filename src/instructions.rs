use vstd::prelude::*;

verus! {

/// One of the eight operations of the tape machine, each written as a single
/// character in program text.
#[derive(Debug, Clone, Copy, PartialEq, Eq, Structural)]
pub enum Instruction {
    MoveRight,
    MoveLeft,
    IncrementPtr,
    DecrementPtr,
    Output,
    Input,
    LoopStart,
    LoopEnd,
}

/// The instruction written by character `c`, if `c` is one of the eight
/// significant characters.
pub open spec fn instruction_of(c: char) -> Option<Instruction> {
    if c == '>' {
        Some(Instruction::MoveRight)
    } else if c == '<' {
        Some(Instruction::MoveLeft)
    } else if c == '+' {
        Some(Instruction::IncrementPtr)
    } else if c == '-' {
        Some(Instruction::DecrementPtr)
    } else if c == '.' {
        Some(Instruction::Output)
    } else if c == ',' {
        Some(Instruction::Input)
    } else if c == '[' {
        Some(Instruction::LoopStart)
    } else if c == ']' {
        Some(Instruction::LoopEnd)
    } else {
        None
    }
}

/// The character that writes each instruction.
pub open spec fn symbol_of(i: Instruction) -> char {
    match i {
        Instruction::MoveRight => '>',
        Instruction::MoveLeft => '<',
        Instruction::IncrementPtr => '+',
        Instruction::DecrementPtr => '-',
        Instruction::Output => '.',
        Instruction::Input => ',',
        Instruction::LoopStart => '[',
        Instruction::LoopEnd => ']',
    }
}

impl Instruction {
    /// The character that writes this instruction.
    pub fn symbol(&self) -> (r: char)
        ensures
            r == symbol_of(*self),
            instruction_of(r) == Some(*self),
    {
        match self {
            Instruction::MoveRight => '>',
            Instruction::MoveLeft => '<',
            Instruction::IncrementPtr => '+',
            Instruction::DecrementPtr => '-',
            Instruction::Output => '.',
            Instruction::Input => ',',
            Instruction::LoopStart => '[',
            Instruction::LoopEnd => ']',
        }
    }

    /// The instruction that character `c` writes, or `None` for any other
    /// character.
    pub fn from_char(c: char) -> (r: Option<Instruction>)
        ensures
            r == instruction_of(c),
    {
        if c == '>' {
            Some(Instruction::MoveRight)
        } else if c == '<' {
            Some(Instruction::MoveLeft)
        } else if c == '+' {
            Some(Instruction::IncrementPtr)
        } else if c == '-' {
            Some(Instruction::DecrementPtr)
        } else if c == '.' {
            Some(Instruction::Output)
        } else if c == ',' {
            Some(Instruction::Input)
        } else if c == '[' {
            Some(Instruction::LoopStart)
        } else if c == ']' {
            Some(Instruction::LoopEnd)
        } else {
            None
        }
    }
}

} // verus!
