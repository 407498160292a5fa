use vstd::prelude::*;
use crate::errors::BRError;
use crate::instructions::Instruction;

verus! {

/// Number of cells of the machine's memory.
pub const MEMORY_SIZE: usize = 30000;

/// The abstract state of a machine.
pub ghost struct MachineState {
    pub memory_pointer: int,
    pub instr_pointer: int,
    pub memory: Seq<u8>,
    pub loop_stack: Seq<usize>,
    pub program: Seq<Instruction>,
    pub input: Seq<u8>,
    pub input_pos: int,
    pub output: Seq<u8>,
}

/// A state a machine can be in: the memory has its fixed size, both pointers
/// and the input position are in range, and every open loop starts at a
/// position no further than the end of the program.
pub open spec fn wf(s: MachineState) -> bool {
    &&& s.memory.len() == MEMORY_SIZE
    &&& 0 <= s.memory_pointer < MEMORY_SIZE
    &&& 0 <= s.instr_pointer <= s.program.len()
    &&& forall|k: int| 0 <= k < s.loop_stack.len() ==> #[trigger] s.loop_stack[k] <= s.program.len()
    &&& 0 <= s.input_pos <= s.input.len()
}

/// A fresh machine on `program` that reads from `input`.
pub open spec fn initial(program: Seq<Instruction>, input: Seq<u8>) -> MachineState {
    MachineState {
        memory_pointer: 0,
        instr_pointer: 0,
        memory: Seq::new(MEMORY_SIZE as nat, |k: int| 0u8),
        loop_stack: Seq::empty(),
        program,
        input,
        input_pos: 0,
        output: Seq::empty(),
    }
}

/// The value of the current cell.
pub open spec fn cell(s: MachineState) -> u8 {
    s.memory[s.memory_pointer]
}

/// Scanning forward from position `i` with `depth` loops still open, the
/// position of the `]` that closes the outermost of them.
pub open spec fn find_match(program: Seq<Instruction>, i: int, depth: nat) -> Option<int>
    decreases program.len() - i,
{
    if i < 0 || i >= program.len() {
        None
    } else {
        match program[i] {
            Instruction::LoopStart => find_match(program, i + 1, depth + 1),
            Instruction::LoopEnd => if depth <= 1 {
                Some(i)
            } else {
                find_match(program, i + 1, (depth - 1) as nat)
            },
            _ => find_match(program, i + 1, depth),
        }
    }
}

/// The effect of executing `instr` in state `s`; the instruction pointer is
/// left where the instruction puts it, before the cycle advances it.
pub open spec fn step(s: MachineState, instr: Instruction) -> Result<MachineState, BRError> {
    match instr {
        Instruction::MoveLeft => if s.memory_pointer == 0 {
            Err(BRError::OutOfBounds)
        } else {
            Ok(MachineState { memory_pointer: s.memory_pointer - 1, ..s })
        },
        Instruction::MoveRight => if s.memory_pointer + 1 >= MEMORY_SIZE {
            Err(BRError::OutOfBounds)
        } else {
            Ok(MachineState { memory_pointer: s.memory_pointer + 1, ..s })
        },
        Instruction::IncrementPtr => Ok(
            MachineState {
                memory: s.memory.update(s.memory_pointer, ((cell(s) + 1) % 256) as u8),
                ..s
            },
        ),
        Instruction::DecrementPtr => Ok(
            MachineState {
                memory: s.memory.update(s.memory_pointer, ((cell(s) + 255) % 256) as u8),
                ..s
            },
        ),
        Instruction::Output => Ok(MachineState { output: s.output.push(cell(s)), ..s }),
        Instruction::Input => if s.input_pos < s.input.len() {
            Ok(
                MachineState {
                    memory: s.memory.update(s.memory_pointer, s.input[s.input_pos]),
                    input_pos: s.input_pos + 1,
                    ..s
                },
            )
        } else {
            Err(BRError::InputExhausted)
        },
        Instruction::LoopStart => if cell(s) != 0 {
            Ok(MachineState { loop_stack: s.loop_stack.push(s.instr_pointer as usize), ..s })
        } else {
            match find_match(s.program, s.instr_pointer + 1, 1) {
                Some(j) => Ok(MachineState { instr_pointer: j, ..s }),
                None => Err(BRError::UnbalancedLoop),
            }
        },
        Instruction::LoopEnd => if s.loop_stack.len() == 0 {
            Err(BRError::UnbalancedLoop)
        } else if cell(s) != 0 {
            Ok(MachineState { instr_pointer: s.loop_stack.last() as int, ..s })
        } else {
            Ok(MachineState { loop_stack: s.loop_stack.drop_last(), ..s })
        },
    }
}

/// Whether the machine has run past the end of its program.
pub open spec fn halted(s: MachineState) -> bool {
    s.instr_pointer >= s.program.len()
}

/// One cycle: execute the instruction under the instruction pointer, then
/// advance the pointer by one. A jump back to a loop opened at the end of
/// the program leaves the pointer at that end, where the machine halts.
pub open spec fn cycle(s: MachineState) -> Result<MachineState, BRError> {
    match step(s, s.program[s.instr_pointer]) {
        Ok(t) => Ok(
            MachineState {
                instr_pointer: if t.instr_pointer < t.program.len() {
                    t.instr_pointer + 1
                } else {
                    t.instr_pointer
                },
                ..t
            },
        ),
        Err(e) => Err(e),
    }
}

/// The outcome of running at most `n` cycles from `s`, stopping early when
/// the machine halts or faults.
pub open spec fn run_for(s: MachineState, n: nat) -> Result<MachineState, BRError>
    decreases n,
{
    if n == 0 || halted(s) {
        Ok(s)
    } else {
        match cycle(s) {
            Ok(t) => run_for(t, (n - 1) as nat),
            Err(e) => Err(e),
        }
    }
}

/// Whether a run from `s` stopped in state `t` on fault `e`: `t` is reached
/// from `s` by cycles that succeed, and the next cycle from `t` faults with `e`.
pub open spec fn stopped_by(s: MachineState, t: MachineState, e: BRError) -> bool {
    &&& exists|k: nat| #[trigger] run_for(s, k) == Ok::<MachineState, BRError>(t)
    &&& !halted(t)
    &&& cycle(t) == Err::<MachineState, BRError>(e)
}

/// The largest number of cycles a single run performs.
pub const MAX_CYCLES: u64 = 0xffff_ffff_ffff_ffff;

/// Running `a + b` cycles is running `a` cycles and then `b` more from where
/// the first run stopped.
pub proof fn lemma_run_for_split(s: MachineState, a: nat, b: nat)
    ensures
        run_for(s, a + b) == match run_for(s, a) {
            Ok(t) => run_for(t, b),
            Err(e) => Err(e),
        },
    decreases a,
{
    if a > 0 && !halted(s) {
        if let Ok(t) = cycle(s) {
            assert((a + b - 1) as nat == ((a - 1) as nat) + b);
            lemma_run_for_split(t, (a - 1) as nat, b);
        }
    }
}

/// A position returned by the forward scan holds the closing `]` and lies
/// inside the program, at or after where the scan began.
pub proof fn lemma_find_match_bounds(program: Seq<Instruction>, i: int, depth: nat)
    ensures
        find_match(program, i, depth) matches Some(j) ==> i <= j < program.len()
            && program[j] == Instruction::LoopEnd,
    decreases program.len() - i,
{
    if 0 <= i < program.len() {
        match program[i] {
            Instruction::LoopStart => lemma_find_match_bounds(program, i + 1, depth + 1),
            Instruction::LoopEnd => if depth > 1 {
                lemma_find_match_bounds(program, i + 1, (depth - 1) as nat);
            },
            _ => lemma_find_match_bounds(program, i + 1, depth),
        }
    }
}

/// A step that succeeds from a well-formed state reaches a well-formed
/// state on the same program.
pub proof fn lemma_step_wf(s: MachineState, instr: Instruction)
    requires
        wf(s),
    ensures
        step(s, instr) matches Ok(t) ==> wf(t) && t.program == s.program,
{
    lemma_find_match_bounds(s.program, s.instr_pointer + 1, 1);
    if let Ok(t) = step(s, instr) {
        if instr == Instruction::LoopEnd && s.loop_stack.len() > 0 {
            assert(s.loop_stack.last() == s.loop_stack[s.loop_stack.len() - 1]);
        }
        assert forall|k: int| 0 <= k < t.loop_stack.len() implies #[trigger] t.loop_stack[k]
            <= t.program.len() by {
            if instr == Instruction::LoopEnd && s.loop_stack.len() > 0 && cell(s) == 0 {
                assert(t.loop_stack[k] == s.loop_stack[k]);
            } else if instr == Instruction::LoopStart && k == s.loop_stack.len() {
            } else {
                assert(t.loop_stack[k] == s.loop_stack[k]);
            }
        }
    }
}

/// A cycle from a well-formed state that has not halted reaches a
/// well-formed state.
pub proof fn lemma_cycle_wf(s: MachineState)
    requires
        wf(s),
        !halted(s),
    ensures
        cycle(s) matches Ok(t) ==> wf(t) && t.program == s.program,
{
    lemma_step_wf(s, s.program[s.instr_pointer]);
}


/// The tape machine: a fixed memory of byte cells with a data pointer, a
/// program with an instruction pointer, the stack of open loops, the input
/// it reads and the output it has written.
pub struct VM {
    pub memory_pointer: usize,
    pub instr_pointer: usize,
    pub memory: Vec<u8>,
    pub loop_stack: Vec<usize>,
    pub program: Vec<Instruction>,
    pub input: Vec<u8>,
    pub input_pos: usize,
    pub output: Vec<u8>,
}

impl View for VM {
    type V = MachineState;

    open spec fn view(&self) -> MachineState {
        MachineState {
            memory_pointer: self.memory_pointer as int,
            instr_pointer: self.instr_pointer as int,
            memory: self.memory@,
            loop_stack: self.loop_stack@,
            program: self.program@,
            input: self.input@,
            input_pos: self.input_pos as int,
            output: self.output@,
        }
    }
}

impl VM {
    /// A fresh machine on `program` with no input.
    pub fn new(program: Vec<Instruction>) -> (r: VM)
        ensures
            r@ == initial(program@, Seq::empty()),
            wf(r@),
    {
        VM::with_input(program, Vec::new())
    }

    /// A fresh machine on `program` that reads the bytes of `input` in order:
    /// all cells zero, both pointers at zero, no loop open, nothing written.
    pub fn with_input(program: Vec<Instruction>, input: Vec<u8>) -> (r: VM)
        ensures
            r@ == initial(program@, input@),
            wf(r@),
    {
        let memory: Vec<u8> = vec![0u8; MEMORY_SIZE];
        let r = VM {
            memory_pointer: 0,
            instr_pointer: 0,
            memory,
            loop_stack: Vec::new(),
            program,
            input,
            input_pos: 0,
            output: Vec::new(),
        };
        assert(r@.memory =~= initial(program@, input@).memory);
        r
    }

    /// Executes one instruction, without the advance of the instruction
    /// pointer that a cycle adds. On a fault the machine is left unchanged.
    pub fn run_instruction(&mut self, instr: &Instruction) -> (r: Result<(), BRError>)
        requires
            wf(old(self)@),
        ensures
            wf(final(self)@),
            match step(old(self)@, *instr) {
                Ok(t) => r is Ok && final(self)@ == t,
                Err(e) => r == Err::<(), BRError>(e) && final(self)@ == old(self)@,
            },
    {
        proof {
            lemma_step_wf(self@, *instr);
        }
        let mp = self.memory_pointer;
        match instr {
            Instruction::MoveLeft => {
                if mp == 0 {
                    return Err(BRError::OutOfBounds);
                }
                self.memory_pointer = mp - 1;
            },
            Instruction::MoveRight => {
                if mp + 1 >= MEMORY_SIZE {
                    return Err(BRError::OutOfBounds);
                }
                self.memory_pointer = mp + 1;
            },
            Instruction::IncrementPtr => {
                let v = self.memory[mp];
                let nv: u8 = if v == 255 { 0 } else { v + 1 };
                self.memory.set(mp, nv);
            },
            Instruction::DecrementPtr => {
                let v = self.memory[mp];
                let nv: u8 = if v == 0 { 255 } else { v - 1 };
                self.memory.set(mp, nv);
            },
            Instruction::Output => {
                let v = self.memory[mp];
                self.output.push(v);
            },
            Instruction::Input => {
                if self.input_pos >= self.input.len() {
                    return Err(BRError::InputExhausted);
                }
                let v = self.input[self.input_pos];
                self.memory.set(mp, v);
                self.input_pos = self.input_pos + 1;
            },
            Instruction::LoopStart => {
                let ip = self.instr_pointer;
                if self.memory[mp] != 0 {
                    self.loop_stack.push(ip);
                } else if ip >= self.program.len() {
                    return Err(BRError::UnbalancedLoop);
                } else {
                    match self.find_loop_end() {
                        Some(j) => {
                            self.instr_pointer = j;
                        },
                        None => {
                            return Err(BRError::UnbalancedLoop);
                        },
                    }
                }
            },
            Instruction::LoopEnd => {
                let n = self.loop_stack.len();
                if n == 0 {
                    return Err(BRError::UnbalancedLoop);
                }
                if self.memory[mp] != 0 {
                    self.instr_pointer = self.loop_stack[n - 1];
                } else {
                    self.loop_stack.pop();
                }
            },
        }
        proof {
            let t = step(old(self)@, *instr)->Ok_0;
            assert(self@.memory =~= t.memory);
            assert(self@.loop_stack =~= t.loop_stack);
            assert(self@.output =~= t.output);
        }
        Ok(())
    }

    /// Runs at most `max_cycles` cycles, stopping early at the end of the
    /// program or at a fault. Returns whether the machine has halted.
    pub fn run_steps(&mut self, max_cycles: u64) -> (r: Result<bool, BRError>)
        requires
            wf(old(self)@),
        ensures
            wf(final(self)@),
            match run_for(old(self)@, max_cycles as nat) {
                Ok(t) => r == Ok::<bool, BRError>(halted(t)) && final(self)@ == t,
                Err(e) => r == Err::<bool, BRError>(e) && stopped_by(old(self)@, final(self)@, e),
            },
    {
        let program_len = self.program.len();
        let mut left: u64 = max_cycles;
        while left > 0 && self.instr_pointer < program_len
            invariant
                wf(self@),
                program_len == self.program@.len(),
                self@.program == old(self)@.program,
                left <= max_cycles,
                run_for(old(self)@, max_cycles as nat) == run_for(self@, left as nat),
                run_for(old(self)@, (max_cycles - left) as nat) == Ok::<MachineState, BRError>(
                    self@,
                ),
            decreases left,
        {
            let ghost prev = self@;
            proof {
                lemma_cycle_wf(self@);
                lemma_run_for_split(old(self)@, (max_cycles - left) as nat, 1);
                assert((max_cycles - left) as nat + 1 == (max_cycles - (left - 1)) as nat);
            }
            let instr = self.program[self.instr_pointer];
            match self.run_instruction(&instr) {
                Ok(()) => {},
                Err(e) => {
                    return Err(e);
                },
            }
            if self.instr_pointer < program_len {
                self.instr_pointer = self.instr_pointer + 1;
            }
            left = left - 1;
            proof {
                assert(cycle(prev) == Ok::<MachineState, BRError>(self@));
                assert(run_for(self@, 0) == Ok::<MachineState, BRError>(self@));
                assert(run_for(prev, 1) == Ok::<MachineState, BRError>(self@));
            }
        }
        Ok(self.instr_pointer >= program_len)
    }

    /// Runs the program to its end. Fails with the first fault met, or with
    /// `StepLimit` if the program has not ended after `MAX_CYCLES` cycles.
    pub fn run(&mut self) -> (r: Result<(), BRError>)
        requires
            wf(old(self)@),
        ensures
            wf(final(self)@),
            match run_for(old(self)@, MAX_CYCLES as nat) {
                Ok(t) => final(self)@ == t && if halted(t) {
                    r is Ok
                } else {
                    r == Err::<(), BRError>(BRError::StepLimit)
                },
                Err(e) => r == Err::<(), BRError>(e) && stopped_by(old(self)@, final(self)@, e),
            },
    {
        match self.run_steps(MAX_CYCLES) {
            Ok(true) => Ok(()),
            Ok(false) => Err(BRError::StepLimit),
            Err(e) => Err(e),
        }
    }

    /// Whether the next cycle would execute an input instruction with every
    /// input byte already read.
    pub fn needs_input(&self) -> (r: bool)
        requires
            wf(self@),
        ensures
            r == (!halted(self@) && self@.program[self@.instr_pointer] == Instruction::Input
                && self@.input_pos == self@.input.len()),
    {
        self.instr_pointer < self.program.len() && self.program[self.instr_pointer]
            == Instruction::Input && self.input_pos == self.input.len()
    }

    /// Appends byte `b` to the input still to be read.
    pub fn push_input(&mut self, b: u8)
        requires
            wf(old(self)@),
        ensures
            final(self)@ == (MachineState { input: old(self)@.input.push(b), ..old(self)@ }),
            wf(final(self)@),
    {
        self.input.push(b);
    }

    /// Scans forward from the `[` under the instruction pointer to the `]`
    /// that closes it, counting the loops opened and closed on the way.
    fn find_loop_end(&self) -> (r: Option<usize>)
        requires
            self.instr_pointer < self.program.len(),
        ensures
            find_match(self.program@, self.instr_pointer + 1, 1) == match r {
                Some(j) => Some(j as int),
                None => None,
            },
    {
        let ip = self.instr_pointer;
        let n = self.program.len();
        let mut i: usize = ip + 1;
        let mut depth: usize = 1;
        while i < n
            invariant
                n == self.program@.len(),
                ip == self.instr_pointer,
                ip < i <= n,
                1 <= depth <= i - ip,
                find_match(self.program@, ip + 1, 1) == find_match(
                    self.program@,
                    i as int,
                    depth as nat,
                ),
            decreases n - i,
        {
            let ins = self.program[i];
            assert(ins == self.program@[i as int]);
            match ins {
                Instruction::LoopStart => {
                    depth = depth + 1;
                },
                Instruction::LoopEnd => {
                    if depth == 1 {
                        assert(find_match(self.program@, i as int, 1) == Some(i as int));
                        return Some(i);
                    }
                    depth = depth - 1;
                },
                _ => {},
            }
            i = i + 1;
        }
        None
    }
}

} // verus!
