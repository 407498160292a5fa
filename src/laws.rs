use vstd::prelude::*;
use crate::errors::BRError;
use crate::instructions::Instruction;
use crate::parse::{translate, is_significant};
use crate::vm::{MachineState, initial, wf, cell, find_match, step, halted, cycle, run_for, MEMORY_SIZE};

verus! {

/// Number of `+` minus number of `-` in `p`.
pub open spec fn net_increments(p: Seq<Instruction>) -> int
    decreases p.len(),
{
    if p.len() == 0 {
        0
    } else {
        net_increments(p.drop_last()) + match p.last() {
            Instruction::IncrementPtr => 1int,
            Instruction::DecrementPtr => -1int,
            _ => 0int,
        }
    }
}

/// Number of `>` minus number of `<` in `p`.
pub open spec fn net_moves(p: Seq<Instruction>) -> int
    decreases p.len(),
{
    if p.len() == 0 {
        0
    } else {
        net_moves(p.drop_last()) + match p.last() {
            Instruction::MoveRight => 1int,
            Instruction::MoveLeft => -1int,
            _ => 0int,
        }
    }
}

/// Whether every instruction of `p` is a `+` or a `-`.
pub open spec fn only_increments(p: Seq<Instruction>) -> bool {
    forall|k: int| 0 <= k < p.len() ==> (#[trigger] p[k] == Instruction::IncrementPtr || p[k]
        == Instruction::DecrementPtr)
}

/// Whether every instruction of `p` is a `>` or a `<`.
pub open spec fn only_moves(p: Seq<Instruction>) -> bool {
    forall|k: int| 0 <= k < p.len() ==> (#[trigger] p[k] == Instruction::MoveRight || p[k]
        == Instruction::MoveLeft)
}

/// Whether the pointer offset after each prefix of `p` up to length `m`
/// stays inside the memory.
pub open spec fn moves_in_range(p: Seq<Instruction>, m: int) -> bool {
    forall|i: int| 0 <= i <= m ==> 0 <= #[trigger] net_moves(p.take(i)) < MEMORY_SIZE
}

/// The state of a fresh machine on a program of `+` and `-` after its first
/// `j` cycles.
pub open spec fn counting_state(program: Seq<Instruction>, input: Seq<u8>, j: int) -> MachineState {
    let s = initial(program, input);
    MachineState {
        instr_pointer: j,
        memory: s.memory.update(0, (net_increments(program.take(j)) % 256) as u8),
        ..s
    }
}

/// The state of a fresh machine on a program of `>` and `<` after its first
/// `j` cycles.
pub open spec fn moving_state(program: Seq<Instruction>, input: Seq<u8>, j: int) -> MachineState {
    MachineState {
        instr_pointer: j,
        memory_pointer: net_moves(program.take(j)),
        ..initial(program, input)
    }
}

proof fn lemma_counting_run(program: Seq<Instruction>, input: Seq<u8>, j: int, n: nat)
    requires
        only_increments(program),
        0 <= j <= program.len(),
    ensures
        run_for(counting_state(program, input, j), n) == Ok::<MachineState, BRError>(
            counting_state(program, input, if j + n <= program.len() {
                j + n
            } else {
                program.len() as int
            }),
        ),
    decreases n,
{
    let s = counting_state(program, input, j);
    if n > 0 && j < program.len() {
        let prefix = program.take(j + 1);
        assert(prefix.drop_last() =~= program.take(j));
        assert(prefix.last() == program[j]);
        let x = net_increments(program.take(j));
        let c = (x % 256) as u8;
        assert(cell(s) == c);
        if program[j] == Instruction::IncrementPtr {
            assert(((c + 1) % 256) == (x + 1) % 256) by (nonlinear_arith)
                requires
                    c == x % 256,
            ;
        } else {
            assert(((c + 255) % 256) == (x - 1) % 256) by (nonlinear_arith)
                requires
                    c == x % 256,
            ;
        }
        let t = counting_state(program, input, j + 1);
        let u = cycle(s)->Ok_0;
        assert(u.memory =~= t.memory);
        assert(cycle(s) == Ok::<MachineState, BRError>(t));
        lemma_counting_run(program, input, j + 1, (n - 1) as nat);
    }
}

/// A program made only of `+` and `-`, run on a fresh machine for at least
/// as many cycles as it has instructions, halts with the first cell holding
/// the number of `+` less the number of `-`, modulo 256.
pub proof fn law_cell_counts_increments(program: Seq<Instruction>, input: Seq<u8>, n: nat)
    requires
        only_increments(program),
        n >= program.len(),
    ensures
        run_for(initial(program, input), n) matches Ok(t) && halted(t) && t.memory_pointer == 0
            && t.memory[0] as int == net_increments(program) % 256,
{
    assert(program.take(0) =~= Seq::<Instruction>::empty());
    assert(counting_state(program, input, 0).memory =~= initial(program, input).memory);
    assert(counting_state(program, input, 0) == initial(program, input));
    lemma_counting_run(program, input, 0, n);
    assert(program.take(program.len() as int) =~= program);
}

/// `n` instructions `+` in a row count `n`.
pub proof fn lemma_net_of_repeated_increments(n: nat)
    ensures
        net_increments(Seq::new(n, |k: int| Instruction::IncrementPtr)) == n,
    decreases n,
{
    if n > 0 {
        let p = Seq::new(n, |k: int| Instruction::IncrementPtr);
        assert(p.drop_last() =~= Seq::new((n - 1) as nat, |k: int| Instruction::IncrementPtr));
        lemma_net_of_repeated_increments((n - 1) as nat);
    }
}

/// `n` instructions `+` in a row, run on a fresh machine, leave `n` modulo
/// 256 in the first cell.
pub proof fn law_repeated_increments_wrap(input: Seq<u8>, n: nat)
    ensures
        run_for(initial(Seq::new(n, |k: int| Instruction::IncrementPtr), input), n) matches Ok(t)
            && halted(t) && t.memory[0] as int == n % 256,
{
    let p = Seq::new(n, |k: int| Instruction::IncrementPtr);
    lemma_net_of_repeated_increments(n);
    law_cell_counts_increments(p, input, n);
}


proof fn lemma_moving_cycle(program: Seq<Instruction>, input: Seq<u8>, j: int)
    requires
        only_moves(program),
        0 <= j < program.len(),
        0 <= net_moves(program.take(j)) < MEMORY_SIZE,
    ensures
        0 <= net_moves(program.take(j + 1)) < MEMORY_SIZE ==> cycle(
            moving_state(program, input, j),
        ) == Ok::<MachineState, BRError>(moving_state(program, input, j + 1)),
        !(0 <= net_moves(program.take(j + 1)) < MEMORY_SIZE) ==> cycle(
            moving_state(program, input, j),
        ) == Err::<MachineState, BRError>(BRError::OutOfBounds),
{
    let prefix = program.take(j + 1);
    assert(prefix.drop_last() =~= program.take(j));
    assert(prefix.last() == program[j]);
}

proof fn lemma_moving_run(program: Seq<Instruction>, input: Seq<u8>, j: int, n: nat)
    requires
        only_moves(program),
        0 <= j <= program.len(),
        forall|i: int|
            j <= i <= program.len() && i <= j + n ==> 0 <= #[trigger] net_moves(program.take(i))
                < MEMORY_SIZE,
    ensures
        run_for(moving_state(program, input, j), n) == Ok::<MachineState, BRError>(
            moving_state(program, input, if j + n <= program.len() {
                j + n
            } else {
                program.len() as int
            }),
        ),
    decreases n,
{
    if n > 0 && j < program.len() {
        assert(0 <= net_moves(program.take(j)) < MEMORY_SIZE);
        assert(0 <= net_moves(program.take(j + 1)) < MEMORY_SIZE);
        lemma_moving_cycle(program, input, j);
        lemma_moving_run(program, input, j + 1, (n - 1) as nat);
    }
}

proof fn lemma_moving_fault(program: Seq<Instruction>, input: Seq<u8>, j: int, m: int, n: nat)
    requires
        only_moves(program),
        0 <= j <= m < program.len(),
        forall|i: int| j <= i <= m ==> 0 <= #[trigger] net_moves(program.take(i)) < MEMORY_SIZE,
        !(0 <= net_moves(program.take(m + 1)) < MEMORY_SIZE),
        n > m - j,
    ensures
        run_for(moving_state(program, input, j), n) == Err::<MachineState, BRError>(
            BRError::OutOfBounds,
        ),
    decreases n,
{
    assert(0 <= net_moves(program.take(j)) < MEMORY_SIZE);
    lemma_moving_cycle(program, input, j);
    if j < m {
        assert(0 <= net_moves(program.take(j + 1)) < MEMORY_SIZE);
        lemma_moving_fault(program, input, j + 1, m, (n - 1) as nat);
    }
}

proof fn lemma_moving_start(program: Seq<Instruction>, input: Seq<u8>)
    ensures
        moving_state(program, input, 0) == initial(program, input),
{
    assert(program.take(0) =~= Seq::<Instruction>::empty());
}

/// A program made only of `>` and `<` whose running pointer offset stays
/// inside the memory, run on a fresh machine for at least as many cycles as
/// it has instructions, halts with the data pointer at the net offset.
pub proof fn law_pointer_follows_moves(program: Seq<Instruction>, input: Seq<u8>, n: nat)
    requires
        only_moves(program),
        moves_in_range(program, program.len() as int),
        n >= program.len(),
    ensures
        run_for(initial(program, input), n) matches Ok(t) && halted(t) && t.memory_pointer
            == net_moves(program) && t.memory == initial(program, input).memory,
{
    lemma_moving_start(program, input);
    lemma_moving_run(program, input, 0, n);
    assert(program.take(program.len() as int) =~= program);
}

/// A program made only of `>` and `<` whose offset first leaves the memory
/// with its instruction at position `m` runs its first `m` cycles without a
/// fault, and faults with `OutOfBounds` on the next one.
pub proof fn law_pointer_fault_at_exact_step(
    program: Seq<Instruction>,
    input: Seq<u8>,
    m: int,
    n: nat,
)
    requires
        only_moves(program),
        0 <= m < program.len(),
        moves_in_range(program, m),
        !(0 <= net_moves(program.take(m + 1)) < MEMORY_SIZE),
        n > m,
    ensures
        run_for(initial(program, input), m as nat) matches Ok(t) && !halted(t)
            && t.instr_pointer == m,
        run_for(initial(program, input), n) == Err::<MachineState, BRError>(BRError::OutOfBounds),
{
    lemma_moving_start(program, input);
    lemma_moving_run(program, input, 0, m as nat);
    lemma_moving_fault(program, input, 0, m, n);
}

/// A `[` met while the current cell is zero moves the instruction pointer
/// to the `]` that closes it and changes nothing else: the loop body is not
/// executed.
pub proof fn law_zero_cell_skips_loop(s: MachineState)
    requires
        wf(s),
        !halted(s),
        cell(s) == 0,
        find_match(s.program, s.instr_pointer + 1, 1) is Some,
    ensures
        step(s, Instruction::LoopStart) matches Ok(t) && t == (MachineState {
            instr_pointer: t.instr_pointer,
            ..s
        }) && s.instr_pointer < t.instr_pointer < s.program.len() && s.program[t.instr_pointer]
            == Instruction::LoopEnd,
{
    crate::vm::lemma_find_match_bounds(s.program, s.instr_pointer + 1, 1);
}

/// A `[` met while the current cell is non-zero records its position on the
/// loop stack and changes nothing else, wherever the instruction pointer
/// stands: execution falls through into the loop body.
pub proof fn law_nonzero_cell_enters_loop(s: MachineState)
    requires
        wf(s),
        cell(s) != 0,
    ensures
        step(s, Instruction::LoopStart) == Ok::<MachineState, BRError>(
            MachineState { loop_stack: s.loop_stack.push(s.instr_pointer as usize), ..s },
        ),
{
}

/// A `]` met with no open loop faults with `UnbalancedLoop`, whatever the
/// memory holds.
pub proof fn law_unmatched_loop_end_faults(s: MachineState)
    requires
        s.loop_stack.len() == 0,
    ensures
        step(s, Instruction::LoopEnd) == Err::<MachineState, BRError>(BRError::UnbalancedLoop),
        !halted(s) && s.program[s.instr_pointer] == Instruction::LoopEnd ==> cycle(s) == Err::<
            MachineState,
            BRError,
        >(BRError::UnbalancedLoop),
{
}

/// Reading text gives the same program as reading it with every character
/// that writes no instruction removed.
pub proof fn law_translate_ignores_noise(text: Seq<char>)
    ensures
        translate(text.filter(|c: char| is_significant(c))) == translate(text),
    decreases text.len(),
{
    reveal(Seq::filter);
    let pred = |c: char| is_significant(c);
    if text.len() > 0 {
        law_translate_ignores_noise(text.drop_last());
        let f = text.filter(pred);
        let g = text.drop_last().filter(pred);
        if pred(text.last()) {
            assert(f == g.push(text.last()));
            assert(f.drop_last() =~= g);
        } else {
            assert(f == g);
        }
    }
}

} // verus!
