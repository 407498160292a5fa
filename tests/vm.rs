use brainrust::parse_input;
use brainrust::vm::MEMORY_SIZE;
use brainrust::BRError;
use brainrust::Instruction;
use brainrust::VM;

fn machine(text: &str) -> VM {
    VM::new(parse_input(text).unwrap())
}

#[test]
fn test_vm_new() {
    let vm = VM::new(vec![]);
    assert_eq!(vm.memory_pointer, 0);
    assert_eq!(vm.instr_pointer, 0);
    assert_eq!(vm.memory.len(), MEMORY_SIZE);
}

#[test]
fn test_vm_increment() {
    let mut vm = VM::new(vec![]);
    vm.run_instruction(&Instruction::IncrementPtr).unwrap();
    assert_eq!(vm.memory[0], 1);
}

#[test]
fn test_vm_decrement() {
    let mut vm = VM::new(vec![]);
    vm.memory[0] = 3;
    vm.run_instruction(&Instruction::DecrementPtr).unwrap();
    assert_eq!(vm.memory[0], 2);
}

#[test]
fn test_vm_move_left() {
    let mut vm = VM::new(vec![]);
    vm.memory_pointer = 1;
    vm.run_instruction(&Instruction::MoveLeft).unwrap();
    assert_eq!(vm.memory_pointer, 0);
}

#[test]
fn test_vm_move_right() {
    let mut vm = VM::new(vec![]);
    vm.memory_pointer = 0;
    vm.run_instruction(&Instruction::MoveRight).unwrap();
    assert_eq!(vm.memory_pointer, 1);
}

#[test]
fn test_vm_loop_start_simple_one_level_jump_past() {
    let mut vm = VM::new(vec![
        Instruction::LoopStart,
        Instruction::IncrementPtr,
        Instruction::IncrementPtr,
        Instruction::IncrementPtr,
        Instruction::LoopEnd,
    ]);

    vm.run_instruction(&Instruction::LoopStart).unwrap();

    assert_eq!(vm.instr_pointer, 4);
    assert_eq!(vm.memory[0], 0);
}

#[test]
fn test_vm_loop_start_inner_loop_jump_past() {
    let mut vm = VM::new(vec![
        Instruction::LoopStart,
        Instruction::LoopStart,
        Instruction::IncrementPtr,
        Instruction::IncrementPtr,
        Instruction::IncrementPtr,
        Instruction::LoopEnd,
        Instruction::IncrementPtr,
        Instruction::LoopEnd,
    ]);
    vm.instr_pointer = 1;
    vm.loop_stack = vec![0];

    vm.run_instruction(&Instruction::LoopStart).unwrap();

    assert_eq!(vm.instr_pointer, 5);
}

#[test]
fn test_vm_loop_end_simple_one_level_jump_back() {
    let mut vm = VM::new(vec![
        Instruction::LoopStart,
        Instruction::IncrementPtr,
        Instruction::IncrementPtr,
        Instruction::IncrementPtr,
        Instruction::LoopEnd,
    ]);

    vm.loop_stack = vec![0];
    vm.instr_pointer = 4;
    vm.memory[0] = 1;

    vm.run_instruction(&Instruction::LoopEnd).unwrap();

    assert_eq!(vm.instr_pointer, 0);
}

#[test]
fn test_vm_loop_end_inner_loop_jump_back() {
    let mut vm = VM::new(vec![
        Instruction::LoopStart,
        Instruction::LoopStart,
        Instruction::IncrementPtr,
        Instruction::IncrementPtr,
        Instruction::IncrementPtr,
        Instruction::LoopEnd,
        Instruction::IncrementPtr,
        Instruction::LoopEnd,
    ]);
    vm.instr_pointer = 5;
    vm.loop_stack = vec![0, 1];
    vm.memory[0] = 1;

    vm.run_instruction(&Instruction::LoopEnd).unwrap();

    assert_eq!(vm.instr_pointer, 1);
}

#[test]
fn test_vm_loop_end_continues_past_if_zero() {
    let mut vm = VM::new(vec![
        Instruction::LoopStart,
        Instruction::LoopStart,
        Instruction::IncrementPtr,
        Instruction::IncrementPtr,
        Instruction::IncrementPtr,
        Instruction::LoopEnd,
        Instruction::IncrementPtr,
        Instruction::LoopEnd,
    ]);
    vm.instr_pointer = 5;
    vm.loop_stack = vec![0, 1];

    vm.run_instruction(&Instruction::LoopEnd).unwrap();

    assert_eq!(vm.instr_pointer, 5);
    assert_eq!(vm.loop_stack, vec![0]);
}

#[test]
fn increments_wrap_modulo_256() {
    let mut vm = machine(&"+".repeat(256));
    vm.run().unwrap();
    assert_eq!(vm.memory[0], 0);

    let mut vm = machine(&"+".repeat(257));
    vm.run().unwrap();
    assert_eq!(vm.memory[0], 1);
}

#[test]
fn decrement_below_zero_wraps_to_255() {
    let mut vm = machine("-");
    vm.run().unwrap();
    assert_eq!(vm.memory[0], 255);

    let mut vm = machine("++-+--+");
    vm.run().unwrap();
    assert_eq!(vm.memory[0], 1);
}

#[test]
fn pointer_ends_at_net_offset() {
    let mut vm = machine(">>><<>");
    vm.run().unwrap();
    assert_eq!(vm.memory_pointer, 2);
    assert_eq!(vm.instr_pointer, 6);
}

#[test]
fn move_left_at_first_cell_faults_at_that_step() {
    let mut vm = machine("><<+");
    assert_eq!(vm.run(), Err(BRError::OutOfBounds));
    assert_eq!(vm.memory_pointer, 0);
    assert_eq!(vm.instr_pointer, 2);
    assert_eq!(vm.memory[0], 0);
}

#[test]
fn move_right_past_last_cell_faults() {
    let mut vm = VM::new(vec![]);
    vm.memory_pointer = MEMORY_SIZE - 1;
    assert_eq!(
        vm.run_instruction(&Instruction::MoveRight),
        Err(BRError::OutOfBounds)
    );
    assert_eq!(vm.memory_pointer, MEMORY_SIZE - 1);

    let mut vm = machine(&">".repeat(MEMORY_SIZE - 1));
    vm.run().unwrap();
    assert_eq!(vm.memory_pointer, MEMORY_SIZE - 1);

    let mut vm = machine(&">".repeat(MEMORY_SIZE));
    assert_eq!(vm.run(), Err(BRError::OutOfBounds));
    assert_eq!(vm.instr_pointer, MEMORY_SIZE - 1);
}

#[test]
fn zero_cell_skips_loop_body() {
    let mut vm = machine("[+]");
    vm.run_instruction(&Instruction::LoopStart).unwrap();
    assert_eq!(vm.instr_pointer, 2);
    assert_eq!(vm.memory[0], 0);

    let mut vm = machine("[+]");
    vm.run().unwrap();
    assert_eq!(vm.memory[0], 0);
    assert_eq!(vm.instr_pointer, 3);
    assert!(vm.loop_stack.is_empty());
}

#[test]
fn transfer_loop_moves_value() {
    let mut vm = machine("[->+<]");
    vm.memory[0] = 5;
    vm.run().unwrap();
    assert_eq!(vm.memory[0], 0);
    assert_eq!(vm.memory[1], 5);
    assert_eq!(vm.memory_pointer, 0);
}

#[test]
fn nested_loop_skips_inner_body_only() {
    let mut vm = machine("[[+++]+]");
    vm.instr_pointer = 1;
    vm.loop_stack = vec![0];
    assert_eq!(vm.run_steps(3), Ok(false));
    assert_eq!(vm.memory[0], 1);
    assert_eq!(vm.instr_pointer, 1);
    assert_eq!(vm.loop_stack, vec![0]);
}

#[test]
fn unmatched_loop_end_faults() {
    let mut vm = machine("]");
    assert_eq!(vm.run(), Err(BRError::UnbalancedLoop));

    let mut vm = machine("+++]");
    assert_eq!(vm.run(), Err(BRError::UnbalancedLoop));
    assert_eq!(vm.memory[0], 3);

    let mut vm = VM::new(vec![]);
    vm.memory[0] = 7;
    assert_eq!(
        vm.run_instruction(&Instruction::LoopEnd),
        Err(BRError::UnbalancedLoop)
    );
}

#[test]
fn unclosed_loop_on_zero_cell_faults() {
    let mut vm = machine("[+");
    assert_eq!(vm.run(), Err(BRError::UnbalancedLoop));
    assert_eq!(vm.instr_pointer, 0);
}

#[test]
fn output_writes_current_cell() {
    let mut vm = machine("+++.>++.<.");
    vm.run().unwrap();
    assert_eq!(vm.output, vec![3, 2, 3]);
}

#[test]
fn input_reads_bytes_in_order() {
    let mut vm = VM::with_input(parse_input(",>,").unwrap(), vec![65, 66]);
    vm.run().unwrap();
    assert_eq!(vm.memory[0], 65);
    assert_eq!(vm.memory[1], 66);
    assert_eq!(vm.input_pos, 2);
}

#[test]
fn input_past_end_faults() {
    let mut vm = VM::with_input(parse_input(",,").unwrap(), vec![9]);
    assert_eq!(vm.run(), Err(BRError::InputExhausted));
    assert_eq!(vm.memory[0], 9);
}

#[test]
fn empty_program_halts_at_once() {
    let mut vm = VM::new(vec![]);
    assert_eq!(vm.run(), Ok(()));
    assert!(vm.output.is_empty());
    assert_eq!(vm.run_steps(5), Ok(true));
}

#[test]
fn bounded_run_stops_on_endless_loop() {
    let mut vm = machine("+[]");
    assert_eq!(vm.run_steps(10), Ok(false));
    assert_eq!(vm.memory[0], 1);
}

#[test]
fn hello_program_prints() {
    let mut vm = machine("++++++++[>+++++++++<-]>.+.");
    vm.run().unwrap();
    assert_eq!(vm.output, b"HI".to_vec());
}

#[test]
fn nonzero_cell_enters_loop_at_program_end() {
    let mut vm = VM::new(vec![]);
    vm.memory[0] = 1;
    assert_eq!(vm.run_instruction(&Instruction::LoopStart), Ok(()));
    assert_eq!(vm.loop_stack, vec![0]);
    assert_eq!(vm.instr_pointer, 0);
    assert_eq!(vm.memory[0], 1);
    assert_eq!(vm.memory_pointer, 0);
}

#[test]
fn input_fed_during_run() {
    let mut vm = machine(",.,.");
    assert!(vm.needs_input());
    vm.push_input(7);
    assert!(!vm.needs_input());
    assert_eq!(vm.run_steps(2), Ok(false));
    assert!(vm.needs_input());
    vm.push_input(8);
    assert_eq!(vm.run_steps(2), Ok(true));
    assert_eq!(vm.output, vec![7, 8]);
    assert!(!vm.needs_input());
}
