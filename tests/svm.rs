use ga::svm::{ExitType, Instruction, OpCode, Stats, SVM};

fn op(code: Instruction, literal: i32) -> OpCode {
    OpCode { code, literal }
}

#[test]
fn add_program_leaves_five() {
    let program = vec![op(Instruction::Push, 2), op(Instruction::Push, 3), op(Instruction::Add, 0), op(Instruction::Abort, 0)];
    for budget in [4, 5, 25] {
        let mut vm = SVM::new(10, 10);
        let exit = vm.execute(&program, budget);
        assert_eq!(exit, ExitType::Abort);
        assert_eq!(vm.stats.instructions_issued, 4);
        assert_eq!(vm.pop_stack(), 5);
    }
}

#[test]
fn zero_budget_times_out_without_issuing() {
    let program = vec![op(Instruction::Push, 2), op(Instruction::Abort, 0)];
    let mut vm = SVM::new(10, 10);
    assert_eq!(vm.execute(&program, 0), ExitType::Timeout);
    assert_eq!(vm.stats.instructions_issued, 0);
    assert_eq!(vm.execute(&Vec::new(), -3), ExitType::Timeout);
}

#[test]
fn budget_runs_out() {
    let program = vec![op(Instruction::Push, 1), op(Instruction::JumpRel, -2)];
    let mut vm = SVM::new(4, 3);
    assert_eq!(vm.execute(&program, 7), ExitType::Timeout);
    assert_eq!(vm.stats.instructions_issued, 7);
    assert_eq!(vm.stack, vec![1, 1, 1]);
}

#[test]
fn new_machine_and_stats() {
    let vm = SVM::new(5, 2);
    assert_eq!(vm.memory, vec![0; 5]);
    assert!(vm.stack.is_empty());
    assert_eq!(vm.stack_size, 2);
    assert_eq!(Stats::new(), Stats { instructions_issued: 0, invalid_instructions: 0 });
}

#[test]
fn memory_access_outside_is_harmless() {
    let mut vm = SVM::new(3, 2);
    vm.poke_mem(1, 42);
    vm.poke_mem(3, 7);
    assert_eq!(vm.memory, vec![0, 42, 0]);
    assert_eq!(vm.peek_mem(1), 42);
    assert_eq!(vm.peek_mem(3), 0);
}

#[test]
fn stack_empty_pop_and_full_push() {
    let mut vm = SVM::new(1, 2);
    assert_eq!(vm.pop_stack(), 0);
    vm.push_stack(1);
    vm.push_stack(2);
    vm.push_stack(3);
    assert_eq!(vm.stack, vec![1, 2]);
    assert_eq!(vm.pop_stack(), 2);
}

#[test]
fn reset_clears_everything() {
    let mut vm = SVM::new(3, 4);
    vm.poke_mem(0, 9);
    vm.push_stack(5);
    vm.stats.instructions_issued = 12;
    vm.reset_state();
    assert_eq!(vm.memory, vec![0, 0, 0]);
    assert!(vm.stack.is_empty());
    assert_eq!(vm.stats.instructions_issued, 0);
    assert_eq!(vm.stack_size, 4);
}

fn run_binary(code: Instruction, first: i32, second: i32) -> i32 {
    // `first` is popped first, so it is pushed last.
    let program = vec![op(Instruction::PushMem, 1), op(Instruction::PushMem, 0), op(code, 0), op(Instruction::Abort, 0)];
    let mut vm = SVM::new(2, 8);
    vm.poke_mem(0, first);
    vm.poke_mem(1, second);
    assert_eq!(vm.execute(&program, 10), ExitType::Abort);
    vm.pop_stack()
}

#[test]
fn arithmetic_and_bitwise() {
    assert_eq!(run_binary(Instruction::BitOr, 0b1100, 0b1010), 0b1110);
    assert_eq!(run_binary(Instruction::BitAnd, 0b1100, 0b1010), 0b1000);
    assert_eq!(run_binary(Instruction::BitXor, 0b1100, 0b1010), 0b0110);
    assert_eq!(run_binary(Instruction::Add, i32::MAX, 1), i32::MIN);
    assert_eq!(run_binary(Instruction::Sub, 3, 10), -7);
    assert_eq!(run_binary(Instruction::Mult, 65536, 65536), 0);
    assert_eq!(run_binary(Instruction::Div, 7, 2), 3);
    assert_eq!(run_binary(Instruction::Div, -7, 2), -3);
    assert_eq!(run_binary(Instruction::Div, 7, 0), i32::MAX);
    assert_eq!(run_binary(Instruction::Div, i32::MIN, -1), i32::MIN);
}

#[test]
fn stack_and_memory_instructions() {
    let program = vec![
        op(Instruction::Push, 4),
        op(Instruction::PushDuplicate, 0),
        op(Instruction::PopMem, 2),
        op(Instruction::Push, 9),
        op(Instruction::Pop, 0),
        op(Instruction::Nop, 0),
        op(Instruction::Abort, 0),
    ];
    let mut vm = SVM::new(3, 8);
    assert_eq!(vm.execute(&program, 50), ExitType::Abort);
    assert_eq!(vm.memory, vec![0, 0, 4]);
    assert_eq!(vm.stack, vec![4]);
}

#[test]
fn conditional_jumps() {
    // jmp_eq over the push of 1 when the popped value is zero
    let program = vec![op(Instruction::Push, 0), op(Instruction::JumpEq, 1), op(Instruction::Push, 1), op(Instruction::Abort, 0)];
    let mut vm = SVM::new(1, 4);
    vm.execute(&program, 10);
    assert!(vm.stack.is_empty());
    let program = vec![op(Instruction::Push, 3), op(Instruction::JumpGt, 1), op(Instruction::Push, 1), op(Instruction::Abort, 0)];
    let mut vm = SVM::new(1, 4);
    vm.execute(&program, 10);
    assert!(vm.stack.is_empty());
    let program = vec![op(Instruction::Push, 3), op(Instruction::JumpLt, 1), op(Instruction::Push, 1), op(Instruction::Abort, 0)];
    let mut vm = SVM::new(1, 4);
    vm.execute(&program, 10);
    assert_eq!(vm.stack, vec![1]);
}

#[test]
fn jump_outside_program_restarts_at_first() {
    let program = vec![op(Instruction::JumpEq, 0), op(Instruction::JumpRel, 100), op(Instruction::Abort, 0)];
    let mut vm = SVM::new(1, 4);
    // 0: jmp_eq (empty stack pops 0, jumps by 0) -> 1: jmp 100 -> clamps to 0 -> ...
    assert_eq!(vm.execute(&program, 5), ExitType::Timeout);
    assert_eq!(vm.stats.instructions_issued, 5);
    let program = vec![op(Instruction::JumpRel, -5), op(Instruction::Abort, 0)];
    let mut vm = SVM::new(1, 4);
    assert_eq!(vm.execute(&program, 3), ExitType::Timeout);
}

#[test]
fn instruction_byte_codes() {
    for b in 0u8..18 {
        let i = Instruction::try_from(b).unwrap();
        assert_eq!(i.into(), b);
    }
    assert_eq!(Instruction::try_from(4), Ok(Instruction::Add));
    assert_eq!(Instruction::try_from(18), Err("Value out of range for an instruction"));
    assert!(Instruction::try_from(255).is_err());
}

#[test]
fn opcode_parts_and_mnemonics() {
    let o = OpCode::from_parts(12, 3);
    assert_eq!(o, op(Instruction::PopMem, 3));
    assert_eq!(o.mnemonic(), "pop_to");
    assert_eq!(op(Instruction::JumpGt, 0).mnemonic(), "jmp_lt");
    for _ in 0..200 {
        let r = OpCode::rand();
        assert!((0..5).contains(&r.literal));
    }
}
