//! A small stack machine: the execution model of the arithmetic-program
//! domain. Programs are sequences of opcodes run for a bounded number of
//! steps; no instruction ever faults.
use vstd::prelude::*;

use crate::random::random_range;

verus! {

/// The instruction set.
#[derive(Clone, Copy, Debug, PartialEq, Eq, Structural)]
pub enum Instruction {
    Nop,
    BitOr,
    BitAnd,
    BitXor,
    Add,
    Sub,
    Mult,
    Div,
    Push,
    Pop,
    PushDuplicate,
    PushMem,
    PopMem,
    JumpRel,
    JumpEq,
    JumpGt,
    JumpLt,
    Abort,
}

/// The number of instructions; their byte codes are `0..INSTRUCTION_COUNT`.
pub const INSTRUCTION_COUNT: u8 = 18;

/// The byte code of each instruction, in declaration order.
pub open spec fn byte_of(i: Instruction) -> u8 {
    match i {
        Instruction::Nop => 0,
        Instruction::BitOr => 1,
        Instruction::BitAnd => 2,
        Instruction::BitXor => 3,
        Instruction::Add => 4,
        Instruction::Sub => 5,
        Instruction::Mult => 6,
        Instruction::Div => 7,
        Instruction::Push => 8,
        Instruction::Pop => 9,
        Instruction::PushDuplicate => 10,
        Instruction::PushMem => 11,
        Instruction::PopMem => 12,
        Instruction::JumpRel => 13,
        Instruction::JumpEq => 14,
        Instruction::JumpGt => 15,
        Instruction::JumpLt => 16,
        Instruction::Abort => 17,
    }
}

impl Instruction {
    /// The instruction with byte code `value`, or an error for a byte that
    /// codes none.
    pub fn try_from(value: u8) -> (r: Result<Instruction, &'static str>)
        ensures
            r is Ok <==> value < INSTRUCTION_COUNT,
            r matches Ok(i) ==> byte_of(i) == value,
            r matches Err(e) ==> e@ == "Value out of range for an instruction"@,
    {
        proof {
            reveal_strlit("Value out of range for an instruction");
        }
        match value {
            0 => Ok(Instruction::Nop),
            1 => Ok(Instruction::BitOr),
            2 => Ok(Instruction::BitAnd),
            3 => Ok(Instruction::BitXor),
            4 => Ok(Instruction::Add),
            5 => Ok(Instruction::Sub),
            6 => Ok(Instruction::Mult),
            7 => Ok(Instruction::Div),
            8 => Ok(Instruction::Push),
            9 => Ok(Instruction::Pop),
            10 => Ok(Instruction::PushDuplicate),
            11 => Ok(Instruction::PushMem),
            12 => Ok(Instruction::PopMem),
            13 => Ok(Instruction::JumpRel),
            14 => Ok(Instruction::JumpEq),
            15 => Ok(Instruction::JumpGt),
            16 => Ok(Instruction::JumpLt),
            17 => Ok(Instruction::Abort),
            _ => Err("Value out of range for an instruction"),
        }
    }

    /// The byte code of this instruction.
    pub fn into(self) -> (r: u8)
        ensures
            r == byte_of(self),
            r < INSTRUCTION_COUNT,
    {
        match self {
            Instruction::Nop => 0,
            Instruction::BitOr => 1,
            Instruction::BitAnd => 2,
            Instruction::BitXor => 3,
            Instruction::Add => 4,
            Instruction::Sub => 5,
            Instruction::Mult => 6,
            Instruction::Div => 7,
            Instruction::Push => 8,
            Instruction::Pop => 9,
            Instruction::PushDuplicate => 10,
            Instruction::PushMem => 11,
            Instruction::PopMem => 12,
            Instruction::JumpRel => 13,
            Instruction::JumpEq => 14,
            Instruction::JumpGt => 15,
            Instruction::JumpLt => 16,
            Instruction::Abort => 17,
        }
    }
}

/// The assembler mnemonic of each instruction. The two ordered jumps print
/// each other's name.
pub open spec fn mnemonic_of(code: Instruction) -> Seq<char> {
    match code {
        Instruction::Nop => "nop"@,
        Instruction::BitOr => "bit_or"@,
        Instruction::BitAnd => "bit_and"@,
        Instruction::BitXor => "bit_xor"@,
        Instruction::Add => "add"@,
        Instruction::Sub => "sub"@,
        Instruction::Mult => "mult"@,
        Instruction::Div => "div"@,
        Instruction::Push => "push"@,
        Instruction::Pop => "pop"@,
        Instruction::PushDuplicate => "push_dup"@,
        Instruction::PushMem => "push"@,
        Instruction::PopMem => "pop_to"@,
        Instruction::JumpRel => "jmp"@,
        Instruction::JumpEq => "jmp_eq"@,
        Instruction::JumpGt => "jmp_lt"@,
        Instruction::JumpLt => "jmp_gt"@,
        Instruction::Abort => "abort"@,
    }
}

/// One instruction of a program with its literal operand (a value to push,
/// a memory address, or a relative jump distance).
#[derive(Clone, Copy, Debug, PartialEq, Eq, Structural)]
pub struct OpCode {
    pub code: Instruction,
    pub literal: i32,
}

/// The largest literal that a random opcode carries, plus one.
pub const LITERAL_BOUND: i32 = 5;

impl OpCode {
    /// An opcode with instruction byte `code` and literal `literal`.
    pub fn from_parts(code: u8, literal: i32) -> (r: OpCode)
        requires
            code < INSTRUCTION_COUNT,
        ensures
            byte_of(r.code) == code,
            r.literal == literal,
    {
        match Instruction::try_from(code) {
            Ok(i) => OpCode { code: i, literal },
            Err(_) => OpCode { code: Instruction::Nop, literal },
        }
    }

    /// A random opcode: any instruction, with a literal in `0..LITERAL_BOUND`.
    pub fn rand() -> (r: OpCode)
        ensures
            0 <= r.literal < LITERAL_BOUND,
    {
        let code = random_range(0, INSTRUCTION_COUNT as usize) as u8;
        let literal = random_range(0, LITERAL_BOUND as usize) as i32;
        OpCode::from_parts(code, literal)
    }

    /// The assembler mnemonic of the instruction.
    pub fn mnemonic(&self) -> (r: &'static str)
        ensures
            r@ == mnemonic_of(self.code),
    {
        proof {
            reveal_strlit("abort");
            reveal_strlit("add");
            reveal_strlit("bit_and");
            reveal_strlit("bit_or");
            reveal_strlit("bit_xor");
            reveal_strlit("div");
            reveal_strlit("jmp");
            reveal_strlit("jmp_eq");
            reveal_strlit("jmp_gt");
            reveal_strlit("jmp_lt");
            reveal_strlit("mult");
            reveal_strlit("nop");
            reveal_strlit("pop");
            reveal_strlit("pop_to");
            reveal_strlit("push");
            reveal_strlit("push_dup");
            reveal_strlit("sub");
        }
        match self.code {
            Instruction::Nop => "nop",
            Instruction::BitOr => "bit_or",
            Instruction::BitAnd => "bit_and",
            Instruction::BitXor => "bit_xor",
            Instruction::Add => "add",
            Instruction::Sub => "sub",
            Instruction::Mult => "mult",
            Instruction::Div => "div",
            Instruction::Push => "push",
            Instruction::Pop => "pop",
            Instruction::PushDuplicate => "push_dup",
            Instruction::PushMem => "push",
            Instruction::PopMem => "pop_to",
            Instruction::JumpRel => "jmp",
            Instruction::JumpEq => "jmp_eq",
            Instruction::JumpGt => "jmp_lt",
            Instruction::JumpLt => "jmp_gt",
            Instruction::Abort => "abort",
        }
    }
}

/// Counters kept while a program runs.
#[derive(Clone, Copy, Debug, PartialEq, Eq, Structural)]
pub struct Stats {
    pub instructions_issued: i32,
    pub invalid_instructions: i32,
}

impl Stats {
    pub fn new() -> (r: Stats)
        ensures
            r.instructions_issued == 0,
            r.invalid_instructions == 0,
    {
        Stats { instructions_issued: 0, invalid_instructions: 0 }
    }
}

/// How a run ended: its step budget ran out, or it reached `Abort`.
#[derive(Clone, Copy, Debug, PartialEq, Eq, Structural)]
pub enum ExitType {
    Timeout,
    Abort,
}

/// The abstract state of a machine.
pub ghost struct Machine {
    pub memory: Seq<i32>,
    pub stack: Seq<i32>,
    pub stack_size: nat,
    pub issued: int,
}

/// The word at `address`, or zero outside memory.
pub open spec fn peek(m: Machine, address: int) -> i32 {
    if 0 <= address < m.memory.len() { m.memory[address] } else { 0 }
}

/// Stores `value` at `address`; a store outside memory is dropped.
pub open spec fn poke(m: Machine, address: int, value: i32) -> Machine {
    if 0 <= address < m.memory.len() {
        Machine { memory: m.memory.update(address, value), ..m }
    } else {
        m
    }
}

/// Pushes `value`; a push onto a full stack is dropped.
pub open spec fn push(m: Machine, value: i32) -> Machine {
    if m.stack.len() < m.stack_size {
        Machine { stack: m.stack.push(value), ..m }
    } else {
        m
    }
}

/// The value on top of the stack, zero for an empty stack.
pub open spec fn top(m: Machine) -> i32 {
    if m.stack.len() > 0 { m.stack.last() } else { 0 }
}

/// The state after a pop; popping an empty stack changes nothing.
pub open spec fn pop(m: Machine) -> Machine {
    if m.stack.len() > 0 {
        Machine { stack: m.stack.drop_last(), ..m }
    } else {
        m
    }
}

/// Division truncating towards zero; a zero divisor gives `i32::MAX`, and the
/// one overflowing quotient wraps round.
pub open spec fn div_result(dividend: i32, divisor: i32) -> i32 {
    if divisor == 0 {
        i32::MAX
    } else {
        match dividend.checked_div(divisor) {
            Some(q) => q,
            None => i32::MIN,
        }
    }
}

/// The result of a two-operand instruction on the first and the second value
/// popped.
pub open spec fn binary_result(code: Instruction, a: i32, b: i32) -> i32 {
    match code {
        Instruction::BitOr => a | b,
        Instruction::BitAnd => a & b,
        Instruction::BitXor => a ^ b,
        Instruction::Add => a.wrapping_add(b),
        Instruction::Sub => a.wrapping_sub(b),
        Instruction::Mult => a.wrapping_mul(b),
        _ => div_result(a, b),
    }
}

pub open spec fn is_binary(code: Instruction) -> bool {
    match code {
        Instruction::BitOr | Instruction::BitAnd | Instruction::BitXor | Instruction::Add
        | Instruction::Sub | Instruction::Mult | Instruction::Div => true,
        _ => false,
    }
}

/// A memory address given by a literal, as the machine reads it.
pub open spec fn address_of(literal: i32) -> int {
    (literal as usize) as int
}

/// Runs one instruction; `next` is the address after it. Gives the new
/// state (without the step counted) and the address of the next instruction.
pub open spec fn step(m: Machine, op: OpCode, next: int) -> (Machine, int) {
    let a = top(m);
    let m1 = pop(m);
    match op.code {
        Instruction::Push => (push(m, op.literal), next),
        Instruction::Pop => (m1, next),
        Instruction::PushDuplicate => (push(push(m1, a), a), next),
        Instruction::PushMem => (push(m, peek(m, address_of(op.literal))), next),
        Instruction::PopMem => (poke(m1, address_of(op.literal), a), next),
        Instruction::JumpRel => (m, next + op.literal),
        Instruction::JumpEq => (m1, if a == 0 { next + op.literal } else { next }),
        Instruction::JumpGt => (m1, if a > 0 { next + op.literal } else { next }),
        Instruction::JumpLt => (m1, if a < 0 { next + op.literal } else { next }),
        _ => if is_binary(op.code) {
            (push(pop(m1), binary_result(op.code, a, top(m1))), next)
        } else {
            (m, next)
        },
    }
}

/// An instruction address outside the program is taken as the first one.
pub open spec fn bound_ip(ip: int, len: int) -> int {
    if 0 <= ip < len { ip } else { 0 }
}

/// Runs `program` from address `ip` for at most `steps` instructions: the
/// final state and how the run ended. Each instruction issued is counted.
pub open spec fn run(m: Machine, program: Seq<OpCode>, ip: int, steps: nat) -> (Machine, ExitType)
    decreases steps,
{
    if steps == 0 {
        (m, ExitType::Timeout)
    } else {
        let at = bound_ip(ip, program.len() as int);
        let op = program[at];
        let counted = Machine { issued: m.issued + 1, ..m };
        if op.code == Instruction::Abort {
            (counted, ExitType::Abort)
        } else {
            let (m2, next) = step(counted, op, at + 1);
            run(m2, program, next, (steps - 1) as nat)
        }
    }
}

/// A stack machine with word-addressed memory and a bounded stack.
pub struct SVM {
    pub memory: Vec<i32>,
    pub stack: Vec<i32>,
    pub stack_size: usize,
    pub stats: Stats,
}

impl SVM {
    pub open spec fn machine(&self) -> Machine {
        Machine {
            memory: self.memory@,
            stack: self.stack@,
            stack_size: self.stack_size as nat,
            issued: self.stats.instructions_issued as int,
        }
    }

    /// A machine with `words` zeroed words of memory and room for
    /// `stack_size` values on its stack.
    pub fn new(words: usize, stack_size: usize) -> (r: SVM)
        ensures
            r.memory@ == Seq::new(words as nat, |i: int| 0i32),
            r.stack@.len() == 0,
            r.stack_size == stack_size,
            r.stats.instructions_issued == 0,
            r.stats.invalid_instructions == 0,
    {
        let mut vm = SVM { memory: Vec::new(), stack: Vec::new(), stack_size, stats: Stats::new() };
        vm.memory.resize(words, 0);
        assert(vm.memory@ =~= Seq::new(words as nat, |i: int| 0i32));
        vm
    }

    /// The word at `address`, or zero outside memory.
    pub fn peek_mem(&self, address: usize) -> (r: i32)
        ensures
            r == peek(self.machine(), address as int),
    {
        if address < self.memory.len() {
            return self.memory[address];
        }
        0
    }

    /// Stores `value` at `address`; a store outside memory is dropped.
    pub fn poke_mem(&mut self, address: usize, value: i32)
        ensures
            final(self).machine() == poke(old(self).machine(), address as int, value),
            final(self).stats == old(self).stats,
    {
        if address < self.memory.len() {
            self.memory.set(address, value);
        }
    }

    /// Pops the top of the stack; an empty stack gives zero.
    pub fn pop_stack(&mut self) -> (r: i32)
        ensures
            r == top(old(self).machine()),
            final(self).machine() == pop(old(self).machine()),
            final(self).stats == old(self).stats,
    {
        match self.stack.pop() {
            Some(v) => v,
            None => 0,
        }
    }

    /// Pushes `val`; a push onto a full stack is dropped.
    pub fn push_stack(&mut self, val: i32)
        ensures
            final(self).machine() == push(old(self).machine(), val),
            final(self).stats == old(self).stats,
    {
        if self.stack.len() < self.stack_size {
            self.stack.push(val);
        }
    }

    /// Zeroes memory, empties the stack and clears the counters.
    pub fn reset_state(&mut self)
        ensures
            final(self).memory@ == Seq::new(old(self).memory@.len(), |i: int| 0i32),
            final(self).stack@.len() == 0,
            final(self).stack_size == old(self).stack_size,
            final(self).stats.instructions_issued == 0,
            final(self).stats.invalid_instructions == 0,
    {
        let n = self.memory.len();
        let mut i: usize = 0;
        while i < n
            invariant
                n == self.memory.len(),
                i <= n,
                self.stack_size == old(self).stack_size,
                forall|j: int| 0 <= j < i ==> self.memory@[j] == 0,
            decreases n - i,
        {
            self.memory.set(i, 0);
            i = i + 1;
        }
        assert(self.memory@ =~= Seq::new(n as nat, |i: int| 0i32));
        self.stack.clear();
        self.stats = Stats::new();
    }

    /// Runs `program` from its first instruction for at most `max_steps`
    /// instructions (none for a budget of zero or less), until it reaches
    /// `Abort`. An instruction address outside the program is taken as the
    /// first one.
    pub fn execute(&mut self, program: &Vec<OpCode>, max_steps: i32) -> (r: ExitType)
        requires
            program.len() > 0 || max_steps <= 0,
            old(self).stats.instructions_issued + max_steps <= i32::MAX,
        ensures
            (final(self).machine(), r) == run(old(self).machine(), program@, 0, if max_steps > 0 { max_steps as nat } else { 0 }),
            final(self).stats.invalid_instructions == old(self).stats.invalid_instructions,
    {
        let ghost total: nat = if max_steps > 0 { max_steps as nat } else { 0 };
        let ghost start = self.machine();
        let len = program.len();
        let mut ip: usize = 0;
        let mut remaining: i32 = max_steps;
        while remaining > 0
            invariant
                len == program.len(),
                start == old(self).machine(),
                total == (if max_steps > 0 { max_steps as nat } else { 0 }),
                len > 0 || remaining <= 0,
                ip == 0 || ip < len,
                run(start, program@, 0, total) == run(self.machine(), program@, ip as int, if remaining > 0 { remaining as nat } else { 0 }),
                self.stats.instructions_issued + remaining <= i32::MAX,
                self.stats.invalid_instructions == old(self).stats.invalid_instructions,
            decreases remaining,
        {
            let op = program[ip];
            let ghost m0 = self.machine();
            let ghost rem0 = remaining as nat;
            assert(bound_ip(ip as int, len as int) == ip);
            assert(run(m0, program@, ip as int, rem0) == ({
                let counted = Machine { issued: m0.issued + 1, ..m0 };
                if op.code == Instruction::Abort {
                    (counted, ExitType::Abort)
                } else {
                    let (m2, next) = step(counted, op, ip + 1);
                    run(m2, program@, next, (rem0 - 1) as nat)
                }
            }));
            self.stats.instructions_issued = self.stats.instructions_issued + 1;
            assert(self.machine() == Machine { issued: m0.issued + 1, ..m0 });
            if op.code == Instruction::Abort {
                return ExitType::Abort;
            }
            let ghost before = self.machine();
            let next = self.run_instruction(op, ip + 1, len);
            remaining = remaining - 1;
            proof {
                let (m2, target) = step(before, op, ip + 1);
                assert(next as int == bound_ip(target, len as int));
                assert(m2 == self.machine());
                if remaining > 0 {
                    assert(bound_ip(next as int, len as int) == next);
                    assert(bound_ip(target, len as int) == next);
                    assert(run(m2, program@, target, remaining as nat) == run(m2, program@, next as int, remaining as nat));
                }
            }
            ip = next;
        }
        ExitType::Timeout
    }

    /// Runs one instruction other than `Abort`, whose successor is at `next`,
    /// and gives the address of the instruction to run after it.
    fn run_instruction(&mut self, op: OpCode, next: usize, len: usize) -> (r: usize)
        requires
            0 < next <= len,
            op.code != Instruction::Abort,
        ensures
            final(self).machine() == step(old(self).machine(), op, next as int).0,
            r as int == bound_ip(step(old(self).machine(), op, next as int).1, len as int),
            r < len,
            final(self).stats == old(self).stats,
    {
        let lit = op.literal;
        match op.code {
            Instruction::Push => {
                self.push_stack(lit);
                bounded(next, len)
            },
            Instruction::Pop => {
                self.pop_stack();
                bounded(next, len)
            },
            Instruction::PushDuplicate => {
                let val = self.pop_stack();
                self.push_stack(val);
                self.push_stack(val);
                bounded(next, len)
            },
            Instruction::PushMem => {
                let val = self.peek_mem(lit as usize);
                self.push_stack(val);
                bounded(next, len)
            },
            Instruction::PopMem => {
                let val = self.pop_stack();
                self.poke_mem(lit as usize, val);
                bounded(next, len)
            },
            Instruction::JumpRel => jump_target(next, lit, len),
            Instruction::JumpEq => {
                if self.pop_stack() == 0 {
                    jump_target(next, lit, len)
                } else {
                    bounded(next, len)
                }
            },
            Instruction::JumpGt => {
                if self.pop_stack() > 0 {
                    jump_target(next, lit, len)
                } else {
                    bounded(next, len)
                }
            },
            Instruction::JumpLt => {
                if self.pop_stack() < 0 {
                    jump_target(next, lit, len)
                } else {
                    bounded(next, len)
                }
            },
            Instruction::Nop | Instruction::Abort => bounded(next, len),
            _ => {
                let a = self.pop_stack();
                let b = self.pop_stack();
                let c = match op.code {
                    Instruction::BitOr => a | b,
                    Instruction::BitAnd => a & b,
                    Instruction::BitXor => a ^ b,
                    Instruction::Add => a.wrapping_add(b),
                    Instruction::Sub => a.wrapping_sub(b),
                    Instruction::Mult => a.wrapping_mul(b),
                    _ => divide(a, b),
                };
                self.push_stack(c);
                bounded(next, len)
            },
        }
    }
}

/// `ip` taken into `0..len`.
fn bounded(ip: usize, len: usize) -> (r: usize)
    requires
        len > 0,
    ensures
        r as int == bound_ip(ip as int, len as int),
{
    if ip < len { ip } else { 0 }
}

/// The instruction address `next + literal`, taken into `0..len`.
fn jump_target(next: usize, literal: i32, len: usize) -> (r: usize)
    requires
        next <= len,
        len > 0,
    ensures
        r as int == bound_ip(next + literal, len as int),
{
    if literal >= 0 {
        let d = literal as usize;
        if d < len - next { next + d } else { 0 }
    } else {
        let d = (0i64 - literal as i64) as usize;
        if d <= next { next - d } else { 0 }
    }
}

/// The machine's division: see `div_result`.
fn divide(dividend: i32, divisor: i32) -> (r: i32)
    ensures
        r == div_result(dividend, divisor),
{
    if divisor == 0 {
        i32::MAX
    } else {
        match dividend.checked_div(divisor) {
            Some(q) => q,
            None => i32::MIN,
        }
    }
}

/// The program that pushes 2 and 3, adds them, and stops.
pub open spec fn add_two_three() -> Seq<OpCode> {
    seq![
        OpCode { code: Instruction::Push, literal: 2 },
        OpCode { code: Instruction::Push, literal: 3 },
        OpCode { code: Instruction::Add, literal: 0 },
        OpCode { code: Instruction::Abort, literal: 0 },
    ]
}

/// Pushing 2 and 3 and adding them leaves 5 on top of the stack and stops at
/// `Abort` after four instructions, for every budget of at least four steps,
/// on a machine with room for two more values; with a budget of zero the run
/// times out with nothing issued.
pub proof fn add_program_leaves_sum(m: Machine, steps: nat)
    requires
        m.stack.len() + 2 <= m.stack_size,
    ensures
        steps >= 4 ==> run(m, add_two_three(), 0, steps).1 == ExitType::Abort,
        steps >= 4 ==> top(run(m, add_two_three(), 0, steps).0) == 5,
        steps >= 4 ==> run(m, add_two_three(), 0, steps).0.issued == m.issued + 4,
        run(m, add_two_three(), 0, 0) == (m, ExitType::Timeout),
{
    if steps >= 4 {
        let p = add_two_three();
        let m1 = push(Machine { issued: m.issued + 1, ..m }, 2);
        let m2 = push(Machine { issued: m1.issued + 1, ..m1 }, 3);
        let c3 = Machine { issued: m2.issued + 1, ..m2 };
        let m3 = push(pop(pop(c3)), 5);
        assert(m1.stack == m.stack.push(2));
        assert(m2.stack == m.stack.push(2).push(3));
        assert(top(c3) == 3);
        assert(top(pop(c3)) == 2);
        assert((3i32).wrapping_add(2) == 5);
        assert(pop(pop(c3)).stack =~= m.stack);
        assert(step(Machine { issued: m.issued + 1, ..m }, p[0], 1) == (m1, 1int));
        assert(step(Machine { issued: m1.issued + 1, ..m1 }, p[1], 2) == (m2, 2int));
        assert(step(c3, p[2], 3) == (m3, 3int));
        assert(run(m, p, 0, steps) == run(m1, p, 1, (steps - 1) as nat));
        assert(run(m1, p, 1, (steps - 1) as nat) == run(m2, p, 2, (steps - 2) as nat));
        assert(run(m2, p, 2, (steps - 2) as nat) == run(m3, p, 3, (steps - 3) as nat));
        assert(top(m3) == 5);
    }
}

} // verus!
