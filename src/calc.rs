//! The arithmetic-program domain: individuals are stack-machine programs,
//! scored on how well they compute `a * b + a` from two words of memory.
use vstd::prelude::*;

use crate::population::{Generator, Individual};
use crate::random::random_range;
use crate::svm::{run, ExitType, Machine, OpCode, LITERAL_BOUND, SVM};

verus! {

/// A candidate program.
#[derive(Clone)]
pub struct CalcIndividual {
    pub ops: Vec<OpCode>,
}

/// The fewest and one more than the most opcodes of a fresh program.
pub const MIN_FRESH_OPS: usize = 5;
pub const MAX_FRESH_OPS: usize = 25;

/// How a program is changed: the opcode at a position replaced, the opcode at
/// a position removed, or an opcode appended. A program too short for the
/// chosen change (none to replace; two or fewer to remove from) has the
/// opcode appended instead.
pub open spec fn mutation(ops: Seq<OpCode>, action: usize, position: usize, op: OpCode) -> Seq<OpCode> {
    if action == 0 && position < ops.len() {
        ops.update(position as int, op)
    } else if action == 1 && ops.len() > 2 && position < ops.len() {
        ops.remove(position as int)
    } else {
        ops.push(op)
    }
}

impl CalcIndividual {
    /// A random program of `MIN_FRESH_OPS` to `MAX_FRESH_OPS - 1` opcodes.
    pub fn new() -> (r: CalcIndividual)
        ensures
            MIN_FRESH_OPS <= r.ops.len() < MAX_FRESH_OPS,
            small_literals(r.ops@),
    {
        let count = random_range(MIN_FRESH_OPS, MAX_FRESH_OPS);
        let mut ops: Vec<OpCode> = Vec::new();
        let mut i: usize = 0;
        while i < count
            invariant
                i <= count,
                ops.len() == i,
                small_literals(ops@),
            decreases count - i,
        {
            ops.push(OpCode::rand());
            i = i + 1;
        }
        CalcIndividual { ops }
    }

    /// This program changed as `mutation` describes.
    pub fn apply_mutation(&self, action: usize, position: usize, op: OpCode) -> (r: CalcIndividual)
        ensures
            r.ops@ == mutation(self.ops@, action, position, op),
    {
        let l = self.ops.len();
        let mut ops: Vec<OpCode> = Vec::new();
        let mut i: usize = 0;
        let removing = action == 1 && l > 2 && position < l;
        while i < l
            invariant
                l == self.ops.len(),
                i <= l,
                removing ==> position < l,
                ops@ == (if removing && position < i {
                    self.ops@.take(i as int).remove(position as int)
                } else {
                    self.ops@.take(i as int)
                }),
            decreases l - i,
        {
            if !(removing && i == position) {
                ops.push(self.ops[i]);
            }
            proof {
                let t = self.ops@.take(i as int);
                assert(self.ops@.take(i + 1) == t.push(self.ops@[i as int]));
                if removing && position < i {
                    assert(t.push(self.ops@[i as int]).remove(position as int) =~= t.remove(position as int).push(self.ops@[i as int]));
                }
                if removing && position == i {
                    assert(t.push(self.ops@[i as int]).remove(position as int) =~= t);
                }
            }
            i = i + 1;
        }
        assert(self.ops@.take(l as int) =~= self.ops@);
        if action == 0 && position < l {
            ops.set(position, op);
        } else if !removing {
            ops.push(op);
        }
        CalcIndividual { ops }
    }
}

/// Every opcode of `ops` carries a literal in `0..LITERAL_BOUND`.
pub open spec fn small_literals(ops: Seq<OpCode>) -> bool {
    forall|i: int| 0 <= i < ops.len() ==> 0 <= #[trigger] ops[i].literal < LITERAL_BOUND
}

impl Individual for CalcIndividual {
    /// One replacement, removal or append of an opcode whose literal is in
    /// `0..LITERAL_BOUND`.
    open spec fn is_mutant_of(&self, parent: &Self) -> bool {
        exists|action: usize, position: usize, op: OpCode|
            action < 3 && 0 <= op.literal < LITERAL_BOUND
            && #[trigger] mutation(parent.ops@, action, position, op) == self.ops@
    }

    /// Replaces, removes or appends one random opcode, each with equal chance.
    fn mutate(&self) -> (r: CalcIndividual)
        ensures
            r.ops.len() + 1 >= self.ops.len(),
            r.ops.len() <= self.ops.len() + 1,
            r.ops.len() >= 1,
            self.ops.len() >= 2 ==> r.ops.len() >= 2,
    {
        let action = random_range(0, 3);
        let position = if self.ops.len() > 0 { random_range(0, self.ops.len()) } else { 0 };
        let op = OpCode::rand();
        let r = self.apply_mutation(action, position, op);
        assert(mutation(self.ops@, action, position, op) == r.ops@);
        r
    }
}

/// Fresh random programs; the offspring of two programs is a mutation of the
/// first.
pub struct CalcGenerator {}

impl Generator<CalcIndividual> for CalcGenerator {
    /// A program of `MIN_FRESH_OPS` to `MAX_FRESH_OPS - 1` opcodes with small
    /// literals.
    open spec fn is_generated(&self, x: &CalcIndividual) -> bool {
        MIN_FRESH_OPS <= x.ops.len() < MAX_FRESH_OPS && small_literals(x.ops@)
    }

    /// A mutation of the first parent; the second plays no part.
    open spec fn is_offspring(&self, a: &CalcIndividual, b: &CalcIndividual, child: &CalcIndividual) -> bool {
        child.is_mutant_of(a)
    }

    fn generate(&self) -> CalcIndividual {
        CalcIndividual::new()
    }

    fn evolve(&self, a: &CalcIndividual, _b: &CalcIndividual) -> CalcIndividual {
        a.mutate()
    }
}

/// The largest operand drawn for a trial, plus one.
pub const OPERAND_BOUND: usize = 10000;

/// A random operand in `1..OPERAND_BOUND`.
pub fn get_val() -> (r: i32)
    ensures
        1 <= r < OPERAND_BOUND,
{
    random_range(1, OPERAND_BOUND) as i32
}

/// The value a program should leave in memory word 3 for operands `a`, `b`.
pub open spec fn expected_of(a: int, b: int) -> int {
    a * b + a
}

pub fn expected_value(a: i32, b: i32) -> (r: i64)
    ensures
        r == expected_of(a as int, b as int),
{
    let ghost (x, y) = (a as int, b as int);
    assert(-0x4000_0000_0000_0000 <= x * y <= 0x4000_0000_0000_0000) by (nonlinear_arith)
        requires
            -0x8000_0000 <= x < 0x8000_0000,
            -0x8000_0000 <= y < 0x8000_0000,
    ;
    a as i64 * b as i64 + a as i64
}

/// The machine a trial starts from: 100 zeroed words holding `a` at address
/// 0 and `b` at address 1, and an empty stack of 100 values.
pub open spec fn trial_machine(a: i32, b: i32) -> Machine {
    Machine {
        memory: Seq::new(100, |i: int| 0i32).update(0, a).update(1, b),
        stack: Seq::empty(),
        stack_size: 100,
        issued: 0,
    }
}

/// The step budget of one trial.
pub const TRIAL_STEPS: i32 = 25;

/// Runs `ops` on operands `a` and `b` for `TRIAL_STEPS` steps: how the run
/// ended and the word left at address 3.
pub fn run_trial(ops: &Vec<OpCode>, a: i32, b: i32) -> (r: (ExitType, i32))
    requires
        ops.len() > 0,
    ensures
        r.0 == run(trial_machine(a, b), ops@, 0, TRIAL_STEPS as nat).1,
        r.1 == run(trial_machine(a, b), ops@, 0, TRIAL_STEPS as nat).0.memory[3],
{
    let mut vm = SVM::new(100, 100);
    vm.poke_mem(0, a);
    vm.poke_mem(1, b);
    assert(vm.memory@ =~= trial_machine(a, b).memory);
    assert(vm.stack@ =~= trial_machine(a, b).stack);
    assert(vm.machine() == trial_machine(a, b));
    let exit = vm.execute(ops, TRIAL_STEPS);
    proof {
        lemma_run_keeps_memory_len(trial_machine(a, b), ops@, 0, TRIAL_STEPS as nat);
    }
    let val = vm.peek_mem(3);
    (exit, val)
}

/// A run never changes the size of memory.
proof fn lemma_run_keeps_memory_len(m: Machine, program: Seq<OpCode>, ip: int, steps: nat)
    requires
        program.len() > 0,
    ensures
        run(m, program, ip, steps).0.memory.len() == m.memory.len(),
    decreases steps,
{
    if steps > 0 {
        let at = crate::svm::bound_ip(ip, program.len() as int);
        let counted = Machine { issued: m.issued + 1, ..m };
        let (m2, next) = crate::svm::step(counted, program[at], at + 1);
        lemma_run_keeps_memory_len(m2, program, next, (steps - 1) as nat);
    }
}

/// The bonus, in tenths, for a correct program of `len` opcodes: shorter
/// programs earn more.
pub open spec fn length_bonus(len: nat) -> nat {
    if len < 10 { 20 } else if len < 15 { 18 } else if len < 20 { 17 } else if len < 25 { 16 } else if len < 30 { 15 } else { 10 }
}

/// The bonus, in tenths, earned by a trial: `length_bonus` of the program
/// when it stopped at `Abort` with the expected value, zero otherwise.
pub open spec fn trial_bonus(exit: ExitType, expected: int, val: int, len: nat) -> nat {
    if exit == ExitType::Abort && expected == val { length_bonus(len) } else { 0 }
}

pub fn bonus_tenths(exit: ExitType, expected: i64, val: i32, len: usize) -> (r: u32)
    ensures
        r == trial_bonus(exit, expected as int, val as int, len as nat),
{
    match exit {
        ExitType::Abort => {
            if expected == val as i64 {
                if len < 10 {
                    20
                } else if len < 15 {
                    18
                } else if len < 20 {
                    17
                } else if len < 25 {
                    16
                } else if len < 30 {
                    15
                } else {
                    10
                }
            } else {
                0
            }
        },
        ExitType::Timeout => 0,
    }
}

} // verus!
