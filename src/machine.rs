use vstd::prelude::*;

use crate::compiler::{Instruction, Operator};

verus! {

/// Number of cells in the machine's memory.
pub const MEMORY_SIZE: usize = 256;

/// A fault that stops a run.
#[derive(Clone, Copy, Debug, PartialEq, Eq, Structural)]
pub enum RuntimeError {
    /// A memory operand outside `0..MEMORY_SIZE`.
    AddressOutOfRange(i16),
    /// A jump target outside the program.
    JumpOutOfRange(i16),
    /// `DIV` by a memory cell that holds zero.
    DivisionByZero,
    /// An arithmetic result outside the range of `i16`.
    NumericOverflow,
}

/// What one step asks of the world around the machine.
#[derive(Clone, Copy, Debug, PartialEq, Eq, Structural)]
pub enum Action {
    /// Nothing: the machine moved on.
    Continue,
    /// Write this value on a line of its own; the machine moved on.
    Output(i16),
    /// The instruction is `INP` and no value came with the step; the machine did not move.
    NeedInput,
    /// Stop with this exit code; the machine did not move.
    Halt(i16),
    /// Stop on a fault; the machine did not move.
    Fault(RuntimeError),
}

/// The machine: a program counter, an accumulator and a fixed bank of memory cells.
pub struct Machine {
    pub pc: usize,
    pub acc: i16,
    pub memory: Vec<i16>,
}

/// The model of a machine.
pub struct MachineState {
    pub pc: nat,
    pub acc: i16,
    pub memory: Seq<i16>,
}

impl View for Machine {
    type V = MachineState;

    open spec fn view(&self) -> MachineState {
        MachineState { pc: self.pc as nat, acc: self.acc, memory: self.memory@ }
    }
}

/// The state that every run starts from: counter and accumulator zero, every cell zero.
pub open spec fn initial_state() -> MachineState {
    MachineState { pc: 0, acc: 0, memory: Seq::new(MEMORY_SIZE as nat, |i: int| 0i16) }
}

/// Operations whose operand is a memory address.
pub open spec fn uses_address(op: Operator) -> bool {
    match op {
        Operator::ADD | Operator::SUB | Operator::MUL | Operator::DIV | Operator::LDA
        | Operator::STA | Operator::INP | Operator::OUT => true,
        _ => false,
    }
}

/// Operations whose operand is a jump target.
pub open spec fn is_jump(op: Operator) -> bool {
    match op {
        Operator::JMP | Operator::JEZ | Operator::JNE | Operator::JLZ | Operator::JLE
        | Operator::JGZ | Operator::JGE => true,
        _ => false,
    }
}

/// Whether a jump is taken with this accumulator.
pub open spec fn jump_taken(op: Operator, acc: i16) -> bool {
    match op {
        Operator::JMP => true,
        Operator::JEZ => acc == 0,
        Operator::JNE => acc != 0,
        Operator::JLZ => acc < 0,
        Operator::JLE => acc <= 0,
        Operator::JGZ => acc > 0,
        Operator::JGE => acc >= 0,
        _ => false,
    }
}

/// Integer division rounded toward zero.
pub open spec fn trunc_div(x: int, d: int) -> int {
    let q = abs(x) / abs(d);
    if (x < 0) != (d < 0) {
        -q
    } else {
        q
    }
}

pub open spec fn abs(x: int) -> int {
    if x < 0 {
        -x
    } else {
        x
    }
}

/// The exact result of an arithmetic operation on the accumulator and a memory cell.
pub open spec fn arith(op: Operator, acc: int, cell: int) -> int {
    match op {
        Operator::ADD => acc + cell,
        Operator::SUB => acc - cell,
        Operator::MUL => acc * cell,
        Operator::DIV => trunc_div(acc, cell),
        _ => acc,
    }
}

pub open spec fn is_arith(op: Operator) -> bool {
    match op {
        Operator::ADD | Operator::SUB | Operator::MUL | Operator::DIV => true,
        _ => false,
    }
}

pub open spec fn fits_i16(x: int) -> bool {
    i16::MIN <= x <= i16::MAX
}

/// One step of the machine on `prog` from `s`, given the value that an `INP` would read:
/// the next state and what the step asks of the world. Past the last instruction the
/// machine halts with code 0.
pub open spec fn step_spec(prog: Seq<Instruction>, s: MachineState, input: Option<i16>) -> (
    MachineState,
    Action,
) {
    if s.pc >= prog.len() {
        (s, Action::Halt(0))
    } else {
        let ins = prog[s.pc as int];
        let op = ins.operator;
        let x = ins.operand;
        let next = MachineState { pc: s.pc + 1, ..s };
        if uses_address(op) && !(0 <= x < MEMORY_SIZE) {
            (s, Action::Fault(RuntimeError::AddressOutOfRange(x)))
        } else if is_jump(op) {
            if !jump_taken(op, s.acc) {
                (next, Action::Continue)
            } else if 0 <= x < prog.len() {
                (MachineState { pc: x as nat, ..s }, Action::Continue)
            } else {
                (s, Action::Fault(RuntimeError::JumpOutOfRange(x)))
            }
        } else if is_arith(op) {
            let cell = s.memory[x as int];
            if op == Operator::DIV && cell == 0 {
                (s, Action::Fault(RuntimeError::DivisionByZero))
            } else if fits_i16(arith(op, s.acc as int, cell as int)) {
                (
                    MachineState { acc: arith(op, s.acc as int, cell as int) as i16, ..next },
                    Action::Continue,
                )
            } else {
                (s, Action::Fault(RuntimeError::NumericOverflow))
            }
        } else {
            match op {
                Operator::LDA => (MachineState { acc: s.memory[x as int], ..next }, Action::Continue),
                Operator::LDK => (MachineState { acc: x, ..next }, Action::Continue),
                Operator::STA => (
                    MachineState { memory: s.memory.update(x as int, s.acc), ..next },
                    Action::Continue,
                ),
                Operator::INP => match input {
                    None => (s, Action::NeedInput),
                    Some(v) => (
                        MachineState { memory: s.memory.update(x as int, v), ..next },
                        Action::Continue,
                    ),
                },
                Operator::OUT => (next, Action::Output(s.memory[x as int])),
                _ => (s, Action::Halt(x)),
            }
        }
    }
}

impl Machine {
    /// The machine's memory has its fixed size.
    pub open spec fn wf(&self) -> bool {
        self.memory@.len() == MEMORY_SIZE
    }

    /// A machine in the initial state.
    pub fn new() -> (m: Machine)
        ensures
            m.wf(),
            m@ == initial_state(),
    {
        let mut memory: Vec<i16> = Vec::new();
        while memory.len() < MEMORY_SIZE
            invariant
                memory@.len() <= MEMORY_SIZE,
                forall|i: int| 0 <= i < memory@.len() ==> memory@[i] == 0,
            decreases MEMORY_SIZE - memory@.len(),
        {
            memory.push(0);
        }
        let m = Machine { pc: 0, acc: 0, memory };
        assert(m@.memory =~= initial_state().memory);
        m
    }

    /// Runs one instruction of `program`; `input` is the value that an `INP` reads.
    pub fn step(&mut self, program: &Vec<Instruction>, input: Option<i16>) -> (r: Action)
        requires
            old(self).wf(),
        ensures
            final(self).wf(),
            (final(self)@, r) == step_spec(program@, old(self)@, input),
    {
        if self.pc >= program.len() {
            return Action::Halt(0);
        }
        let ins = program[self.pc];
        let op = ins.operator;
        let x = ins.operand;
        let in_memory = 0 <= x && (x as usize) < MEMORY_SIZE;
        if op_uses_address(op) && !in_memory {
            return Action::Fault(RuntimeError::AddressOutOfRange(x));
        }
        if op_is_jump(op) {
            if !op_jump_taken(op, self.acc) {
                self.pc = self.pc + 1;
                return Action::Continue;
            }
            if 0 <= x && (x as usize) < program.len() {
                self.pc = x as usize;
                return Action::Continue;
            }
            return Action::Fault(RuntimeError::JumpOutOfRange(x));
        }
        match op {
            Operator::ADD | Operator::SUB | Operator::MUL | Operator::DIV => {
                let cell = self.memory[x as usize];
                let value = match op {
                    Operator::ADD => self.acc.checked_add(cell),
                    Operator::SUB => self.acc.checked_sub(cell),
                    Operator::MUL => self.acc.checked_mul(cell),
                    _ => {
                        if cell == 0 {
                            return Action::Fault(RuntimeError::DivisionByZero);
                        }
                        self.acc.checked_div(cell)
                    },
                };
                match value {
                    Some(v) => {
                        self.acc = v;
                        self.pc = self.pc + 1;
                        Action::Continue
                    },
                    None => Action::Fault(RuntimeError::NumericOverflow),
                }
            },
            Operator::LDA => {
                self.acc = self.memory[x as usize];
                self.pc = self.pc + 1;
                Action::Continue
            },
            Operator::LDK => {
                self.acc = x;
                self.pc = self.pc + 1;
                Action::Continue
            },
            Operator::STA => {
                self.memory.set(x as usize, self.acc);
                self.pc = self.pc + 1;
                Action::Continue
            },
            Operator::INP => match input {
                None => Action::NeedInput,
                Some(v) => {
                    self.memory.set(x as usize, v);
                    self.pc = self.pc + 1;
                    Action::Continue
                },
            },
            Operator::OUT => {
                let v = self.memory[x as usize];
                self.pc = self.pc + 1;
                Action::Output(v)
            },
            _ => Action::Halt(x),
        }
    }
}

fn op_uses_address(op: Operator) -> (r: bool)
    ensures
        r == uses_address(op),
{
    match op {
        Operator::ADD | Operator::SUB | Operator::MUL | Operator::DIV | Operator::LDA
        | Operator::STA | Operator::INP | Operator::OUT => true,
        _ => false,
    }
}

fn op_is_jump(op: Operator) -> (r: bool)
    ensures
        r == is_jump(op),
{
    match op {
        Operator::JMP | Operator::JEZ | Operator::JNE | Operator::JLZ | Operator::JLE
        | Operator::JGZ | Operator::JGE => true,
        _ => false,
    }
}

fn op_jump_taken(op: Operator, acc: i16) -> (r: bool)
    ensures
        r == jump_taken(op, acc),
{
    match op {
        Operator::JMP => true,
        Operator::JEZ => acc == 0,
        Operator::JNE => acc != 0,
        Operator::JLZ => acc < 0,
        Operator::JLE => acc <= 0,
        Operator::JGZ => acc > 0,
        Operator::JGE => acc >= 0,
        _ => false,
    }
}

/// How a run ended.
#[derive(Clone, Copy, Debug, PartialEq, Eq, Structural)]
pub enum RunEnd {
    /// `HLT`, or the counter ran past the last instruction (code 0).
    Halted(i16),
    /// A runtime fault.
    Failed(RuntimeError),
    /// An `INP` found no input left.
    InputExhausted,
    /// The step budget ran out first.
    OutOfFuel,
}

/// The values a run wrote, in order, and how it ended.
#[derive(Clone, Debug, PartialEq, Eq)]
pub struct Run {
    pub outputs: Vec<i16>,
    pub end: RunEnd,
}

/// Whether the step from `s` reads an input value.
pub open spec fn reads_input(prog: Seq<Instruction>, s: MachineState) -> bool {
    s.pc < prog.len() && prog[s.pc as int].operator == Operator::INP
}

/// At most `fuel` steps of `prog` from `s`, with `inputs` as the values that `INP` reads in
/// order: the values written, and how the run ended.
pub open spec fn run_spec(prog: Seq<Instruction>, s: MachineState, inputs: Seq<i16>, fuel: nat) -> (
    Seq<i16>,
    RunEnd,
)
    decreases fuel,
{
    if fuel == 0 {
        (seq![], RunEnd::OutOfFuel)
    } else {
        let input = if inputs.len() > 0 {
            Some(inputs[0])
        } else {
            None
        };
        let rest = if reads_input(prog, s) && inputs.len() > 0 {
            inputs.drop_first()
        } else {
            inputs
        };
        let (next, action) = step_spec(prog, s, input);
        match action {
            Action::Continue => run_spec(prog, next, rest, (fuel - 1) as nat),
            Action::Output(v) => {
                let (out, end) = run_spec(prog, next, rest, (fuel - 1) as nat);
                (seq![v] + out, end)
            },
            Action::NeedInput => (seq![], RunEnd::InputExhausted),
            Action::Halt(c) => (seq![], RunEnd::Halted(c)),
            Action::Fault(e) => (seq![], RunEnd::Failed(e)),
        }
    }
}

/// Runs `program` from the initial state for at most `fuel` steps, reading `inputs` in order.
pub fn run(program: &Vec<Instruction>, inputs: &Vec<i16>, fuel: usize) -> (r: Run)
    ensures
        (r.outputs@, r.end) == run_spec(program@, initial_state(), inputs@, fuel as nat),
{
    let mut m = Machine::new();
    let mut outputs: Vec<i16> = Vec::new();
    let mut next_input: usize = 0;
    let mut left = fuel;
    assert(inputs@.skip(0) =~= inputs@);
    assert(outputs@ + run_spec(program@, m@, inputs@, fuel as nat).0 =~= run_spec(
        program@,
        m@,
        inputs@,
        fuel as nat,
    ).0);
    while left > 0
        invariant
            m.wf(),
            next_input <= inputs@.len(),
            run_spec(program@, initial_state(), inputs@, fuel as nat) == ({
                let (out, end) = run_spec(
                    program@,
                    m@,
                    inputs@.skip(next_input as int),
                    left as nat,
                );
                (outputs@ + out, end)
            }),
        decreases left,
    {
        let ghost rest = inputs@.skip(next_input as int);
        let ghost before = outputs@;
        let ghost s = m@;
        let input = if next_input < inputs.len() {
            Some(inputs[next_input])
        } else {
            None
        };
        let reads = m.pc < program.len() && program[m.pc].operator == Operator::INP;
        assert(reads == reads_input(program@, s));
        let action = m.step(program, input);
        if reads && next_input < inputs.len() {
            assert(rest.drop_first() =~= inputs@.skip(next_input + 1));
            next_input = next_input + 1;
        }
        left = left - 1;
        match action {
            Action::Continue => {},
            Action::Output(v) => {
                outputs.push(v);
                proof {
                    let (out, end) = run_spec(
                        program@,
                        m@,
                        inputs@.skip(next_input as int),
                        left as nat,
                    );
                    assert(before + (seq![v] + out) =~= outputs@ + out);
                }
            },
            Action::NeedInput => {
                assert(outputs@ + Seq::<i16>::empty() =~= outputs@);
                return Run { outputs, end: RunEnd::InputExhausted };
            },
            Action::Halt(c) => {
                assert(outputs@ + Seq::<i16>::empty() =~= outputs@);
                return Run { outputs, end: RunEnd::Halted(c) };
            },
            Action::Fault(e) => {
                assert(outputs@ + Seq::<i16>::empty() =~= outputs@);
                return Run { outputs, end: RunEnd::Failed(e) };
            },
        }
    }
    assert(outputs@ + Seq::<i16>::empty() =~= outputs@);
    Run { outputs, end: RunEnd::OutOfFuel }
}

/// The process exit status for a halt code: its low eight bits.
pub fn exit_status(code: i16) -> (r: i32)
    ensures
        r == code as int % 256,
        0 <= r < 256,
{
    let c = code as i32;
    if c >= 0 {
        c % 256
    } else {
        (c + 65536) % 256
    }
}

/// Whether no instruction of `prog` reads input or halts.
pub open spec fn without_input_or_halt(prog: Seq<Instruction>) -> bool {
    forall|i: int|
        0 <= i < prog.len() ==> (#[trigger] prog[i]).operator != Operator::INP
            && prog[i].operator != Operator::HLT
}

/// In a program with no `INP` and no `HLT`, a step never waits for input, and it halts
/// exactly when the counter is past the last instruction, with exit code 0.
pub proof fn lemma_halt_only_past_end(prog: Seq<Instruction>, s: MachineState, input: Option<i16>)
    requires
        without_input_or_halt(prog),
    ensures
        step_spec(prog, s, input).1 != Action::NeedInput,
        step_spec(prog, s, input).1 is Halt <==> s.pc >= prog.len(),
        step_spec(prog, s, input).1 is Halt ==> step_spec(prog, s, input).1 == Action::Halt(0),
{
    if s.pc < prog.len() {
        assert(prog[s.pc as int].operator != Operator::INP);
    }
}

/// A bounded run of a program with no `INP` and no `HLT` never runs out of input, and if it
/// halts, it halts with exit code 0.
pub proof fn lemma_run_without_input_or_halt(
    prog: Seq<Instruction>,
    s: MachineState,
    inputs: Seq<i16>,
    fuel: nat,
)
    requires
        without_input_or_halt(prog),
    ensures
        run_spec(prog, s, inputs, fuel).1 != RunEnd::InputExhausted,
        run_spec(prog, s, inputs, fuel).1 is Halted ==> run_spec(prog, s, inputs, fuel).1
            == RunEnd::Halted(0),
    decreases fuel,
{
    if fuel > 0 {
        let input = if inputs.len() > 0 {
            Some(inputs[0])
        } else {
            None
        };
        let rest = if reads_input(prog, s) && inputs.len() > 0 {
            inputs.drop_first()
        } else {
            inputs
        };
        lemma_halt_only_past_end(prog, s, input);
        let next = step_spec(prog, s, input).0;
        lemma_run_without_input_or_halt(prog, next, rest, (fuel - 1) as nat);
    }
}

/// Only `STA` and `INP` change memory, and only at their operand; `OUT` writes the memory
/// cell it names, not the accumulator.
pub proof fn lemma_memory_writers(prog: Seq<Instruction>, s: MachineState, input: Option<i16>)
    requires
        s.memory.len() == MEMORY_SIZE,
    ensures
        ({
            let (next, action) = step_spec(prog, s, input);
            &&& next.memory.len() == MEMORY_SIZE
            &&& (s.pc >= prog.len() || (prog[s.pc as int].operator != Operator::STA
                && prog[s.pc as int].operator != Operator::INP)) ==> next.memory == s.memory
            &&& forall|a: int|
                0 <= a < MEMORY_SIZE && (s.pc >= prog.len() || a != prog[s.pc as int].operand)
                    ==> #[trigger] next.memory[a] == s.memory[a]
            &&& action is Output ==> s.pc < prog.len() && action == Action::Output(
                s.memory[prog[s.pc as int].operand as int],
            )
        }),
{
}

/// `STA a` followed by `LDA a` leaves the accumulator holding the value it had, whatever
/// that value is.
pub proof fn lemma_store_then_load(prog: Seq<Instruction>, s: MachineState, a: i16)
    requires
        s.memory.len() == MEMORY_SIZE,
        0 <= a < MEMORY_SIZE,
        s.pc + 1 < prog.len(),
        prog[s.pc as int] == (Instruction { operator: Operator::STA, operand: a }),
        prog[s.pc + 1int] == (Instruction { operator: Operator::LDA, operand: a }),
    ensures
        ({
            let (s1, a1) = step_spec(prog, s, None);
            let (s2, a2) = step_spec(prog, s1, None);
            &&& a1 == Action::Continue
            &&& a2 == Action::Continue
            &&& s2.acc == s.acc
            &&& s2.memory[a as int] == s.acc
            &&& s2.pc == s.pc + 2
        }),
{
}

/// Whether the step from `s` can write memory cell `a`: it is a `STA a` or an `INP a`.
pub open spec fn writes_cell(prog: Seq<Instruction>, s: MachineState, a: i16) -> bool {
    s.pc < prog.len() && prog[s.pc as int].operand == a && (prog[s.pc as int].operator
        == Operator::STA || prog[s.pc as int].operator == Operator::INP)
}

/// `trace` is a sequence of machine states, each reached from the one before by a step of
/// `prog` that was handed the matching entry of `inputs`.
pub open spec fn is_trace(prog: Seq<Instruction>, trace: Seq<MachineState>, inputs: Seq<Option<i16>>) -> bool {
    &&& inputs.len() + 1 == trace.len()
    &&& forall|i: int|
        0 <= i < inputs.len() ==> trace[i + 1] == step_spec(prog, trace[i], #[trigger] inputs[i]).0
}

proof fn lemma_cell_kept(
    prog: Seq<Instruction>,
    trace: Seq<MachineState>,
    inputs: Seq<Option<i16>>,
    a: i16,
    j: int,
)
    requires
        is_trace(prog, trace, inputs),
        0 <= a < MEMORY_SIZE,
        1 <= j < trace.len(),
        trace[1].memory.len() == MEMORY_SIZE,
        forall|i: int| 1 <= i < j ==> !writes_cell(prog, #[trigger] trace[i], a),
    ensures
        trace[j].memory.len() == MEMORY_SIZE,
        trace[j].memory[a as int] == trace[1].memory[a as int],
    decreases j,
{
    if j > 1 {
        lemma_cell_kept(prog, trace, inputs, a, j - 1);
        let s = trace[j - 1];
        assert(trace[j] == step_spec(prog, s, inputs[j - 1]).0);
        assert(!writes_cell(prog, s, a));
        lemma_memory_writers(prog, s, inputs[j - 1]);
    }
}

/// After `STA a` stores the accumulator, any steps that do not themselves execute `STA a` or
/// `INP a` keep that value in cell `a`, and an `LDA a` then loads exactly the value stored.
pub proof fn lemma_load_returns_stored(
    prog: Seq<Instruction>,
    trace: Seq<MachineState>,
    inputs: Seq<Option<i16>>,
    a: i16,
)
    requires
        is_trace(prog, trace, inputs),
        trace.len() >= 3,
        trace[0].memory.len() == MEMORY_SIZE,
        0 <= a < MEMORY_SIZE,
        trace[0].pc < prog.len(),
        prog[trace[0].pc as int] == (Instruction { operator: Operator::STA, operand: a }),
        forall|i: int| 1 <= i < trace.len() - 2 ==> !writes_cell(prog, #[trigger] trace[i], a),
        trace[trace.len() - 2].pc < prog.len(),
        prog[trace[trace.len() - 2].pc as int] == (Instruction {
            operator: Operator::LDA,
            operand: a,
        }),
    ensures
        trace.last().acc == trace[0].acc,
        forall|i: int| 1 <= i < trace.len() ==> (#[trigger] trace[i]).memory[a as int] == trace[0].acc,
{
    let k = trace.len() - 1;
    assert(trace[1] == step_spec(prog, trace[0], inputs[0]).0);
    assert forall|i: int| 1 <= i < trace.len() implies (#[trigger] trace[i]).memory[a as int]
        == trace[0].acc by {
        if i <= k - 1 {
            lemma_cell_kept(prog, trace, inputs, a, i);
        } else {
            lemma_cell_kept(prog, trace, inputs, a, k - 1);
            assert(trace[k] == step_spec(prog, trace[k - 1], inputs[k - 1]).0);
        }
    }
    lemma_cell_kept(prog, trace, inputs, a, k - 1);
    assert(trace[k] == step_spec(prog, trace[k - 1], inputs[k - 1]).0);
}

} // verus!
