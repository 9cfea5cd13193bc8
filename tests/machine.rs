use accu_vm::compiler::{compile, Instruction, Operator};
use accu_vm::machine::{exit_status, run, Action, Machine, RunEnd, RuntimeError};

fn run_source(src: &str, inputs: Vec<i16>) -> (Vec<i16>, RunEnd) {
    let p = compile(src).unwrap();
    let r = run(&p, &inputs, 10_000);
    (r.outputs, r.end)
}

#[test]
fn add_leaves_sum_in_accumulator() {
    // The sum stays in the accumulator: OUT 0 writes cell 0, which still holds 5.
    assert_eq!(
        run_source("LDK 5\nSTA 0\nLDK 3\nADD 0\nOUT 0\nHLT 0", vec![]),
        (vec![5], RunEnd::Halted(0))
    );
    assert_eq!(
        run_source("LDK 5\nSTA 0\nLDK 3\nADD 0\nSTA 1\nOUT 1\nHLT 0", vec![]),
        (vec![8], RunEnd::Halted(0))
    );
}

#[test]
fn out_reads_memory_not_accumulator() {
    assert_eq!(
        run_source("LDK 5\nOUT 0\nHLT 0", vec![]),
        (vec![0], RunEnd::Halted(0))
    );
}

#[test]
fn jez_not_taken_falls_through() {
    assert_eq!(
        run_source("LDK 7\nSTA 0\nLDK 0\nSUB 0\nJEZ 6\nOUT 0\nHLT 1\nOUT 0\nHLT 0", vec![]),
        (vec![7], RunEnd::Halted(1))
    );
}

#[test]
fn jez_taken_jumps_to_absolute_index() {
    assert_eq!(
        run_source("LDK 7\nSTA 0\nLDK 7\nSUB 0\nJEZ 7\nOUT 0\nHLT 1\nOUT 0\nHLT 0", vec![]),
        (vec![7], RunEnd::Halted(0))
    );
}

#[test]
fn jump_targets_count_only_instructions() {
    let src = "; start\nLDK 0\n\nJEZ 3\n; skipped\nHLT 1\nHLT 2";
    assert_eq!(run_source(src, vec![]), (vec![], RunEnd::Halted(2)));
}

#[test]
fn division_by_zero_is_fatal() {
    assert_eq!(
        run_source("LDK 5\nLDK 0\nDIV 0\nHLT 0", vec![]),
        (vec![], RunEnd::Failed(RuntimeError::DivisionByZero))
    );
}

#[test]
fn division_truncates_toward_zero() {
    assert_eq!(
        run_source("LDK 2\nSTA 0\nLDK -7\nDIV 0\nSTA 1\nOUT 1\nHLT 0", vec![]),
        (vec![-3], RunEnd::Halted(0))
    );
}

#[test]
fn store_then_load_keeps_negative_value() {
    assert_eq!(
        run_source("LDK -123\nSTA 7\nLDK 0\nLDA 7\nSTA 8\nOUT 8\nHLT 0", vec![]),
        (vec![-123], RunEnd::Halted(0))
    );
    assert_eq!(
        run_source("LDK -32768\nSTA 255\nLDK 1\nLDA 255\nSTA 0\nOUT 0\nHLT 0", vec![]),
        (vec![-32768], RunEnd::Halted(0))
    );
}

#[test]
fn store_then_load_steps() {
    let p = vec![
        Instruction { operator: Operator::STA, operand: 4 },
        Instruction { operator: Operator::LDA, operand: 4 },
    ];
    let mut m = Machine::new();
    m.acc = -77;
    assert_eq!(m.step(&p, None), Action::Continue);
    assert_eq!(m.step(&p, None), Action::Continue);
    assert_eq!(m.acc, -77);
    assert_eq!(m.memory[4], -77);
    assert_eq!(m.pc, 2);
}

#[test]
fn running_past_the_end_halts_with_zero() {
    assert_eq!(
        run_source("LDK 1\nSTA 0\nOUT 0", vec![]),
        (vec![1], RunEnd::Halted(0))
    );
    assert_eq!(run_source("", vec![]), (vec![], RunEnd::Halted(0)));
}

#[test]
fn endless_jump_loop_uses_up_fuel() {
    assert_eq!(run_source("JMP 0", vec![]), (vec![], RunEnd::OutOfFuel));
}

#[test]
fn input_is_read_in_order() {
    let src = "INP 0\nINP 1\nLDA 0\nSUB 1\nSTA 2\nOUT 2\nHLT 0";
    assert_eq!(run_source(src, vec![4, 9]), (vec![-5], RunEnd::Halted(0)));
    assert_eq!(run_source(src, vec![4]), (vec![], RunEnd::InputExhausted));
}

#[test]
fn step_waits_for_input() {
    let p = vec![Instruction { operator: Operator::INP, operand: 3 }];
    let mut m = Machine::new();
    assert_eq!(m.step(&p, None), Action::NeedInput);
    assert_eq!(m.pc, 0);
    assert_eq!(m.step(&p, Some(42)), Action::Continue);
    assert_eq!(m.memory[3], 42);
    assert_eq!(m.pc, 1);
    assert_eq!(m.step(&p, None), Action::Halt(0));
}

#[test]
fn step_output_and_halt() {
    let p = vec![
        Instruction { operator: Operator::OUT, operand: 0 },
        Instruction { operator: Operator::HLT, operand: 3 },
    ];
    let mut m = Machine::new();
    assert_eq!(m.step(&p, None), Action::Output(0));
    assert_eq!(m.step(&p, None), Action::Halt(3));
    assert_eq!(m.pc, 1);
}

#[test]
fn arithmetic_overflow_is_fatal() {
    let overflow = RunEnd::Failed(RuntimeError::NumericOverflow);
    assert_eq!(run_source("LDK 1\nSTA 0\nLDK 32767\nADD 0", vec![]), (vec![], overflow));
    assert_eq!(run_source("LDK 2\nSTA 0\nLDK -32768\nSUB 0", vec![]), (vec![], overflow));
    assert_eq!(run_source("LDK 300\nSTA 0\nMUL 0", vec![]), (vec![], overflow));
    assert_eq!(run_source("LDK -1\nSTA 0\nLDK -32768\nDIV 0", vec![]), (vec![], overflow));
}

#[test]
fn arithmetic_exact_values() {
    let src = "LDK 6\nSTA 0\nLDK -7\nMUL 0\nSTA 1\nOUT 1\nSUB 0\nSTA 2\nOUT 2\nHLT 0";
    assert_eq!(run_source(src, vec![]), (vec![-42, -48], RunEnd::Halted(0)));
}

#[test]
fn address_out_of_range_is_fatal() {
    assert_eq!(
        run_source("LDA 256", vec![]),
        (vec![], RunEnd::Failed(RuntimeError::AddressOutOfRange(256)))
    );
    assert_eq!(
        run_source("STA -1", vec![]),
        (vec![], RunEnd::Failed(RuntimeError::AddressOutOfRange(-1)))
    );
}

#[test]
fn jump_out_of_range_is_fatal() {
    assert_eq!(
        run_source("JMP 5", vec![]),
        (vec![], RunEnd::Failed(RuntimeError::JumpOutOfRange(5)))
    );
    assert_eq!(
        run_source("LDK 1\nJGZ -1", vec![]),
        (vec![], RunEnd::Failed(RuntimeError::JumpOutOfRange(-1)))
    );
    // An untaken jump does not check its target.
    assert_eq!(run_source("JNE 99\nHLT 4", vec![]), (vec![], RunEnd::Halted(4)));
}

#[test]
fn conditional_jumps_follow_accumulator() {
    // Each program halts with 1 when the jump is taken and 2 when it is not.
    let cases = [
        ("LDK 0", "JEZ", 1),
        ("LDK 3", "JEZ", 2),
        ("LDK 3", "JNE", 1),
        ("LDK 0", "JNE", 2),
        ("LDK -1", "JLZ", 1),
        ("LDK 0", "JLZ", 2),
        ("LDK 0", "JLE", 1),
        ("LDK 1", "JLE", 2),
        ("LDK 1", "JGZ", 1),
        ("LDK 0", "JGZ", 2),
        ("LDK 0", "JGE", 1),
        ("LDK -1", "JGE", 2),
    ];
    for (load, jump, code) in cases {
        let src = format!("{}\n{} 3\nHLT 2\nHLT 1", load, jump);
        assert_eq!(run_source(&src, vec![]), (vec![], RunEnd::Halted(code)));
    }
}

#[test]
fn exit_status_keeps_low_byte() {
    assert_eq!(exit_status(0), 0);
    assert_eq!(exit_status(3), 3);
    assert_eq!(exit_status(300), 44);
    assert_eq!(exit_status(-1), 255);
    assert_eq!(exit_status(-32768), 0);
}

#[test]
fn new_machine_is_zeroed() {
    let m = Machine::new();
    assert_eq!(m.pc, 0);
    assert_eq!(m.acc, 0);
    assert_eq!(m.memory.len(), 256);
    assert!(m.memory.iter().all(|&c| c == 0));
}
