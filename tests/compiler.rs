use accu_vm::compiler::{compile, compile_line, CompileError, CompileErrorKind, Instruction, Operator};
use accu_vm::text::{parse_number, upper_range, NumberError};

fn ins(operator: Operator, operand: i16) -> Instruction {
    Instruction { operator, operand }
}

#[test]
fn compile_line_reads_mnemonic_and_operand() {
    assert_eq!(compile_line("ADD 0"), Ok(Some(ins(Operator::ADD, 0))));
    assert_eq!(compile_line("  LDK   -12  "), Ok(Some(ins(Operator::LDK, -12))));
    assert_eq!(compile_line("JGE +7"), Ok(Some(ins(Operator::JGE, 7))));
}

#[test]
fn compile_line_comment_and_blank_give_nothing() {
    assert_eq!(compile_line("; just a comment"), Ok(None));
    assert_eq!(compile_line(""), Ok(None));
    assert_eq!(compile_line("   \t  "), Ok(None));
    assert_eq!(compile_line("   ; indented comment"), Ok(None));
}

#[test]
fn compile_line_strips_trailing_comment() {
    assert_eq!(compile_line("LDK 5 ; five"), Ok(Some(ins(Operator::LDK, 5))));
    assert_eq!(compile_line("OUT 3;x;y"), Ok(Some(ins(Operator::OUT, 3))));
}

#[test]
fn compile_line_splits_on_any_whitespace() {
    assert_eq!(compile_line("LDK\t5"), Ok(Some(ins(Operator::LDK, 5))));
    assert_eq!(compile_line("STA \t 9\r"), Ok(Some(ins(Operator::STA, 9))));
    assert_eq!(compile_line("OUT\u{3000}4"), Ok(Some(ins(Operator::OUT, 4))));
}

#[test]
fn compile_line_ignores_letter_case() {
    assert_eq!(compile_line("add 0"), compile_line("ADD 0"));
    assert_eq!(compile_line("jEz 2"), Ok(Some(ins(Operator::JEZ, 2))));
}

#[test]
fn compile_line_knows_every_mnemonic() {
    let all = [
        ("ADD", Operator::ADD),
        ("SUB", Operator::SUB),
        ("MUL", Operator::MUL),
        ("DIV", Operator::DIV),
        ("LDA", Operator::LDA),
        ("LDK", Operator::LDK),
        ("STA", Operator::STA),
        ("INP", Operator::INP),
        ("OUT", Operator::OUT),
        ("HLT", Operator::HLT),
        ("JMP", Operator::JMP),
        ("JEZ", Operator::JEZ),
        ("JNE", Operator::JNE),
        ("JLZ", Operator::JLZ),
        ("JLE", Operator::JLE),
        ("JGZ", Operator::JGZ),
        ("JGE", Operator::JGE),
    ];
    for (name, op) in all {
        assert_eq!(compile_line(&format!("{} 1", name)), Ok(Some(ins(op, 1))));
        assert_eq!(compile_line(&format!("{} 1", name.to_lowercase())), Ok(Some(ins(op, 1))));
    }
}

#[test]
fn compile_line_missing_operand() {
    assert_eq!(
        compile_line("ADD"),
        Err(CompileErrorKind::MissingOperand("ADD".to_string()))
    );
    assert_eq!(
        compile_line("  HLT   ; no code"),
        Err(CompileErrorKind::MissingOperand("HLT".to_string()))
    );
}

#[test]
fn compile_line_unknown_mnemonic() {
    assert_eq!(
        compile_line("FOO 1"),
        Err(CompileErrorKind::UnknownMnemonic("FOO".to_string()))
    );
    assert_eq!(
        compile_line("ADDX 1"),
        Err(CompileErrorKind::UnknownMnemonic("ADDX".to_string()))
    );
}

#[test]
fn compile_line_invalid_operand() {
    assert_eq!(
        compile_line("ADD x"),
        Err(CompileErrorKind::InvalidOperand("x".to_string(), NumberError::InvalidDigit))
    );
    assert_eq!(
        compile_line("LDK 40000"),
        Err(CompileErrorKind::InvalidOperand("40000".to_string(), NumberError::PosOverflow))
    );
    assert_eq!(
        compile_line("LDK -40000"),
        Err(CompileErrorKind::InvalidOperand("-40000".to_string(), NumberError::NegOverflow))
    );
    assert_eq!(
        compile_line("LDK -"),
        Err(CompileErrorKind::InvalidOperand("-".to_string(), NumberError::InvalidDigit))
    );
    assert_eq!(
        compile_line("LDK 1 2"),
        Err(CompileErrorKind::InvalidOperand("1 2".to_string(), NumberError::InvalidDigit))
    );
}

#[test]
fn compile_line_operand_limits() {
    assert_eq!(compile_line("LDK 32767"), Ok(Some(ins(Operator::LDK, 32767))));
    assert_eq!(compile_line("LDK -32768"), Ok(Some(ins(Operator::LDK, -32768))));
    assert_eq!(compile_line("LDK 0007"), Ok(Some(ins(Operator::LDK, 7))));
}

#[test]
fn compile_keeps_line_order() {
    let p = compile("LDK 5\nSTA 0\nLDK 3\nADD 0\nOUT 0\nHLT 0").unwrap();
    assert_eq!(
        p,
        vec![
            ins(Operator::LDK, 5),
            ins(Operator::STA, 0),
            ins(Operator::LDK, 3),
            ins(Operator::ADD, 0),
            ins(Operator::OUT, 0),
            ins(Operator::HLT, 0),
        ]
    );
}

#[test]
fn compile_skips_blank_and_comment_lines() {
    let with = compile("; header\nLDK 1\n\n   ; note\nJMP 0\n").unwrap();
    let without = compile("LDK 1\nJMP 0").unwrap();
    assert_eq!(with, without);
    assert_eq!(with.len(), 2);
}

#[test]
fn compile_ignores_mnemonic_case() {
    assert_eq!(compile("add 0\nHLT 0"), compile("ADD 0\nHLT 0"));
    assert!(compile("add 0\nHLT 0").is_ok());
}

#[test]
fn compile_handles_crlf() {
    assert_eq!(
        compile("LDK 5\r\nHLT 0\r\n").unwrap(),
        vec![ins(Operator::LDK, 5), ins(Operator::HLT, 0)]
    );
}

#[test]
fn compile_empty_source() {
    assert_eq!(compile(""), Ok(vec![]));
}

#[test]
fn compile_reports_first_bad_line_number() {
    assert_eq!(
        compile("LDK 1\n\nBAD 2\nFOO 3"),
        Err(CompileError {
            line: 3,
            kind: CompileErrorKind::UnknownMnemonic("BAD".to_string())
        })
    );
    assert_eq!(
        compile("; c\nOUT"),
        Err(CompileError {
            line: 2,
            kind: CompileErrorKind::MissingOperand("OUT".to_string())
        })
    );
}

#[test]
fn parse_number_reads_trimmed_i16() {
    assert_eq!(parse_number(" 12 \n"), Ok(12));
    assert_eq!(parse_number("-5"), Ok(-5));
    assert_eq!(parse_number(""), Err(NumberError::Empty));
    assert_eq!(parse_number("   "), Err(NumberError::Empty));
    assert_eq!(parse_number("abc"), Err(NumberError::InvalidDigit));
    assert_eq!(parse_number("99999x"), Err(NumberError::PosOverflow));
    assert_eq!(parse_number("12x"), Err(NumberError::InvalidDigit));
    assert_eq!(parse_number("+"), Err(NumberError::InvalidDigit));
}

#[test]
fn compile_line_uppercases_with_unicode_rules() {
    assert_eq!(compile_line("ſta 5"), Ok(Some(ins(Operator::STA, 5))));
    assert_eq!(compile_line("dıv 0"), Ok(Some(ins(Operator::DIV, 0))));
    assert_eq!(compile_line("ınp 3"), Ok(Some(ins(Operator::INP, 3))));
    assert_eq!(compile_line("ſub 1"), Ok(Some(ins(Operator::SUB, 1))));
    assert_eq!(compile_line("ﬆa 2"), Ok(Some(ins(Operator::STA, 2))));
    assert_eq!(compile_line("ﬅA 2"), Ok(Some(ins(Operator::STA, 2))));
}

#[test]
fn compile_line_unicode_forms_that_name_nothing() {
    assert_eq!(
        compile_line("ßta 0"),
        Err(CompileErrorKind::UnknownMnemonic("ßta".to_string()))
    );
    assert_eq!(
        compile_line("ﬆaa 0"),
        Err(CompileErrorKind::UnknownMnemonic("ﬆaa".to_string()))
    );
    assert_eq!(
        compile_line("ädd 0"),
        Err(CompileErrorKind::UnknownMnemonic("ädd".to_string()))
    );
}

#[test]
fn compile_ignores_unicode_case_of_mnemonics() {
    assert_eq!(compile("ſta 0\nHLT 0"), compile("STA 0\nHLT 0"));
}

#[test]
fn upper_range_agrees_with_to_uppercase_on_every_char() {
    for c in (0u32..=0x10FFFF).filter_map(char::from_u32) {
        let upper: String = c.to_uppercase().collect();
        let expected = if upper.chars().all(|u| u.is_ascii_uppercase()) {
            Some(upper.chars().collect::<Vec<char>>())
        } else {
            None
        };
        assert_eq!(upper_range(&vec![c], 0, 1), expected, "character {:?}", c);
    }
}
