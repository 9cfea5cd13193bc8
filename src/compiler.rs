use vstd::prelude::*;

use crate::text::{
    chars_of, find_char, upper_word, upper_range, lemma_upper_word_same_but_case, same_but_case, lemma_same_but_case_subrange, lemma_find_char_same_but_case, lemma_find_space_same_but_case, lemma_find_space_bound, lemma_trim_same_but_case, lemma_parse_same_but_case, lemma_find_char_bound, lemma_trim_all_space, is_space, find_space, parse_i16, parse_i16_range, position_of, position_of_space,
    trim, trim_range, NumberError,
};

verus! {

/// The seventeen operations of the machine.
#[allow(non_camel_case_types)]
#[derive(Clone, Copy, Debug, PartialEq, Eq, Structural)]
pub enum Operator {
    ADD,
    SUB,
    MUL,
    DIV,
    LDA,
    LDK,
    STA,
    INP,
    OUT,
    HLT,
    JMP,
    JEZ,
    JNE,
    JLZ,
    JLE,
    JGZ,
    JGE,
}

/// One compiled line: an operation and its numeric operand, which is a memory address,
/// a literal or a jump target depending on the operation.
#[derive(Clone, Copy, Debug, PartialEq, Eq, Structural)]
pub struct Instruction {
    pub operator: Operator,
    pub operand: i16,
}

/// The upper-case spelling of each operation.
pub open spec fn mnemonic(op: Operator) -> Seq<char> {
    match op {
        Operator::ADD => seq!['A', 'D', 'D'],
        Operator::SUB => seq!['S', 'U', 'B'],
        Operator::MUL => seq!['M', 'U', 'L'],
        Operator::DIV => seq!['D', 'I', 'V'],
        Operator::LDA => seq!['L', 'D', 'A'],
        Operator::LDK => seq!['L', 'D', 'K'],
        Operator::STA => seq!['S', 'T', 'A'],
        Operator::INP => seq!['I', 'N', 'P'],
        Operator::OUT => seq!['O', 'U', 'T'],
        Operator::HLT => seq!['H', 'L', 'T'],
        Operator::JMP => seq!['J', 'M', 'P'],
        Operator::JEZ => seq!['J', 'E', 'Z'],
        Operator::JNE => seq!['J', 'N', 'E'],
        Operator::JLZ => seq!['J', 'L', 'Z'],
        Operator::JLE => seq!['J', 'L', 'E'],
        Operator::JGZ => seq!['J', 'G', 'Z'],
        Operator::JGE => seq!['J', 'G', 'E'],
    }
}

/// The operation whose mnemonic is exactly `name`.
pub open spec fn operator_named(name: Seq<char>) -> Option<Operator> {
    if name == mnemonic(Operator::ADD) {
        Some(Operator::ADD)
    } else if name == mnemonic(Operator::SUB) {
        Some(Operator::SUB)
    } else if name == mnemonic(Operator::MUL) {
        Some(Operator::MUL)
    } else if name == mnemonic(Operator::DIV) {
        Some(Operator::DIV)
    } else if name == mnemonic(Operator::LDA) {
        Some(Operator::LDA)
    } else if name == mnemonic(Operator::LDK) {
        Some(Operator::LDK)
    } else if name == mnemonic(Operator::STA) {
        Some(Operator::STA)
    } else if name == mnemonic(Operator::INP) {
        Some(Operator::INP)
    } else if name == mnemonic(Operator::OUT) {
        Some(Operator::OUT)
    } else if name == mnemonic(Operator::HLT) {
        Some(Operator::HLT)
    } else if name == mnemonic(Operator::JMP) {
        Some(Operator::JMP)
    } else if name == mnemonic(Operator::JEZ) {
        Some(Operator::JEZ)
    } else if name == mnemonic(Operator::JNE) {
        Some(Operator::JNE)
    } else if name == mnemonic(Operator::JLZ) {
        Some(Operator::JLZ)
    } else if name == mnemonic(Operator::JLE) {
        Some(Operator::JLE)
    } else if name == mnemonic(Operator::JGZ) {
        Some(Operator::JGZ)
    } else if name == mnemonic(Operator::JGE) {
        Some(Operator::JGE)
    } else {
        None
    }
}

/// The operation that a word names once it is upper-cased as `str::to_uppercase` does it.
pub open spec fn operator_of(word: Seq<char>) -> Option<Operator> {
    match upper_word(word) {
        Some(name) => operator_named(name),
        None => None,
    }
}

/// Two words whose letters agree up to ASCII case name the same operation, if any.
pub proof fn lemma_mnemonic_ignores_case(a: Seq<char>, b: Seq<char>)
    requires
        same_but_case(a, b),
    ensures
        operator_of(a) == operator_of(b),
{
    lemma_upper_word_same_but_case(a, b);
}

fn mnemonic_chars(op: Operator) -> (r: (char, char, char))
    ensures
        mnemonic(op) == seq![r.0, r.1, r.2],
{
    match op {
        Operator::ADD => ('A', 'D', 'D'),
        Operator::SUB => ('S', 'U', 'B'),
        Operator::MUL => ('M', 'U', 'L'),
        Operator::DIV => ('D', 'I', 'V'),
        Operator::LDA => ('L', 'D', 'A'),
        Operator::LDK => ('L', 'D', 'K'),
        Operator::STA => ('S', 'T', 'A'),
        Operator::INP => ('I', 'N', 'P'),
        Operator::OUT => ('O', 'U', 'T'),
        Operator::HLT => ('H', 'L', 'T'),
        Operator::JMP => ('J', 'M', 'P'),
        Operator::JEZ => ('J', 'E', 'Z'),
        Operator::JNE => ('J', 'N', 'E'),
        Operator::JLZ => ('J', 'L', 'Z'),
        Operator::JLE => ('J', 'L', 'E'),
        Operator::JGZ => ('J', 'G', 'Z'),
        Operator::JGE => ('J', 'G', 'E'),
    }
}

/// Whether `name` is the mnemonic of `op`.
fn is_name(name: &Vec<char>, op: Operator) -> (r: bool)
    requires
        name@.len() == 3,
    ensures
        r == (name@ == mnemonic(op)),
{
    let (a, b, c) = mnemonic_chars(op);
    let r = name[0] == a && name[1] == b && name[2] == c;
    proof {
        if r {
            assert(name@ =~= seq![a, b, c]);
        } else if name@ == mnemonic(op) {
            assert(name@[0] == a && name@[1] == b && name@[2] == c);
        }
    }
    r
}

/// The operation whose mnemonic is exactly `name`.
fn operator_with_name(name: &Vec<char>) -> (r: Option<Operator>)
    ensures
        r == operator_named(name@),
{
    if name.len() != 3 {
        return None;
    }
    if is_name(name, Operator::ADD) {
        return Some(Operator::ADD);
    }
    if is_name(name, Operator::SUB) {
        return Some(Operator::SUB);
    }
    if is_name(name, Operator::MUL) {
        return Some(Operator::MUL);
    }
    if is_name(name, Operator::DIV) {
        return Some(Operator::DIV);
    }
    if is_name(name, Operator::LDA) {
        return Some(Operator::LDA);
    }
    if is_name(name, Operator::LDK) {
        return Some(Operator::LDK);
    }
    if is_name(name, Operator::STA) {
        return Some(Operator::STA);
    }
    if is_name(name, Operator::INP) {
        return Some(Operator::INP);
    }
    if is_name(name, Operator::OUT) {
        return Some(Operator::OUT);
    }
    if is_name(name, Operator::HLT) {
        return Some(Operator::HLT);
    }
    if is_name(name, Operator::JMP) {
        return Some(Operator::JMP);
    }
    if is_name(name, Operator::JEZ) {
        return Some(Operator::JEZ);
    }
    if is_name(name, Operator::JNE) {
        return Some(Operator::JNE);
    }
    if is_name(name, Operator::JLZ) {
        return Some(Operator::JLZ);
    }
    if is_name(name, Operator::JLE) {
        return Some(Operator::JLE);
    }
    if is_name(name, Operator::JGZ) {
        return Some(Operator::JGZ);
    }
    if is_name(name, Operator::JGE) {
        return Some(Operator::JGE);
    }
    None
}

/// The operation that `buf[lo..hi]` names once it is upper-cased.
fn operator_in(buf: &Vec<char>, lo: usize, hi: usize) -> (r: Option<Operator>)
    requires
        lo <= hi <= buf@.len(),
    ensures
        r == operator_of(buf@.subrange(lo as int, hi as int)),
{
    match upper_range(buf, lo, hi) {
        Some(name) => operator_with_name(&name),
        None => None,
    }
}

/// Why a line could not be compiled; each variant carries the offending text.
#[derive(Clone, Debug, PartialEq, Eq)]
pub enum CompileErrorKind {
    /// A mnemonic with no operand after it.
    MissingOperand(String),
    /// A word that names no operation.
    UnknownMnemonic(String),
    /// An operand that is not a base-10 `i16`, with the reason.
    InvalidOperand(String, NumberError),
}

/// The model of `CompileErrorKind`, with the offending text as characters.
pub enum LineFault {
    MissingOperand(Seq<char>),
    UnknownMnemonic(Seq<char>),
    InvalidOperand(Seq<char>, NumberError),
}

impl View for CompileErrorKind {
    type V = LineFault;

    open spec fn view(&self) -> LineFault {
        match self {
            CompileErrorKind::MissingOperand(s) => LineFault::MissingOperand(s@),
            CompileErrorKind::UnknownMnemonic(s) => LineFault::UnknownMnemonic(s@),
            CompileErrorKind::InvalidOperand(s, e) => LineFault::InvalidOperand(s@, *e),
        }
    }
}

/// A failed compile: the 1-based number of the first bad line and what is wrong with it.
#[derive(Clone, Debug, PartialEq, Eq)]
pub struct CompileError {
    pub line: usize,
    pub kind: CompileErrorKind,
}

/// The part of a line before its first `;`.
pub open spec fn code_part(line: Seq<char>) -> Seq<char> {
    line.take(find_char(line, ';') as int)
}

/// What one source line compiles to: nothing for a blank or comment-only line, else the
/// instruction that its mnemonic and operand spell, or the first thing wrong with it.
pub open spec fn line_result(line: Seq<char>) -> Result<Option<Instruction>, LineFault> {
    let t = trim(code_part(line));
    if t.len() == 0 {
        Ok(None)
    } else {
        let m = find_space(t) as int;
        let word = t.take(m);
        if m == t.len() {
            Err(LineFault::MissingOperand(word))
        } else {
            let arg = trim(t.skip(m));
            match operator_of(word) {
                None => Err(LineFault::UnknownMnemonic(word)),
                Some(op) => match parse_i16(arg) {
                    Ok(v) => Ok(Some(Instruction { operator: op, operand: v })),
                    Err(e) => Err(LineFault::InvalidOperand(arg, e)),
                },
            }
        }
    }
}

/// The model of a line's compile result.
pub open spec fn line_view(r: Result<Option<Instruction>, CompileErrorKind>) -> Result<
    Option<Instruction>,
    LineFault,
> {
    match r {
        Ok(o) => Ok(o),
        Err(e) => Err(e@),
    }
}

/// Compiles the line `src[lo..hi]`, whose characters `buf` holds.
fn compile_range(src: &str, buf: &Vec<char>, lo: usize, hi: usize) -> (r: Result<
    Option<Instruction>,
    CompileErrorKind,
>)
    requires
        buf@ == src@,
        lo <= hi <= buf@.len(),
    ensures
        line_view(r) == line_result(buf@.subrange(lo as int, hi as int)),
{
    let ghost line = buf@.subrange(lo as int, hi as int);
    let semi = position_of(buf, lo, hi, ';');
    assert(buf@.subrange(lo as int, semi as int) =~= code_part(line));
    let (a, b) = trim_range(buf, lo, semi);
    let ghost t = buf@.subrange(a as int, b as int);
    if a == b {
        return Ok(None);
    }
    let m = position_of_space(buf, a, b);
    assert(buf@.subrange(a as int, m as int) =~= t.take(m - a));
    if m == b {
        let word = src.substring_char(a, m).to_owned();
        return Err(CompileErrorKind::MissingOperand(word));
    }
    assert(buf@.subrange(m as int, b as int) =~= t.skip(m - a));
    let (x, y) = trim_range(buf, m, b);
    match operator_in(buf, a, m) {
        None => {
            let word = src.substring_char(a, m).to_owned();
            Err(CompileErrorKind::UnknownMnemonic(word))
        },
        Some(op) => match parse_i16_range(buf, x, y) {
            Ok(v) => Ok(Some(Instruction { operator: op, operand: v })),
            Err(e) => {
                let arg = src.substring_char(x, y).to_owned();
                Err(CompileErrorKind::InvalidOperand(arg, e))
            },
        },
    }
}

/// Compiles one source line: `Ok(None)` for a blank or comment-only line, else the
/// instruction it spells or the first thing wrong with it.
pub fn compile_line(line: &str) -> (r: Result<Option<Instruction>, CompileErrorKind>)
    ensures
        line_view(r) == line_result(line@),
{
    let buf = chars_of(line);
    assert(buf@.subrange(0, buf@.len() as int) =~= line@);
    compile_range(line, &buf, 0, buf.len())
}

/// The lines of a text: its pieces between line feeds, so `n` line feeds give `n + 1` lines.
pub open spec fn lines(s: Seq<char>) -> Seq<Seq<char>>
    decreases s.len(),
    via lines_decreases
{
    let i = find_char(s, '\n') as int;
    if i >= s.len() {
        seq![s]
    } else {
        seq![s.take(i)] + lines(s.skip(i + 1))
    }
}

#[via_fn]
proof fn lines_decreases(s: Seq<char>) {
    lemma_find_char_bound(s, '\n');
}

/// The instructions that an optional instruction stands for.
pub open spec fn emitted(o: Option<Instruction>) -> Seq<Instruction> {
    match o {
        Some(i) => seq![i],
        None => seq![],
    }
}

/// Compiles `ls`, the first of which is line number `first`: the instructions of all lines
/// in order, or the number and fault of the first bad line.
pub open spec fn compile_lines(ls: Seq<Seq<char>>, first: nat) -> Result<
    Seq<Instruction>,
    (nat, LineFault),
>
    decreases ls.len(),
{
    if ls.len() == 0 {
        Ok(seq![])
    } else {
        match line_result(ls[0]) {
            Err(f) => Err((first, f)),
            Ok(o) => match compile_lines(ls.drop_first(), first + 1) {
                Err(e) => Err(e),
                Ok(rest) => Ok(emitted(o) + rest),
            },
        }
    }
}

/// What a whole source text compiles to.
pub open spec fn compile_spec(src: Seq<char>) -> Result<Seq<Instruction>, (nat, LineFault)> {
    compile_lines(lines(src), 1)
}

/// The model of a compile result.
pub open spec fn program_view(r: Result<Vec<Instruction>, CompileError>) -> Result<
    Seq<Instruction>,
    (nat, LineFault),
> {
    match r {
        Ok(p) => Ok(p@),
        Err(e) => Err((e.line as nat, e.kind@)),
    }
}

/// `done` followed by the instructions of `r`.
pub open spec fn after(done: Seq<Instruction>, r: Result<Seq<Instruction>, (nat, LineFault)>) -> Result<
    Seq<Instruction>,
    (nat, LineFault),
> {
    match r {
        Ok(p) => Ok(done + p),
        Err(e) => Err(e),
    }
}

/// Compiles a whole source text, line by line, stopping at the first bad line.
pub fn compile(source: &str) -> (r: Result<Vec<Instruction>, CompileError>)
    ensures
        program_view(r) == compile_spec(source@),
{
    let buf = chars_of(source);
    let n = buf.len();
    let mut prog: Vec<Instruction> = Vec::new();
    let mut start: usize = 0;
    let mut line_no: usize = 1;
    assert(buf@.skip(0) =~= source@);
    loop
        invariant
            buf@ == source@,
            n == buf@.len(),
            start <= n,
            1 <= line_no <= start + 1,
            compile_spec(source@) == after(
                prog@,
                compile_lines(lines(buf@.skip(start as int)), line_no as nat),
            ),
        decreases n - start,
    {
        let end = position_of(&buf, start, n, '\n');
        let ghost rest = buf@.skip(start as int);
        assert(rest =~= buf@.subrange(start as int, n as int));
        assert(rest.take(end - start) =~= buf@.subrange(start as int, end as int));
        let ghost ls = lines(rest);
        assert(ls[0] == buf@.subrange(start as int, end as int));
        if end < n {
            assert(rest.skip(end - start + 1) =~= buf@.skip(end + 1));
            assert(ls.drop_first() =~= lines(buf@.skip(end + 1)));
        } else {
            assert(ls.drop_first() =~= Seq::<Seq<char>>::empty());
        }
        let ghost before = prog@;
        match compile_range(source, &buf, start, end) {
            Err(kind) => {
                return Err(CompileError { line: line_no, kind });
            },
            Ok(o) => {
                match o {
                    Some(ins) => prog.push(ins),
                    None => {},
                }
                assert(prog@ =~= before + emitted(o));
            },
        }
        if end == n {
            proof {
                assert(compile_lines(ls.drop_first(), line_no as nat + 1) == Ok::<
                    Seq<Instruction>,
                    (nat, LineFault),
                >(seq![]));
                assert(before + (emitted(line_result(ls[0])->Ok_0) + seq![]) =~= prog@);
            }
            return Ok(prog);
        }
        proof {
            let tail = compile_lines(lines(buf@.skip(end + 1)), line_no as nat + 1);
            match tail {
                Ok(p) => {
                    assert(before + (emitted(line_result(ls[0])->Ok_0) + p) =~= prog@ + p);
                },
                Err(_) => {},
            }
        }
        // What follows the final line feed is an empty line, which compiles to nothing;
        // stopping here also keeps the line counter within `usize`.
        if end + 1 == n {
            proof {
                let last = buf@.skip(n as int);
                assert(last =~= Seq::<char>::empty());
                assert(lines(last) =~= seq![last]);
                assert(trim(code_part(last)) =~= Seq::<char>::empty());
                assert(line_result(last) == Ok::<Option<Instruction>, LineFault>(None));
                assert(lines(last).drop_first() =~= Seq::<Seq<char>>::empty());
                assert(compile_lines(lines(last).drop_first(), line_no as nat + 2) == Ok::<
                    Seq<Instruction>,
                    (nat, LineFault),
                >(seq![]));
                assert(compile_lines(lines(last), line_no as nat + 1) == Ok::<
                    Seq<Instruction>,
                    (nat, LineFault),
                >(emitted(None) + seq![]));
                assert(prog@ + (emitted(None) + seq![]) =~= prog@);
            }
            return Ok(prog);
        }
        start = end + 1;
        line_no = line_no + 1;
    }
}

/// A line that holds only whitespace before its first `;` (a blank line, or one that is only
/// a comment) compiles to nothing.
pub proof fn lemma_blank_line_compiles_to_nothing(line: Seq<char>)
    requires
        forall|k: int| 0 <= k < find_char(line, ';') ==> is_space(line[k]),
    ensures
        line_result(line) == Ok::<Option<Instruction>, LineFault>(None),
{
    lemma_find_char_bound(line, ';');
    lemma_trim_all_space(code_part(line));
}

/// Whether a compile succeeds, and what it gives, does not depend on the first line's number.
pub proof fn lemma_compile_ignores_numbering(ls: Seq<Seq<char>>, f: nat, g: nat)
    ensures
        compile_lines(ls, f) is Ok == compile_lines(ls, g) is Ok,
        compile_lines(ls, f) is Ok ==> compile_lines(ls, f) == compile_lines(ls, g),
    decreases ls.len(),
{
    if ls.len() > 0 {
        lemma_compile_ignores_numbering(ls.drop_first(), f + 1, g + 1);
    }
}

/// Removing a line that compiles to nothing changes neither whether the program compiles
/// nor the instructions it compiles to, so jump targets keep pointing where they did.
pub proof fn lemma_blank_line_removable(ls: Seq<Seq<char>>, i: int, first: nat)
    requires
        0 <= i < ls.len(),
        line_result(ls[i]) == Ok::<Option<Instruction>, LineFault>(None),
    ensures
        compile_lines(ls, first) is Ok == compile_lines(ls.remove(i), first) is Ok,
        compile_lines(ls, first) is Ok ==> compile_lines(ls, first) == compile_lines(
            ls.remove(i),
            first,
        ),
    decreases i,
{
    if i == 0 {
        assert(ls.remove(0) =~= ls.drop_first());
        lemma_compile_ignores_numbering(ls.drop_first(), first + 1, first);
        match compile_lines(ls.drop_first(), first + 1) {
            Ok(p) => {
                assert(emitted(None) + p =~= p);
            },
            Err(_) => {},
        }
    } else {
        let tail = ls.drop_first();
        lemma_blank_line_removable(tail, i - 1, first + 1);
        assert(ls.remove(i)[0] == ls[0]);
        assert(ls.remove(i).drop_first() =~= tail.remove(i - 1));
    }
}

/// A line that compiles gives the same result when the letter case of any of its characters
/// changes.
pub proof fn lemma_line_ignores_case(a: Seq<char>, b: Seq<char>)
    requires
        same_but_case(a, b),
        line_result(a) is Ok,
    ensures
        line_result(b) == line_result(a),
{
    lemma_find_char_bound(a, ';');
    lemma_find_char_same_but_case(a, b, ';');
    let k = find_char(a, ';') as int;
    lemma_same_but_case_subrange(a, b, 0, k);
    assert(code_part(a) =~= a.subrange(0, k));
    assert(code_part(b) =~= b.subrange(0, k));
    let ta = trim(code_part(a));
    let tb = trim(code_part(b));
    lemma_trim_same_but_case(code_part(a), code_part(b));
    if ta.len() > 0 {
        lemma_find_space_same_but_case(ta, tb);
        lemma_find_space_bound(ta);
        let m = find_space(ta) as int;
        lemma_same_but_case_subrange(ta, tb, 0, m);
        assert(ta.take(m) =~= ta.subrange(0, m));
        assert(tb.take(m) =~= tb.subrange(0, m));
        lemma_mnemonic_ignores_case(ta.take(m), tb.take(m));
        if m < ta.len() {
            lemma_same_but_case_subrange(ta, tb, m, ta.len() as int);
            assert(ta.skip(m) =~= ta.subrange(m, ta.len() as int));
            assert(tb.skip(m) =~= tb.subrange(m, tb.len() as int));
            lemma_trim_same_but_case(ta.skip(m), tb.skip(m));
            lemma_parse_same_but_case(trim(ta.skip(m)), trim(tb.skip(m)));
        }
    }
}

/// Two texts that agree up to case split into as many lines, which agree up to case.
pub proof fn lemma_lines_same_but_case(a: Seq<char>, b: Seq<char>)
    requires
        same_but_case(a, b),
    ensures
        lines(a).len() == lines(b).len(),
        forall|i: int| 0 <= i < lines(a).len() ==> same_but_case(lines(a)[i], lines(b)[i]),
    decreases a.len(),
{
    lemma_find_char_bound(a, '\n');
    lemma_find_char_same_but_case(a, b, '\n');
    let k = find_char(a, '\n') as int;
    lemma_same_but_case_subrange(a, b, 0, k);
    assert(a.take(k) =~= a.subrange(0, k));
    assert(b.take(k) =~= b.subrange(0, k));
    if k < a.len() {
        lemma_same_but_case_subrange(a, b, k + 1, a.len() as int);
        assert(a.skip(k + 1) =~= a.subrange(k + 1, a.len() as int));
        assert(b.skip(k + 1) =~= b.subrange(k + 1, b.len() as int));
        lemma_lines_same_but_case(a.skip(k + 1), b.skip(k + 1));
        assert forall|i: int| 0 <= i < lines(a).len() implies same_but_case(
            lines(a)[i],
            lines(b)[i],
        ) by {
            if i > 0 {
                assert(lines(a)[i] == lines(a.skip(k + 1))[i - 1]);
                assert(lines(b)[i] == lines(b.skip(k + 1))[i - 1]);
            }
        }
    }
}

proof fn lemma_compile_lines_ignore_case(la: Seq<Seq<char>>, lb: Seq<Seq<char>>, first: nat)
    requires
        la.len() == lb.len(),
        forall|i: int| 0 <= i < la.len() ==> same_but_case(la[i], lb[i]),
        compile_lines(la, first) is Ok,
    ensures
        compile_lines(lb, first) == compile_lines(la, first),
    decreases la.len(),
{
    if la.len() > 0 {
        lemma_line_ignores_case(la[0], lb[0]);
        assert forall|i: int| 0 <= i < la.len() - 1 implies same_but_case(
            la.drop_first()[i],
            lb.drop_first()[i],
        ) by {
            assert(same_but_case(la[i + 1], lb[i + 1]));
        }
        lemma_compile_lines_ignore_case(la.drop_first(), lb.drop_first(), first + 1);
    }
}

/// Mnemonics are read without regard to letter case: a program that compiles compiles to the
/// same instructions when the case of any of its letters changes.
pub proof fn lemma_compile_ignores_case(a: Seq<char>, b: Seq<char>)
    requires
        same_but_case(a, b),
        compile_spec(a) is Ok,
    ensures
        compile_spec(b) == compile_spec(a),
{
    lemma_lines_same_but_case(a, b);
    lemma_compile_lines_ignore_case(lines(a), lines(b), 1);
}

} // verus!
