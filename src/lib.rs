//! An accumulator machine: source text of one mnemonic and one numeric operand per line is
//! compiled to instructions, which a machine with one accumulator and 256 memory cells runs.
//!
//! - `text`: whitespace, searching, trimming and reading decimal numbers over characters.
//! - `compiler`: operations, instructions, and the line-by-line compiler.
//! - `machine`: the machine state, its single step, and bounded runs.
use vstd::prelude::*;

pub mod compiler;
pub mod machine;
pub mod text;

verus! {

} // verus!
