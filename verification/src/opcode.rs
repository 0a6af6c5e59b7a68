//! The instruction set and the loader: source text is scanned left to
//! right, each of the eight opcode characters becomes an instruction,
//! and every other byte is skipped (free-form comments).

use vstd::prelude::*;

verus! {

/// The eight opcodes of the language, one per source character.
#[derive(Clone, Copy, Debug, PartialEq, Eq, Structural)]
pub enum Instructions {
    /// `>`: move the data pointer one cell to the right.
    MoveRight,
    /// `<`: move the data pointer one cell to the left.
    MoveLeft,
    /// `+`: increment the byte at the data pointer, wrapping at 255.
    Increment,
    /// `-`: decrement the byte at the data pointer, wrapping at 0.
    Decrement,
    /// `.`: emit the byte at the data pointer.
    Output,
    /// `,`: store one byte of input at the data pointer, if any is left.
    Input,
    /// `[`: if the current cell is zero, jump past the matching `]`.
    JumpIfZero,
    /// `]`: if the current cell is nonzero, jump past the matching `[`.
    JumpIfNonZero,
}

/// The opcode a source byte denotes, or `None` for a comment byte.
pub open spec fn opcode_of(b: u8) -> Option<Instructions> {
    if b == '>' as u8 {
        Some(Instructions::MoveRight)
    } else if b == '<' as u8 {
        Some(Instructions::MoveLeft)
    } else if b == '+' as u8 {
        Some(Instructions::Increment)
    } else if b == '-' as u8 {
        Some(Instructions::Decrement)
    } else if b == '.' as u8 {
        Some(Instructions::Output)
    } else if b == ',' as u8 {
        Some(Instructions::Input)
    } else if b == '[' as u8 {
        Some(Instructions::JumpIfZero)
    } else if b == ']' as u8 {
        Some(Instructions::JumpIfNonZero)
    } else {
        None
    }
}

/// The instruction sequence a source text denotes: the opcodes of its
/// bytes in order, with all non-opcode bytes dropped.
pub open spec fn load_spec(src: Seq<u8>) -> Seq<Instructions>
    decreases src.len(),
{
    if src.len() == 0 {
        Seq::empty()
    } else {
        load_spec(src.drop_last()) + match opcode_of(src.last()) {
            Some(op) => seq![op],
            None => Seq::empty(),
        }
    }
}

/// Executable counterpart of [`opcode_of`].
pub fn decode_byte(b: u8) -> (r: Option<Instructions>)
    ensures
        r == opcode_of(b),
{
    if b == '>' as u8 {
        Some(Instructions::MoveRight)
    } else if b == '<' as u8 {
        Some(Instructions::MoveLeft)
    } else if b == '+' as u8 {
        Some(Instructions::Increment)
    } else if b == '-' as u8 {
        Some(Instructions::Decrement)
    } else if b == '.' as u8 {
        Some(Instructions::Output)
    } else if b == ',' as u8 {
        Some(Instructions::Input)
    } else if b == '[' as u8 {
        Some(Instructions::JumpIfZero)
    } else if b == ']' as u8 {
        Some(Instructions::JumpIfNonZero)
    } else {
        None
    }
}

/// Loading is a pure function of the source text: identical texts yield
/// identical instruction sequences.
pub proof fn lemma_load_deterministic(a: Seq<u8>, b: Seq<u8>)
    requires
        a == b,
    ensures
        load_spec(a) == load_spec(b),
{
}

} // verus!
