//! The instruction set and the runtime values that the compiler targets.
use vstd::prelude::*;

verus! {

/// Instructions of the stack machine.
#[derive(Clone, Copy, Debug, PartialEq, Eq, Structural)]
pub enum OpCode {
    Const,
    Load,
    Store,
    Dup,
    Pop,
    Jmp,
    JmpF,
    Halt,
    Write,
    GT,
    LT,
    GE,
    LE,
    Eq,
    NE,
    And,
    Or,
    Add,
    Sub,
    Mul,
    Div,
    Rem,
    CastI,
    CastF,
    CastS,
}

/// The byte that encodes an instruction.
pub open spec fn byte_of(op: OpCode) -> u8 {
    match op {
        OpCode::Const => 0,
        OpCode::Load => 1,
        OpCode::Store => 2,
        OpCode::Dup => 3,
        OpCode::Pop => 4,
        OpCode::Jmp => 5,
        OpCode::JmpF => 6,
        OpCode::Halt => 7,
        OpCode::Write => 8,
        OpCode::GT => 9,
        OpCode::LT => 10,
        OpCode::GE => 11,
        OpCode::LE => 12,
        OpCode::Eq => 13,
        OpCode::NE => 14,
        OpCode::And => 15,
        OpCode::Or => 16,
        OpCode::Add => 17,
        OpCode::Sub => 18,
        OpCode::Mul => 19,
        OpCode::Div => 20,
        OpCode::Rem => 21,
        OpCode::CastI => 22,
        OpCode::CastF => 23,
        OpCode::CastS => 24,
    }
}

impl OpCode {
    /// The byte that encodes this instruction in the stream.
    pub fn to_byte(self) -> (r: u8)
        ensures
            r == byte_of(self),
    {
        match self {
            OpCode::Const => 0,
            OpCode::Load => 1,
            OpCode::Store => 2,
            OpCode::Dup => 3,
            OpCode::Pop => 4,
            OpCode::Jmp => 5,
            OpCode::JmpF => 6,
            OpCode::Halt => 7,
            OpCode::Write => 8,
            OpCode::GT => 9,
            OpCode::LT => 10,
            OpCode::GE => 11,
            OpCode::LE => 12,
            OpCode::Eq => 13,
            OpCode::NE => 14,
            OpCode::And => 15,
            OpCode::Or => 16,
            OpCode::Add => 17,
            OpCode::Sub => 18,
            OpCode::Mul => 19,
            OpCode::Div => 20,
            OpCode::Rem => 21,
            OpCode::CastI => 22,
            OpCode::CastF => 23,
            OpCode::CastS => 24,
        }
    }
}

/// Little-endian encoding of a 64-bit word: every operand and jump distance
/// in the stream takes exactly these eight bytes.
pub open spec fn word_u64(u: u64) -> Seq<u8> {
    seq![
        u as u8,
        (u >> 8u64) as u8,
        (u >> 16u64) as u8,
        (u >> 24u64) as u8,
        (u >> 32u64) as u8,
        (u >> 40u64) as u8,
        (u >> 48u64) as u8,
        (u >> 56u64) as u8,
    ]
}

/// A signed word, in two's complement.
pub open spec fn word_i64(v: i64) -> Seq<u8> {
    word_u64(v as u64)
}

/// The eight bytes of `u`, least significant first.
pub fn encode_u64(u: u64) -> (r: [u8; 8])
    ensures
        r@ == word_u64(u),
{
    let r: [u8; 8] = [
        u as u8,
        (u >> 8u64) as u8,
        (u >> 16u64) as u8,
        (u >> 24u64) as u8,
        (u >> 32u64) as u8,
        (u >> 40u64) as u8,
        (u >> 48u64) as u8,
        (u >> 56u64) as u8,
    ];
    assert(r@ =~= word_u64(u));
    r
}

/// True when the IEEE-754 single-precision bit pattern `b` is a not-a-number.
pub open spec fn is_nan_bits(b: u32) -> bool {
    (b & 0x7f80_0000u32) == 0x7f80_0000u32 && (b & 0x007f_ffffu32) != 0
}

/// Floating-point equality on single-precision bit patterns: no NaN equals
/// anything, the two zeros equal each other, and otherwise the bits decide.
pub open spec fn float_bits_eq(a: u32, b: u32) -> bool {
    !is_nan_bits(a) && !is_nan_bits(b) && (a == b || ((a & 0x7fff_ffffu32) == 0 && (b
        & 0x7fff_ffffu32) == 0))
}

/// Whether two single-precision bit patterns denote equal floats.
pub fn float_bits_equal(a: u32, b: u32) -> (r: bool)
    ensures
        r == float_bits_eq(a, b),
{
    let a_nan = (a & 0x7f80_0000u32) == 0x7f80_0000u32 && (a & 0x007f_ffffu32) != 0;
    let b_nan = (b & 0x7f80_0000u32) == 0x7f80_0000u32 && (b & 0x007f_ffffu32) != 0;
    !a_nan && !b_nan && (a == b || ((a & 0x7fff_ffffu32) == 0 && (b & 0x7fff_ffffu32) == 0))
}

/// A runtime value of the machine. Single-precision floats are carried as
/// their IEEE-754 bit pattern (`f32::to_bits`).
#[derive(Clone, Debug, PartialEq)]
pub enum LinaValue {
    Int32(i32),
    Float32(u32),
    Text(String),
    Boolean(bool),
}

/// What a runtime value denotes, with text as its characters.
pub enum Value {
    Int32(i32),
    Float32(u32),
    Text(Seq<char>),
    Boolean(bool),
}

impl View for LinaValue {
    type V = Value;

    open spec fn view(&self) -> Value {
        match self {
            LinaValue::Int32(i) => Value::Int32(*i),
            LinaValue::Float32(f) => Value::Float32(*f),
            LinaValue::Text(s) => Value::Text(s@),
            LinaValue::Boolean(b) => Value::Boolean(*b),
        }
    }
}

/// Value equality as the constant table uses it: same kind and equal
/// contents, with floats compared as floating-point numbers.
pub open spec fn value_eq(a: Value, b: Value) -> bool {
    match (a, b) {
        (Value::Int32(x), Value::Int32(y)) => x == y,
        (Value::Float32(x), Value::Float32(y)) => float_bits_eq(x, y),
        (Value::Text(x), Value::Text(y)) => x == y,
        (Value::Boolean(x), Value::Boolean(y)) => x == y,
        _ => false,
    }
}

impl LinaValue {
    /// Whether two values are equal in the sense of `value_eq`.
    pub fn equals(&self, other: &LinaValue) -> (r: bool)
        ensures
            r == value_eq(self@, other@),
    {
        match self {
            LinaValue::Int32(x) => match other {
                LinaValue::Int32(y) => *x == *y,
                _ => false,
            },
            LinaValue::Float32(x) => match other {
                LinaValue::Float32(y) => float_bits_equal(*x, *y),
                _ => false,
            },
            LinaValue::Text(x) => match other {
                LinaValue::Text(y) => x.eq(y),
                _ => false,
            },
            LinaValue::Boolean(x) => match other {
                LinaValue::Boolean(y) => *x == *y,
                _ => false,
            },
        }
    }
}

} // verus!
