//! The translation scheme, stated over an abstract compiler state: what each
//! construct appends to the byte stream, how the constant table and the
//! scopes change, and which inputs abort the compilation.
use vstd::prelude::*;

use crate::syntax::{Expression, Literal, Operador, SyntaxTree, Type};
use crate::vm::{byte_of, word_i64, word_u64, OpCode, Value, value_eq};

verus! {

/// Why a compilation aborts.
#[derive(Clone, Copy, Debug, PartialEq, Eq, Structural)]
pub enum CompileError {
    /// An identifier that no open scope binds.
    UndefinedVariable,
    /// An assigning operator whose left operand is not an identifier.
    InvalidAssignmentTarget,
    /// A cast to a non-primitive type, or a null literal, which has no runtime value.
    UnsupportedCast,
    /// Exponentiation, which the machine has no instruction for.
    UnsupportedOperator,
}

/// Bit pattern of the single-precision float 1.0, the step of a counted loop.
pub const ONE_F32_BITS: u32 = 0x3f80_0000;

/// The state of a compilation. The bindings of all open scopes stand in one
/// sequence, innermost last; `starts` gives the index at which each scope's
/// bindings begin, outermost first. `vi` is the slot counter.
pub struct Emit {
    pub code: Seq<u8>,
    pub pool: Seq<Value>,
    pub names: Seq<(Seq<char>, nat)>,
    pub starts: Seq<nat>,
    pub vi: nat,
}

/// An operand (an address or a slot) as it stands in the stream.
pub open spec fn operand(n: nat) -> Seq<u8> {
    word_u64(n as u64)
}

/// A jump distance as it stands in the stream.
pub open spec fn jump(d: int) -> Seq<u8> {
    word_i64(d as i64)
}

/// Index of the last binding of `name`, if any.
pub open spec fn last_index(names: Seq<(Seq<char>, nat)>, name: Seq<char>) -> Option<nat>
    decreases names.len(),
{
    if names.len() == 0 {
        None
    } else if names.last().0 == name {
        Some((names.len() - 1) as nat)
    } else {
        last_index(names.drop_last(), name)
    }
}

/// Index of the first entry of the table that equals `v`, if any.
pub open spec fn first_match(pool: Seq<Value>, v: Value) -> Option<nat>
    decreases pool.len(),
{
    if pool.len() == 0 {
        None
    } else {
        match first_match(pool.drop_last(), v) {
            Some(i) => Some(i),
            None => if value_eq(pool.last(), v) {
                Some((pool.len() - 1) as nat)
            } else {
                None
            },
        }
    }
}

/// The state in which every compilation begins: one open, empty scope.
pub open spec fn fresh() -> Emit {
    Emit { code: Seq::empty(), pool: Seq::empty(), names: Seq::empty(), starts: seq![0nat], vi: 0 }
}

/// Largest total of code bytes, constants and slots that a compilation may
/// reach: lengths must fit in `usize` and jump distances in `i64`.
pub open spec fn max_load() -> int {
    if usize::MAX < i64::MAX {
        usize::MAX as int
    } else {
        i64::MAX as int
    }
}

/// Outcome of an executable step, matched against what the scheme gives:
/// on success the state reached, on abort the same error.
pub open spec fn agrees(r: Result<(), CompileError>, after: Emit, expected: Result<Emit, CompileError>) -> bool {
    match r {
        Ok(_) => expected == Ok::<Emit, CompileError>(after),
        Err(err) => expected == Err::<Emit, CompileError>(err),
    }
}

impl Emit {
    /// At least one scope is open, scopes begin in order within the
    /// bindings, and the counter is at least the number of bindings.
    pub open spec fn wf(self) -> bool {
        &&& self.starts.len() > 0
        &&& forall|i: int| 0 <= i < self.starts.len() ==> self.starts[i] <= self.names.len()
        &&& forall|i: int, j: int| 0 <= i <= j < self.starts.len() ==> self.starts[i] <= self.starts[j]
        &&& self.names.len() <= self.vi
    }

    /// The amount of the machine's room that the state takes.
    pub open spec fn load(self) -> int {
        self.code.len() + self.pool.len() + self.vi as int
    }

    /// Index at which the innermost scope's bindings begin.
    pub open spec fn top_start(self) -> nat {
        if self.starts.len() > 0 {
            self.starts.last()
        } else {
            0
        }
    }

    /// The bindings of the innermost scope.
    pub open spec fn top_frame(self) -> Seq<(Seq<char>, nat)> {
        self.names.subrange(self.top_start() as int, self.names.len() as int)
    }

    /// The slot that `name` denotes: the innermost binding wins.
    pub open spec fn resolve(self, name: Seq<char>) -> Option<nat> {
        match last_index(self.names, name) {
            Some(j) => Some(self.names[j as int].1),
            None => None,
        }
    }

    /// Binds `name` to the slot `vi` in the innermost scope and advances the
    /// counter. A name bound again gets a new slot; the newer binding hides
    /// the older one, which still counts toward the scope's binds.
    pub open spec fn bind(self, name: Seq<char>) -> Emit {
        Emit { names: self.names.push((name, self.vi)), vi: self.vi + 1, ..self }
    }

    pub open spec fn open_frame(self) -> Emit {
        Emit { starts: self.starts.push(self.names.len()), ..self }
    }

    /// Drops the innermost scope; the counter goes down by the number of binds
    /// made in it, back to its value when the scope was opened.
    pub open spec fn close_frame(self) -> Emit {
        let s = self.top_start();
        Emit {
            names: self.names.take(s as int),
            starts: self.starts.drop_last(),
            vi: (self.vi - (self.names.len() - s)) as nat,
            ..self
        }
    }

    pub open spec fn emit(self, bytes: Seq<u8>) -> Emit {
        Emit { code: self.code + bytes, ..self }
    }

    pub open spec fn emit_op(self, op: OpCode) -> Emit {
        self.emit(seq![byte_of(op)])
    }

    pub open spec fn emit_op_arg(self, op: OpCode, n: nat) -> Emit {
        self.emit(seq![byte_of(op)] + operand(n))
    }

    /// Overwrites the eight bytes at `pos` with the jump distance `d`.
    pub open spec fn patch(self, pos: int, d: int) -> Emit {
        Emit { code: self.code.take(pos) + jump(d) + self.code.skip(pos + 8), ..self }
    }

    /// The table after interning `v`, and the address of `v` in it.
    pub open spec fn intern(self, v: Value) -> (Emit, nat) {
        match first_match(self.pool, v) {
            Some(i) => (self, i),
            None => (Emit { pool: self.pool.push(v), ..self }, self.pool.len()),
        }
    }
}

/// With no binding of `name` at or past `i`, the last one lies before `i`.
pub proof fn lemma_last_index_before(names: Seq<(Seq<char>, nat)>, name: Seq<char>, i: int)
    requires
        0 <= i <= names.len(),
        forall|j: int| i <= j < names.len() ==> names[j].0 != name,
    ensures
        last_index(names, name) == last_index(names.take(i), name),
    decreases names.len(),
{
    if names.len() > i {
        assert(names.drop_last().take(i) =~= names.take(i));
        lemma_last_index_before(names.drop_last(), name, i);
    } else {
        assert(names.take(i) =~= names);
    }
}

/// A match in a prefix of the table is the first match in the whole table.
pub proof fn lemma_first_match_prefix(pool: Seq<Value>, v: Value, k: int)
    requires
        0 <= k <= pool.len(),
        first_match(pool.take(k), v) is Some,
    ensures
        first_match(pool, v) == first_match(pool.take(k), v),
    decreases pool.len(),
{
    if k < pool.len() {
        assert(pool.drop_last().take(k) =~= pool.take(k));
        lemma_first_match_prefix(pool.drop_last(), v, k);
    } else {
        assert(pool.take(k) =~= pool);
    }
}

/// A prefix of a block is no larger than the block.
pub proof fn lemma_stmts_size_prefix(ss: Seq<SyntaxTree>, k: int)
    requires
        0 <= k <= ss.len(),
    ensures
        crate::syntax::stmts_size(ss.take(k)) <= crate::syntax::stmts_size(ss),
    decreases ss.len(),
{
    if k < ss.len() {
        assert(ss.drop_last().take(k) =~= ss.take(k));
        lemma_stmts_size_prefix(ss.drop_last(), k);
    } else {
        assert(ss.take(k) =~= ss);
    }
}

/// Once a prefix of a block aborts, the whole block aborts the same way.
pub proof fn lemma_stmts_err_prefix(st: Emit, ss: Seq<SyntaxTree>, k: int)
    requires
        0 <= k <= ss.len(),
        stmts_out(st, ss.take(k)) is Err,
    ensures
        stmts_out(st, ss) == stmts_out(st, ss.take(k)),
    decreases ss.len(),
{
    if k < ss.len() {
        assert(ss.drop_last().take(k) =~= ss.take(k));
        lemma_stmts_err_prefix(st, ss.drop_last(), k);
    } else {
        assert(ss.take(k) =~= ss);
    }
}

/// The runtime value of a literal; the null literal has none.
pub open spec fn literal_value(l: Literal) -> Option<Value> {
    match l {
        Literal::Decimal(b) => Some(Value::Float32(b)),
        Literal::Inteiro(i) => Some(Value::Int32(i)),
        Literal::Texto(s) => Some(Value::Text(s@)),
        Literal::Booleano(b) => Some(Value::Boolean(b)),
        Literal::Nulo => None,
    }
}

/// The instruction an operator computes with: none for plain assignment,
/// an error for exponentiation.
pub open spec fn operator_code(o: Operador) -> Result<Option<OpCode>, CompileError> {
    match o {
        Operador::MaiorQue => Ok(Some(OpCode::GT)),
        Operador::MenorQue => Ok(Some(OpCode::LT)),
        Operador::MaiorIgualQue => Ok(Some(OpCode::GE)),
        Operador::MenorIgualQue => Ok(Some(OpCode::LE)),
        Operador::Igual => Ok(Some(OpCode::Eq)),
        Operador::Diferente => Ok(Some(OpCode::NE)),
        Operador::E => Ok(Some(OpCode::And)),
        Operador::Ou => Ok(Some(OpCode::Or)),
        Operador::Adic | Operador::AdicAtrib => Ok(Some(OpCode::Add)),
        Operador::Subt | Operador::SubtAtrib => Ok(Some(OpCode::Sub)),
        Operador::Mult | Operador::MultAtrib => Ok(Some(OpCode::Mul)),
        Operador::Div | Operador::DivAtrib => Ok(Some(OpCode::Div)),
        Operador::Resto | Operador::RestoAtrib => Ok(Some(OpCode::Rem)),
        Operador::Exp | Operador::ExpAtrib => Err(CompileError::UnsupportedOperator),
        Operador::Atrib => Ok(None),
    }
}

/// The instruction that casts to `t`, for the primitive types.
pub open spec fn cast_code(t: Type) -> Option<OpCode> {
    match t {
        Type::Integer => Some(OpCode::CastI),
        Type::Real => Some(OpCode::CastF),
        Type::Text => Some(OpCode::CastS),
        _ => None,
    }
}

/// An assigning operator whose left operand is not an identifier: rejected
/// before anything is written.
pub open spec fn bad_target(e: Expression) -> bool {
    e is BinOp && e->ope.is_assign() && !(*e->lhs is Identifier)
}

/// A literal: intern its value, then load that constant.
pub open spec fn literal_out(st: Emit, l: Literal) -> Result<Emit, CompileError> {
    match literal_value(l) {
        Some(v) => Ok(st.intern(v).0.emit_op_arg(OpCode::Const, st.intern(v).1)),
        None => Err(CompileError::UnsupportedCast),
    }
}

/// The end of an assigning operator: keep a copy of the result on the stack
/// and store the other into the left operand's slot.
pub open spec fn store_back(st: Emit, lhs: Expression) -> Result<Emit, CompileError> {
    match lhs {
        Expression::Identifier(n, _) => match st.resolve(n@) {
            Some(slot) => Ok(st.emit_op(OpCode::Dup).emit_op_arg(OpCode::Store, slot)),
            None => Err(CompileError::UndefinedVariable),
        },
        _ => Err(CompileError::InvalidAssignmentTarget),
    }
}

/// What translating the expression `e` in state `st` gives.
pub open spec fn expr_out(st: Emit, e: Expression) -> Result<Emit, CompileError>
    decreases e,
{
    match e {
        Expression::Literal(l) => literal_out(st, l),
        Expression::Identifier(n, _) => match st.resolve(n@) {
            Some(slot) => Ok(st.emit_op_arg(OpCode::Load, slot)),
            None => Err(CompileError::UndefinedVariable),
        },
        Expression::BinOp { ope, lhs, rhs, .. } => {
            if ope.is_assign() && !(*lhs is Identifier) {
                Err(CompileError::InvalidAssignmentTarget)
            } else {
                let left = if ope == Operador::Atrib {
                    Ok(st)
                } else {
                    expr_out(st, *lhs)
                };
                match left {
                    Err(err) => Err(err),
                    Ok(s1) => match expr_out(s1, *rhs) {
                        Err(err) => Err(err),
                        Ok(s2) => match operator_code(ope) {
                            Err(err) => Err(err),
                            Ok(code) => {
                                let s3 = match code {
                                    Some(c) => s2.emit_op(c),
                                    None => s2,
                                };
                                if ope.is_assign() {
                                    store_back(s3, *lhs)
                                } else {
                                    Ok(s3)
                                }
                            },
                        },
                    },
                }
            }
        },
        Expression::Cast(inner, t) => match expr_out(st, *inner) {
            Err(err) => Err(err),
            Ok(s1) => match cast_code(t) {
                Some(c) => Ok(s1.emit_op(c)),
                None => Err(CompileError::UnsupportedCast),
            },
        },
    }
}

/// The tail of a loop, once its body stands in `s`: an unconditional jump
/// back to `start`, the exit distance patched in at `pos` so that it lands
/// just past that jump.
pub open spec fn close_loop(s: Emit, start: int, pos: int) -> Emit {
    let s1 = s.emit_op(OpCode::Jmp);
    let s2 = s1.emit(jump(start - (s1.code.len() + 8)));
    s2.patch(pos, s2.code.len() - (pos + 8))
}

/// What translating the statement `t` in state `st` gives.
pub open spec fn stmt_out(st: Emit, t: SyntaxTree) -> Result<Emit, CompileError>
    decreases t, 0nat,
{
    match t {
        SyntaxTree::Assign { idt, exp, .. } => match expr_out(st.bind(idt@), exp) {
            Ok(s1) => Ok(s1.emit_op_arg(OpCode::Store, st.vi)),
            Err(err) => Err(err),
        },
        SyntaxTree::SeStmt { exp, blk } => match expr_out(st, exp) {
            Err(err) => Err(err),
            Ok(s1) => {
                let s2 = s1.emit_op(OpCode::JmpF).emit(jump(0));
                match block_out(s2, blk@) {
                    Err(err) => Err(err),
                    Ok(s3) => Ok(
                        s3.patch(s1.code.len() + 1int, s3.code.len() - s2.code.len()),
                    ),
                }
            },
        },
        SyntaxTree::EnquantoStmt { exp, blk } => match expr_out(st, exp) {
            Err(err) => Err(err),
            Ok(s1) => {
                let s2 = s1.emit_op(OpCode::JmpF).emit(jump(0));
                match block_out(s2, blk@) {
                    Err(err) => Err(err),
                    Ok(s3) => Ok(close_loop(s3, st.code.len() as int, s1.code.len() + 1int)),
                }
            },
        },
        SyntaxTree::ParaStmt { idt, lmt, blk } => match st.resolve(idt@) {
            None => Err(CompileError::UndefinedVariable),
            Some(slot) => match literal_out(st.emit_op_arg(OpCode::Load, slot), lmt) {
                Err(err) => Err(err),
                Ok(s1) => {
                    let s2 = s1.emit_op(OpCode::LE).emit_op(OpCode::JmpF).emit(jump(0));
                    match block_out(s2, blk@) {
                        Err(err) => Err(err),
                        Ok(s3) => match literal_out(
                            s3.emit_op_arg(OpCode::Load, slot),
                            Literal::Decimal(ONE_F32_BITS),
                        ) {
                            Err(err) => Err(err),
                            Ok(s4) => Ok(
                                close_loop(
                                    s4.emit_op(OpCode::Add).emit_op_arg(OpCode::Store, slot),
                                    st.code.len() as int,
                                    s1.code.len() + 2int,
                                ),
                            ),
                        },
                    }
                },
            },
        },
        SyntaxTree::Expr(e) => match expr_out(st, e) {
            Ok(s1) => Ok(s1.emit_op(OpCode::Pop)),
            Err(err) => Err(err),
        },
        SyntaxTree::Print(e) => match expr_out(st, e) {
            Ok(s1) => Ok(s1.emit_op(OpCode::Write)),
            Err(err) => Err(err),
        },
    }
}

/// Statements in order, stopping at the first that aborts.
pub open spec fn stmts_out(st: Emit, ss: Seq<SyntaxTree>) -> Result<Emit, CompileError>
    decreases ss, 1nat,
{
    if ss.len() == 0 {
        Ok(st)
    } else {
        match stmts_out(st, ss.drop_last()) {
            Ok(s1) => stmt_out(s1, ss.last()),
            Err(err) => Err(err),
        }
    }
}

/// A block: its statements in a scope of their own.
pub open spec fn block_out(st: Emit, ss: Seq<SyntaxTree>) -> Result<Emit, CompileError>
    decreases ss, 2nat,
{
    match stmts_out(st.open_frame(), ss) {
        Ok(s1) => Ok(s1.close_frame()),
        Err(err) => Err(err),
    }
}

/// A whole program: its block, then the halt instruction.
pub open spec fn program_out(st: Emit, block: Seq<SyntaxTree>) -> Result<Emit, CompileError> {
    match block_out(st, block) {
        Ok(s) => Ok(s.emit_op(OpCode::Halt)),
        Err(err) => Err(err),
    }
}

} // verus!
