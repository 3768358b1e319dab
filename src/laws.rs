//! Properties of the translation scheme that relate several steps or hold of
//! every input.
use vstd::prelude::*;

use crate::scheme::{
    block_out, cast_code, close_loop, expr_out, first_match, fresh, jump, literal_out, literal_value, operand, operator_code, program_out,
    stmt_out, stmts_out, Emit, ONE_F32_BITS,
};
use crate::syntax::{Expression, Literal, Operador, SyntaxTree};
use crate::vm::{byte_of, value_eq, OpCode, Value};

verus! {

/// Compilation depends on the program alone: two compilations of the same
/// block, each from a fresh state, give the same outcome, bytes included.
pub proof fn law_deterministic(block: Seq<SyntaxTree>, a: Emit, b: Emit)
    requires
        a == fresh(),
        b == fresh(),
    ensures
        program_out(a, block) == program_out(b, block),
{
}

proof fn lemma_first_match(pool: Seq<Value>, v: Value)
    ensures
        match first_match(pool, v) {
            Some(i) => i < pool.len() && value_eq(pool[i as int], v) && forall|j: int|
                0 <= j < i ==> !value_eq(#[trigger] pool[j], v),
            None => forall|j: int| 0 <= j < pool.len() ==> !value_eq(#[trigger] pool[j], v),
        },
    decreases pool.len(),
{
    if pool.len() > 0 {
        lemma_first_match(pool.drop_last(), v);
        assert forall|j: int| 0 <= j < pool.len() - 1 implies pool.drop_last()[j] == pool[j] by {}
    }
}

/// Interning never renumbers the table: a value equal to an entry leaves the
/// table unchanged and gets the address of such an entry; any other value is
/// appended, at the next address. No code is written either way.
pub proof fn law_intern(st: Emit, v: Value)
    ensures
        st.intern(v).0.code == st.code,
        (exists|i: int| 0 <= i < st.pool.len() && value_eq(st.pool[i], v)) ==> {
            &&& st.intern(v).0.pool == st.pool
            &&& st.intern(v).1 < st.pool.len()
            &&& value_eq(st.pool[st.intern(v).1 as int], v)
        },
        !(exists|i: int| 0 <= i < st.pool.len() && value_eq(st.pool[i], v)) ==> {
            &&& st.intern(v).0.pool == st.pool.push(v)
            &&& st.intern(v).1 == st.pool.len()
        },
{
    lemma_first_match(st.pool, v);
}

/// Binds each name in order.
pub open spec fn bind_all(st: Emit, ns: Seq<Seq<char>>) -> Emit
    decreases ns.len(),
{
    if ns.len() == 0 {
        st
    } else {
        bind_all(st, ns.drop_last()).bind(ns.last())
    }
}

proof fn lemma_bind_fresh_frame(st: Emit, ns: Seq<Seq<char>>)
    ensures
        bind_all(st.open_frame(), ns) == (Emit {
            names: st.names + Seq::new(ns.len(), |i: int| (ns[i], (st.vi + i) as nat)),
            starts: st.starts.push(st.names.len()),
            vi: st.vi + ns.len(),
            ..st
        }),
    decreases ns.len(),
{
    if ns.len() == 0 {
        assert(st.names + Seq::new(0, |i: int| (ns[i], (st.vi + i) as nat)) =~= st.names);
    } else {
        lemma_bind_fresh_frame(st, ns.drop_last());
        let prev = bind_all(st.open_frame(), ns.drop_last());
        assert(prev.bind(ns.last()).names =~= st.names + Seq::new(
            ns.len(),
            |i: int| (ns[i], (st.vi + i) as nat),
        ));
    }
}

/// Opening a scope, binding any names in it (the same name any number of
/// times) and closing it again leaves the bindings, the scopes and the slot
/// counter exactly as they were.
pub proof fn law_scope_round_trip(st: Emit, ns: Seq<Seq<char>>)
    ensures
        bind_all(st.open_frame(), ns).close_frame() == st,
{
    lemma_bind_fresh_frame(st, ns);
    let b = bind_all(st.open_frame(), ns);
    assert(b.names.take(st.names.len() as int) =~= st.names);
    assert(b.starts.drop_last() =~= st.starts);
}

/// `b` holds the code of `a` as its prefix.
pub open spec fn extends(a: Emit, b: Emit) -> bool {
    a.code.len() <= b.code.len() && b.code.subrange(0, a.code.len() as int) == a.code
}

proof fn lemma_extends_trans(a: Emit, b: Emit, c: Emit)
    requires
        extends(a, b),
        extends(b, c),
    ensures
        extends(a, c),
{
    assert forall|k: int| 0 <= k < a.code.len() implies c.code[k] == a.code[k] by {
        assert(c.code.subrange(0, b.code.len() as int)[k] == b.code[k]);
        assert(b.code.subrange(0, a.code.len() as int)[k] == a.code[k]);
    }
    assert(c.code.subrange(0, a.code.len() as int) =~= a.code);
}

proof fn lemma_same_code(a: Emit, b: Emit)
    requires
        a.code == b.code,
    ensures
        extends(a, b),
{
    assert(b.code.subrange(0, a.code.len() as int) =~= a.code);
}

proof fn lemma_emit_extends(a: Emit, bytes: Seq<u8>)
    ensures
        extends(a, a.emit(bytes)),
{
    assert(a.emit(bytes).code.subrange(0, a.code.len() as int) =~= a.code);
}

proof fn lemma_patch(a: Emit, b: Emit, pos: int, d: int)
    requires
        extends(a, b),
        a.code.len() <= pos,
        pos + 8 <= b.code.len(),
    ensures
        extends(a, b.patch(pos, d)),
        b.patch(pos, d).code.len() == b.code.len(),
        b.patch(pos, d).code.subrange(pos, pos + 8) == jump(d),
        forall|k: int|
            0 <= k < b.code.len() && !(pos <= k < pos + 8) ==> b.patch(pos, d).code[k] == b.code[k],
{
    let c = b.patch(pos, d).code;
    assert(jump(d).len() == 8);
    assert forall|k: int| 0 <= k < a.code.len() implies c[k] == a.code[k] by {
        assert(b.code.subrange(0, a.code.len() as int)[k] == b.code[k]);
    }
    assert(c.subrange(0, a.code.len() as int) =~= a.code);
    assert(c.subrange(pos, pos + 8) =~= jump(d));
}

proof fn lemma_literal_extends(st: Emit, l: Literal)
    ensures
        literal_out(st, l) matches Ok(s) ==> extends(st, s),
{
    if let Some(v) = literal_value(l) {
        law_intern(st, v);
        let s1 = st.intern(v).0;
        lemma_same_code(st, s1);
        lemma_emit_extends(s1, seq![byte_of(OpCode::Const)] + operand(st.intern(v).1));
        lemma_extends_trans(st, s1, s1.emit_op_arg(OpCode::Const, st.intern(v).1));
    }
}

proof fn lemma_expr_extends(st: Emit, e: Expression)
    ensures
        expr_out(st, e) matches Ok(s) ==> extends(st, s),
    decreases e,
{
    match e {
        Expression::Literal(l) => lemma_literal_extends(st, l),
        Expression::Identifier(n, _) => {
            if let Some(slot) = st.resolve(n@) {
                lemma_emit_extends(st, seq![byte_of(OpCode::Load)] + operand(slot));
            }
        },
        Expression::BinOp { ope, lhs, rhs, .. } => {
            lemma_expr_extends(st, *lhs);
            lemma_same_code(st, st);
            let left = if ope == Operador::Atrib {
                Ok(st)
            } else {
                expr_out(st, *lhs)
            };
            if let Ok(s1) = left {
                lemma_expr_extends(s1, *rhs);
                if let Ok(s2) = expr_out(s1, *rhs) {
                    lemma_extends_trans(st, s1, s2);
                    if let Ok(code) = operator_code(ope) {
                        let s3 = match code {
                            Some(c) => s2.emit_op(c),
                            None => s2,
                        };
                        match code {
                            Some(c) => lemma_emit_extends(s2, seq![byte_of(c)]),
                            None => lemma_same_code(s2, s2),
                        }
                        lemma_extends_trans(st, s2, s3);
                        if let Expression::Identifier(n, _) = *lhs {
                            if let Some(slot) = s3.resolve(n@) {
                                let s4 = s3.emit_op(OpCode::Dup);
                                lemma_emit_extends(s3, seq![byte_of(OpCode::Dup)]);
                                lemma_emit_extends(s4, seq![byte_of(OpCode::Store)] + operand(slot));
                                lemma_extends_trans(st, s3, s4);
                                lemma_extends_trans(st, s4, s4.emit_op_arg(OpCode::Store, slot));
                            }
                        }
                    }
                }
            }
        },
        Expression::Cast(inner, t) => {
            lemma_expr_extends(st, *inner);
            if let Ok(s1) = expr_out(st, *inner) {
                if let Some(c) = cast_code(t) {
                    lemma_emit_extends(s1, seq![byte_of(c)]);
                    lemma_extends_trans(st, s1, s1.emit_op(c));
                }
            }
        },
    }
}

/// What closing a loop writes: the exit patch stays inside the code before
/// it, and the back jump with its operand ends the code.
proof fn lemma_close_loop(a: Emit, s: Emit, start: int, pos: int)
    requires
        extends(a, s),
        a.code.len() <= pos,
        pos + 8 <= s.code.len(),
    ensures
        extends(a, close_loop(s, start, pos)),
        close_loop(s, start, pos).code.len() == s.code.len() + 9,
        close_loop(s, start, pos).code[s.code.len() as int] == byte_of(OpCode::Jmp),
        close_loop(s, start, pos).code.subrange(s.code.len() + 1int, s.code.len() + 9int) == jump(
            start - (s.code.len() + 9),
        ),
{
    let s1 = s.emit_op(OpCode::Jmp);
    let s2 = s1.emit(jump(start - (s1.code.len() + 8)));
    lemma_emit_extends(s, seq![byte_of(OpCode::Jmp)]);
    lemma_emit_extends(s1, jump(start - (s1.code.len() + 8)));
    lemma_extends_trans(a, s, s1);
    lemma_extends_trans(a, s1, s2);
    lemma_patch(a, s2, pos, s2.code.len() - (pos + 8));
    let fin = close_loop(s, start, pos);
    assert(fin.code[s.code.len() as int] == s2.code[s.code.len() as int]);
    assert forall|k: int| 0 <= k < 8 implies #[trigger] fin.code.subrange(s.code.len() + 1int, s.code.len() + 9int)[k]
        == jump(start - (s.code.len() + 9))[k] by {
        assert(fin.code[s.code.len() + 1 + k] == s2.code[s.code.len() + 1 + k]);
    }
    assert(fin.code.subrange(s.code.len() + 1int, s.code.len() + 9int) =~= jump(start - (s.code.len() + 9)));
}

/// A conditional's code: the condition's code, the jump-if-false, its
/// distance, and the body's code, where the distance is the length of the
/// body's code.
pub open spec fn conditional_shape(st: Emit, exp: Expression, blk: Seq<SyntaxTree>, fin: Emit) -> bool {
    let s1 = expr_out(st, exp)->Ok_0;
    let s2 = s1.emit_op(OpCode::JmpF).emit(jump(0));
    let body = block_out(s2, blk)->Ok_0.code.skip(s2.code.len() as int);
    &&& expr_out(st, exp) is Ok
    &&& block_out(s2, blk) is Ok
    &&& fin.code == s1.code + seq![byte_of(OpCode::JmpF)] + jump(body.len() as int) + body
}

/// A loop's code ends with an unconditional jump whose distance, counted
/// from the end of its own operand, leads back to where the loop's code begins.
pub open spec fn loop_tail_shape(st: Emit, fin: Emit) -> bool {
    let n = fin.code.len() as int;
    &&& st.code.len() + 9 <= n
    &&& fin.code[n - 9] == byte_of(OpCode::Jmp)
    &&& fin.code.subrange(n - 8, n) == jump(st.code.len() - n)
}

proof fn lemma_stmt_extends(st: Emit, t: SyntaxTree)
    ensures
        stmt_out(st, t) matches Ok(s) ==> extends(st, s),
        stmt_out(st, t) matches Ok(s) ==> (t is SeStmt ==> conditional_shape(st, t->SeStmt_exp, t->SeStmt_blk@, s)),
        stmt_out(st, t) matches Ok(s) ==> (t is EnquantoStmt || t is ParaStmt ==> loop_tail_shape(st, s)),
    decreases t, 0nat,
{
    match t {
        SyntaxTree::Assign { idt, exp, .. } => {
            let s0 = st.bind(idt@);
            lemma_same_code(st, s0);
            lemma_expr_extends(s0, exp);
            if let Ok(s1) = expr_out(s0, exp) {
                lemma_extends_trans(st, s0, s1);
                lemma_emit_extends(s1, seq![byte_of(OpCode::Store)] + operand(st.vi));
                lemma_extends_trans(st, s1, s1.emit_op_arg(OpCode::Store, st.vi));
            }
        },
        SyntaxTree::SeStmt { exp, blk } => {
            lemma_expr_extends(st, exp);
            if let Ok(s1) = expr_out(st, exp) {
                let s2 = s1.emit_op(OpCode::JmpF).emit(jump(0));
                lemma_emit_extends(s1, seq![byte_of(OpCode::JmpF)]);
                lemma_emit_extends(s1.emit_op(OpCode::JmpF), jump(0));
                lemma_extends_trans(st, s1, s1.emit_op(OpCode::JmpF));
                lemma_extends_trans(st, s1.emit_op(OpCode::JmpF), s2);
                lemma_block_extends(s2, blk@);
                if let Ok(s3) = block_out(s2, blk@) {
                    let sa = s1.emit_op(OpCode::JmpF);
                    let k = s1.code.len() as int;
                    lemma_extends_trans(st, s2, s3);
                    lemma_extends_trans(sa, s2, s3);
                    lemma_patch(sa, s3, k + 1, s3.code.len() - s2.code.len());
                    let fin = s3.patch(k + 1, s3.code.len() - s2.code.len());
                    lemma_patch(st, s3, k + 1, s3.code.len() - s2.code.len());
                    assert(s3.code.take(k + 1) =~= s3.code.subrange(0, sa.code.len() as int));
                    assert(fin.code =~= s1.code + seq![byte_of(OpCode::JmpF)] + jump(
                        s3.code.len() - s2.code.len(),
                    ) + s3.code.skip(s2.code.len() as int));
                }
            }
        },
        SyntaxTree::EnquantoStmt { exp, blk } => {
            lemma_expr_extends(st, exp);
            if let Ok(s1) = expr_out(st, exp) {
                let s2 = s1.emit_op(OpCode::JmpF).emit(jump(0));
                lemma_emit_extends(s1, seq![byte_of(OpCode::JmpF)]);
                lemma_emit_extends(s1.emit_op(OpCode::JmpF), jump(0));
                lemma_extends_trans(st, s1, s1.emit_op(OpCode::JmpF));
                lemma_extends_trans(st, s1.emit_op(OpCode::JmpF), s2);
                lemma_block_extends(s2, blk@);
                if let Ok(s3) = block_out(s2, blk@) {
                    lemma_extends_trans(st, s2, s3);
                    lemma_close_loop(st, s3, st.code.len() as int, s1.code.len() + 1int);
                }
            }
        },
        SyntaxTree::ParaStmt { idt, lmt, blk } => {
            if let Some(slot) = st.resolve(idt@) {
                let s0 = st.emit_op_arg(OpCode::Load, slot);
                lemma_emit_extends(st, seq![byte_of(OpCode::Load)] + operand(slot));
                lemma_literal_extends(s0, lmt);
                if let Ok(s1) = literal_out(s0, lmt) {
                    lemma_extends_trans(st, s0, s1);
                    let sa = s1.emit_op(OpCode::LE);
                    let sb = sa.emit_op(OpCode::JmpF);
                    let s2 = sb.emit(jump(0));
                    lemma_emit_extends(s1, seq![byte_of(OpCode::LE)]);
                    lemma_emit_extends(sa, seq![byte_of(OpCode::JmpF)]);
                    lemma_emit_extends(sb, jump(0));
                    lemma_extends_trans(st, s1, sa);
                    lemma_extends_trans(st, sa, sb);
                    lemma_extends_trans(st, sb, s2);
                    lemma_block_extends(s2, blk@);
                    if let Ok(s3) = block_out(s2, blk@) {
                        lemma_extends_trans(st, s2, s3);
                        let s4 = s3.emit_op_arg(OpCode::Load, slot);
                        lemma_emit_extends(s3, seq![byte_of(OpCode::Load)] + operand(slot));
                        lemma_extends_trans(st, s3, s4);
                        lemma_literal_extends(s4, Literal::Decimal(ONE_F32_BITS));
                        if let Ok(s5) = literal_out(s4, Literal::Decimal(ONE_F32_BITS)) {
                            lemma_extends_trans(st, s4, s5);
                            let s6 = s5.emit_op(OpCode::Add);
                            let s7 = s6.emit_op_arg(OpCode::Store, slot);
                            lemma_emit_extends(s5, seq![byte_of(OpCode::Add)]);
                            lemma_emit_extends(s6, seq![byte_of(OpCode::Store)] + operand(slot));
                            lemma_extends_trans(st, s5, s6);
                            lemma_extends_trans(st, s6, s7);
                            lemma_close_loop(st, s7, st.code.len() as int, s1.code.len() + 2int);
                        }
                    }
                }
            }
        },
        SyntaxTree::Expr(e) => {
            lemma_expr_extends(st, e);
            if let Ok(s1) = expr_out(st, e) {
                lemma_emit_extends(s1, seq![byte_of(OpCode::Pop)]);
                lemma_extends_trans(st, s1, s1.emit_op(OpCode::Pop));
            }
        },
        SyntaxTree::Print(e) => {
            lemma_expr_extends(st, e);
            if let Ok(s1) = expr_out(st, e) {
                lemma_emit_extends(s1, seq![byte_of(OpCode::Write)]);
                lemma_extends_trans(st, s1, s1.emit_op(OpCode::Write));
            }
        },
    }
}

proof fn lemma_stmts_extends(st: Emit, ss: Seq<SyntaxTree>)
    ensures
        stmts_out(st, ss) matches Ok(s) ==> extends(st, s),
    decreases ss, 1nat,
{
    if ss.len() == 0 {
        lemma_same_code(st, st);
    } else {
        lemma_stmts_extends(st, ss.drop_last());
        if let Ok(s1) = stmts_out(st, ss.drop_last()) {
            lemma_stmt_extends(s1, ss.last());
            if let Ok(s2) = stmt_out(s1, ss.last()) {
                lemma_extends_trans(st, s1, s2);
            }
        }
    }
}

proof fn lemma_block_extends(st: Emit, ss: Seq<SyntaxTree>)
    ensures
        block_out(st, ss) matches Ok(s) ==> extends(st, s),
    decreases ss, 2nat,
{
    lemma_same_code(st, st.open_frame());
    lemma_stmts_extends(st.open_frame(), ss);
    if let Ok(s1) = stmts_out(st.open_frame(), ss) {
        lemma_extends_trans(st, st.open_frame(), s1);
        lemma_same_code(s1, s1.close_frame());
        lemma_extends_trans(st, s1, s1.close_frame());
    }
}

/// A conditional compiles to its condition's code, the jump-if-false, and
/// the body's code; the jump's distance is exactly the number of bytes of
/// the body's code.
pub proof fn law_conditional_patch(st: Emit, exp: Expression, blk: Vec<SyntaxTree>)
    requires
        stmt_out(st, (SyntaxTree::SeStmt { exp, blk })) is Ok,
    ensures
        conditional_shape(st, exp, blk@, stmt_out(st, (SyntaxTree::SeStmt { exp, blk }))->Ok_0),
{
    lemma_stmt_extends(st, SyntaxTree::SeStmt { exp, blk });
}

/// A loop, pre-tested or counted, ends with its back jump: the distance is
/// the number of bytes from the end of the jump's operand back to the first
/// byte of the loop's condition, taken negative.
pub proof fn law_loop_back_jump(st: Emit, t: SyntaxTree)
    requires
        t is EnquantoStmt || t is ParaStmt,
        stmt_out(st, t) is Ok,
    ensures
        loop_tail_shape(st, stmt_out(st, t)->Ok_0),
{
    lemma_stmt_extends(st, t);
}

} // verus!
