//! The compiler: it walks the syntax tree and writes the byte stream and the
//! constant table, as `scheme` states.
use vstd::prelude::*;

use crate::scheme::{
    agrees, bad_target, block_out, cast_code, expr_out, first_match, fresh, jump,
    lemma_first_match_prefix, lemma_last_index_before, lemma_stmts_err_prefix,
    lemma_stmts_size_prefix, literal_out, max_load, operator_code, program_out, stmt_out, stmts_out,
    CompileError, Emit, ONE_F32_BITS,
};
use crate::syntax::{
    expr_size, stmt_size, stmts_size, Expression, Literal, Operador, Program, SyntaxTree, Type,
};
use crate::vm::{byte_of, encode_u64, word_u64, LinaValue, OpCode, Value};

verus! {

/// One compilation in progress: the two outputs, and the scopes that are
/// open. The bindings of all scopes stand in `names`, innermost last;
/// `starts` holds the index where each scope's bindings begin.
#[derive(Debug)]
pub struct Compiler {
    pub bytecode: Vec<u8>,
    pub constants: Vec<LinaValue>,
    names: Vec<(String, usize)>,
    starts: Vec<usize>,
    vi: usize,
}

impl Compiler {
    /// The abstract state that this compilation stands in.
    pub closed spec fn model(&self) -> Emit {
        Emit {
            code: self.bytecode@,
            pool: self.constants@.map_values(|v: LinaValue| v@),
            names: self.names@.map_values(|p: (String, usize)| (p.0@, p.1 as nat)),
            starts: self.starts@.map_values(|s: usize| s as nat),
            vi: self.vi as nat,
        }
    }

    pub open spec fn wf(&self) -> bool {
        self.model().wf()
    }

    /// The byte stream written so far.
    pub fn code(&self) -> (r: &Vec<u8>)
        ensures
            r@ == self.model().code,
    {
        &self.bytecode
    }

    /// The constant table built so far.
    pub fn pool(&self) -> (r: &Vec<LinaValue>)
        ensures
            r@.map_values(|v: LinaValue| v@) == self.model().pool,
    {
        &self.constants
    }

    /// The slot counter: the next slot a binding gets.
    pub fn slot_counter(&self) -> (r: usize)
        ensures
            r == self.model().vi,
    {
        self.vi
    }

    pub fn new() -> (r: Self)
        ensures
            r.model() == fresh(),
            r.wf(),
    {
        let r = Compiler {
            bytecode: Vec::new(),
            constants: Vec::new(),
            names: Vec::new(),
            starts: vec![0usize],
            vi: 0,
        };
        assert(r.model().pool =~= Seq::<Value>::empty());
        assert(r.model().names =~= Seq::<(Seq<char>, nat)>::empty());
        assert(r.model().starts =~= seq![0nat]);
        r
    }

    fn push_bytes(&mut self, w: [u8; 8])
        ensures
            final(self).model() == old(self).model().emit(w@),
    {
        let ghost start = self.bytecode@;
        let mut i: usize = 0;
        while i < 8
            invariant
                i <= 8,
                self.bytecode@ == start + w@.take(i as int),
                self.constants == old(self).constants,
                self.names == old(self).names,
                self.starts == old(self).starts,
                self.vi == old(self).vi,
            decreases 8 - i,
        {
            self.bytecode.push(w[i]);
            i = i + 1;
            assert(self.bytecode@ =~= start + w@.take(i as int));
        }
        assert(w@.take(8) =~= w@);
    }

    fn op(&mut self, op: OpCode)
        ensures
            final(self).model() == old(self).model().emit_op(op),
    {
        self.bytecode.push(op.to_byte());
        assert(self.bytecode@ =~= old(self).model().emit_op(op).code);
    }

    fn op_arg(&mut self, op: OpCode, n: usize)
        ensures
            final(self).model() == old(self).model().emit_op_arg(op, n as nat),
    {
        self.op(op);
        self.push_bytes(encode_u64(n as u64));
        assert(self.model().code =~= old(self).model().emit_op_arg(op, n as nat).code);
    }

    fn op_const(&mut self, addr: usize)
        ensures
            final(self).model() == old(self).model().emit_op_arg(OpCode::Const, addr as nat),
    {
        self.op_arg(OpCode::Const, addr);
    }

    fn op_store(&mut self, addr: usize)
        ensures
            final(self).model() == old(self).model().emit_op_arg(OpCode::Store, addr as nat),
    {
        self.op_arg(OpCode::Store, addr);
    }

    fn op_load(&mut self, addr: usize)
        ensures
            final(self).model() == old(self).model().emit_op_arg(OpCode::Load, addr as nat),
    {
        self.op_arg(OpCode::Load, addr);
    }

    /// Appends a jump distance. A nonzero distance is pushed out by the
    /// operand's own eight bytes, so that it counts from the end of the operand.
    fn push_offset(&mut self, offset: i64)
        requires
            -i64::MAX + 8 <= offset <= i64::MAX - 8,
        ensures
            final(self).model() == old(self).model().emit(
                jump(offset + 8 * (if offset > 0 { 1int } else if offset < 0 { -1int } else { 0int })),
            ),
    {
        let total: i64 = if offset > 0 {
            offset + 8
        } else if offset < 0 {
            offset - 8
        } else {
            0
        };
        self.push_bytes(encode_u64(#[verifier::truncate] (total as u64)));
    }

    /// Overwrites the eight bytes at `pos` with `offset`.
    fn insert_offset(&mut self, offset: i64, pos: usize)
        requires
            pos + 8 <= old(self).bytecode@.len(),
        ensures
            final(self).model() == old(self).model().patch(pos as int, offset as int),
    {
        let w = encode_u64(#[verifier::truncate] (offset as u64));
        let len = self.bytecode.len();
        let ghost before = self.bytecode@;
        let mut i: usize = 0;
        while i < 8
            invariant
                i <= 8,
                pos + 8 <= len,
                before.len() == len,
                w@ == word_u64(offset as u64),
                self.bytecode@.len() == before.len(),
                forall|k: int| 0 <= k < before.len() && !(pos <= k < pos + i) ==> self.bytecode@[k] == before[k],
                forall|k: int| pos <= k < pos + i ==> self.bytecode@[k] == w@[k - pos],
                self.constants == old(self).constants,
                self.names == old(self).names,
                self.starts == old(self).starts,
                self.vi == old(self).vi,
            decreases 8 - i,
        {
            self.bytecode.set(pos + i, w[i]);
            i = i + 1;
        }
        assert(self.bytecode@ =~= old(self).model().patch(pos as int, offset as int).code);
    }

    fn enter_scope(&mut self)
        ensures
            final(self).model() == old(self).model().open_frame(),
    {
        let n = self.names.len();
        self.starts.push(n);
        assert(self.model().starts =~= old(self).model().open_frame().starts);
    }

    fn exit_scope(&mut self)
        requires
            old(self).wf(),
            old(self).starts@.len() >= 2,
        ensures
            final(self).model() == old(self).model().close_frame(),
            final(self).wf(),
    {
        let ghost m = self.model();
        let last = self.starts.len() - 1;
        let s = self.starts[last];
        assert(m.starts[last as int] == s as nat);
        self.starts.pop();
        let n = self.names.len() - s;
        self.names.truncate(s);
        self.vi = self.vi - n;
        assert(self.model().names =~= m.close_frame().names);
        assert(self.model().starts =~= m.close_frame().starts);
        assert(self.model() == m.close_frame());
    }

    /// Binds `name` to a new slot in the innermost scope and returns the slot.
    fn set_var(&mut self, name: &String) -> (r: usize)
        requires
            old(self).wf(),
            old(self).vi < usize::MAX,
        ensures
            r == old(self).vi,
            final(self).model() == old(self).model().bind(name@),
            final(self).wf(),
    {
        let ghost m = self.model();
        let slot = self.vi;
        self.names.push((name.clone(), slot));
        self.vi = slot + 1;
        assert(self.model().names =~= m.bind(name@).names);
        slot
    }

    /// The slot of the innermost binding of `name`.
    fn get_var(&self, name: &String) -> (r: Result<usize, CompileError>)
        ensures
            match r {
                Ok(slot) => self.model().resolve(name@) == Some(slot as nat),
                Err(err) => self.model().resolve(name@) is None && err == CompileError::UndefinedVariable,
            },
    {
        let ghost m = self.model();
        let mut i: usize = self.names.len();
        while i > 0
            invariant
                i <= self.names@.len(),
                m == self.model(),
                forall|j: int| i <= j < m.names.len() ==> m.names[j].0 != name@,
            decreases i,
        {
            assert(m.names[i - 1] == (self.names@[i - 1].0@, self.names@[i - 1].1 as nat));
            if self.names[i - 1].0 == *name {
                proof {
                    lemma_last_index_before(m.names, name@, i as int);
                    assert(m.names.take(i as int).last().0 == name@);
                }
                return Ok(self.names[i - 1].1);
            }
            i = i - 1;
        }
        proof {
            lemma_last_index_before(m.names, name@, 0);
        }
        Err(CompileError::UndefinedVariable)
    }

    /// The address of `v` in the constant table, appending it when no equal
    /// value stands there yet.
    pub fn intern(&mut self, v: LinaValue) -> (r: usize)
        requires
            old(self).model().pool.len() < usize::MAX,
        ensures
            (final(self).model(), r as nat) == old(self).model().intern(v@),
    {
        let ghost m = self.model();
        let mut i: usize = 0;
        while i < self.constants.len()
            invariant
                i <= self.constants@.len(),
                self.model() == m,
                first_match(m.pool.take(i as int), v@) is None,
            decreases self.constants@.len() - i,
        {
            if self.constants[i].equals(&v) {
                proof {
                    assert(m.pool.take(i as int + 1).drop_last() =~= m.pool.take(i as int));
                    lemma_first_match_prefix(m.pool, v@, i as int + 1);
                }
                return i;
            }
            proof {
                assert(m.pool.take(i as int + 1).drop_last() =~= m.pool.take(i as int));
            }
            i = i + 1;
        }
        assert(m.pool.take(i as int) =~= m.pool);
        let ghost vv = v@;
        self.constants.push(v);
        assert(self.model().pool =~= m.pool.push(vv));
        self.constants.len() - 1
    }

    /// Loads a literal's value from the constant table.
    pub fn compile_literal(&mut self, literal: &Literal) -> (r: Result<(), CompileError>)
        requires
            old(self).model().load() + 100 <= max_load(),
        ensures
            agrees(r, final(self).model(), literal_out(old(self).model(), *literal)),
            r is Ok ==> final(self).model().load() <= old(self).model().load() + 100,
            r is Ok ==> final(self).model().names == old(self).model().names,
            r is Ok ==> final(self).model().starts == old(self).model().starts,
            r is Ok ==> final(self).model().vi == old(self).model().vi,
            r is Ok ==> old(self).model().code.len() <= final(self).model().code.len(),
            r is Err ==> final(self).model() == old(self).model(),
    {
        let value = match literal {
            Literal::Decimal(bits) => LinaValue::Float32(*bits),
            Literal::Inteiro(n) => LinaValue::Int32(*n),
            Literal::Texto(text) => LinaValue::Text(text.clone()),
            Literal::Booleano(b) => LinaValue::Boolean(*b),
            Literal::Nulo => {
                return Err(CompileError::UnsupportedCast);
            },
        };
        let addr = self.intern(value);
        self.op_const(addr);
        Ok(())
    }

    /// Translates an expression, leaving its value on the stack.
    pub fn compile_expr(&mut self, expr: &Expression) -> (r: Result<(), CompileError>)
        requires
            old(self).wf(),
            old(self).model().load() + 100 * expr_size(*expr) <= max_load(),
        ensures
            agrees(r, final(self).model(), expr_out(old(self).model(), *expr)),
            r is Ok ==> final(self).model().load() <= old(self).model().load() + 100 * expr_size(*expr),
            r is Ok ==> final(self).model().names == old(self).model().names,
            r is Ok ==> final(self).model().starts == old(self).model().starts,
            r is Ok ==> final(self).model().vi == old(self).model().vi,
            r is Ok ==> old(self).model().code.len() <= final(self).model().code.len(),
            bad_target(*expr) ==> final(self).model() == old(self).model(),
            *expr is Literal && expr->Literal_0 is Nulo ==> final(self).model() == old(self).model(),
            *expr is Identifier && old(self).model().resolve(expr->Identifier_0@) is None
                ==> final(self).model() == old(self).model(),
        decreases expr,
    {
        match expr {
            Expression::Literal(literal) => self.compile_literal(literal),
            Expression::Identifier(idt, _) => match self.get_var(idt) {
                Ok(addr) => {
                    self.op_load(addr);
                    Ok(())
                },
                Err(err) => Err(err),
            },
            Expression::BinOp { ope, lhs, rhs, .. } => {
                let assigning = ope.is_atrib();
                if assigning {
                    match &**lhs {
                        Expression::Identifier(..) => {},
                        _ => {
                            return Err(CompileError::InvalidAssignmentTarget);
                        },
                    }
                }
                // plain assignment does not read its left operand
                if *ope != Operador::Atrib {
                    match self.compile_expr(lhs) {
                        Ok(()) => {},
                        Err(err) => {
                            return Err(err);
                        },
                    }
                }
                match self.compile_expr(rhs) {
                    Ok(()) => {},
                    Err(err) => {
                        return Err(err);
                    },
                }
                match operator_opcode(*ope) {
                    Ok(Some(code)) => self.op(code),
                    Ok(None) => {},
                    Err(err) => {
                        return Err(err);
                    },
                }
                if assigning {
                    if let Expression::Identifier(idt, _) = &**lhs {
                        self.op(OpCode::Dup);
                        match self.get_var(idt) {
                            Ok(addr) => self.op_store(addr),
                            Err(err) => {
                                return Err(err);
                            },
                        }
                    }
                }
                Ok(())
            },
            Expression::Cast(inner, typ) => {
                match self.compile_expr(inner) {
                    Ok(()) => {},
                    Err(err) => {
                        return Err(err);
                    },
                }
                match cast_opcode(*typ) {
                    Some(code) => {
                        self.op(code);
                        Ok(())
                    },
                    None => Err(CompileError::UnsupportedCast),
                }
            },
        }
    }

    /// Translates a whole program, then the halt instruction.
    pub fn compile(&mut self, program: &Program) -> (r: Result<(), CompileError>)
        requires
            old(self).wf(),
            old(self).model().load() + 100 * stmts_size(program.block@) + 1 <= max_load(),
        ensures
            agrees(r, final(self).model(), program_out(old(self).model(), program.block@)),
            r is Ok ==> final(self).model().names == old(self).model().names,
            r is Ok ==> final(self).model().vi == old(self).model().vi,
            r is Ok ==> final(self).model().starts == old(self).model().starts,
            r is Ok ==> final(self).model().code.last() == byte_of(OpCode::Halt),
    {
        match self.compile_block(&program.block) {
            Ok(()) => {},
            Err(err) => {
                return Err(err);
            },
        }
        self.op(OpCode::Halt);
        Ok(())
    }

    /// Translates a block in a scope of its own.
    fn compile_block(&mut self, block: &Vec<SyntaxTree>) -> (r: Result<(), CompileError>)
        requires
            old(self).wf(),
            old(self).model().load() + 100 * stmts_size(block@) <= max_load(),
        ensures
            agrees(r, final(self).model(), block_out(old(self).model(), block@)),
            r is Ok ==> final(self).wf(),
            r is Ok ==> final(self).model().load() <= old(self).model().load() + 100 * stmts_size(block@),
            r is Ok ==> final(self).model().starts == old(self).model().starts,
            r is Ok ==> old(self).model().code.len() <= final(self).model().code.len(),
            r is Ok ==> final(self).model().names == old(self).model().names,
            r is Ok ==> final(self).model().vi == old(self).model().vi,
        decreases block@, 3nat,
    {
        let ghost m0 = self.model();
        self.enter_scope();
        let ghost m1 = self.model();
        assert(m1.wf());
        let mut i: usize = 0;
        while i < block.len()
            invariant
                i <= block@.len(),
                m0 == old(self).model(),
                m1 == m0.open_frame(),
                m0.wf(),
                m0.load() + 100 * stmts_size(block@) <= max_load(),
                self.wf(),
                stmts_out(m1, block@.take(i as int)) == Ok::<Emit, CompileError>(self.model()),
                self.model().starts == m1.starts,
                self.model().load() <= m1.load() + 100 * stmts_size(block@.take(i as int)),
                m0.code.len() <= self.model().code.len(),
                m1.names.len() <= self.model().names.len(),
                self.model().names.take(m1.names.len() as int) == m1.names,
                self.model().vi - self.model().names.len() == m1.vi - m1.names.len(),
            decreases block@.len() - i,
        {
            proof {
                assert(block@.take(i as int + 1).drop_last() =~= block@.take(i as int));
                assert(block@.take(i as int + 1).last() == block@[i as int]);
                lemma_stmts_size_prefix(block@, i as int + 1);
            }
            let ghost before = self.model();
            let r = self.compile_instruction(&block[i]);
            match r {
                Ok(()) => {
                    assert(self.model().names.take(m1.names.len() as int) =~= m1.names) by {
                        assert(before.names.take(m1.names.len() as int) == m1.names);
                    }
                },
                Err(err) => {
                    proof {
                        assert(stmts_out(m1, block@.take(i as int + 1)) == Err::<Emit, CompileError>(err));
                        lemma_stmts_err_prefix(m1, block@, i as int + 1);
                        assert(stmts_out(m1, block@) == Err::<Emit, CompileError>(err));
                    }
                    return Err(err);
                },
            }
            i = i + 1;
        }
        assert(block@.take(i as int) =~= block@);
        self.exit_scope();
        assert(self.model().names =~= m0.names);
        Ok(())
    }

    /// Translates one statement.
    pub fn compile_instruction(&mut self, instr: &SyntaxTree) -> (r: Result<(), CompileError>)
        requires
            old(self).wf(),
            old(self).model().load() + 100 * stmt_size(*instr) <= max_load(),
        ensures
            agrees(r, final(self).model(), stmt_out(old(self).model(), *instr)),
            r is Ok ==> final(self).wf(),
            r is Ok ==> final(self).model().load() <= old(self).model().load() + 100 * stmt_size(*instr),
            r is Ok ==> final(self).model().starts == old(self).model().starts,
            r is Ok ==> old(self).model().code.len() <= final(self).model().code.len(),
            r is Ok && !(*instr is Assign) ==> final(self).model().names == old(self).model().names
                && final(self).model().vi == old(self).model().vi,
            r is Ok && *instr is Assign ==> final(self).model().names == old(self).model().names.push(
                (instr->Assign_idt@, old(self).model().vi),
            ) && final(self).model().vi == old(self).model().vi + 1,
            *instr is ParaStmt && old(self).model().resolve(instr->ParaStmt_idt@) is None
                ==> final(self).model() == old(self).model(),
            *instr is Expr && bad_target(instr->Expr_0) ==> final(self).model() == old(self).model(),
            *instr is Print && bad_target(instr->Print_0) ==> final(self).model() == old(self).model(),
        decreases *instr, 2nat,
    {
        match instr {
            SyntaxTree::Assign { idt, exp, .. } => {
                let addr = self.set_var(idt);
                match self.compile_expr(exp) {
                    Ok(()) => {},
                    Err(err) => {
                        return Err(err);
                    },
                }
                self.op_store(addr);
                Ok(())
            },
            SyntaxTree::SeStmt { .. } => self.compile_if(instr),
            SyntaxTree::EnquantoStmt { .. } => self.compile_while(instr),
            SyntaxTree::ParaStmt { .. } => self.compile_for(instr),
            SyntaxTree::Expr(expr) => {
                match self.compile_expr(expr) {
                    Ok(()) => {},
                    Err(err) => {
                        return Err(err);
                    },
                }
                self.op(OpCode::Pop);
                Ok(())
            },
            SyntaxTree::Print(expr) => {
                match self.compile_expr(expr) {
                    Ok(()) => {},
                    Err(err) => {
                        return Err(err);
                    },
                }
                self.op(OpCode::Write);
                Ok(())
            },
        }
    }

    /// A conditional: the jump-if-false skips the body.
    fn compile_if(&mut self, instr: &SyntaxTree) -> (r: Result<(), CompileError>)
        requires
            old(self).wf(),
            old(self).model().load() + 100 * stmt_size(*instr) <= max_load(),
            instr is SeStmt,
        ensures
            agrees(r, final(self).model(), stmt_out(old(self).model(), *instr)),
            r is Ok ==> final(self).wf(),
            r is Ok ==> final(self).model().load() <= old(self).model().load() + 100 * stmt_size(*instr),
            r is Ok ==> final(self).model().starts == old(self).model().starts,
            r is Ok ==> old(self).model().code.len() <= final(self).model().code.len(),
            r is Ok && !(*instr is Assign) ==> final(self).model().names == old(self).model().names
                && final(self).model().vi == old(self).model().vi,
            r is Ok && *instr is Assign ==> final(self).model().names == old(self).model().names.push(
                (instr->Assign_idt@, old(self).model().vi),
            ) && final(self).model().vi == old(self).model().vi + 1,
            *instr is ParaStmt && old(self).model().resolve(instr->ParaStmt_idt@) is None
                ==> final(self).model() == old(self).model(),
        decreases *instr, 1nat,
    {
        match instr {
            SyntaxTree::SeStmt { exp, blk } => {
                match self.compile_expr(exp) {
                    Ok(()) => {},
                    Err(err) => {
                        return Err(err);
                    },
                }
                self.op(OpCode::JmpF);
                let jmp_offset_pos = self.bytecode.len();
                self.push_offset(0);
                let start = self.bytecode.len();
                match self.compile_block(blk) {
                    Ok(()) => {},
                    Err(err) => {
                        return Err(err);
                    },
                }
                let end = self.bytecode.len();
                // the distance skips the whole body
                self.insert_offset((end - start) as i64, jmp_offset_pos);
                Ok(())
            },
            _ => Ok(()),
        }
    }

    /// A pre-tested loop.
    fn compile_while(&mut self, instr: &SyntaxTree) -> (r: Result<(), CompileError>)
        requires
            old(self).wf(),
            old(self).model().load() + 100 * stmt_size(*instr) <= max_load(),
            instr is EnquantoStmt,
        ensures
            agrees(r, final(self).model(), stmt_out(old(self).model(), *instr)),
            r is Ok ==> final(self).wf(),
            r is Ok ==> final(self).model().load() <= old(self).model().load() + 100 * stmt_size(*instr),
            r is Ok ==> final(self).model().starts == old(self).model().starts,
            r is Ok ==> old(self).model().code.len() <= final(self).model().code.len(),
            r is Ok && !(*instr is Assign) ==> final(self).model().names == old(self).model().names
                && final(self).model().vi == old(self).model().vi,
            r is Ok && *instr is Assign ==> final(self).model().names == old(self).model().names.push(
                (instr->Assign_idt@, old(self).model().vi),
            ) && final(self).model().vi == old(self).model().vi + 1,
            *instr is ParaStmt && old(self).model().resolve(instr->ParaStmt_idt@) is None
                ==> final(self).model() == old(self).model(),
        decreases *instr, 1nat,
    {
        match instr {
            SyntaxTree::EnquantoStmt { exp, blk } => {
                let start = self.bytecode.len();
                match self.compile_expr(exp) {
                    Ok(()) => {},
                    Err(err) => {
                        return Err(err);
                    },
                }
                self.op(OpCode::JmpF);
                let jmpf_offset_pos = self.bytecode.len();
                self.push_offset(0);
                match self.compile_block(blk) {
                    Ok(()) => {},
                    Err(err) => {
                        return Err(err);
                    },
                }
                self.close_loop(start, jmpf_offset_pos);
                Ok(())
            },
            _ => Ok(()),
        }
    }

    /// A counted loop over a variable bound outside it, up to an inclusive limit.
    fn compile_for(&mut self, instr: &SyntaxTree) -> (r: Result<(), CompileError>)
        requires
            old(self).wf(),
            old(self).model().load() + 100 * stmt_size(*instr) <= max_load(),
            instr is ParaStmt,
        ensures
            agrees(r, final(self).model(), stmt_out(old(self).model(), *instr)),
            r is Ok ==> final(self).wf(),
            r is Ok ==> final(self).model().load() <= old(self).model().load() + 100 * stmt_size(*instr),
            r is Ok ==> final(self).model().starts == old(self).model().starts,
            r is Ok ==> old(self).model().code.len() <= final(self).model().code.len(),
            r is Ok && !(*instr is Assign) ==> final(self).model().names == old(self).model().names
                && final(self).model().vi == old(self).model().vi,
            r is Ok && *instr is Assign ==> final(self).model().names == old(self).model().names.push(
                (instr->Assign_idt@, old(self).model().vi),
            ) && final(self).model().vi == old(self).model().vi + 1,
            *instr is ParaStmt && old(self).model().resolve(instr->ParaStmt_idt@) is None
                ==> final(self).model() == old(self).model(),
        decreases *instr, 1nat,
    {
        match instr {
            SyntaxTree::ParaStmt { idt, lmt, blk } => {
                let addr = match self.get_var(idt) {
                    Ok(addr) => addr,
                    Err(err) => {
                        return Err(err);
                    },
                };
                let start = self.bytecode.len();
                self.op_load(addr);
                match self.compile_literal(lmt) {
                    Ok(()) => {},
                    Err(err) => {
                        return Err(err);
                    },
                }
                self.op(OpCode::LE);
                self.op(OpCode::JmpF);
                let jmp_offset_pos = self.bytecode.len();
                self.push_offset(0);
                match self.compile_block(blk) {
                    Ok(()) => {},
                    Err(err) => {
                        return Err(err);
                    },
                }
                self.op_load(addr);
                match self.compile_literal(&Literal::Decimal(ONE_F32_BITS)) {
                    Ok(()) => {},
                    Err(err) => {
                        return Err(err);
                    },
                }
                self.op(OpCode::Add);
                self.op_store(addr);
                self.close_loop(start, jmp_offset_pos);
                Ok(())
            },
            _ => Ok(()),
        }
    }

    /// Ends a loop whose condition begins at `start` and whose exit distance
    /// waits at `pos`: jumps back to the condition, then patches the exit to
    /// land just past that jump.
    fn close_loop(&mut self, start: usize, pos: usize)
        requires
            start < pos,
            pos + 8 <= old(self).model().code.len(),
            old(self).model().code.len() + 17 <= i64::MAX,
        ensures
            final(self).model() == crate::scheme::close_loop(old(self).model(), start as int, pos as int),
            final(self).model().code.len() == old(self).model().code.len() + 9,
    {
        self.op(OpCode::Jmp);
        let end = self.bytecode.len();
        self.push_offset(-((end - start) as i64));
        let end = self.bytecode.len();
        self.insert_offset((end - (pos + 8)) as i64, pos);
    }
}

/// Compiles a program in a fresh compiler. On success the compiler holds the
/// byte stream, ended by the halt instruction, and the constant table.
pub fn compile(program: &Program) -> (r: Result<Compiler, CompileError>)
    requires
        100 * stmts_size(program.block@) + 1 <= max_load(),
    ensures
        match r {
            Ok(c) => program_out(fresh(), program.block@) == Ok::<Emit, CompileError>(c.model()),
            Err(err) => program_out(fresh(), program.block@) == Err::<Emit, CompileError>(err),
        },
        r matches Ok(c) ==> c.model().vi == 0 && c.model().names.len() == 0 && c.model().starts
            == seq![0nat] && c.model().code.last() == byte_of(OpCode::Halt),
{
    let mut compiler = Compiler::new();
    match compiler.compile(program) {
        Ok(()) => Ok(compiler),
        Err(err) => Err(err),
    }
}

fn operator_opcode(o: Operador) -> (r: Result<Option<OpCode>, CompileError>)
    ensures
        r == operator_code(o),
{
    match o {
        Operador::MaiorQue => Ok(Some(OpCode::GT)),
        Operador::MenorQue => Ok(Some(OpCode::LT)),
        Operador::MaiorIgualQue => Ok(Some(OpCode::GE)),
        Operador::MenorIgualQue => Ok(Some(OpCode::LE)),
        Operador::Igual => Ok(Some(OpCode::Eq)),
        Operador::Diferente => Ok(Some(OpCode::NE)),
        Operador::E => Ok(Some(OpCode::And)),
        Operador::Ou => Ok(Some(OpCode::Or)),
        Operador::Adic | Operador::AdicAtrib => Ok(Some(OpCode::Add)),
        Operador::Subt | Operador::SubtAtrib => Ok(Some(OpCode::Sub)),
        Operador::Mult | Operador::MultAtrib => Ok(Some(OpCode::Mul)),
        Operador::Div | Operador::DivAtrib => Ok(Some(OpCode::Div)),
        Operador::Resto | Operador::RestoAtrib => Ok(Some(OpCode::Rem)),
        Operador::Exp | Operador::ExpAtrib => Err(CompileError::UnsupportedOperator),
        Operador::Atrib => Ok(None),
    }
}

fn cast_opcode(t: Type) -> (r: Option<OpCode>)
    ensures
        r == cast_code(t),
{
    match t {
        Type::Integer => Some(OpCode::CastI),
        Type::Real => Some(OpCode::CastF),
        Type::Text => Some(OpCode::CastS),
        _ => None,
    }
}

} // verus!
