use lina::compiler::{compile, Compiler};
use lina::scheme::CompileError;
use lina::syntax::{Expression, Literal, Operador, Program, SyntaxTree, Type};
use lina::vm::{LinaValue, OpCode};

fn b(op: OpCode) -> u8 {
    op.to_byte()
}

fn word(v: i64) -> Vec<u8> {
    v.to_le_bytes().to_vec()
}

fn with_arg(op: OpCode, v: i64) -> Vec<u8> {
    let mut r = vec![b(op)];
    r.extend(word(v));
    r
}

fn ident(name: &str) -> Expression {
    Expression::Identifier(name.to_string(), Type::Integer)
}

fn int_lit(n: i32) -> Expression {
    Expression::Literal(Literal::Inteiro(n))
}

fn binop(ope: Operador, lhs: Expression, rhs: Expression) -> Expression {
    Expression::BinOp { ope, lhs: Box::new(lhs), rhs: Box::new(rhs), typ: Type::Integer }
}

fn assign(name: &str, exp: Expression) -> SyntaxTree {
    SyntaxTree::Assign { idt: name.to_string(), exp, typ: Type::Integer }
}

fn program(block: Vec<SyntaxTree>) -> Program {
    Program { block }
}

#[derive(Clone, Debug, PartialEq)]
enum Val {
    I(i64),
    F(f32),
    S(String),
    B(bool),
}

fn num(v: &Val) -> f32 {
    match v {
        Val::I(i) => *i as f32,
        Val::F(f) => *f,
        _ => panic!("not a number"),
    }
}

fn arith(op: u8, l: Val, r: Val) -> Val {
    if let (Val::I(x), Val::I(y)) = (&l, &r) {
        return Val::I(match op {
            17 => x + y,
            18 => x - y,
            19 => x * y,
            20 => x / y,
            _ => x % y,
        });
    }
    let (x, y) = (num(&l), num(&r));
    Val::F(match op {
        17 => x + y,
        18 => x - y,
        19 => x * y,
        20 => x / y,
        _ => x % y,
    })
}

/// A small stack machine over the compiler's output; returns the slots and
/// what was printed.
fn run(c: &Compiler) -> (Vec<Option<Val>>, Vec<Val>) {
    let code = &c.bytecode;
    let mut slots: Vec<Option<Val>> = vec![None; 64];
    let mut stack: Vec<Val> = Vec::new();
    let mut out = Vec::new();
    let mut ip = 0usize;
    let read = |ip: usize| i64::from_le_bytes(code[ip..ip + 8].try_into().unwrap());
    for _ in 0..100_000 {
        let op = code[ip];
        ip += 1;
        match op {
            0 => {
                let a = read(ip) as usize;
                ip += 8;
                stack.push(match &c.constants[a] {
                    LinaValue::Int32(i) => Val::I(*i as i64),
                    LinaValue::Float32(bits) => Val::F(f32::from_bits(*bits)),
                    LinaValue::Text(s) => Val::S(s.clone()),
                    LinaValue::Boolean(x) => Val::B(*x),
                });
            }
            1 => {
                let a = read(ip) as usize;
                ip += 8;
                stack.push(slots[a].clone().expect("unset slot"));
            }
            2 => {
                let a = read(ip) as usize;
                ip += 8;
                slots[a] = stack.pop();
            }
            3 => {
                let t = stack.last().unwrap().clone();
                stack.push(t);
            }
            4 => {
                stack.pop();
            }
            5 => {
                let d = read(ip);
                ip = (ip as i64 + 8 + d) as usize;
            }
            6 => {
                let d = read(ip);
                ip += 8;
                if stack.pop() == Some(Val::B(false)) {
                    ip = (ip as i64 + d) as usize;
                }
            }
            7 => return (slots, out),
            8 => out.push(stack.pop().unwrap()),
            9..=14 => {
                let r = num(&stack.pop().unwrap());
                let l = num(&stack.pop().unwrap());
                stack.push(Val::B(match op {
                    9 => l > r,
                    10 => l < r,
                    11 => l >= r,
                    12 => l <= r,
                    13 => l == r,
                    _ => l != r,
                }));
            }
            17..=21 => {
                let r = stack.pop().unwrap();
                let l = stack.pop().unwrap();
                stack.push(arith(op, l, r));
            }
            _ => panic!("unexpected opcode {op}"),
        }
    }
    panic!("did not halt");
}

#[test]
fn print_after_assignment_compiles_exactly() {
    let p = program(vec![assign("x", int_lit(10)), SyntaxTree::Print(ident("x"))]);
    let c = compile(&p).unwrap();
    let mut expected = with_arg(OpCode::Const, 0);
    expected.extend(with_arg(OpCode::Store, 0));
    expected.extend(with_arg(OpCode::Load, 0));
    expected.push(b(OpCode::Write));
    expected.push(b(OpCode::Halt));
    assert_eq!(c.bytecode, expected);
    assert_eq!(c.constants, vec![LinaValue::Int32(10)]);
}

#[test]
fn while_loop_counts_to_three() {
    let body = vec![SyntaxTree::Expr(binop(
        Operador::Atrib,
        ident("x"),
        binop(Operador::Adic, ident("x"), int_lit(1)),
    ))];
    let p = program(vec![
        assign("x", int_lit(0)),
        SyntaxTree::EnquantoStmt { exp: binop(Operador::MenorQue, ident("x"), int_lit(3)), blk: body },
    ]);
    let c = compile(&p).unwrap();
    let (slots, _) = run(&c);
    assert_eq!(slots[0], Some(Val::I(3)));
}

#[test]
fn counted_loop_bound_is_inclusive() {
    let body = vec![SyntaxTree::Expr(binop(Operador::AdicAtrib, ident("n"), int_lit(1)))];
    let p = program(vec![
        assign("n", int_lit(0)),
        assign("i", int_lit(0)),
        SyntaxTree::ParaStmt { idt: "i".to_string(), lmt: Literal::Inteiro(2), blk: body },
        SyntaxTree::Print(ident("n")),
    ]);
    let c = compile(&p).unwrap();
    let (slots, out) = run(&c);
    assert_eq!(slots[0], Some(Val::I(3)));
    assert_eq!(out, vec![Val::I(3)]);
}

#[test]
fn integer_and_float_ten_are_distinct_constants() {
    let mut c = Compiler::new();
    assert_eq!(c.compile_literal(&Literal::Inteiro(10)), Ok(()));
    assert_eq!(c.compile_literal(&Literal::Decimal(10.0f32.to_bits())), Ok(()));
    assert_eq!(c.constants, vec![LinaValue::Int32(10), LinaValue::Float32(10.0f32.to_bits())]);
    let mut expected = with_arg(OpCode::Const, 0);
    expected.extend(with_arg(OpCode::Const, 1));
    assert_eq!(c.bytecode, expected);
}

#[test]
fn literal_assignment_target_is_rejected_without_code() {
    let mut c = Compiler::new();
    let stmt = SyntaxTree::Expr(binop(Operador::AdicAtrib, int_lit(5), int_lit(1)));
    assert_eq!(c.compile_instruction(&stmt), Err(CompileError::InvalidAssignmentTarget));
    assert!(c.bytecode.is_empty());
    assert!(c.constants.is_empty());
}

#[test]
fn compiling_twice_gives_identical_output() {
    let make = || {
        program(vec![
            assign("x", int_lit(1)),
            SyntaxTree::SeStmt {
                exp: binop(Operador::Igual, ident("x"), int_lit(1)),
                blk: vec![SyntaxTree::Print(Expression::Literal(Literal::Texto("sim".to_string())))],
            },
        ])
    };
    let a = compile(&make()).unwrap();
    let b2 = compile(&make()).unwrap();
    assert_eq!(a.bytecode, b2.bytecode);
    assert_eq!(a.constants, b2.constants);
}

#[test]
fn interning_reuses_equal_values() {
    let mut c = Compiler::new();
    assert_eq!(c.intern(LinaValue::Int32(7)), 0);
    assert_eq!(c.intern(LinaValue::Text("a".to_string())), 1);
    assert_eq!(c.intern(LinaValue::Int32(7)), 0);
    assert_eq!(c.intern(LinaValue::Text("a".to_string())), 1);
    assert_eq!(c.constants.len(), 2);
    assert_eq!(c.intern(LinaValue::Boolean(true)), 2);
    assert_eq!(c.constants.len(), 3);
}

#[test]
fn float_zeros_share_and_nan_never_does() {
    let mut c = Compiler::new();
    assert_eq!(c.intern(LinaValue::Float32(0.0f32.to_bits())), 0);
    assert_eq!(c.intern(LinaValue::Float32((-0.0f32).to_bits())), 0);
    assert_eq!(c.intern(LinaValue::Float32(f32::NAN.to_bits())), 1);
    assert_eq!(c.intern(LinaValue::Float32(f32::NAN.to_bits())), 2);
    assert_eq!(c.constants.len(), 3);
}

#[test]
fn closing_a_scope_restores_the_counter() {
    let p = program(vec![
        assign("a", int_lit(1)),
        SyntaxTree::SeStmt {
            exp: Expression::Literal(Literal::Booleano(true)),
            blk: vec![assign("b", int_lit(2)), assign("c", int_lit(3))],
        },
        assign("d", int_lit(4)),
    ]);
    let c = compile(&p).unwrap();
    // the last statement stores into slot 1: the two slots of the block are free again
    let n = c.bytecode.len();
    assert_eq!(c.bytecode[n - 10..n - 1].to_vec(), with_arg(OpCode::Store, 1));
}

#[test]
fn redeclaration_takes_a_new_slot() {
    let p = program(vec![assign("x", int_lit(1)), assign("x", int_lit(2)), SyntaxTree::Print(ident("x"))]);
    let c = compile(&p).unwrap();
    let mut expected = with_arg(OpCode::Const, 0);
    expected.extend(with_arg(OpCode::Store, 0));
    expected.extend(with_arg(OpCode::Const, 1));
    expected.extend(with_arg(OpCode::Store, 1));
    expected.extend(with_arg(OpCode::Load, 1));
    expected.push(b(OpCode::Write));
    expected.push(b(OpCode::Halt));
    assert_eq!(c.bytecode, expected);
}

#[test]
fn conditional_jump_skips_exactly_the_body() {
    let p = program(vec![
        assign("x", int_lit(1)),
        SyntaxTree::SeStmt {
            exp: binop(Operador::MaiorQue, ident("x"), int_lit(0)),
            blk: vec![SyntaxTree::Print(ident("x"))],
        },
    ]);
    let c = compile(&p).unwrap();
    let mut expected = with_arg(OpCode::Const, 0);
    expected.extend(with_arg(OpCode::Store, 0));
    expected.extend(with_arg(OpCode::Load, 0));
    expected.extend(with_arg(OpCode::Const, 1));
    expected.push(b(OpCode::GT));
    expected.extend(with_arg(OpCode::JmpF, 10));
    expected.extend(with_arg(OpCode::Load, 0));
    expected.push(b(OpCode::Write));
    expected.push(b(OpCode::Halt));
    assert_eq!(c.bytecode, expected);
}

#[test]
fn while_jumps_back_to_its_condition() {
    let p = program(vec![
        assign("x", Expression::Literal(Literal::Booleano(false))),
        SyntaxTree::EnquantoStmt { exp: ident("x"), blk: vec![] },
    ]);
    let c = compile(&p).unwrap();
    let mut expected = with_arg(OpCode::Const, 0);
    expected.extend(with_arg(OpCode::Store, 0));
    // condition at 18, exit past the back jump, back jump to 18 from 45
    expected.extend(with_arg(OpCode::Load, 0));
    expected.extend(with_arg(OpCode::JmpF, 9));
    expected.extend(with_arg(OpCode::Jmp, -27));
    expected.push(b(OpCode::Halt));
    assert_eq!(c.bytecode, expected);
    let (_, out) = run(&c);
    assert!(out.is_empty());
}

#[test]
fn undefined_variable_aborts() {
    let p = program(vec![SyntaxTree::Print(ident("y"))]);
    assert_eq!(compile(&p).err(), Some(CompileError::UndefinedVariable));
    let q = program(vec![SyntaxTree::ParaStmt { idt: "i".to_string(), lmt: Literal::Inteiro(1), blk: vec![] }]);
    assert_eq!(compile(&q).err(), Some(CompileError::UndefinedVariable));
}

#[test]
fn variable_of_a_closed_scope_is_undefined() {
    let p = program(vec![
        SyntaxTree::SeStmt { exp: Expression::Literal(Literal::Booleano(true)), blk: vec![assign("t", int_lit(1))] },
        SyntaxTree::Print(ident("t")),
    ]);
    assert_eq!(compile(&p).err(), Some(CompileError::UndefinedVariable));
}

#[test]
fn unsupported_casts_abort() {
    let to_bool = program(vec![SyntaxTree::Print(Expression::Cast(Box::new(int_lit(1)), Type::Boolean))]);
    assert_eq!(compile(&to_bool).err(), Some(CompileError::UnsupportedCast));
    let null = program(vec![SyntaxTree::Print(Expression::Literal(Literal::Nulo))]);
    assert_eq!(compile(&null).err(), Some(CompileError::UnsupportedCast));
}

#[test]
fn exponentiation_aborts() {
    let p = program(vec![SyntaxTree::Print(binop(Operador::Exp, int_lit(2), int_lit(3)))]);
    assert_eq!(compile(&p).err(), Some(CompileError::UnsupportedOperator));
}

#[test]
fn casts_emit_their_instruction() {
    let mut c = Compiler::new();
    let e = Expression::Cast(Box::new(Expression::Cast(Box::new(int_lit(1)), Type::Real)), Type::Text);
    assert_eq!(c.compile_expr(&e), Ok(()));
    let mut expected = with_arg(OpCode::Const, 0);
    expected.push(b(OpCode::CastF));
    expected.push(b(OpCode::CastS));
    assert_eq!(c.bytecode, expected);
}

#[test]
fn compound_assignment_reads_left_then_stores_a_copy() {
    let p = program(vec![
        assign("x", int_lit(1)),
        SyntaxTree::Expr(binop(Operador::SubtAtrib, ident("x"), int_lit(2))),
    ]);
    let c = compile(&p).unwrap();
    let mut expected = with_arg(OpCode::Const, 0);
    expected.extend(with_arg(OpCode::Store, 0));
    expected.extend(with_arg(OpCode::Load, 0));
    expected.extend(with_arg(OpCode::Const, 1));
    expected.push(b(OpCode::Sub));
    expected.push(b(OpCode::Dup));
    expected.extend(with_arg(OpCode::Store, 0));
    expected.push(b(OpCode::Pop));
    expected.push(b(OpCode::Halt));
    assert_eq!(c.bytecode, expected);
    let (slots, _) = run(&c);
    assert_eq!(slots[0], Some(Val::I(-1)));
}

#[test]
fn inner_binding_shadows_outer() {
    let p = program(vec![
        assign("x", int_lit(1)),
        SyntaxTree::SeStmt {
            exp: Expression::Literal(Literal::Booleano(true)),
            blk: vec![assign("x", int_lit(2)), SyntaxTree::Print(ident("x"))],
        },
        SyntaxTree::Print(ident("x")),
    ]);
    let c = compile(&p).unwrap();
    let (_, out) = run(&c);
    assert_eq!(out, vec![Val::I(2), Val::I(1)]);
}

#[test]
fn counted_loop_layout_and_float_step() {
    let p = program(vec![
        assign("i", int_lit(0)),
        SyntaxTree::ParaStmt { idt: "i".to_string(), lmt: Literal::Inteiro(1), blk: vec![] },
    ]);
    let c = compile(&p).unwrap();
    let mut expected = with_arg(OpCode::Const, 0);
    expected.extend(with_arg(OpCode::Store, 0));
    expected.extend(with_arg(OpCode::Load, 0));
    expected.extend(with_arg(OpCode::Const, 1));
    expected.push(b(OpCode::LE));
    expected.extend(with_arg(OpCode::JmpF, 37));
    expected.extend(with_arg(OpCode::Load, 0));
    expected.extend(with_arg(OpCode::Const, 2));
    expected.push(b(OpCode::Add));
    expected.extend(with_arg(OpCode::Store, 0));
    expected.extend(with_arg(OpCode::Jmp, -65));
    expected.push(b(OpCode::Halt));
    assert_eq!(c.bytecode, expected);
    assert_eq!(
        c.constants,
        vec![LinaValue::Int32(0), LinaValue::Int32(1), LinaValue::Float32(1.0f32.to_bits())]
    );
}

#[test]
fn equal_text_literals_share_one_constant() {
    let text = || Expression::Literal(Literal::Texto("ola".to_string()));
    let p = program(vec![SyntaxTree::Print(text()), SyntaxTree::Print(text())]);
    let c = compile(&p).unwrap();
    assert_eq!(c.constants, vec![LinaValue::Text("ola".to_string())]);
    let mut expected = with_arg(OpCode::Const, 0);
    expected.push(b(OpCode::Write));
    expected.extend(with_arg(OpCode::Const, 0));
    expected.push(b(OpCode::Write));
    expected.push(b(OpCode::Halt));
    assert_eq!(c.bytecode, expected);
}

#[test]
fn closing_a_scope_restores_the_counter_after_rebinding() {
    let p = program(vec![
        assign("a", int_lit(1)),
        SyntaxTree::SeStmt {
            exp: Expression::Literal(Literal::Booleano(true)),
            blk: vec![assign("b", int_lit(2)), assign("b", int_lit(3)), SyntaxTree::Print(ident("b"))],
        },
        assign("d", int_lit(4)),
    ]);
    let c = compile(&p).unwrap();
    // the block took slots 1 and 2; after it the next binding gets slot 1 again
    let n = c.bytecode.len();
    assert_eq!(c.bytecode[n - 10..n - 1].to_vec(), with_arg(OpCode::Store, 1));
    assert_eq!(c.slot_counter(), 0);
    let (_, out) = run(&c);
    assert_eq!(out, vec![Val::I(3)]);
}

#[test]
fn getters_expose_the_outputs() {
    let p = program(vec![assign("x", int_lit(5)), assign("x", int_lit(6))]);
    let c = compile(&p).unwrap();
    assert_eq!(c.code(), &c.bytecode);
    assert_eq!(c.pool(), &vec![LinaValue::Int32(5), LinaValue::Int32(6)]);
    assert_eq!(c.slot_counter(), 0);
    assert_eq!(*c.code().last().unwrap(), b(OpCode::Halt));
}

#[test]
fn failed_statements_leave_the_compiler_unchanged() {
    let mut c = Compiler::new();
    assert_eq!(c.compile_literal(&Literal::Inteiro(1)), Ok(()));
    let code_before = c.bytecode.clone();
    assert_eq!(c.compile_literal(&Literal::Nulo), Err(CompileError::UnsupportedCast));
    let unbound = SyntaxTree::ParaStmt { idt: "k".to_string(), lmt: Literal::Inteiro(3), blk: vec![] };
    assert_eq!(c.compile_instruction(&unbound), Err(CompileError::UndefinedVariable));
    let bad = SyntaxTree::Print(binop(Operador::Atrib, int_lit(2), int_lit(3)));
    assert_eq!(c.compile_instruction(&bad), Err(CompileError::InvalidAssignmentTarget));
    assert_eq!(c.bytecode, code_before);
    assert_eq!(c.constants, vec![LinaValue::Int32(1)]);
}
