//! The syntax tree that the compiler consumes, as a parser hands it over.
use vstd::prelude::*;

verus! {

/// A literal as written in the source. `Decimal` carries the IEEE-754 bit
/// pattern of a single-precision float (`f32::to_bits`).
#[derive(Clone, Debug, PartialEq)]
pub enum Literal {
    Decimal(u32),
    Inteiro(i32),
    Texto(String),
    Booleano(bool),
    Nulo,
}

/// Binary operators; the `...Atrib` forms store their result back into the
/// identifier on their left.
#[derive(Clone, Copy, Debug, PartialEq, Eq, Structural)]
pub enum Operador {
    MaiorQue,
    MenorQue,
    MaiorIgualQue,
    MenorIgualQue,
    Igual,
    Diferente,
    E,
    Ou,
    Adic,
    Subt,
    Mult,
    Div,
    Resto,
    Exp,
    Atrib,
    AdicAtrib,
    SubtAtrib,
    MultAtrib,
    DivAtrib,
    RestoAtrib,
    ExpAtrib,
}

/// Type annotations; only the three primitive ones can be cast to.
#[derive(Clone, Copy, Debug, PartialEq, Eq, Structural)]
pub enum Type {
    Integer,
    Real,
    Text,
    Boolean,
    Null,
}

#[derive(Debug)]
pub enum Expression {
    Literal(Literal),
    Identifier(String, Type),
    BinOp { ope: Operador, lhs: Box<Expression>, rhs: Box<Expression>, typ: Type },
    Cast(Box<Expression>, Type),
}

/// A statement. A block is the sequence of statements it holds, in order.
#[derive(Debug)]
pub enum SyntaxTree {
    Assign { idt: String, exp: Expression, typ: Type },
    SeStmt { exp: Expression, blk: Vec<SyntaxTree> },
    EnquantoStmt { exp: Expression, blk: Vec<SyntaxTree> },
    ParaStmt { idt: String, lmt: Literal, blk: Vec<SyntaxTree> },
    Expr(Expression),
    Print(Expression),
}

/// A whole program: its top-level block.
#[derive(Debug)]
pub struct Program {
    pub block: Vec<SyntaxTree>,
}

impl Operador {
    /// Whether the operator stores its result into its left operand.
    pub open spec fn is_assign(self) -> bool {
        match self {
            Operador::Atrib | Operador::AdicAtrib | Operador::SubtAtrib | Operador::MultAtrib
            | Operador::DivAtrib | Operador::RestoAtrib | Operador::ExpAtrib => true,
            _ => false,
        }
    }

    pub fn is_atrib(&self) -> (r: bool)
        ensures
            r == self.is_assign(),
    {
        match self {
            Operador::Atrib | Operador::AdicAtrib | Operador::SubtAtrib | Operador::MultAtrib
            | Operador::DivAtrib | Operador::RestoAtrib | Operador::ExpAtrib => true,
            _ => false,
        }
    }
}

/// Number of nodes in an expression.
pub open spec fn expr_size(e: Expression) -> nat
    decreases e,
{
    match e {
        Expression::BinOp { lhs, rhs, .. } => 1 + expr_size(*lhs) + expr_size(*rhs),
        Expression::Cast(inner, _) => 1 + expr_size(*inner),
        _ => 1,
    }
}

/// Number of nodes in a statement, its expressions and blocks included.
pub open spec fn stmt_size(s: SyntaxTree) -> nat
    decreases s, 0nat,
{
    match s {
        SyntaxTree::Assign { exp, .. } => 1 + expr_size(exp),
        SyntaxTree::SeStmt { exp, blk } => 1 + expr_size(exp) + stmts_size(blk@),
        SyntaxTree::EnquantoStmt { exp, blk } => 1 + expr_size(exp) + stmts_size(blk@),
        SyntaxTree::ParaStmt { blk, .. } => 3 + stmts_size(blk@),
        SyntaxTree::Expr(e) => 1 + expr_size(e),
        SyntaxTree::Print(e) => 1 + expr_size(e),
    }
}

/// Number of nodes in a sequence of statements.
pub open spec fn stmts_size(ss: Seq<SyntaxTree>) -> nat
    decreases ss, 1nat,
{
    if ss.len() == 0 {
        0
    } else {
        stmts_size(ss.drop_last()) + stmt_size(ss.last())
    }
}

} // verus!
