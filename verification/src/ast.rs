//! The syntax tree of a STAS program, and its abstract (specification) view.

use vstd::prelude::*;

verus! {

broadcast use vstd::std_specs::vec::axiom_vec_decreases_to_view;

#[derive(Debug, Clone, Copy, PartialEq, Eq, Structural)]
pub enum BinOp {
    Add,
    Sub,
    Mul,
    Div,
    Rem,
    Eq,
    Ne,
    Lt,
    Le,
    Gt,
    Ge,
    And,
    Or,
}

#[derive(Debug, Clone, Copy, PartialEq, Eq, Structural)]
pub enum UnOp {
    Neg,
    Not,
}

#[derive(Debug)]
pub enum Expr {
    Int(i64),
    /// A number literal with a decimal point, as written in the source.
    Float(String),
    Str(String),
    Var(String, usize),
    Unary(UnOp, Box<Expr>),
    Bin(BinOp, Box<Expr>, Box<Expr>, usize),
    Call(String, Vec<Expr>, usize),
}

/// An argument of an in-game action line: either a bare literal word
/// (`down`, `w`, `stick_right_x`) or an evaluated expression (`$dir`, `10 * 2`).
#[derive(Debug)]
pub enum Arg {
    Word(String),
    Expr(Expr),
}

#[derive(Debug)]
#[allow(inconsistent_fields)]
pub enum Stmt {
    Import { path: String, line: usize },
    Let { name: String, expr: Expr, constant: bool, line: usize },
    Assign { name: String, expr: Expr, line: usize },
    Wait(Expr, usize),
    At(Expr, usize),
    Action { name: String, args: Vec<Arg>, line: usize },
    Call { name: String, args: Vec<Expr>, line: usize },
    Repeat { count: Expr, body: Vec<Stmt>, line: usize },
    While { cond: Expr, body: Vec<Stmt> },
    If { cond: Expr, then_body: Vec<Stmt>, else_body: Vec<Stmt> },
    Return(Option<Expr>),
    Print(Expr),
}

#[derive(Debug)]
pub struct Func {
    pub name: String,
    pub params: Vec<String>,
    pub body: Vec<Stmt>,
    pub line: usize,
}

#[derive(Debug)]
pub struct Program {
    pub funcs: Vec<Func>,
    pub main: Vec<Stmt>,
}

pub enum ExprV {
    Int(i64),
    Float(Seq<char>),
    Str(Seq<char>),
    Var(Seq<char>, nat),
    Unary(UnOp, Box<ExprV>),
    Bin(BinOp, Box<ExprV>, Box<ExprV>, nat),
    Call(Seq<char>, Seq<ExprV>, nat),
}

pub enum ArgV {
    Word(Seq<char>),
    Expr(ExprV),
}

#[allow(inconsistent_fields)]
pub enum StmtV {
    Import { path: Seq<char>, line: nat },
    Let { name: Seq<char>, expr: ExprV, constant: bool, line: nat },
    Assign { name: Seq<char>, expr: ExprV, line: nat },
    Wait(ExprV, nat),
    At(ExprV, nat),
    Action { name: Seq<char>, args: Seq<ArgV>, line: nat },
    Call { name: Seq<char>, args: Seq<ExprV>, line: nat },
    Repeat { count: ExprV, body: Seq<StmtV>, line: nat },
    While { cond: ExprV, body: Seq<StmtV> },
    If { cond: ExprV, then_body: Seq<StmtV>, else_body: Seq<StmtV> },
    Return(Option<ExprV>),
    Print(ExprV),
}

pub struct FuncV {
    pub name: Seq<char>,
    pub params: Seq<Seq<char>>,
    pub body: Seq<StmtV>,
    pub line: nat,
}

pub struct ProgramV {
    pub funcs: Seq<FuncV>,
    pub main: Seq<StmtV>,
}

pub open spec fn expr_view(e: Expr) -> ExprV
    decreases e,
{
    match e {
        Expr::Int(v) => ExprV::Int(v),
        Expr::Float(s) => ExprV::Float(s@),
        Expr::Str(s) => ExprV::Str(s@),
        Expr::Var(n, l) => ExprV::Var(n@, l as nat),
        Expr::Unary(op, a) => ExprV::Unary(op, Box::new(expr_view(*a))),
        Expr::Bin(op, a, b, l) => ExprV::Bin(op, Box::new(expr_view(*a)), Box::new(expr_view(*b)), l as nat),
        Expr::Call(n, args, l) => ExprV::Call(n@, exprs_view(args@), l as nat),
    }
}

pub open spec fn exprs_view(s: Seq<Expr>) -> Seq<ExprV>
    decreases s,
{
    if s.len() == 0 {
        Seq::empty()
    } else {
        seq![expr_view(s[0])] + exprs_view(s.drop_first())
    }
}

pub open spec fn strings_view(s: Seq<String>) -> Seq<Seq<char>> {
    s.map_values(|x: String| x@)
}

pub open spec fn arg_view(a: Arg) -> ArgV {
    match a {
        Arg::Word(w) => ArgV::Word(w@),
        Arg::Expr(e) => ArgV::Expr(expr_view(e)),
    }
}

pub open spec fn args_view(s: Seq<Arg>) -> Seq<ArgV> {
    s.map_values(|a: Arg| arg_view(a))
}

pub open spec fn stmt_view(s: Stmt) -> StmtV
    decreases s,
{
    match s {
        Stmt::Import { path, line } => StmtV::Import { path: path@, line: line as nat },
        Stmt::Let { name, expr, constant, line } => StmtV::Let {
            name: name@,
            expr: expr_view(expr),
            constant,
            line: line as nat,
        },
        Stmt::Assign { name, expr, line } => StmtV::Assign { name: name@, expr: expr_view(expr), line: line as nat },
        Stmt::Wait(e, l) => StmtV::Wait(expr_view(e), l as nat),
        Stmt::At(e, l) => StmtV::At(expr_view(e), l as nat),
        Stmt::Action { name, args, line } => StmtV::Action { name: name@, args: args_view(args@), line: line as nat },
        Stmt::Call { name, args, line } => StmtV::Call { name: name@, args: exprs_view(args@), line: line as nat },
        Stmt::Repeat { count, body, line } => StmtV::Repeat {
            count: expr_view(count),
            body: stmts_view(body@),
            line: line as nat,
        },
        Stmt::While { cond, body } => StmtV::While { cond: expr_view(cond), body: stmts_view(body@) },
        Stmt::If { cond, then_body, else_body } => StmtV::If {
            cond: expr_view(cond),
            then_body: stmts_view(then_body@),
            else_body: stmts_view(else_body@),
        },
        Stmt::Return(e) => StmtV::Return(
            match e {
                Some(x) => Some(expr_view(x)),
                None => None,
            },
        ),
        Stmt::Print(e) => StmtV::Print(expr_view(e)),
    }
}

pub open spec fn stmts_view(s: Seq<Stmt>) -> Seq<StmtV>
    decreases s,
{
    if s.len() == 0 {
        Seq::empty()
    } else {
        seq![stmt_view(s[0])] + stmts_view(s.drop_first())
    }
}

pub open spec fn func_view(f: Func) -> FuncV {
    FuncV { name: f.name@, params: strings_view(f.params@), body: stmts_view(f.body@), line: f.line as nat }
}

pub open spec fn funcs_view(s: Seq<Func>) -> Seq<FuncV> {
    s.map_values(|f: Func| func_view(f))
}

pub open spec fn program_view(p: Program) -> ProgramV {
    ProgramV { funcs: funcs_view(p.funcs@), main: stmts_view(p.main@) }
}

/// The views of a list of expressions, element by element.
pub proof fn lemma_exprs_view_index(s: Seq<Expr>)
    ensures
        exprs_view(s).len() == s.len(),
        forall|i: int| 0 <= i < s.len() ==> #[trigger] exprs_view(s)[i] == expr_view(s[i]),
    decreases s.len(),
{
    if s.len() > 0 {
        lemma_exprs_view_index(s.drop_first());
        assert forall|i: int| 0 <= i < s.len() implies #[trigger] exprs_view(s)[i] == expr_view(s[i]) by {
            if i > 0 {
                assert(s.drop_first()[i - 1] == s[i]);
            }
        }
    }
}

/// The views of a list of statements, element by element.
pub proof fn lemma_stmts_view_index(s: Seq<Stmt>)
    ensures
        stmts_view(s).len() == s.len(),
        forall|i: int| 0 <= i < s.len() ==> #[trigger] stmts_view(s)[i] == stmt_view(s[i]),
    decreases s.len(),
{
    if s.len() > 0 {
        lemma_stmts_view_index(s.drop_first());
        assert forall|i: int| 0 <= i < s.len() implies #[trigger] stmts_view(s)[i] == stmt_view(s[i]) by {
            if i > 0 {
                assert(s.drop_first()[i - 1] == s[i]);
            }
        }
    }
}

/// The view of two lists of statements, one after the other.
pub proof fn lemma_stmts_view_append(a: Seq<Stmt>, b: Seq<Stmt>)
    ensures
        stmts_view(a + b) == stmts_view(a) + stmts_view(b),
    decreases a.len(),
{
    if a.len() == 0 {
        assert(a + b =~= b);
        assert(stmts_view(a) =~= Seq::<StmtV>::empty());
        assert(stmts_view(a) + stmts_view(b) =~= stmts_view(b));
    } else {
        assert((a + b).drop_first() =~= a.drop_first() + b);
        assert((a + b)[0] == a[0]);
        lemma_stmts_view_append(a.drop_first(), b);
        assert(stmts_view(a + b) =~= stmts_view(a) + stmts_view(b));
    }
}

/// The view of a list of statements without its first.
pub proof fn lemma_stmts_view_drop_first(s: Seq<Stmt>)
    requires
        s.len() > 0,
    ensures
        stmts_view(s.drop_first()) == stmts_view(s).drop_first(),
        stmts_view(s)[0] == stmt_view(s[0]),
{
    assert(stmts_view(s).drop_first() =~= stmts_view(s.drop_first()));
}

} // verus!
