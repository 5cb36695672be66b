//! The parser: tokens to a program, by recursive descent.
//!
//! `spec_*` functions below state the grammar as a function from the token
//! sequence and a position to the parsed item and the position after it (or
//! the first error message); each parsing method is proved to compute it.

use vstd::prelude::*;
use crate::actions::{is_action, spec_is_action};
use crate::ast::{arg_view, funcs_view, args_view, expr_view, exprs_view, func_view, program_view, stmt_view, stmts_view, strings_view, Arg, ArgV, BinOp, Expr, ExprV, Func, FuncV, Program, ProgramV, Stmt, StmtV, UnOp};
use crate::lexer::{at_line, at_line_exec, tok_debug, tokens_view, Tok, TokV, Token, TokenV};
use crate::text::{push_str, str_eq};

verus! {

/// A parse outcome: the item and the position after it, or a message.
pub type PRes<T> = Result<(T, int), Seq<char>>;

pub open spec fn peek(ts: Seq<TokenV>, p: int) -> TokV {
    if 0 <= p < ts.len() {
        ts[p].tok
    } else {
        TokV::Eof
    }
}

pub open spec fn line_at(ts: Seq<TokenV>, p: int) -> nat {
    if 0 <= p < ts.len() {
        ts[p].line
    } else {
        0
    }
}

pub open spec fn is_ident(t: TokV, word: Seq<char>) -> bool {
    t matches TokV::Ident(n) && n == word
}

pub open spec fn is_keyword(n: Seq<char>) -> bool {
    ||| n == "import"@
    ||| n == "let"@
    ||| n == "const"@
    ||| n == "fn"@
    ||| n == "wait"@
    ||| n == "at"@
    ||| n == "repeat"@
    ||| n == "while"@
    ||| n == "if"@
    ||| n == "else"@
    ||| n == "return"@
    ||| n == "print"@
    ||| n == "true"@
    ||| n == "false"@
}

/// `line N: expected <what>, found <token>`.
pub open spec fn expected_msg(ts: Seq<TokenV>, p: int, what: Seq<char>) -> Seq<char> {
    at_line(line_at(ts, p)) + "expected "@ + what + ", found "@ + tok_debug(peek(ts, p))
}

pub open spec fn spec_expect(ts: Seq<TokenV>, p: int, t: TokV, what: Seq<char>) -> Result<int, Seq<char>> {
    if peek(ts, p) == t {
        Ok(p + 1)
    } else {
        Err(expected_msg(ts, p, what))
    }
}

pub open spec fn spec_expect_ident(ts: Seq<TokenV>, p: int, what: Seq<char>) -> PRes<Seq<char>> {
    match peek(ts, p) {
        TokV::Ident(n) => Ok((n, p + 1)),
        _ => Err(expected_msg(ts, p, what)),
    }
}

/// The position after any newlines at `p`.
pub open spec fn skip_nl(ts: Seq<TokenV>, p: int) -> int
    decreases ts.len() - p,
{
    if 0 <= p < ts.len() && ts[p].tok == TokV::Newline {
        skip_nl(ts, p + 1)
    } else {
        p
    }
}

pub proof fn lemma_skip_nl(ts: Seq<TokenV>, p: int)
    ensures
        p <= skip_nl(ts, p),
        0 <= p <= ts.len() ==> skip_nl(ts, p) <= ts.len(),
        peek(ts, skip_nl(ts, p)) != TokV::Newline,
    decreases ts.len() - p,
{
    if 0 <= p < ts.len() && ts[p].tok == TokV::Newline {
        lemma_skip_nl(ts, p + 1);
    }
}

/// The end of a statement: a newline (consumed), or `}` or the end (not consumed).
pub open spec fn spec_end_of_stmt(ts: Seq<TokenV>, p: int) -> Result<int, Seq<char>> {
    match peek(ts, p) {
        TokV::Newline => Ok(p + 1),
        TokV::Eof => Ok(p),
        TokV::RBrace => Ok(p),
        t => Err(at_line(line_at(ts, p)) + "unexpected "@ + tok_debug(t) + " at end of statement"@),
    }
}

/// The binary operator that token `t` stands for at precedence level `lv`
/// (0: `||`, 1: `&&`, 2: `== !=`, 3: `< <= > >=`, 4: `+ -`, 5: `* / %`).
pub open spec fn binop_at(lv: int, t: TokV) -> Option<BinOp> {
    if lv == 0 {
        if t == TokV::OrOr { Some(BinOp::Or) } else { None }
    } else if lv == 1 {
        if t == TokV::AndAnd { Some(BinOp::And) } else { None }
    } else if lv == 2 {
        if t == TokV::Eq { Some(BinOp::Eq) } else if t == TokV::Ne { Some(BinOp::Ne) } else { None }
    } else if lv == 3 {
        if t == TokV::Lt {
            Some(BinOp::Lt)
        } else if t == TokV::Le {
            Some(BinOp::Le)
        } else if t == TokV::Gt {
            Some(BinOp::Gt)
        } else if t == TokV::Ge {
            Some(BinOp::Ge)
        } else {
            None
        }
    } else if lv == 4 {
        if t == TokV::Plus { Some(BinOp::Add) } else if t == TokV::Minus { Some(BinOp::Sub) } else { None }
    } else if lv == 5 {
        if t == TokV::Star {
            Some(BinOp::Mul)
        } else if t == TokV::Slash {
            Some(BinOp::Div)
        } else if t == TokV::Percent {
            Some(BinOp::Rem)
        } else {
            None
        }
    } else {
        None
    }
}

/// Position `q` lies after position `p`, within the tokens.
pub open spec fn advanced(ts: Seq<TokenV>, p: int, q: int) -> bool {
    p < q <= ts.len()
}

/// An expression at precedence level `lv` (6 and above: unary).
pub open spec fn spec_level(ts: Seq<TokenV>, p: int, lv: int) -> PRes<ExprV>
    decreases ts.len() - p, if lv >= 6 || lv < 0 { 21 } else { 30 - lv },
{
    if lv >= 6 || lv < 0 {
        spec_unary(ts, p)
    } else {
        match spec_level(ts, p, lv + 1) {
            Ok((lhs, q)) => if !advanced(ts, p, q) {
                Err(Seq::empty())
            } else {
                spec_level_rest(ts, lhs, q, lv)
            },
            Err(e) => Err(e),
        }
    }
}

/// The operators of level `lv` and their operands after `lhs`, left-associative.
pub open spec fn spec_level_rest(ts: Seq<TokenV>, lhs: ExprV, q: int, lv: int) -> PRes<ExprV>
    decreases ts.len() - q, 0int,
{
    match binop_at(lv, peek(ts, q)) {
        None => Ok((lhs, q)),
        Some(op) => {
            let line = line_at(ts, q);
            match spec_level(ts, q + 1, lv + 1) {
                Ok((rhs, q2)) => if !advanced(ts, q, q2) {
                    Err(Seq::empty())
                } else {
                    spec_level_rest(ts, ExprV::Bin(op, Box::new(lhs), Box::new(rhs), line), q2, lv)
                },
                Err(e) => Err(e),
            }
        },
    }
}

pub open spec fn spec_expr(ts: Seq<TokenV>, p: int) -> PRes<ExprV> {
    spec_level(ts, p, 0)
}

pub open spec fn spec_unary(ts: Seq<TokenV>, p: int) -> PRes<ExprV>
    decreases ts.len() - p, 20int,
{
    match peek(ts, p) {
        TokV::Minus => match spec_unary(ts, p + 1) {
            Ok((e, q)) => Ok((ExprV::Unary(UnOp::Neg, Box::new(e)), q)),
            Err(m) => Err(m),
        },
        TokV::Bang => match spec_unary(ts, p + 1) {
            Ok((e, q)) => Ok((ExprV::Unary(UnOp::Not, Box::new(e)), q)),
            Err(m) => Err(m),
        },
        _ => spec_primary(ts, p),
    }
}

pub open spec fn spec_primary(ts: Seq<TokenV>, p: int) -> PRes<ExprV>
    decreases ts.len() - p, 10int,
{
    let line = line_at(ts, p);
    match peek(ts, p) {
        TokV::Int(v) => Ok((ExprV::Int(v), p + 1)),
        TokV::Float(s, _) => Ok((ExprV::Float(s), p + 1)),
        TokV::Str(s) => Ok((ExprV::Str(s), p + 1)),
        TokV::Dollar => match spec_expect_ident(ts, p + 1, "variable name after '$'"@) {
            Ok((n, q)) => Ok((ExprV::Var(n, line), q)),
            Err(m) => Err(m),
        },
        TokV::LParen => match spec_level(ts, p + 1, 0) {
            Ok((e, q)) => match spec_expect(ts, q, TokV::RParen, "')'"@) {
                Ok(q2) => Ok((e, q2)),
                Err(m) => Err(m),
            },
            Err(m) => Err(m),
        },
        TokV::Ident(n) => if n == "true"@ {
            Ok((ExprV::Int(1), p + 1))
        } else if n == "false"@ {
            Ok((ExprV::Int(0), p + 1))
        } else if peek(ts, p + 1) == TokV::LParen {
            match spec_call_args(ts, p + 1) {
                Ok((args, q)) => Ok((ExprV::Call(n, args, line), q)),
                Err(m) => Err(m),
            }
        } else {
            Ok((ExprV::Var(n, line), p + 1))
        },
        t => Err(at_line(line) + "expected an expression, found "@ + tok_debug(t)),
    }
}

/// A parenthesised, comma-separated argument list starting at `p`.
pub open spec fn spec_call_args(ts: Seq<TokenV>, p: int) -> PRes<Seq<ExprV>>
    decreases ts.len() - p, 45int,
{
    match spec_expect(ts, p, TokV::LParen, "'('"@) {
        Err(m) => Err(m),
        Ok(q) => {
            let q1 = skip_nl(ts, q);
            if peek(ts, q1) == TokV::RParen {
                Ok((Seq::empty(), q1 + 1))
            } else {
                proof {
                    lemma_skip_nl(ts, q);
                }
                spec_args_rest(ts, Seq::empty(), q1)
            }
        },
    }
}

/// The rest of an argument list, `acc` being the arguments read so far.
pub open spec fn spec_args_rest(ts: Seq<TokenV>, acc: Seq<ExprV>, q: int) -> PRes<Seq<ExprV>>
    decreases ts.len() - q, 45int,
{
    let q1 = skip_nl(ts, q);
    proof {
        lemma_skip_nl(ts, q);
    }
    if q1 > ts.len() {
        Err(Seq::empty())
    } else {
        match spec_level(ts, q1, 0) {
            Err(m) => Err(m),
            Ok((e, q2)) => if !advanced(ts, q1, q2) {
                Err(Seq::empty())
            } else {
                let q3 = skip_nl(ts, q2);
                proof {
                    lemma_skip_nl(ts, q2);
                }
                if peek(ts, q3) == TokV::Comma {
                    spec_args_rest(ts, acc.push(e), q3 + 1)
                } else {
                    match spec_expect(ts, q3, TokV::RParen, "',' or ')' in argument list"@) {
                        Ok(q4) => Ok((acc.push(e), q4)),
                        Err(m) => Err(m),
                    }
                }
            },
        }
    }
}

/// The arguments of an action line, up to the end of the statement.
pub open spec fn spec_action_args(ts: Seq<TokenV>, acc: Seq<ArgV>, q: int) -> PRes<Seq<ArgV>>
    decreases ts.len() - q, 40int,
{
    match peek(ts, q) {
        TokV::Newline => Ok((acc, q)),
        TokV::Eof => Ok((acc, q)),
        TokV::RBrace => Ok((acc, q)),
        TokV::Ident(n) => if peek(ts, q + 1) == TokV::LParen {
            spec_action_expr(ts, acc, q)
        } else {
            spec_action_args(ts, acc.push(ArgV::Word(n)), q + 1)
        },
        TokV::Dollar => spec_action_expr(ts, acc, q),
        TokV::Int(_) => spec_action_expr(ts, acc, q),
        TokV::Float(..) => spec_action_expr(ts, acc, q),
        TokV::Str(_) => spec_action_expr(ts, acc, q),
        TokV::LParen => spec_action_expr(ts, acc, q),
        TokV::Minus => spec_action_expr(ts, acc, q),
        t => Err(at_line(line_at(ts, q)) + "unexpected "@ + tok_debug(t) + " in action arguments"@),
    }
}

/// An expression argument of an action line, then the rest of the arguments.
pub open spec fn spec_action_expr(ts: Seq<TokenV>, acc: Seq<ArgV>, q: int) -> PRes<Seq<ArgV>>
    decreases ts.len() - q, 39int,
{
    match spec_level(ts, q, 0) {
        Err(m) => Err(m),
        Ok((e, q2)) => if !advanced(ts, q, q2) {
            Err(Seq::empty())
        } else {
            spec_action_args(ts, acc.push(ArgV::Expr(e)), q2)
        },
    }
}

/// A `{ ... }` block of statements.
pub open spec fn spec_block(ts: Seq<TokenV>, p: int) -> PRes<Seq<StmtV>>
    decreases ts.len() - p, 55int,
{
    let q = skip_nl(ts, p);
    proof {
        lemma_skip_nl(ts, p);
    }
    match spec_expect(ts, q, TokV::LBrace, "'{'"@) {
        Err(m) => Err(m),
        Ok(q1) => spec_block_rest(ts, Seq::empty(), q1),
    }
}

/// The statements of a block up to its `}`, `acc` being those read so far.
pub open spec fn spec_block_rest(ts: Seq<TokenV>, acc: Seq<StmtV>, q: int) -> PRes<Seq<StmtV>>
    decreases ts.len() - q, 60int,
{
    let q1 = skip_nl(ts, q);
    proof {
        lemma_skip_nl(ts, q);
    }
    match peek(ts, q1) {
        TokV::RBrace => Ok((acc, q1 + 1)),
        TokV::Eof => Err(at_line(line_at(ts, q1)) + "unclosed block, expected '}'"@),
        _ => match spec_stmt(ts, q1) {
            Err(m) => Err(m),
            Ok((s, q2)) => if !advanced(ts, q1, q2) {
                Err(Seq::empty())
            } else {
                spec_block_rest(ts, acc.push(s), q2)
            },
        },
    }
}

/// A statement, whose end is also checked.
pub open spec fn spec_stmt(ts: Seq<TokenV>, p: int) -> PRes<StmtV>
    decreases ts.len() - p, 50int,
{
    let line = line_at(ts, p);
    match peek(ts, p) {
        TokV::Ident(name) => if name == "import"@ {
            match peek(ts, p + 1) {
                TokV::Str(path) => match spec_end_of_stmt(ts, p + 2) {
                    Ok(q) => Ok((StmtV::Import { path, line }, q)),
                    Err(m) => Err(m),
                },
                t => Err(at_line(line) + "expected a quoted import path, found "@ + tok_debug(t)),
            }
        } else if name == "let"@ || name == "const"@ {
            match spec_expect_ident(ts, p + 1, "variable name"@) {
                Err(m) => Err(m),
                Ok((var, q1)) => match spec_expect(ts, q1, TokV::Assign, "'=' in declaration"@) {
                    Err(m) => Err(m),
                    Ok(q2) => match spec_level(ts, q2, 0) {
                        Err(m) => Err(m),
                        Ok((e, q3)) => match spec_end_of_stmt(ts, q3) {
                            Err(m) => Err(m),
                            Ok(q4) => Ok((StmtV::Let { name: var, expr: e, constant: name == "const"@, line }, q4)),
                        },
                    },
                },
            }
        } else if name == "wait"@ || name == "at"@ || name == "print"@ {
            match spec_level(ts, p + 1, 0) {
                Err(m) => Err(m),
                Ok((e, q)) => match spec_end_of_stmt(ts, q) {
                    Err(m) => Err(m),
                    Ok(q2) => Ok((
                        if name == "wait"@ {
                            StmtV::Wait(e, line)
                        } else if name == "at"@ {
                            StmtV::At(e, line)
                        } else {
                            StmtV::Print(e)
                        },
                        q2,
                    )),
                },
            }
        } else if name == "repeat"@ || name == "while"@ {
            match spec_level(ts, p + 1, 0) {
                Err(m) => Err(m),
                Ok((e, q)) => if !advanced(ts, p, q) {
                    Err(Seq::empty())
                } else {
                    match spec_block(ts, q) {
                        Err(m) => Err(m),
                        Ok((body, q2)) => Ok((
                            if name == "repeat"@ {
                                StmtV::Repeat { count: e, body, line }
                            } else {
                                StmtV::While { cond: e, body }
                            },
                            q2,
                        )),
                    }
                },
            }
        } else if name == "if"@ {
            spec_if(ts, p)
        } else if name == "return"@ {
            let t = peek(ts, p + 1);
            if t == TokV::Newline || t == TokV::Eof || t == TokV::RBrace {
                match spec_end_of_stmt(ts, p + 1) {
                    Err(m) => Err(m),
                    Ok(q) => Ok((StmtV::Return(None), q)),
                }
            } else {
                match spec_level(ts, p + 1, 0) {
                    Err(m) => Err(m),
                    Ok((e, q)) => match spec_end_of_stmt(ts, q) {
                        Err(m) => Err(m),
                        Ok(q2) => Ok((StmtV::Return(Some(e)), q2)),
                    },
                }
            }
        } else if name == "fn"@ {
            Err(at_line(line) + "functions can only be declared at the top level"@)
        } else if peek(ts, p + 1) == TokV::LParen && !spec_is_action(name) {
            match spec_call_args(ts, p + 1) {
                Err(m) => Err(m),
                Ok((args, q)) => match spec_end_of_stmt(ts, q) {
                    Err(m) => Err(m),
                    Ok(q2) => Ok((StmtV::Call { name, args, line }, q2)),
                },
            }
        } else if peek(ts, p + 1) == TokV::Assign {
            match spec_level(ts, p + 2, 0) {
                Err(m) => Err(m),
                Ok((e, q)) => match spec_end_of_stmt(ts, q) {
                    Err(m) => Err(m),
                    Ok(q2) => Ok((StmtV::Assign { name, expr: e, line }, q2)),
                },
            }
        } else if !spec_is_action(name) {
            Err(at_line(line) + "unknown statement or action '"@ + name + "'"@)
        } else {
            match spec_action_args(ts, Seq::empty(), p + 1) {
                Err(m) => Err(m),
                Ok((args, q)) => match spec_end_of_stmt(ts, q) {
                    Err(m) => Err(m),
                    Ok(q2) => Ok((StmtV::Action { name, args, line }, q2)),
                },
            }
        },
        t => Err(at_line(line) + "expected a statement, found "@ + tok_debug(t)),
    }
}

/// `if cond { ... }` with an optional `else { ... }` or `else if ...`.
pub open spec fn spec_if(ts: Seq<TokenV>, p: int) -> PRes<StmtV>
    decreases ts.len() - p, 49int,
{
    match spec_level(ts, p + 1, 0) {
        Err(m) => Err(m),
        Ok((cond, q)) => if !advanced(ts, p, q) {
            Err(Seq::empty())
        } else {
            match spec_block(ts, q) {
                Err(m) => Err(m),
                Ok((then_body, q2)) => if !advanced(ts, p, q2) {
                    Err(Seq::empty())
                } else {
                    let q3 = skip_nl(ts, q2);
                    proof {
                        lemma_skip_nl(ts, q2);
                    }
                    if is_ident(peek(ts, q3), "else"@) {
                        if is_ident(peek(ts, q3 + 1), "if"@) {
                            match spec_if(ts, q3 + 1) {
                                Err(m) => Err(m),
                                Ok((s, q5)) => Ok((StmtV::If { cond, then_body, else_body: seq![s] }, q5)),
                            }
                        } else {
                            match spec_block(ts, q3 + 1) {
                                Err(m) => Err(m),
                                Ok((else_body, q5)) => Ok((StmtV::If { cond, then_body, else_body }, q5)),
                            }
                        }
                    } else {
                        Ok((StmtV::If { cond, then_body, else_body: Seq::empty() }, q2))
                    }
                },
            }
        },
    }
}

/// The rest of a parameter list, `acc` being the names read so far.
pub open spec fn spec_params_rest(ts: Seq<TokenV>, acc: Seq<Seq<char>>, q: int) -> PRes<Seq<Seq<char>>>
    decreases ts.len() - q,
{
    let q1 = skip_nl(ts, q);
    proof {
        lemma_skip_nl(ts, q);
    }
    match spec_expect_ident(ts, q1, "parameter name"@) {
        Err(m) => Err(m),
        Ok((n, q2)) => {
            let q3 = skip_nl(ts, q2);
            proof {
                lemma_skip_nl(ts, q2);
            }
            if peek(ts, q3) == TokV::Comma {
                spec_params_rest(ts, acc.push(n), q3 + 1)
            } else {
                match spec_expect(ts, q3, TokV::RParen, "',' or ')' in parameter list"@) {
                    Err(m) => Err(m),
                    Ok(q4) => Ok((acc.push(n), q4)),
                }
            }
        },
    }
}

/// A parameter list after its `(`.
pub open spec fn spec_params(ts: Seq<TokenV>, q: int) -> PRes<Seq<Seq<char>>> {
    if peek(ts, q) == TokV::RParen {
        Ok((Seq::<Seq<char>>::empty(), q + 1))
    } else {
        spec_params_rest(ts, Seq::empty(), q)
    }
}

/// A function declaration starting at the `fn` at `p`.
pub open spec fn spec_func(ts: Seq<TokenV>, p: int) -> PRes<FuncV> {
    let line = line_at(ts, p);
    match spec_expect_ident(ts, p + 1, "function name"@) {
        Err(m) => Err(m),
        Ok((name, q)) => if is_keyword(name) || spec_is_action(name) {
            Err(at_line(line) + "'"@ + name + "' is reserved and cannot be a function name"@)
        } else {
            match spec_expect(ts, q, TokV::LParen, "'(' after function name"@) {
                Err(m) => Err(m),
                Ok(q1) => {
                    match spec_params(ts, q1) {
                        Err(m) => Err(m),
                        Ok((params, q2)) => match spec_block(ts, q2) {
                            Err(m) => Err(m),
                            Ok((body, q3)) => Ok((FuncV { name, params, body, line }, q3)),
                        },
                    }
                },
            }
        },
    }
}

/// The rest of a program from `p`: its functions and top-level statements.
pub open spec fn spec_program_rest(ts: Seq<TokenV>, prog: ProgramV, p: int) -> Result<ProgramV, Seq<char>>
    decreases ts.len() - p,
{
    let q = skip_nl(ts, p);
    proof {
        lemma_skip_nl(ts, p);
    }
    if peek(ts, q) == TokV::Eof {
        Ok(prog)
    } else if is_ident(peek(ts, q), "fn"@) {
        match spec_func(ts, q) {
            Err(m) => Err(m),
            Ok((f, q2)) => if !advanced(ts, q, q2) {
                Err(Seq::empty())
            } else {
                spec_program_rest(ts, ProgramV { funcs: prog.funcs.push(f), main: prog.main }, q2)
            },
        }
    } else {
        match spec_stmt(ts, q) {
            Err(m) => Err(m),
            Ok((s, q2)) => if !advanced(ts, q, q2) {
                Err(Seq::empty())
            } else {
                spec_program_rest(ts, ProgramV { funcs: prog.funcs, main: prog.main.push(s) }, q2)
            },
        }
    }
}

/// The program that the tokens `ts` spell, or the first error.
pub open spec fn spec_parse_program(ts: Seq<TokenV>) -> Result<ProgramV, Seq<char>> {
    spec_program_rest(ts, ProgramV { funcs: Seq::empty(), main: Seq::empty() }, 0)
}

proof fn lemma_exprs_view_push(s: Seq<Expr>, e: Expr)
    ensures
        exprs_view(s.push(e)) == exprs_view(s).push(expr_view(e)),
    decreases s.len(),
{
    if s.len() == 0 {
        assert(s.push(e).drop_first() =~= Seq::<Expr>::empty());
        assert(exprs_view(Seq::<Expr>::empty()) =~= Seq::<ExprV>::empty());
        assert(exprs_view(s.push(e)) =~= seq![expr_view(e)]);
    } else {
        assert(s.push(e).drop_first() =~= s.drop_first().push(e));
        lemma_exprs_view_push(s.drop_first(), e);
        assert(exprs_view(s.push(e)) =~= exprs_view(s).push(expr_view(e)));
    }
}

proof fn lemma_stmts_view_push(s: Seq<Stmt>, e: Stmt)
    ensures
        stmts_view(s.push(e)) == stmts_view(s).push(stmt_view(e)),
    decreases s.len(),
{
    if s.len() == 0 {
        assert(s.push(e).drop_first() =~= Seq::<Stmt>::empty());
        assert(stmts_view(Seq::<Stmt>::empty()) =~= Seq::<StmtV>::empty());
        assert(stmts_view(s.push(e)) =~= seq![stmt_view(e)]);
    } else {
        assert(s.push(e).drop_first() =~= s.drop_first().push(e));
        lemma_stmts_view_push(s.drop_first(), e);
        assert(stmts_view(s.push(e)) =~= stmts_view(s).push(stmt_view(e)));
    }
}

/// Whether two tokens are equal.
fn same_tok(a: &Tok, b: &Tok) -> (r: bool)
    ensures
        r == (a@ == b@),
{
    match (a, b) {
        (Tok::Ident(x), Tok::Ident(y)) => str_eq(x.as_str(), y.as_str()),
        (Tok::Int(x), Tok::Int(y)) => *x == *y,
        (Tok::Float(x, a), Tok::Float(y, b)) => str_eq(x.as_str(), y.as_str()) && str_eq(a.as_str(), b.as_str()),
        (Tok::Str(x), Tok::Str(y)) => str_eq(x.as_str(), y.as_str()),
        (Tok::Dollar, Tok::Dollar) => true,
        (Tok::LParen, Tok::LParen) => true,
        (Tok::RParen, Tok::RParen) => true,
        (Tok::LBrace, Tok::LBrace) => true,
        (Tok::RBrace, Tok::RBrace) => true,
        (Tok::Comma, Tok::Comma) => true,
        (Tok::Assign, Tok::Assign) => true,
        (Tok::Plus, Tok::Plus) => true,
        (Tok::Minus, Tok::Minus) => true,
        (Tok::Star, Tok::Star) => true,
        (Tok::Slash, Tok::Slash) => true,
        (Tok::Percent, Tok::Percent) => true,
        (Tok::Eq, Tok::Eq) => true,
        (Tok::Ne, Tok::Ne) => true,
        (Tok::Lt, Tok::Lt) => true,
        (Tok::Le, Tok::Le) => true,
        (Tok::Gt, Tok::Gt) => true,
        (Tok::Ge, Tok::Ge) => true,
        (Tok::AndAnd, Tok::AndAnd) => true,
        (Tok::OrOr, Tok::OrOr) => true,
        (Tok::Bang, Tok::Bang) => true,
        (Tok::Newline, Tok::Newline) => true,
        (Tok::Eof, Tok::Eof) => true,
        _ => false,
    }
}

fn is_ident_word(t: &Tok, word: &str) -> (r: bool)
    ensures
        r == is_ident(t@, word@),
{
    match t {
        Tok::Ident(n) => str_eq(n.as_str(), word),
        _ => false,
    }
}

/// A recursive-descent parser over a token sequence that ends with `Eof`.
pub struct Parser {
    toks: Vec<Token>,
    pos: usize,
}

impl Parser {
    /// The tokens being parsed.
    pub closed spec fn tokens(&self) -> Seq<TokenV> {
        tokens_view(self.toks@)
    }

    /// The position of the next token.
    pub closed spec fn position(&self) -> int {
        self.pos as int
    }

    /// The tokens end with `Eof` and the position lies within them.
    pub open spec fn wf(&self) -> bool {
        &&& self.tokens().len() > 0
        &&& self.tokens().last().tok == TokV::Eof
        &&& 0 <= self.position() < self.tokens().len()
    }

    pub fn new(toks: Vec<Token>) -> (p: Self)
        ensures
            p.tokens() == tokens_view(toks@),
            p.position() == 0,
    {
        Parser { toks, pos: 0 }
    }

    fn peek(&self) -> (t: &Tok)
        requires
            self.wf(),
        ensures
            t@ == peek(self.tokens(), self.position()),
    {
        &self.toks[self.pos].tok
    }

    /// The token after the next one (the last token when there is none).
    fn peek_second(&self) -> (t: &Tok)
        requires
            self.wf(),
        ensures
            t@ == peek(self.tokens(), self.position() + 1),
    {
        let i = if self.pos < self.toks.len() - 1 { self.pos + 1 } else { self.toks.len() - 1 };
        &self.toks[i].tok
    }

    fn line(&self) -> (l: usize)
        requires
            self.wf(),
        ensures
            l == line_at(self.tokens(), self.position()),
    {
        self.toks[self.pos].line
    }

    fn next(&mut self) -> (t: Tok)
        requires
            old(self).wf(),
        ensures
            final(self).wf(),
            final(self).tokens() == old(self).tokens(),
            t@ == peek(old(self).tokens(), old(self).position()),
            final(self).position() == if old(self).position() + 1 < old(self).tokens().len() {
                old(self).position() + 1
            } else {
                old(self).position()
            },
            peek(old(self).tokens(), old(self).position()) != TokV::Eof ==> final(self).position()
                == old(self).position() + 1,
    {
        let t = self.toks[self.pos].tok.duplicate();
        if self.pos < self.toks.len() - 1 {
            self.pos = self.pos + 1;
        }
        t
    }

    fn eat(&mut self, t: &Tok) -> (r: bool)
        requires
            old(self).wf(),
            t@ != TokV::Eof,
        ensures
            final(self).wf(),
            final(self).tokens() == old(self).tokens(),
            r == (peek(old(self).tokens(), old(self).position()) == t@),
            r ==> final(self).position() == old(self).position() + 1,
            !r ==> final(self).position() == old(self).position(),
    {
        if same_tok(self.peek(), t) {
            self.next();
            true
        } else {
            false
        }
    }

    fn expected_error(&self, what: &str) -> (m: String)
        requires
            self.wf(),
        ensures
            m@ == expected_msg(self.tokens(), self.position(), what@),
    {
        let mut m = at_line_exec(self.line());
        push_str(&mut m, "expected ");
        push_str(&mut m, what);
        push_str(&mut m, ", found ");
        let d = self.peek().debug_text();
        push_str(&mut m, d.as_str());
        m
    }

    fn expect(&mut self, t: Tok, what: &str) -> (r: Result<(), String>)
        requires
            old(self).wf(),
            t@ != TokV::Eof,
        ensures
            final(self).wf(),
            final(self).tokens() == old(self).tokens(),
            match r {
                Ok(_) => spec_expect(old(self).tokens(), old(self).position(), t@, what@) == Ok::<int, Seq<char>>(final(self).position()),
                Err(e) => spec_expect(old(self).tokens(), old(self).position(), t@, what@) == Err::<int, Seq<char>>(e@),
            },
    {
        if self.eat(&t) {
            Ok(())
        } else {
            Err(self.expected_error(what))
        }
    }

    fn expect_ident(&mut self, what: &str) -> (r: Result<String, String>)
        requires
            old(self).wf(),
        ensures
            final(self).wf(),
            final(self).tokens() == old(self).tokens(),
            match r {
                Ok(n) => spec_expect_ident(old(self).tokens(), old(self).position(), what@) == Ok::<(Seq<char>, int), Seq<char>>((n@, final(self).position())),
                Err(e) => spec_expect_ident(old(self).tokens(), old(self).position(), what@) == Err::<(Seq<char>, int), Seq<char>>(e@),
            },
    {
        match self.peek() {
            Tok::Ident(name) => {
                let n = name.clone();
                self.next();
                Ok(n)
            },
            _ => Err(self.expected_error(what)),
        }
    }

    fn skip_newlines(&mut self)
        requires
            old(self).wf(),
        ensures
            final(self).wf(),
            final(self).tokens() == old(self).tokens(),
            final(self).position() == skip_nl(old(self).tokens(), old(self).position()),
    {
        let ghost start = self.position();
        while same_tok(self.peek(), &Tok::Newline)
            invariant
                self.wf(),
                self.tokens() == old(self).tokens(),
                start == old(self).position(),
                skip_nl(self.tokens(), start) == skip_nl(self.tokens(), self.position()),
            decreases self.tokens().len() - self.position(),
        {
            self.next();
        }
    }

    fn end_of_stmt(&mut self) -> (r: Result<(), String>)
        requires
            old(self).wf(),
        ensures
            final(self).wf(),
            final(self).tokens() == old(self).tokens(),
            match r {
                Ok(_) => spec_end_of_stmt(old(self).tokens(), old(self).position()) == Ok::<int, Seq<char>>(final(self).position()),
                Err(e) => spec_end_of_stmt(old(self).tokens(), old(self).position()) == Err::<int, Seq<char>>(e@),
            },
    {
        match self.peek() {
            Tok::Newline => {
                self.next();
                Ok(())
            },
            Tok::Eof => Ok(()),
            Tok::RBrace => Ok(()),
            _ => {
                let mut m = at_line_exec(self.line());
                push_str(&mut m, "unexpected ");
                let d = self.peek().debug_text();
                push_str(&mut m, d.as_str());
                push_str(&mut m, " at end of statement");
                Err(m)
            },
        }
    }

    fn binop_here(&self, lv: usize) -> (r: Option<BinOp>)
        requires
            self.wf(),
        ensures
            r == binop_at(lv as int, peek(self.tokens(), self.position())),
    {
        let t = self.peek();
        if lv == 0 {
            match t { Tok::OrOr => Some(BinOp::Or), _ => None }
        } else if lv == 1 {
            match t { Tok::AndAnd => Some(BinOp::And), _ => None }
        } else if lv == 2 {
            match t { Tok::Eq => Some(BinOp::Eq), Tok::Ne => Some(BinOp::Ne), _ => None }
        } else if lv == 3 {
            match t {
                Tok::Lt => Some(BinOp::Lt),
                Tok::Le => Some(BinOp::Le),
                Tok::Gt => Some(BinOp::Gt),
                Tok::Ge => Some(BinOp::Ge),
                _ => None,
            }
        } else if lv == 4 {
            match t { Tok::Plus => Some(BinOp::Add), Tok::Minus => Some(BinOp::Sub), _ => None }
        } else if lv == 5 {
            match t {
                Tok::Star => Some(BinOp::Mul),
                Tok::Slash => Some(BinOp::Div),
                Tok::Percent => Some(BinOp::Rem),
                _ => None,
            }
        } else {
            None
        }
    }

    /// Parses an expression.
    pub fn parse_expr(&mut self) -> (r: Result<Expr, String>)
        requires
            old(self).wf(),
        ensures
            final(self).wf(),
            final(self).tokens() == old(self).tokens(),
            match r {
                Ok(e) => spec_expr(old(self).tokens(), old(self).position()) == Ok::<(ExprV, int), Seq<char>>((expr_view(e), final(self).position()))
                    && final(self).position() > old(self).position(),
                Err(m) => spec_expr(old(self).tokens(), old(self).position()) == Err::<(ExprV, int), Seq<char>>(m@),
            },
    {
        self.parse_level(0)
    }

    fn parse_level(&mut self, lv: usize) -> (r: Result<Expr, String>)
        requires
            old(self).wf(),
            lv <= 6,
        ensures
            final(self).wf(),
            final(self).tokens() == old(self).tokens(),
            match r {
                Ok(e) => spec_level(old(self).tokens(), old(self).position(), lv as int) == Ok::<(ExprV, int), Seq<char>>((expr_view(e), final(self).position()))
                    && final(self).position() > old(self).position(),
                Err(m) => spec_level(old(self).tokens(), old(self).position(), lv as int) == Err::<(ExprV, int), Seq<char>>(m@),
            },
        decreases old(self).tokens().len() - old(self).position(), if lv >= 6 { 21int } else { 30 - lv },
    {
        if lv >= 6 {
            return self.parse_unary();
        }
        let ghost start = self.position();
        let ghost ts = self.tokens();
        let mut lhs = self.parse_level(lv + 1)?;
        loop
            invariant
                self.wf(),
                self.tokens() == ts,
                ts == old(self).tokens(),
                start == old(self).position(),
                lv < 6,
                self.position() > start,
                spec_level(ts, start, lv as int) == spec_level_rest(ts, expr_view(lhs), self.position(), lv as int),
            decreases ts.len() - self.position(),
        {
            let op = match self.binop_here(lv) {
                Some(op) => op,
                None => return Ok(lhs),
            };
            let line = self.line();
            self.next();
            let rhs = self.parse_level(lv + 1)?;
            lhs = Expr::Bin(op, Box::new(lhs), Box::new(rhs), line);
        }
    }

    fn parse_unary(&mut self) -> (r: Result<Expr, String>)
        requires
            old(self).wf(),
        ensures
            final(self).wf(),
            final(self).tokens() == old(self).tokens(),
            match r {
                Ok(e) => spec_unary(old(self).tokens(), old(self).position()) == Ok::<(ExprV, int), Seq<char>>((expr_view(e), final(self).position()))
                    && final(self).position() > old(self).position(),
                Err(m) => spec_unary(old(self).tokens(), old(self).position()) == Err::<(ExprV, int), Seq<char>>(m@),
            },
        decreases old(self).tokens().len() - old(self).position(), 20int,
    {
        match self.peek() {
            Tok::Minus => {
                self.next();
                let e = self.parse_unary()?;
                Ok(Expr::Unary(UnOp::Neg, Box::new(e)))
            },
            Tok::Bang => {
                self.next();
                let e = self.parse_unary()?;
                Ok(Expr::Unary(UnOp::Not, Box::new(e)))
            },
            _ => self.parse_primary(),
        }
    }

    fn parse_primary(&mut self) -> (r: Result<Expr, String>)
        requires
            old(self).wf(),
        ensures
            final(self).wf(),
            final(self).tokens() == old(self).tokens(),
            match r {
                Ok(e) => spec_primary(old(self).tokens(), old(self).position()) == Ok::<(ExprV, int), Seq<char>>((expr_view(e), final(self).position()))
                    && final(self).position() > old(self).position(),
                Err(m) => spec_primary(old(self).tokens(), old(self).position()) == Err::<(ExprV, int), Seq<char>>(m@),
            },
        decreases old(self).tokens().len() - old(self).position(), 10int,
    {
        let line = self.line();
        match self.peek() {
            Tok::Int(v) => {
                let v = *v;
                self.next();
                Ok(Expr::Int(v))
            },
            Tok::Float(s, _) => {
                let s = s.clone();
                self.next();
                Ok(Expr::Float(s))
            },
            Tok::Str(s) => {
                let s = s.clone();
                self.next();
                Ok(Expr::Str(s))
            },
            Tok::Dollar => {
                self.next();
                let name = self.expect_ident("variable name after '$'")?;
                Ok(Expr::Var(name, line))
            },
            Tok::LParen => {
                self.next();
                let e = self.parse_level(0)?;
                self.expect(Tok::RParen, "')'")?;
                Ok(e)
            },
            Tok::Ident(name) => {
                let name = name.clone();
                self.next();
                if str_eq(name.as_str(), "true") {
                    return Ok(Expr::Int(1));
                }
                if str_eq(name.as_str(), "false") {
                    return Ok(Expr::Int(0));
                }
                if same_tok(self.peek(), &Tok::LParen) {
                    let args = self.parse_call_args()?;
                    Ok(Expr::Call(name, args, line))
                } else {
                    Ok(Expr::Var(name, line))
                }
            },
            _ => {
                let mut m = at_line_exec(line);
                push_str(&mut m, "expected an expression, found ");
                let d = self.peek().debug_text();
                push_str(&mut m, d.as_str());
                Err(m)
            },
        }
    }

    fn parse_call_args(&mut self) -> (r: Result<Vec<Expr>, String>)
        requires
            old(self).wf(),
        ensures
            final(self).wf(),
            final(self).tokens() == old(self).tokens(),
            match r {
                Ok(a) => spec_call_args(old(self).tokens(), old(self).position()) == Ok::<(Seq<ExprV>, int), Seq<char>>((exprs_view(a@), final(self).position()))
                    && final(self).position() > old(self).position(),
                Err(m) => spec_call_args(old(self).tokens(), old(self).position()) == Err::<(Seq<ExprV>, int), Seq<char>>(m@),
            },
        decreases old(self).tokens().len() - old(self).position(), 45int,
    {
        let ghost start = self.position();
        let ghost ts = self.tokens();
        self.expect(Tok::LParen, "'('")?;
        let mut args: Vec<Expr> = Vec::new();
        self.skip_newlines();
        proof {
            lemma_skip_nl(ts, start + 1);
        }
        if self.eat(&Tok::RParen) {
            return Ok(args);
        }
        assert(exprs_view(args@) =~= Seq::<ExprV>::empty());
        loop
            invariant
                self.wf(),
                self.tokens() == ts,
                ts == old(self).tokens(),
                start == old(self).position(),
                self.position() > start,
                spec_call_args(ts, start) == spec_args_rest(ts, exprs_view(args@), self.position()),
            decreases ts.len() - self.position(),
        {
            let ghost q = self.position();
            self.skip_newlines();
            proof {
                lemma_skip_nl(ts, q);
            }
            let e = self.parse_level(0)?;
            let ghost q2 = self.position();
            self.skip_newlines();
            proof {
                lemma_skip_nl(ts, q2);
                lemma_exprs_view_push(args@, e);
            }
            args.push(e);
            if self.eat(&Tok::Comma) {
                continue;
            }
            self.expect(Tok::RParen, "',' or ')' in argument list")?;
            return Ok(args);
        }
    }
}

impl Parser {
    fn parse_action_args(&mut self) -> (r: Result<Vec<Arg>, String>)
        requires
            old(self).wf(),
        ensures
            final(self).wf(),
            final(self).tokens() == old(self).tokens(),
            match r {
                Ok(a) => spec_action_args(old(self).tokens(), Seq::empty(), old(self).position()) == Ok::<(Seq<ArgV>, int), Seq<char>>((args_view(a@), final(self).position()))
                    && final(self).position() >= old(self).position(),
                Err(m) => spec_action_args(old(self).tokens(), Seq::empty(), old(self).position()) == Err::<(Seq<ArgV>, int), Seq<char>>(m@),
            },
        decreases old(self).tokens().len() - old(self).position(), 40int,
    {
        let ghost start = self.position();
        let ghost ts = self.tokens();
        let mut args: Vec<Arg> = Vec::new();
        assert(args_view(args@) =~= Seq::<ArgV>::empty());
        loop
            invariant
                self.wf(),
                self.tokens() == ts,
                ts == old(self).tokens(),
                start == old(self).position(),
                self.position() >= start,
                spec_action_args(ts, Seq::empty(), start) == spec_action_args(ts, args_view(args@), self.position()),
            decreases ts.len() - self.position(),
        {
            let ghost before = args@;
            let is_expr = match self.peek() {
                Tok::Newline | Tok::Eof | Tok::RBrace => return Ok(args),
                Tok::Dollar | Tok::Int(_) | Tok::Float(..) | Tok::Str(_) | Tok::LParen | Tok::Minus => true,
                Tok::Ident(_) => same_tok(self.peek_second(), &Tok::LParen),
                _ => {
                    let mut m = at_line_exec(self.line());
                    push_str(&mut m, "unexpected ");
                    let d = self.peek().debug_text();
                    push_str(&mut m, d.as_str());
                    push_str(&mut m, " in action arguments");
                    return Err(m);
                },
            };
            if is_expr {
                assert(spec_action_args(ts, args_view(before), self.position())
                    == spec_action_expr(ts, args_view(before), self.position()));
                let e = self.parse_level(0)?;
                let a = Arg::Expr(e);
                args.push(a);
                assert(args_view(args@) =~= args_view(before).push(arg_view(a)));
            } else {
                let t = self.next();
                let word = match t {
                    Tok::Ident(n) => n,
                    _ => {
                        assert(false);
                        String::new()
                    },
                };
                let a = Arg::Word(word);
                args.push(a);
                assert(args_view(args@) =~= args_view(before).push(arg_view(a)));
            }
        }
    }

    fn parse_block(&mut self) -> (r: Result<Vec<Stmt>, String>)
        requires
            old(self).wf(),
        ensures
            final(self).wf(),
            final(self).tokens() == old(self).tokens(),
            match r {
                Ok(b) => spec_block(old(self).tokens(), old(self).position()) == Ok::<(Seq<StmtV>, int), Seq<char>>((stmts_view(b@), final(self).position()))
                    && final(self).position() > old(self).position(),
                Err(m) => spec_block(old(self).tokens(), old(self).position()) == Err::<(Seq<StmtV>, int), Seq<char>>(m@),
            },
        decreases old(self).tokens().len() - old(self).position(), 55int,
    {
        let ghost start = self.position();
        let ghost ts = self.tokens();
        self.skip_newlines();
        proof {
            lemma_skip_nl(ts, start);
        }
        self.expect(Tok::LBrace, "'{'")?;
        let mut body: Vec<Stmt> = Vec::new();
        assert(stmts_view(body@) =~= Seq::<StmtV>::empty());
        loop
            invariant
                self.wf(),
                self.tokens() == ts,
                ts == old(self).tokens(),
                start == old(self).position(),
                self.position() > start,
                spec_block(ts, start) == spec_block_rest(ts, stmts_view(body@), self.position()),
            decreases ts.len() - self.position(),
        {
            let ghost q = self.position();
            self.skip_newlines();
            proof {
                lemma_skip_nl(ts, q);
            }
            match self.peek() {
                Tok::RBrace => {
                    self.next();
                    return Ok(body);
                },
                Tok::Eof => {
                    let mut m = at_line_exec(self.line());
                    push_str(&mut m, "unclosed block, expected '}'");
                    return Err(m);
                },
                _ => {
                    let st = self.parse_stmt()?;
                    proof {
                        lemma_stmts_view_push(body@, st);
                    }
                    body.push(st);
                },
            }
        }
    }

    fn parse_stmt(&mut self) -> (r: Result<Stmt, String>)
        requires
            old(self).wf(),
        ensures
            final(self).wf(),
            final(self).tokens() == old(self).tokens(),
            match r {
                Ok(st) => spec_stmt(old(self).tokens(), old(self).position()) == Ok::<(StmtV, int), Seq<char>>((stmt_view(st), final(self).position()))
                    && final(self).position() > old(self).position(),
                Err(m) => spec_stmt(old(self).tokens(), old(self).position()) == Err::<(StmtV, int), Seq<char>>(m@),
            },
        decreases old(self).tokens().len() - old(self).position(), 50int,
    {
        let line = self.line();
        let name = match self.peek() {
            Tok::Ident(n) => n.clone(),
            _ => {
                let mut m = at_line_exec(line);
                push_str(&mut m, "expected a statement, found ");
                let d = self.peek().debug_text();
                push_str(&mut m, d.as_str());
                return Err(m);
            },
        };
        let n = name.as_str();
        if str_eq(n, "import") {
            self.next();
            let t = self.next();
            let path = match t {
                Tok::Str(path) => path,
                _ => {
                    let mut m = at_line_exec(line);
                    push_str(&mut m, "expected a quoted import path, found ");
                    let d = t.debug_text();
                    push_str(&mut m, d.as_str());
                    return Err(m);
                },
            };
            self.end_of_stmt()?;
            Ok(Stmt::Import { path, line })
        } else if str_eq(n, "let") || str_eq(n, "const") {
            self.next();
            let var = self.expect_ident("variable name")?;
            self.expect(Tok::Assign, "'=' in declaration")?;
            let expr = self.parse_level(0)?;
            self.end_of_stmt()?;
            Ok(Stmt::Let { name: var, expr, constant: str_eq(n, "const"), line })
        } else if str_eq(n, "wait") || str_eq(n, "at") || str_eq(n, "print") {
            self.next();
            let e = self.parse_level(0)?;
            self.end_of_stmt()?;
            if str_eq(n, "wait") {
                Ok(Stmt::Wait(e, line))
            } else if str_eq(n, "at") {
                Ok(Stmt::At(e, line))
            } else {
                Ok(Stmt::Print(e))
            }
        } else if str_eq(n, "repeat") || str_eq(n, "while") {
            self.next();
            let e = self.parse_level(0)?;
            let body = self.parse_block()?;
            if str_eq(n, "repeat") {
                Ok(Stmt::Repeat { count: e, body, line })
            } else {
                Ok(Stmt::While { cond: e, body })
            }
        } else if str_eq(n, "if") {
            self.parse_if()
        } else if str_eq(n, "return") {
            self.next();
            let value = match self.peek() {
                Tok::Newline | Tok::Eof | Tok::RBrace => None,
                _ => Some(self.parse_level(0)?),
            };
            self.end_of_stmt()?;
            Ok(Stmt::Return(value))
        } else if str_eq(n, "fn") {
            let mut m = at_line_exec(line);
            push_str(&mut m, "functions can only be declared at the top level");
            Err(m)
        } else if same_tok(self.peek_second(), &Tok::LParen) && !is_action(n) {
            self.next();
            let args = self.parse_call_args()?;
            self.end_of_stmt()?;
            Ok(Stmt::Call { name, args, line })
        } else if same_tok(self.peek_second(), &Tok::Assign) {
            self.next();
            self.next();
            let expr = self.parse_level(0)?;
            self.end_of_stmt()?;
            Ok(Stmt::Assign { name, expr, line })
        } else if !is_action(n) {
            let mut m = at_line_exec(line);
            push_str(&mut m, "unknown statement or action '");
            push_str(&mut m, n);
            push_str(&mut m, "'");
            Err(m)
        } else {
            self.next();
            let args = self.parse_action_args()?;
            self.end_of_stmt()?;
            Ok(Stmt::Action { name, args, line })
        }
    }

    fn parse_if(&mut self) -> (r: Result<Stmt, String>)
        requires
            old(self).wf(),
            is_ident(peek(old(self).tokens(), old(self).position()), "if"@),
        ensures
            final(self).wf(),
            final(self).tokens() == old(self).tokens(),
            match r {
                Ok(st) => spec_if(old(self).tokens(), old(self).position()) == Ok::<(StmtV, int), Seq<char>>((stmt_view(st), final(self).position()))
                    && final(self).position() > old(self).position(),
                Err(m) => spec_if(old(self).tokens(), old(self).position()) == Err::<(StmtV, int), Seq<char>>(m@),
            },
        decreases old(self).tokens().len() - old(self).position(), 49int,
    {
        let ghost ts = self.tokens();
        self.next();
        let cond = self.parse_level(0)?;
        let then_body = self.parse_block()?;
        let mut else_body: Vec<Stmt> = Vec::new();
        let save = self.pos;
        let ghost q2 = self.position();
        self.skip_newlines();
        proof {
            lemma_skip_nl(ts, q2);
        }
        if is_ident_word(self.peek(), "else") {
            self.next();
            if is_ident_word(self.peek(), "if") {
                let st = self.parse_if()?;
                else_body.push(st);
                proof {
                    lemma_stmts_view_push(Seq::empty(), st);
                    assert(Seq::<Stmt>::empty().push(st) =~= else_body@);
                    assert(stmts_view(Seq::<Stmt>::empty()) =~= Seq::<StmtV>::empty());
                    assert(Seq::<StmtV>::empty().push(stmt_view(st)) =~= seq![stmt_view(st)]);
                }
            } else {
                else_body = self.parse_block()?;
            }
        } else {
            self.pos = save;
            assert(stmts_view(else_body@) =~= Seq::<StmtV>::empty());
        }
        Ok(Stmt::If { cond, then_body, else_body })
    }
}

fn is_keyword_exec(n: &str) -> (r: bool)
    ensures
        r == is_keyword(n@),
{
    str_eq(n, "import") || str_eq(n, "let") || str_eq(n, "const") || str_eq(n, "fn") || str_eq(n, "wait")
        || str_eq(n, "at") || str_eq(n, "repeat") || str_eq(n, "while") || str_eq(n, "if") || str_eq(n, "else")
        || str_eq(n, "return") || str_eq(n, "print") || str_eq(n, "true") || str_eq(n, "false")
}

impl Parser {
    fn parse_params(&mut self) -> (r: Result<Vec<String>, String>)
        requires
            old(self).wf(),
        ensures
            final(self).wf(),
            final(self).tokens() == old(self).tokens(),
            match r {
                Ok(ps) => spec_params(old(self).tokens(), old(self).position()) == Ok::<(Seq<Seq<char>>, int), Seq<char>>((strings_view(ps@), final(self).position()))
                    && final(self).position() > old(self).position(),
                Err(m) => spec_params(old(self).tokens(), old(self).position()) == Err::<(Seq<Seq<char>>, int), Seq<char>>(m@),
            },
    {
        let ghost ts = self.tokens();
        let ghost q1 = self.position();
        let mut params: Vec<String> = Vec::new();
        assert(strings_view(params@) =~= Seq::<Seq<char>>::empty());
        if self.eat(&Tok::RParen) {
            return Ok(params);
        }
        loop
            invariant
                self.wf(),
                self.tokens() == ts,
                ts == old(self).tokens(),
                q1 == old(self).position(),
                peek(ts, q1) != TokV::RParen,
                self.position() >= q1,
                spec_params_rest(ts, Seq::empty(), q1) == spec_params_rest(ts, strings_view(params@), self.position()),
            decreases ts.len() - self.position(),
        {
            let ghost q = self.position();
            self.skip_newlines();
            proof {
                lemma_skip_nl(ts, q);
            }
            let pname = self.expect_ident("parameter name")?;
            let ghost q2 = self.position();
            self.skip_newlines();
            proof {
                lemma_skip_nl(ts, q2);
            }
            let ghost before = params@;
            params.push(pname);
            assert(strings_view(params@) =~= strings_view(before).push(pname@));
            if self.eat(&Tok::Comma) {
                continue;
            }
            self.expect(Tok::RParen, "',' or ')' in parameter list")?;
            return Ok(params);
        }
    }

    fn parse_func(&mut self) -> (r: Result<Func, String>)
        requires
            old(self).wf(),
            is_ident(peek(old(self).tokens(), old(self).position()), "fn"@),
        ensures
            final(self).wf(),
            final(self).tokens() == old(self).tokens(),
            match r {
                Ok(f) => spec_func(old(self).tokens(), old(self).position()) == Ok::<(FuncV, int), Seq<char>>((func_view(f), final(self).position()))
                    && final(self).position() > old(self).position(),
                Err(m) => spec_func(old(self).tokens(), old(self).position()) == Err::<(FuncV, int), Seq<char>>(m@),
            },
    {
        let ghost ts = self.tokens();
        let line = self.line();
        self.next();
        let name = self.expect_ident("function name")?;
        if is_keyword_exec(name.as_str()) || is_action(name.as_str()) {
            let mut m = at_line_exec(line);
            push_str(&mut m, "'");
            push_str(&mut m, name.as_str());
            push_str(&mut m, "' is reserved and cannot be a function name");
            return Err(m);
        }
        self.expect(Tok::LParen, "'(' after function name")?;
        let params = self.parse_params()?;
        let body = self.parse_block()?;
        Ok(Func { name, params, body, line })
    }

    /// Parses a whole program: top-level functions and statements up to `Eof`.
    pub fn parse_program(&mut self) -> (r: Result<Program, String>)
        requires
            old(self).wf(),
        ensures
            match r {
                Ok(p) => spec_program_rest(old(self).tokens(), ProgramV { funcs: Seq::empty(), main: Seq::empty() }, old(self).position())
                    == Ok::<ProgramV, Seq<char>>(program_view(p)),
                Err(m) => spec_program_rest(old(self).tokens(), ProgramV { funcs: Seq::empty(), main: Seq::empty() }, old(self).position())
                    == Err::<ProgramV, Seq<char>>(m@),
            },
    {
        let ghost ts = self.tokens();
        let ghost start = self.position();
        let mut prog = Program { funcs: Vec::new(), main: Vec::new() };
        assert(program_view(prog) =~= ProgramV { funcs: Seq::empty(), main: Seq::empty() }) by {
            assert(funcs_view(prog.funcs@) =~= Seq::<FuncV>::empty());
            assert(stmts_view(prog.main@) =~= Seq::<StmtV>::empty());
        }
        loop
            invariant
                self.wf(),
                self.tokens() == ts,
                ts == old(self).tokens(),
                start == old(self).position(),
                spec_program_rest(ts, ProgramV { funcs: Seq::empty(), main: Seq::empty() }, start)
                    == spec_program_rest(ts, program_view(prog), self.position()),
            decreases ts.len() - self.position(),
        {
            let ghost q = self.position();
            self.skip_newlines();
            proof {
                lemma_skip_nl(ts, q);
            }
            if same_tok(self.peek(), &Tok::Eof) {
                return Ok(prog);
            }
            if is_ident_word(self.peek(), "fn") {
                let f = self.parse_func()?;
                let ghost before = prog.funcs@;
                prog.funcs.push(f);
                assert(funcs_view(prog.funcs@) =~= funcs_view(before).push(func_view(f)));
            } else {
                let st = self.parse_stmt()?;
                proof {
                    lemma_stmts_view_push(prog.main@, st);
                }
                prog.main.push(st);
            }
        }
    }
}

} // verus!
