//! The meaning of a STAS program: a definitional interpreter over abstract
//! values and states. Compiling a program runs it, with the frame counter
//! advanced by `wait`/`at` and each in-game action emitted as a `.tas` line.
//!
//! Floating-point arithmetic is not computed here: every operation on a float
//! is the answer of a float unit `fu`, a function from `FloatOpV` to
//! `FloatOutV` (64-bit IEEE floats held as their bit patterns).

use vstd::prelude::*;
use crate::actions::spec_validate;
use crate::ast::{ArgV, BinOp, ExprV, FuncV, StmtV, UnOp};
use crate::lexer::at_line;
use crate::text::{decimal, signed_decimal};

verus! {

pub open spec fn max_steps() -> nat {
    50_000_000
}

pub open spec fn max_call_depth() -> nat {
    128
}

/// Largest magnitude up to which every integer is exactly a 64-bit float.
pub open spec fn exact_float_int() -> int {
    9007199254740992
}

/// A run-time value; a float is held as the bits of a 64-bit IEEE float.
pub enum ValueV {
    Int(i64),
    Float(u64),
    Str(Seq<char>),
}

/// An operation of the float unit. Operands are bit patterns of 64-bit floats.
pub enum FloatOpV {
    /// The float nearest to an integer (`as f64`): `bits`.
    FromInt(i64),
    /// The value of a decimal literal: `bits`.
    Parse(Seq<char>),
    /// `+ - * / %` give `bits`; `== != < <= > >=` give `flag`.
    Arith(BinOp, u64, u64),
    /// Negation: `bits`.
    Neg(u64),
    /// Absolute value: `bits`.
    Abs(u64),
    /// Square root: `bits`.
    Sqrt(u64),
    /// `round()`, then `as i64`: `int`.
    Round(u64),
    /// `floor()`, then `as i64`: `int`.
    Floor(u64),
    /// `ceil()`, then `as i64`: `int`.
    Ceil(u64),
    /// `trunc()`, then `as i64`: `int`.
    Trunc(u64),
    /// Whether the value equals zero: `flag`.
    IsZero(u64),
    /// Whether the value is below zero: `flag`.
    IsNegative(u64),
    /// Whether the value has no fractional part: `flag`; and `as i64`: `int`.
    Integral(u64),
    /// The text of the value as printed: `text`.
    Render(u64),
    /// The text of the value in the `{}` format: `text`.
    Display(u64),
    /// The text of the value in the `{:?}` format: `text`.
    Debug(u64),
}

pub struct FloatOutV {
    pub bits: u64,
    pub int: i64,
    pub flag: bool,
    pub text: Seq<char>,
}

pub type FloatFn = spec_fn(FloatOpV) -> FloatOutV;

pub enum FlowV {
    Normal,
    Return(ValueV),
}

/// A variable scope: names bound to values, each name at most once.
pub type ScopeV = Seq<(Seq<char>, ValueV)>;

pub struct StateV {
    pub scopes: Seq<ScopeV>,
    pub consts: Seq<Seq<char>>,
    pub frame_base: Seq<nat>,
    pub frame: i64,
    pub out: Seq<Seq<char>>,
    pub last_emitted: i64,
    pub output_frame: Option<i64>,
    pub warnings: Seq<Seq<char>>,
    pub printed: Seq<Seq<char>>,
    pub depth: nat,
    pub steps: nat,
}

/// The state a program starts in: one empty (global) scope, frame 0.
pub open spec fn initial_state() -> StateV {
    StateV {
        scopes: seq![Seq::empty()],
        consts: Seq::empty(),
        frame_base: seq![0],
        frame: 0,
        out: Seq::empty(),
        last_emitted: 0,
        output_frame: None,
        warnings: Seq::empty(),
        printed: Seq::empty(),
        depth: 0,
        steps: 0,
    }
}

/// The shape every state keeps: a global scope, and a frame base within the scopes.
pub open spec fn state_wf(st: StateV) -> bool {
    &&& st.scopes.len() >= 1
    &&& st.frame_base.len() >= 1
    &&& st.frame_base.last() < st.scopes.len()
    &&& st.steps <= max_steps()
    &&& st.depth <= max_call_depth()
}

/// Whether `st1` may follow `st0` in a run: as many steps or more, same depth and shape.
pub open spec fn advances(st0: StateV, st1: StateV) -> bool {
    &&& st0.steps <= st1.steps <= max_steps()
    &&& st1.depth == st0.depth
}

// ---------------------------------------------------------------- sizes

pub open spec fn esize(e: ExprV) -> nat
    decreases e,
{
    match e {
        ExprV::Unary(_, a) => 1 + esize(*a),
        ExprV::Bin(_, a, b, _) => 1 + esize(*a) + esize(*b),
        ExprV::Call(_, args, _) => 1 + esizes(args),
        _ => 1,
    }
}

pub open spec fn esizes(s: Seq<ExprV>) -> nat
    decreases s,
{
    if s.len() == 0 {
        0
    } else {
        esize(s[0]) + esizes(s.drop_first())
    }
}

pub open spec fn asizes(s: Seq<ArgV>) -> nat
    decreases s.len(),
{
    if s.len() == 0 {
        0
    } else {
        (match s[0] {
            ArgV::Word(_) => 1,
            ArgV::Expr(e) => 1 + esize(e),
        }) + asizes(s.drop_first())
    }
}

pub open spec fn ssize(s: StmtV) -> nat
    decreases s,
{
    match s {
        StmtV::Let { expr, .. } => 1 + esize(expr),
        StmtV::Assign { expr, .. } => 1 + esize(expr),
        StmtV::Wait(e, _) => 1 + esize(e),
        StmtV::At(e, _) => 1 + esize(e),
        StmtV::Action { args, .. } => 2 + asizes(args),
        StmtV::Call { args, .. } => 2 + esizes(args),
        StmtV::Repeat { count, body, .. } => 2 + esize(count) + ssizes(body),
        StmtV::While { cond, body } => 2 + esize(cond) + ssizes(body),
        StmtV::If { cond, then_body, else_body } => 2 + esize(cond) + ssizes(then_body) + ssizes(else_body),
        StmtV::Return(Some(e)) => 1 + esize(e),
        StmtV::Print(e) => 1 + esize(e),
        _ => 1,
    }
}

pub open spec fn ssizes(s: Seq<StmtV>) -> nat
    decreases s,
{
    if s.len() == 0 {
        0
    } else {
        ssize(s[0]) + ssizes(s.drop_first())
    }
}

pub proof fn lemma_esize_pos(e: ExprV)
    ensures
        esize(e) >= 1,
{
}

pub proof fn lemma_esizes_elem(s: Seq<ExprV>, i: int)
    requires
        0 <= i < s.len(),
    ensures
        esize(s[i]) <= esizes(s),
        i == 1 ==> esize(s[0]) + esize(s[1]) <= esizes(s),
    decreases s.len(),
{
    if i > 0 {
        lemma_esizes_elem(s.drop_first(), i - 1);
        assert(s.drop_first()[i - 1] == s[i]);
        if i == 1 {
            assert(s.drop_first()[0] == s[1]);
        }
    }
}

pub proof fn lemma_asizes_elem(s: Seq<ArgV>, i: int)
    requires
        0 <= i < s.len(),
        s[i] is Expr,
    ensures
        1 + esize(s[i]->Expr_0) <= asizes(s),
    decreases s.len(),
{
    if i > 0 {
        lemma_asizes_elem(s.drop_first(), i - 1);
        assert(s.drop_first()[i - 1] == s[i]);
    }
}

// ---------------------------------------------------------------- values

pub open spec fn number_error(line: nat) -> Seq<char> {
    at_line(line) + "expected a number, got a string"@
}

/// The float a number stands for.
pub open spec fn to_float(fu: FloatFn, v: ValueV) -> u64 {
    match v {
        ValueV::Int(i) => fu(FloatOpV::FromInt(i)).bits,
        ValueV::Float(b) => b,
        ValueV::Str(_) => 0,
    }
}

pub open spec fn truthy(fu: FloatFn, v: ValueV) -> bool {
    match v {
        ValueV::Int(i) => i != 0,
        ValueV::Float(b) => !fu(FloatOpV::IsZero(b)).flag,
        ValueV::Str(s) => s.len() > 0,
    }
}

/// The text of a value, as printed and as an action argument.
pub open spec fn render(fu: FloatFn, v: ValueV) -> Seq<char> {
    match v {
        ValueV::Int(i) => signed_decimal(i as int),
        ValueV::Float(b) => fu(FloatOpV::Render(b)).text,
        ValueV::Str(s) => s,
    }
}

pub open spec fn bool_value(b: bool) -> ValueV {
    ValueV::Int(if b { 1 } else { 0 })
}

pub open spec fn small(i: i64) -> bool {
    -exact_float_int() <= i <= exact_float_int()
}

/// How a number is rounded to a frame or repetition count: integers up to
/// 2^53 are kept; otherwise the float is rounded and cast.
pub open spec fn rounded(fu: FloatFn, v: ValueV) -> i64 {
    match v {
        ValueV::Int(i) => if small(i) {
            i
        } else {
            fu(FloatOpV::Round(fu(FloatOpV::FromInt(i)).bits)).int
        },
        _ => fu(FloatOpV::Round(to_float(fu, v))).int,
    }
}

/// The exact integer result of `a op b` when it is exactly representable.
pub open spec fn exact_arith(op: BinOp, a: i64, b: i64) -> Option<int> {
    if op == BinOp::Add {
        Some(a + b)
    } else if op == BinOp::Sub {
        Some(a - b)
    } else if op == BinOp::Mul {
        Some(a * b)
    } else {
        None
    }
}

pub open spec fn is_comparison(op: BinOp) -> bool {
    op == BinOp::Eq || op == BinOp::Ne || op == BinOp::Lt || op == BinOp::Le || op == BinOp::Gt || op == BinOp::Ge
}

pub open spec fn compare_ints(op: BinOp, a: int, b: int) -> bool {
    if op == BinOp::Eq {
        a == b
    } else if op == BinOp::Ne {
        a != b
    } else if op == BinOp::Lt {
        a < b
    } else if op == BinOp::Le {
        a <= b
    } else if op == BinOp::Gt {
        a > b
    } else {
        a >= b
    }
}

/// A binary operator other than `&&`/`||` applied to two evaluated operands.
pub open spec fn spec_binop(fu: FloatFn, op: BinOp, l: ValueV, r: ValueV, line: nat) -> Result<ValueV, Seq<char>> {
    if op == BinOp::Add && l is Str {
        Ok(ValueV::Str(l->Str_0 + render(fu, r)))
    } else if op == BinOp::Add && r is Str {
        Ok(ValueV::Str(render(fu, l) + r->Str_0))
    } else if (op == BinOp::Eq || op == BinOp::Ne) && l is Str && r is Str {
        Ok(bool_value((op == BinOp::Eq) == (l->Str_0 == r->Str_0)))
    } else if l is Str || r is Str {
        Err(number_error(line))
    } else if l is Int && r is Int && small(l->Int_0) && small(r->Int_0) && is_comparison(op) {
        Ok(bool_value(compare_ints(op, l->Int_0 as int, r->Int_0 as int)))
    } else if l is Int && r is Int && small(l->Int_0) && small(r->Int_0) && exact_arith(op, l->Int_0, r->Int_0) is Some
        && -exact_float_int() <= exact_arith(op, l->Int_0, r->Int_0)->0 <= exact_float_int() {
        Ok(ValueV::Int(exact_arith(op, l->Int_0, r->Int_0)->0 as i64))
    } else {
        let a = to_float(fu, l);
        let b = to_float(fu, r);
        if is_comparison(op) {
            Ok(bool_value(fu(FloatOpV::Arith(op, a, b)).flag))
        } else if op == BinOp::Div && fu(FloatOpV::IsZero(b)).flag {
            Err(at_line(line) + "division by zero"@)
        } else if op == BinOp::Rem && fu(FloatOpV::IsZero(b)).flag {
            Err(at_line(line) + "modulo by zero"@)
        } else {
            let x = fu(FloatOpV::Arith(op, a, b)).bits;
            if l is Int && r is Int && fu(FloatOpV::Integral(x)).flag {
                Ok(ValueV::Int(fu(FloatOpV::Integral(x)).int))
            } else {
                Ok(ValueV::Float(x))
            }
        }
    }
}

pub open spec fn spec_unop(fu: FloatFn, op: UnOp, v: ValueV) -> Result<ValueV, Seq<char>> {
    match op {
        UnOp::Neg => match v {
            ValueV::Int(i) => Ok(ValueV::Int(0i64.wrapping_sub(i))),
            ValueV::Float(b) => Ok(ValueV::Float(fu(FloatOpV::Neg(b)).bits)),
            ValueV::Str(_) => Err("cannot negate a string"@),
        },
        UnOp::Not => Ok(bool_value(!truthy(fu, v))),
    }
}

// ---------------------------------------------------------------- environment

/// Index of the binding of `name` in a scope, or -1.
pub open spec fn key_index(sc: ScopeV, name: Seq<char>) -> int
    decreases sc.len(),
{
    if sc.len() == 0 {
        -1
    } else if sc.last().0 == name {
        sc.len() - 1
    } else {
        key_index(sc.drop_last(), name)
    }
}

/// The innermost scope in `lo..hi` that binds `name`.
pub open spec fn find_scope(scopes: Seq<ScopeV>, name: Seq<char>, lo: int, hi: int) -> Option<int>
    decreases hi - lo,
{
    if hi <= lo {
        None
    } else if key_index(scopes[hi - 1], name) >= 0 {
        Some(hi - 1)
    } else {
        find_scope(scopes, name, lo, hi - 1)
    }
}

/// The value of a variable: from the scopes of the current function (innermost
/// first), then from the global scope.
pub open spec fn lookup(st: StateV, name: Seq<char>) -> Option<ValueV> {
    match find_scope(st.scopes, name, st.frame_base.last() as int, st.scopes.len() as int) {
        Some(i) => Some(st.scopes[i][key_index(st.scopes[i], name)].1),
        None => if key_index(st.scopes[0], name) >= 0 {
            Some(st.scopes[0][key_index(st.scopes[0], name)].1)
        } else {
            None
        },
    }
}

/// `name` bound to `v` in a scope: replacing its binding, or added at the end.
pub open spec fn scope_insert(sc: ScopeV, name: Seq<char>, v: ValueV) -> ScopeV {
    if key_index(sc, name) >= 0 {
        sc.update(key_index(sc, name), (name, v))
    } else {
        sc.push((name, v))
    }
}

pub open spec fn names_remove(s: Seq<Seq<char>>, name: Seq<char>) -> Seq<Seq<char>>
    decreases s.len(),
{
    if s.len() == 0 {
        s
    } else if s.last() == name {
        names_remove(s.drop_last(), name)
    } else {
        names_remove(s.drop_last(), name).push(s.last())
    }
}

pub open spec fn names_insert(s: Seq<Seq<char>>, name: Seq<char>) -> Seq<Seq<char>> {
    if s.contains(name) {
        s
    } else {
        s.push(name)
    }
}

/// `let`/`const`: a new binding in the innermost scope.
pub open spec fn declare(st: StateV, name: Seq<char>, v: ValueV, constant: bool, line: nat) -> (Result<(), Seq<char>>, StateV) {
    let last = st.scopes.len() - 1;
    if key_index(st.scopes[last], name) >= 0 {
        (Err(at_line(line) + "'"@ + name + "' is already declared in this scope"@), st)
    } else {
        (Ok(()), StateV {
            scopes: st.scopes.update(last, st.scopes[last].push((name, v))),
            consts: if constant { names_insert(st.consts, name) } else { names_remove(st.consts, name) },
            ..st
        })
    }
}

/// Assignment to an existing, non-constant variable.
pub open spec fn assign(st: StateV, name: Seq<char>, v: ValueV, line: nat) -> (Result<(), Seq<char>>, StateV) {
    if st.consts.contains(name) {
        (Err(at_line(line) + "cannot assign to constant '"@ + name + "'"@), st)
    } else {
        match find_scope(st.scopes, name, st.frame_base.last() as int, st.scopes.len() as int) {
            Some(i) => (Ok(()), StateV { scopes: st.scopes.update(i, scope_insert(st.scopes[i], name, v)), ..st }),
            None => if key_index(st.scopes[0], name) >= 0 {
                (Ok(()), StateV { scopes: st.scopes.update(0, scope_insert(st.scopes[0], name, v)), ..st })
            } else {
                (Err(at_line(line) + "undefined variable '"@ + name + "' (use 'let' to declare it)"@), st)
            },
        }
    }
}

// ---------------------------------------------------------------- output

/// The `.tas` line for an action: the timing, the name, then the arguments,
/// separated by spaces.
pub open spec fn action_line(timing: Seq<char>, name: Seq<char>, args: Seq<Seq<char>>) -> Seq<char>
    decreases args.len(),
{
    if args.len() == 0 {
        timing + " "@ + name
    } else {
        action_line(timing, name, args.drop_last()) + " "@ + args.last()
    }
}

/// Emitting an action at the current frame. The first line is timed `0`,
/// later ones `+delta` from the previous output frame; a move backwards is
/// written as the absolute frame, with a warning. An action other than `await`
/// before the latest emitted frame also gets a warning.
pub open spec fn emit(st: StateV, name: Seq<char>, args: Seq<Seq<char>>, line: nat) -> StateV {
    let w1 = if name != "await"@ && st.frame < st.last_emitted {
        st.warnings.push(
            at_line(line) + "action is emitted at frame "@ + signed_decimal(st.frame as int)
                + " which is before the previous frame "@ + signed_decimal(st.last_emitted as int),
        )
    } else {
        st.warnings
    };
    let last_emitted = if st.last_emitted >= st.frame { st.last_emitted } else { st.frame };
    let (timing, w2) = match st.output_frame {
        None => ("0"@, w1),
        Some(previous) => {
            let delta = st.frame.wrapping_sub(previous);
            if delta >= 0 {
                ("+"@ + signed_decimal(delta as int), w1)
            } else {
                (
                    signed_decimal(st.frame as int),
                    w1.push(
                        at_line(line) + "relative output cannot represent a backwards move from frame "@
                            + signed_decimal(previous as int) + " to "@ + signed_decimal(st.frame as int),
                    ),
                )
            }
        },
    };
    StateV {
        warnings: w2,
        last_emitted,
        output_frame: Some(st.frame),
        out: st.out.push(action_line(timing, name, args)),
        ..st
    }
}

// ---------------------------------------------------------------- functions

/// Index of the function named `name`, or -1 (the first one; names are unique).
pub open spec fn func_index(fs: Seq<FuncV>, name: Seq<char>) -> int
    decreases fs.len(),
{
    if fs.len() == 0 {
        -1
    } else if fs[0].name == name {
        0
    } else {
        let i = func_index(fs.drop_first(), name);
        if i >= 0 { i + 1 } else { -1 }
    }
}

/// A function named `name` is found exactly when one of the functions has that name.
pub proof fn lemma_func_index_exists(fs: Seq<FuncV>, name: Seq<char>)
    ensures
        (func_index(fs, name) >= 0) == (exists|j: int| 0 <= j < fs.len() && #[trigger] fs[j].name == name),
    decreases fs.len(),
{
    if fs.len() > 0 {
        lemma_func_index_exists(fs.drop_first(), name);
        if fs[0].name != name {
            if exists|j: int| 0 <= j < fs.len() && #[trigger] fs[j].name == name {
                let j = choose|j: int| 0 <= j < fs.len() && #[trigger] fs[j].name == name;
                assert(fs.drop_first()[j - 1].name == name);
            }
            if exists|j: int| 0 <= j < fs.drop_first().len() && #[trigger] fs.drop_first()[j].name == name {
                let j = choose|j: int| 0 <= j < fs.drop_first().len() && #[trigger] fs.drop_first()[j].name == name;
                assert(fs[j + 1].name == name);
            }
        }
    }
}

/// The index of the first function whose name an earlier one already has.
pub open spec fn first_duplicate(fs: Seq<FuncV>, i: int) -> Option<int>
    decreases fs.len() - i,
{
    if i < 0 || i >= fs.len() {
        None
    } else if func_index(fs.take(i), fs[i].name) >= 0 {
        Some(i)
    } else {
        first_duplicate(fs, i + 1)
    }
}

/// The scope of a call: each parameter bound to its argument, in order.
pub open spec fn params_scope(params: Seq<Seq<char>>, vals: Seq<ValueV>) -> ScopeV
    decreases params.len(),
{
    if params.len() == 0 || vals.len() == 0 {
        Seq::empty()
    } else {
        scope_insert(params_scope(params.drop_last(), vals.drop_last()), params.last(), vals.last())
    }
}

pub open spec fn steps_error() -> Seq<char> {
    "script exceeded the maximum number of steps (infinite loop?)"@
}

pub open spec fn is_builtin(name: Seq<char>) -> bool {
    ||| name == "frame"@
    ||| name == "abs"@
    ||| name == "int"@
    ||| name == "float"@
    ||| name == "floor"@
    ||| name == "ceil"@
    ||| name == "round"@
    ||| name == "sqrt"@
    ||| name == "min"@
    ||| name == "max"@
    ||| name == "str"@
}

pub open spec fn arity_error(name: Seq<char>, n: nat, got: nat, line: nat) -> Seq<char> {
    at_line(line) + "'"@ + name + "' expects "@ + decimal(n) + " argument(s), got "@ + decimal(got)
}

pub open spec fn builtin_arity(name: Seq<char>) -> nat {
    if name == "frame"@ {
        0
    } else if name == "min"@ || name == "max"@ {
        2
    } else {
        1
    }
}

/// A builtin applied to its evaluated argument(s) `a` (and `b` for `min`/`max`).
pub open spec fn apply_builtin(fu: FloatFn, name: Seq<char>, a: ValueV, b: ValueV, line: nat) -> Result<ValueV, Seq<char>> {
    if name == "abs"@ {
        match a {
            ValueV::Int(i) => Ok(ValueV::Int(if i < 0 { 0i64.wrapping_sub(i) } else { i })),
            ValueV::Float(x) => Ok(ValueV::Float(fu(FloatOpV::Abs(x)).bits)),
            ValueV::Str(_) => Err(at_line(line) + "'abs' expects a number"@),
        }
    } else if a is Str {
        if name == "str"@ {
            Ok(ValueV::Str(a->Str_0))
        } else {
            Err(number_error(line))
        }
    } else if name == "str"@ {
        Ok(ValueV::Str(render(fu, a)))
    } else if name == "float"@ {
        Ok(ValueV::Float(to_float(fu, a)))
    } else if name == "sqrt"@ {
        if fu(FloatOpV::IsNegative(to_float(fu, a))).flag {
            Err(at_line(line) + "'sqrt' of a negative number"@)
        } else {
            Ok(ValueV::Float(fu(FloatOpV::Sqrt(to_float(fu, a))).bits))
        }
    } else if name == "min"@ || name == "max"@ {
        if b is Str {
            Err(number_error(line))
        } else {
            let op = if name == "min"@ { BinOp::Le } else { BinOp::Ge };
            let take_first = if a is Int && b is Int && small(a->Int_0) && small(b->Int_0) {
                compare_ints(op, a->Int_0 as int, b->Int_0 as int)
            } else {
                fu(FloatOpV::Arith(op, to_float(fu, a), to_float(fu, b))).flag
            };
            Ok(if take_first { a } else { b })
        }
    } else if a is Int && small(a->Int_0) {
        Ok(a)
    } else {
        let x = to_float(fu, a);
        Ok(ValueV::Int(
            if name == "int"@ {
                fu(FloatOpV::Trunc(x)).int
            } else if name == "floor"@ {
                fu(FloatOpV::Floor(x)).int
            } else if name == "ceil"@ {
                fu(FloatOpV::Ceil(x)).int
            } else {
                fu(FloatOpV::Round(x)).int
            },
        ))
    }
}

// ---------------------------------------------------------------- evaluation

pub type Eval = (Result<ValueV, Seq<char>>, StateV);

pub type Exec = (Result<FlowV, Seq<char>>, StateV);

/// The value of an expression, and the state after evaluating it.
pub open spec fn eval(fs: Seq<FuncV>, fu: FloatFn, e: ExprV, st: StateV) -> Eval
    decreases max_steps() - st.steps, max_call_depth() - st.depth, esize(e), 3int,
{
    match e {
        ExprV::Int(v) => (Ok(ValueV::Int(v)), st),
        ExprV::Float(s) => (Ok(ValueV::Float(fu(FloatOpV::Parse(s)).bits)), st),
        ExprV::Str(s) => (Ok(ValueV::Str(s)), st),
        ExprV::Var(name, line) => match lookup(st, name) {
            Some(v) => (Ok(v), st),
            None => (Err(at_line(line) + "undefined variable '"@ + name + "'"@), st),
        },
        ExprV::Unary(op, a) => {
            let (r, st1) = eval(fs, fu, *a, st);
            match r {
                Err(m) => (Err(m), st1),
                Ok(v) => (spec_unop(fu, op, v), st1),
            }
        },
        ExprV::Bin(op, l, r, line) => {
            let (lr, st1) = eval(fs, fu, *l, st);
            match lr {
                Err(m) => (Err(m), st1),
                Ok(lv) => if !advances(st, st1) {
                    (Err(Seq::empty()), st1)
                } else if op == BinOp::And && !truthy(fu, lv) {
                    (Ok(ValueV::Int(0)), st1)
                } else if op == BinOp::Or && truthy(fu, lv) {
                    (Ok(ValueV::Int(1)), st1)
                } else {
                    let (rr, st2) = eval(fs, fu, *r, st1);
                    match rr {
                        Err(m) => (Err(m), st2),
                        Ok(rv) => if op == BinOp::And || op == BinOp::Or {
                            (Ok(bool_value(truthy(fu, rv))), st2)
                        } else {
                            (spec_binop(fu, op, lv, rv, line), st2)
                        },
                    }
                },
            }
        },
        ExprV::Call(name, args, line) => if is_builtin(name) {
            builtin(fs, fu, name, args, line, st)
        } else {
            call(fs, fu, name, args, line, st)
        },
    }
}

/// A builtin function call (arguments evaluated left to right).
pub open spec fn builtin(fs: Seq<FuncV>, fu: FloatFn, name: Seq<char>, args: Seq<ExprV>, line: nat, st: StateV) -> Eval
    decreases max_steps() - st.steps, max_call_depth() - st.depth, esizes(args) + 1, 2int,
{
    if args.len() != builtin_arity(name) {
        (Err(arity_error(name, builtin_arity(name), args.len(), line)), st)
    } else if name == "frame"@ {
        (Ok(ValueV::Int(st.frame)), st)
    } else {
        let (ar, st1) = eval(fs, fu, args[0], st);
        match ar {
            Err(m) => (Err(m), st1),
            Ok(a) => if args.len() == 1 {
                (apply_builtin(fu, name, a, a, line), st1)
            } else if !advances(st, st1) {
                (Err(Seq::empty()), st1)
            } else {
                proof {
                    lemma_esizes_elem(args, 1);
                }
                let (br, st2) = eval(fs, fu, args[1], st1);
                match br {
                    Err(m) => (Err(m), st2),
                    Ok(b) => (apply_builtin(fu, name, a, b, line), st2),
                }
            },
        }
    }
}

/// The values of a list of expressions, evaluated left to right.
pub open spec fn eval_all(fs: Seq<FuncV>, fu: FloatFn, es: Seq<ExprV>, st: StateV) -> (Result<Seq<ValueV>, Seq<char>>, StateV)
    decreases max_steps() - st.steps, max_call_depth() - st.depth, esizes(es) + 1, 0int,
{
    if es.len() == 0 {
        (Ok(Seq::empty()), st)
    } else {
        let (r, st1) = eval(fs, fu, es[0], st);
        match r {
            Err(m) => (Err(m), st1),
            Ok(v) => if !advances(st, st1) {
                (Err(Seq::empty()), st1)
            } else {
                proof {
                    lemma_esize_pos(es[0]);
                }
                let (rest, st2) = eval_all(fs, fu, es.drop_first(), st1);
                match rest {
                    Err(m) => (Err(m), st2),
                    Ok(vs) => (Ok(seq![v] + vs), st2),
                }
            },
        }
    }
}

/// A call of a user function: arguments evaluated, then the body run in a
/// new frame whose first scope binds the parameters.
pub open spec fn call(fs: Seq<FuncV>, fu: FloatFn, name: Seq<char>, args: Seq<ExprV>, line: nat, st: StateV) -> Eval
    decreases max_steps() - st.steps, max_call_depth() - st.depth, esizes(args) + 1, 1int,
{
    let i = func_index(fs, name);
    if i < 0 {
        (Err(at_line(line) + "undefined function '"@ + name + "'"@), st)
    } else if args.len() != fs[i].params.len() {
        (Err(at_line(line) + "function '"@ + name + "' expects "@ + decimal(fs[i].params.len()) + " argument(s), got "@ + decimal(args.len())), st)
    } else {
        let (vr, st1) = eval_all(fs, fu, args, st);
        match vr {
            Err(m) => (Err(m), st1),
            Ok(vals) => if !advances(st, st1) {
                (Err(Seq::empty()), st1)
            } else if st1.depth + 1 > max_call_depth() {
                (Err(at_line(line) + "maximum call depth (128) exceeded in '"@ + name + "'"@), st1)
            } else {
                let st2 = StateV {
                    depth: st1.depth + 1,
                    frame_base: st1.frame_base.push(st1.scopes.len()),
                    scopes: st1.scopes.push(params_scope(fs[i].params, vals)),
                    ..st1
                };
                let (fr, st3) = exec_stmts(fs, fu, fs[i].body, st2);
                let st4 = StateV {
                    scopes: st3.scopes.drop_last(),
                    frame_base: st3.frame_base.drop_last(),
                    depth: (st3.depth - 1) as nat,
                    ..st3
                };
                match fr {
                    Err(m) => (Err(m), st4),
                    Ok(FlowV::Return(v)) => (Ok(v), st4),
                    Ok(FlowV::Normal) => (Ok(ValueV::Int(0)), st4),
                }
            },
        }
    }
}

/// The rendered arguments of an action line: words as written, expressions by value.
pub open spec fn eval_action_args(fs: Seq<FuncV>, fu: FloatFn, args: Seq<ArgV>, st: StateV) -> (Result<Seq<Seq<char>>, Seq<char>>, StateV)
    decreases max_steps() - st.steps, max_call_depth() - st.depth, asizes(args) + 1, 0int,
{
    if args.len() == 0 {
        (Ok(Seq::empty()), st)
    } else {
        let (r, st1) = match args[0] {
            ArgV::Word(w) => (Ok(w), st),
            ArgV::Expr(e) => {
                let (vr, st1) = eval(fs, fu, e, st);
                match vr {
                    Err(m) => (Err(m), st1),
                    Ok(v) => (Ok(render(fu, v)), st1),
                }
            },
        };
        match r {
            Err(m) => (Err(m), st1),
            Ok(a) => if !advances(st, st1) {
                (Err(Seq::empty()), st1)
            } else {
                let (rest, st2) = eval_action_args(fs, fu, args.drop_first(), st1);
                match rest {
                    Err(m) => (Err(m), st2),
                    Ok(rs) => (Ok(seq![a] + rs), st2),
                }
            },
        }
    }
}

/// Statements run in order, each counting one step, until one returns.
pub open spec fn exec_stmts(fs: Seq<FuncV>, fu: FloatFn, ss: Seq<StmtV>, st: StateV) -> Exec
    decreases max_steps() - st.steps, max_call_depth() - st.depth, ssizes(ss) + 1, 3int,
{
    if ss.len() == 0 {
        (Ok(FlowV::Normal), st)
    } else if st.steps + 1 > max_steps() {
        (Err(steps_error()), StateV { steps: st.steps + 1, ..st })
    } else {
        let st0 = StateV { steps: st.steps + 1, ..st };
        let (r, st1) = exec_stmt(fs, fu, ss[0], st0);
        match r {
            Err(m) => (Err(m), st1),
            Ok(FlowV::Return(v)) => (Ok(FlowV::Return(v)), st1),
            Ok(FlowV::Normal) => if !advances(st0, st1) {
                (Err(Seq::empty()), st1)
            } else {
                exec_stmts(fs, fu, ss.drop_first(), st1)
            },
        }
    }
}

/// Statements run in a new innermost scope.
pub open spec fn exec_block(fs: Seq<FuncV>, fu: FloatFn, ss: Seq<StmtV>, st: StateV) -> Exec
    decreases max_steps() - st.steps, max_call_depth() - st.depth, ssizes(ss) + 1, 4int,
{
    let (r, st1) = exec_stmts(fs, fu, ss, StateV { scopes: st.scopes.push(Seq::empty()), ..st });
    (r, StateV { scopes: st1.scopes.drop_last(), ..st1 })
}

/// The remaining `k` iterations of a `repeat` body.
pub open spec fn repeat_loop(fs: Seq<FuncV>, fu: FloatFn, body: Seq<StmtV>, k: int, st: StateV) -> Exec
    decreases max_steps() - st.steps, max_call_depth() - st.depth, ssizes(body) + 1, 5int,
{
    if k <= 0 {
        (Ok(FlowV::Normal), st)
    } else if st.steps + 1 > max_steps() {
        (Err(steps_error()), StateV { steps: st.steps + 1, ..st })
    } else {
        let st0 = StateV { steps: st.steps + 1, ..st };
        let (r, st1) = exec_block(fs, fu, body, st0);
        match r {
            Err(m) => (Err(m), st1),
            Ok(FlowV::Return(v)) => (Ok(FlowV::Return(v)), st1),
            Ok(FlowV::Normal) => if !advances(st0, st1) {
                (Err(Seq::empty()), st1)
            } else {
                repeat_loop(fs, fu, body, k - 1, st1)
            },
        }
    }
}

/// A `while` loop from its next condition check.
pub open spec fn while_loop(fs: Seq<FuncV>, fu: FloatFn, cond: ExprV, body: Seq<StmtV>, st: StateV) -> Exec
    decreases max_steps() - st.steps, max_call_depth() - st.depth, esize(cond) + ssizes(body) + 1, 5int,
{
    if st.steps + 1 > max_steps() {
        (Err(steps_error()), StateV { steps: st.steps + 1, ..st })
    } else {
        let st0 = StateV { steps: st.steps + 1, ..st };
        let (cr, st1) = eval(fs, fu, cond, st0);
        match cr {
            Err(m) => (Err(m), st1),
            Ok(c) => if !truthy(fu, c) {
                (Ok(FlowV::Normal), st1)
            } else if !advances(st0, st1) {
                (Err(Seq::empty()), st1)
            } else {
                let (r, st2) = exec_block(fs, fu, body, st1);
                match r {
                    Err(m) => (Err(m), st2),
                    Ok(FlowV::Return(v)) => (Ok(FlowV::Return(v)), st2),
                    Ok(FlowV::Normal) => if !advances(st1, st2) {
                        (Err(Seq::empty()), st2)
                    } else {
                        while_loop(fs, fu, cond, body, st2)
                    },
                }
            },
        }
    }
}

/// A frame count for `wait`/`at`: the rounded value, or an error when negative.
pub open spec fn frame_count(fu: FloatFn, v: ValueV, line: nat, what: Seq<char>) -> Result<i64, Seq<char>> {
    if v is Str {
        Err(number_error(line))
    } else if rounded(fu, v) < 0 {
        Err(at_line(line) + what + signed_decimal(rounded(fu, v) as int))
    } else {
        Ok(rounded(fu, v))
    }
}

/// One statement.
pub open spec fn exec_stmt(fs: Seq<FuncV>, fu: FloatFn, s: StmtV, st: StateV) -> Exec
    decreases max_steps() - st.steps, max_call_depth() - st.depth, ssize(s), 6int,
{
    match s {
        StmtV::Import { line, .. } => (
            Err(at_line(line) + "imports must be resolved from a file, not compiled from a source string"@),
            st,
        ),
        StmtV::Let { name, expr, constant, line } => {
            let (r, st1) = eval(fs, fu, expr, st);
            match r {
                Err(m) => (Err(m), st1),
                Ok(v) => {
                    let (d, st2) = declare(st1, name, v, constant, line);
                    match d {
                        Err(m) => (Err(m), st2),
                        Ok(_) => (Ok(FlowV::Normal), st2),
                    }
                },
            }
        },
        StmtV::Assign { name, expr, line } => {
            let (r, st1) = eval(fs, fu, expr, st);
            match r {
                Err(m) => (Err(m), st1),
                Ok(v) => {
                    let (d, st2) = assign(st1, name, v, line);
                    match d {
                        Err(m) => (Err(m), st2),
                        Ok(_) => (Ok(FlowV::Normal), st2),
                    }
                },
            }
        },
        StmtV::Wait(e, line) => {
            let (r, st1) = eval(fs, fu, e, st);
            match r {
                Err(m) => (Err(m), st1),
                Ok(v) => match frame_count(fu, v, line, "'wait' needs a non-negative amount of frames, got "@) {
                    Err(m) => (Err(m), st1),
                    Ok(n) => (Ok(FlowV::Normal), StateV { frame: st1.frame.wrapping_add(n), ..st1 }),
                },
            }
        },
        StmtV::At(e, line) => {
            let (r, st1) = eval(fs, fu, e, st);
            match r {
                Err(m) => (Err(m), st1),
                Ok(v) => match frame_count(fu, v, line, "'at' needs a non-negative frame, got "@) {
                    Err(m) => (Err(m), st1),
                    Ok(n) => (Ok(FlowV::Normal), StateV { frame: n, ..st1 }),
                },
            }
        },
        StmtV::Action { name, args, line } => {
            let (r, st1) = eval_action_args(fs, fu, args, st);
            match r {
                Err(m) => (Err(m), st1),
                Ok(rendered) => match spec_validate(name, rendered, fu) {
                    Err(m) => (Err(at_line(line) + m), st1),
                    Ok(_) => (Ok(FlowV::Normal), emit(st1, name, rendered, line)),
                },
            }
        },
        StmtV::Call { name, args, line } => {
            let (r, st1) = call(fs, fu, name, args, line, st);
            match r {
                Err(m) => (Err(m), st1),
                Ok(_) => (Ok(FlowV::Normal), st1),
            }
        },
        StmtV::Repeat { count, body, line } => {
            let (r, st1) = eval(fs, fu, count, st);
            match r {
                Err(m) => (Err(m), st1),
                Ok(v) => if v is Str {
                    (Err(number_error(line)), st1)
                } else if !advances(st, st1) {
                    (Err(Seq::empty()), st1)
                } else {
                    repeat_loop(fs, fu, body, rounded(fu, v) as int, st1)
                },
            }
        },
        StmtV::While { cond, body } => while_loop(fs, fu, cond, body, st),
        StmtV::If { cond, then_body, else_body } => {
            let (r, st1) = eval(fs, fu, cond, st);
            match r {
                Err(m) => (Err(m), st1),
                Ok(c) => if !advances(st, st1) {
                    (Err(Seq::empty()), st1)
                } else if truthy(fu, c) {
                    exec_block(fs, fu, then_body, st1)
                } else {
                    exec_block(fs, fu, else_body, st1)
                },
            }
        },
        StmtV::Return(e) => match e {
            None => (Ok(FlowV::Return(ValueV::Int(0))), st),
            Some(x) => {
                let (r, st1) = eval(fs, fu, x, st);
                match r {
                    Err(m) => (Err(m), st1),
                    Ok(v) => (Ok(FlowV::Return(v)), st1),
                }
            },
        },
        StmtV::Print(e) => {
            let (r, st1) = eval(fs, fu, e, st);
            match r {
                Err(m) => (Err(m), st1),
                Ok(v) => (Ok(FlowV::Normal), StateV { printed: st1.printed.push(render(fu, v)), ..st1 }),
            }
        },
    }
}

/// Compiling a program whose functions are `fs`: its top-level statements run
/// in the global scope. The outcome is the `.tas` lines and the warnings, or
/// the first error; beside it, the values `print` showed until then.
pub open spec fn spec_compile(fs: Seq<FuncV>, fu: FloatFn, main: Seq<StmtV>) -> (Result<(Seq<Seq<char>>, Seq<Seq<char>>), Seq<char>>, Seq<Seq<char>>) {
    let (r, st) = exec_stmts(fs, fu, main, initial_state());
    (
        match r {
            Err(m) => Err(m),
            Ok(FlowV::Return(_)) => Err("'return' is only allowed inside a function"@),
            Ok(FlowV::Normal) => Ok((st.out, st.warnings)),
        },
        st.printed,
    )
}

} // verus!
