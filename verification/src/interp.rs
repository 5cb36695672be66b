//! The compiler proper: runs a parsed program, tracking the frame counter and
//! emitting each in-game action as a `.tas` line (see `semantics` for the
//! meaning it is proved to compute).
//!
//! Float arithmetic comes from a float unit that the caller hands in: a
//! function from `FloatOp` to `FloatOut` on the bits of 64-bit floats.

use vstd::prelude::*;
use crate::actions::{validate_with, views};
use crate::ast::{
    args_view, expr_view, exprs_view, func_view, funcs_view, lemma_exprs_view_index, lemma_stmts_view_index, stmt_view,
    stmts_view, strings_view, Arg, ArgV, BinOp, Expr, ExprV, Func, FuncV, Program, Stmt, StmtV, UnOp,
};
use crate::lexer::{at_line, at_line_exec};
use crate::semantics::{
    action_line, apply_builtin, arity_error, asizes, assign, bool_value, builtin, builtin_arity, call, compare_ints,
    declare, emit, esize, esizes, eval, eval_action_args, eval_all, exact_arith, exact_float_int, exec_block, exec_stmt,
    exec_stmts, find_scope, first_duplicate, frame_count, func_index, initial_state, is_builtin, is_comparison, key_index,
    lemma_asizes_elem, lemma_esizes_elem, lemma_func_index_exists, lookup, max_call_depth, max_steps, names_remove,
    number_error, params_scope, render, repeat_loop, rounded, scope_insert, small, spec_binop, spec_compile, spec_unop,
    ssize, ssizes, state_wf, steps_error, to_float, truthy, while_loop, FloatFn, FloatOpV, FloatOutV, FlowV, ScopeV,
    StateV, ValueV,
};
use crate::text::{i64_to_string, push_signed_decimal, push_str, str_eq, to_owned_string, usize_to_string};

verus! {

/// A run-time value; a float is held as the bits of a 64-bit IEEE float.
#[derive(Debug)]
pub enum Value {
    Int(i64),
    Float(u64),
    Str(String),
}

impl View for Value {
    type V = ValueV;

    open spec fn view(&self) -> ValueV {
        match self {
            Value::Int(i) => ValueV::Int(*i),
            Value::Float(b) => ValueV::Float(*b),
            Value::Str(s) => ValueV::Str(s@),
        }
    }
}

impl Value {
    /// A copy of the value.
    pub fn duplicate(&self) -> (r: Value)
        ensures
            r@ == self@,
    {
        match self {
            Value::Int(i) => Value::Int(*i),
            Value::Float(b) => Value::Float(*b),
            Value::Str(s) => Value::Str(s.clone()),
        }
    }
}

/// An operation of the float unit (see `FloatOpV`).
#[derive(Debug)]
pub enum FloatOp {
    FromInt(i64),
    Parse(String),
    Arith(BinOp, u64, u64),
    Neg(u64),
    Abs(u64),
    Sqrt(u64),
    Round(u64),
    Floor(u64),
    Ceil(u64),
    Trunc(u64),
    IsZero(u64),
    IsNegative(u64),
    Integral(u64),
    Render(u64),
    Display(u64),
    Debug(u64),
}

/// The answer of the float unit; which fields are meaningful depends on the
/// operation (see `FloatOpV`).
#[derive(Debug)]
pub struct FloatOut {
    pub bits: u64,
    pub int: i64,
    pub flag: bool,
    pub text: String,
}

impl View for FloatOp {
    type V = FloatOpV;

    open spec fn view(&self) -> FloatOpV {
        match self {
            FloatOp::FromInt(i) => FloatOpV::FromInt(*i),
            FloatOp::Parse(s) => FloatOpV::Parse(s@),
            FloatOp::Arith(op, a, b) => FloatOpV::Arith(*op, *a, *b),
            FloatOp::Neg(a) => FloatOpV::Neg(*a),
            FloatOp::Abs(a) => FloatOpV::Abs(*a),
            FloatOp::Sqrt(a) => FloatOpV::Sqrt(*a),
            FloatOp::Round(a) => FloatOpV::Round(*a),
            FloatOp::Floor(a) => FloatOpV::Floor(*a),
            FloatOp::Ceil(a) => FloatOpV::Ceil(*a),
            FloatOp::Trunc(a) => FloatOpV::Trunc(*a),
            FloatOp::IsZero(a) => FloatOpV::IsZero(*a),
            FloatOp::IsNegative(a) => FloatOpV::IsNegative(*a),
            FloatOp::Integral(a) => FloatOpV::Integral(*a),
            FloatOp::Render(a) => FloatOpV::Render(*a),
            FloatOp::Display(a) => FloatOpV::Display(*a),
            FloatOp::Debug(a) => FloatOpV::Debug(*a),
        }
    }
}

impl View for FloatOut {
    type V = FloatOutV;

    open spec fn view(&self) -> FloatOutV {
        FloatOutV { bits: self.bits, int: self.int, flag: self.flag, text: self.text@ }
    }
}

/// The float unit `fl` answers every operation as `fu` does.
pub open spec fn unit_computes<F: Fn(FloatOp) -> FloatOut>(fl: &F, fu: FloatFn) -> bool {
    &&& forall|op: FloatOp| call_requires(*fl, (op,))
    &&& forall|op: FloatOp, out: FloatOut| call_ensures(*fl, (op,), out) ==> out@ == fu(op@)
}

/// The float unit accepts every operation and answers equal operations equally.
pub open spec fn unit_deterministic<F: Fn(FloatOp) -> FloatOut>(fl: &F) -> bool {
    &&& forall|op: FloatOp| call_requires(*fl, (op,))
    &&& forall|op1: FloatOp, op2: FloatOp, out1: FloatOut, out2: FloatOut|
        #![trigger call_ensures(*fl, (op1,), out1), call_ensures(*fl, (op2,), out2)]
        op1@ == op2@ && call_ensures(*fl, (op1,), out1) && call_ensures(*fl, (op2,), out2) ==> out1@ == out2@
}

pub open spec fn unit_answers<F: Fn(FloatOp) -> FloatOut>(fl: &F, opv: FloatOpV, ov: FloatOutV) -> bool {
    exists|op: FloatOp, out: FloatOut|
        #![trigger call_ensures(*fl, (op,), out)]
        op@ == opv && out@ == ov && call_ensures(*fl, (op,), out)
}

/// The function a deterministic float unit computes.
pub open spec fn unit_function<F: Fn(FloatOp) -> FloatOut>(fl: &F) -> FloatFn {
    |opv: FloatOpV| choose|ov: FloatOutV| #[trigger] unit_answers(fl, opv, ov)
}

pub proof fn lemma_unit_function<F: Fn(FloatOp) -> FloatOut>(fl: &F)
    requires
        unit_deterministic(fl),
    ensures
        unit_computes(fl, unit_function(fl)),
{
    assert forall|op: FloatOp, out: FloatOut| call_ensures(*fl, (op,), out) implies out@ == unit_function(fl)(op@) by {
        assert(unit_answers(fl, op@, out@));
        let ov = unit_function(fl)(op@);
        assert(unit_answers(fl, op@, ov));
        let (op2, out2) = choose|op2: FloatOp, out2: FloatOut|
            #![trigger call_ensures(*fl, (op2,), out2)]
            op2@ == op@ && out2@ == ov && call_ensures(*fl, (op2,), out2);
    }
}

/// The float unit's answer to `op`.
pub(crate) fn ask<F: Fn(FloatOp) -> FloatOut>(fl: &F, op: FloatOp, Ghost(fu): Ghost<FloatFn>) -> (out: FloatOut)
    requires
        unit_computes(fl, fu),
    ensures
        out@ == fu(op@),
{
    fl(op)
}

pub open spec fn vres(r: Result<Value, String>) -> Result<ValueV, Seq<char>> {
    match r {
        Ok(v) => Ok(v@),
        Err(e) => Err(e@),
    }
}

fn number_error_exec(line: usize) -> (m: String)
    ensures
        m@ == number_error(line as nat),
{
    let mut m = at_line_exec(line);
    push_str(&mut m, "expected a number, got a string");
    m
}

fn to_float_exec<F: Fn(FloatOp) -> FloatOut>(v: &Value, fl: &F, Ghost(fu): Ghost<FloatFn>) -> (b: u64)
    requires
        unit_computes(fl, fu),
    ensures
        b == to_float(fu, v@),
{
    match v {
        Value::Int(i) => ask(fl, FloatOp::FromInt(*i), Ghost(fu)).bits,
        Value::Float(b) => *b,
        Value::Str(_) => 0,
    }
}

fn truthy_exec<F: Fn(FloatOp) -> FloatOut>(v: &Value, fl: &F, Ghost(fu): Ghost<FloatFn>) -> (t: bool)
    requires
        unit_computes(fl, fu),
    ensures
        t == truthy(fu, v@),
{
    match v {
        Value::Int(i) => *i != 0,
        Value::Float(b) => !ask(fl, FloatOp::IsZero(*b), Ghost(fu)).flag,
        Value::Str(s) => !s.as_str().is_empty(),
    }
}

fn render_exec<F: Fn(FloatOp) -> FloatOut>(v: &Value, fl: &F, Ghost(fu): Ghost<FloatFn>) -> (r: String)
    requires
        unit_computes(fl, fu),
    ensures
        r@ == render(fu, v@),
{
    match v {
        Value::Int(i) => {
            let mut s = String::new();
            push_signed_decimal(&mut s, *i as i128);
            s
        },
        Value::Float(b) => ask(fl, FloatOp::Render(*b), Ghost(fu)).text,
        Value::Str(s) => s.clone(),
    }
}

impl Value {
    /// The text of the value as printed and as an action argument.
    pub fn render<F: Fn(FloatOp) -> FloatOut>(&self, fl: &F) -> (r: String)
        requires
            unit_deterministic(fl),
        ensures
            r@ == render(unit_function(fl), self@),
    {
        proof {
            lemma_unit_function(fl);
        }
        render_exec(self, fl, Ghost(unit_function(fl)))
    }
}

fn is_small(i: i64) -> (r: bool)
    ensures
        r == small(i),
{
    -9007199254740992 <= i && i <= 9007199254740992
}

fn rounded_exec<F: Fn(FloatOp) -> FloatOut>(v: &Value, fl: &F, Ghost(fu): Ghost<FloatFn>) -> (n: i64)
    requires
        unit_computes(fl, fu),
    ensures
        n == rounded(fu, v@),
{
    match v {
        Value::Int(i) => if is_small(*i) {
            *i
        } else {
            let b = ask(fl, FloatOp::FromInt(*i), Ghost(fu)).bits;
            ask(fl, FloatOp::Round(b), Ghost(fu)).int
        },
        _ => {
            let b = to_float_exec(v, fl, Ghost(fu));
            ask(fl, FloatOp::Round(b), Ghost(fu)).int
        },
    }
}

fn bool_exec(b: bool) -> (v: Value)
    ensures
        v@ == bool_value(b),
{
    Value::Int(if b { 1 } else { 0 })
}

fn is_comparison_exec(op: BinOp) -> (r: bool)
    ensures
        r == is_comparison(op),
{
    match op {
        BinOp::Eq | BinOp::Ne | BinOp::Lt | BinOp::Le | BinOp::Gt | BinOp::Ge => true,
        _ => false,
    }
}

fn compare_ints_exec(op: BinOp, a: i64, b: i64) -> (r: bool)
    ensures
        r == compare_ints(op, a as int, b as int),
{
    match op {
        BinOp::Eq => a == b,
        BinOp::Ne => a != b,
        BinOp::Lt => a < b,
        BinOp::Le => a <= b,
        BinOp::Gt => a > b,
        _ => a >= b,
    }
}

/// The exact result of `a op b` for `+ - *` when it lies within 2^53.
fn exact_arith_exec(op: BinOp, a: i64, b: i64) -> (r: Option<i64>)
    requires
        small(a),
        small(b),
    ensures
        match r {
            Some(x) => exact_arith(op, a, b) is Some && exact_arith(op, a, b)->0 == x && small(x),
            None => !(exact_arith(op, a, b) is Some && -exact_float_int() <= exact_arith(op, a, b)->0
                <= exact_float_int()),
        },
{
    let x: i128 = match op {
        BinOp::Add => a as i128 + b as i128,
        BinOp::Sub => a as i128 - b as i128,
        BinOp::Mul => {
            assert(-0x40000000000000000000000000000 <= (a as i128) * (b as i128) <= 0x40000000000000000000000000000) by (nonlinear_arith)
                requires
                    -9007199254740992 <= a <= 9007199254740992,
                    -9007199254740992 <= b <= 9007199254740992,
            ;
            a as i128 * b as i128
        },
        _ => return None,
    };
    if -9007199254740992 <= x && x <= 9007199254740992 {
        Some(x as i64)
    } else {
        None
    }
}

fn binop_exec<F: Fn(FloatOp) -> FloatOut>(op: BinOp, l: Value, r: Value, line: usize, fl: &F, Ghost(fu): Ghost<FloatFn>) -> (res: Result<Value, String>)
    requires
        unit_computes(fl, fu),
    ensures
        vres(res) == spec_binop(fu, op, l@, r@, line as nat),
{
    if op == BinOp::Add {
        if let Value::Str(a) = &l {
            let mut s = a.clone();
            let t = render_exec(&r, fl, Ghost(fu));
            push_str(&mut s, t.as_str());
            return Ok(Value::Str(s));
        }
        if let Value::Str(b) = &r {
            let mut s = render_exec(&l, fl, Ghost(fu));
            push_str(&mut s, b.as_str());
            return Ok(Value::Str(s));
        }
    }
    if op == BinOp::Eq || op == BinOp::Ne {
        if let (Value::Str(a), Value::Str(b)) = (&l, &r) {
            let eq = str_eq(a.as_str(), b.as_str());
            return Ok(bool_exec((op == BinOp::Eq) == eq));
        }
    }
    match (&l, &r) {
        (Value::Str(_), _) | (_, Value::Str(_)) => return Err(number_error_exec(line)),
        _ => {},
    }
    if let (Value::Int(a), Value::Int(b)) = (&l, &r) {
        if is_small(*a) && is_small(*b) {
            if is_comparison_exec(op) {
                return Ok(bool_exec(compare_ints_exec(op, *a, *b)));
            }
            if let Some(x) = exact_arith_exec(op, *a, *b) {
                return Ok(Value::Int(x));
            }
        }
    }
    let a = to_float_exec(&l, fl, Ghost(fu));
    let b = to_float_exec(&r, fl, Ghost(fu));
    if is_comparison_exec(op) {
        return Ok(bool_exec(ask(fl, FloatOp::Arith(op, a, b), Ghost(fu)).flag));
    }
    if op == BinOp::Div && ask(fl, FloatOp::IsZero(b), Ghost(fu)).flag {
        let mut m = at_line_exec(line);
        push_str(&mut m, "division by zero");
        return Err(m);
    }
    if op == BinOp::Rem && ask(fl, FloatOp::IsZero(b), Ghost(fu)).flag {
        let mut m = at_line_exec(line);
        push_str(&mut m, "modulo by zero");
        return Err(m);
    }
    let x = ask(fl, FloatOp::Arith(op, a, b), Ghost(fu)).bits;
    let both_int = match (&l, &r) {
        (Value::Int(_), Value::Int(_)) => true,
        _ => false,
    };
    if both_int {
        let out = ask(fl, FloatOp::Integral(x), Ghost(fu));
        if out.flag {
            return Ok(Value::Int(out.int));
        }
    }
    Ok(Value::Float(x))
}

fn unop_exec<F: Fn(FloatOp) -> FloatOut>(op: UnOp, v: Value, fl: &F, Ghost(fu): Ghost<FloatFn>) -> (res: Result<Value, String>)
    requires
        unit_computes(fl, fu),
    ensures
        vres(res) == spec_unop(fu, op, v@),
{
    match op {
        UnOp::Neg => match v {
            Value::Int(i) => Ok(Value::Int(0i64.wrapping_sub(i))),
            Value::Float(b) => Ok(Value::Float(ask(fl, FloatOp::Neg(b), Ghost(fu)).bits)),
            Value::Str(_) => Err(to_owned_string("cannot negate a string")),
        },
        UnOp::Not => {
            let t = truthy_exec(&v, fl, Ghost(fu));
            Ok(bool_exec(!t))
        },
    }
}

/// How a run of statements ended: normally, or by `return` with a value.
pub enum Flow {
    Normal,
    Return(Value),
}

pub open spec fn flow_view(f: Flow) -> FlowV {
    match f {
        Flow::Normal => FlowV::Normal,
        Flow::Return(v) => FlowV::Return(v@),
    }
}

pub open spec fn fres(r: Result<Flow, String>) -> Result<FlowV, Seq<char>> {
    match r {
        Ok(f) => Ok(flow_view(f)),
        Err(e) => Err(e@),
    }
}

pub open spec fn ures(r: Result<(), String>) -> Result<(), Seq<char>> {
    match r {
        Ok(_) => Ok(()),
        Err(e) => Err(e@),
    }
}

pub open spec fn scope_view(sc: Seq<(String, Value)>) -> ScopeV {
    sc.map_values(|p: (String, Value)| (p.0@, p.1@))
}

pub open spec fn scopes_view(s: Seq<Vec<(String, Value)>>) -> Seq<ScopeV> {
    s.map_values(|sc: Vec<(String, Value)>| scope_view(sc@))
}

/// The part of a state that every statement and expression leaves as it
/// found it (the call stack), with the step counter never going back.
pub open spec fn kept(st0: StateV, st1: StateV) -> bool {
    &&& st1.depth == st0.depth
    &&& st1.frame_base == st0.frame_base
    &&& st1.scopes.len() == st0.scopes.len()
    &&& st0.steps <= st1.steps
}

/// Runs a parsed program, tracking the current frame and emitting the `.tas` lines.
pub struct Compiler<'a> {
    funcs: &'a Vec<Func>,
    scopes: Vec<Vec<(String, Value)>>,
    consts: Vec<String>,
    frame_base: Vec<usize>,
    frame: i64,
    out: Vec<String>,
    last_emitted: i64,
    output_frame: Option<i64>,
    warnings: Vec<String>,
    printed: Vec<String>,
    depth: usize,
    steps: u64,
}

impl<'a> Compiler<'a> {
    /// The abstract state of the run.
    pub closed spec fn state(&self) -> StateV {
        StateV {
            scopes: scopes_view(self.scopes@),
            consts: strings_view(self.consts@),
            frame_base: self.frame_base@.map_values(|b: usize| b as nat),
            frame: self.frame,
            out: strings_view(self.out@),
            last_emitted: self.last_emitted,
            output_frame: self.output_frame,
            warnings: strings_view(self.warnings@),
            printed: strings_view(self.printed@),
            depth: self.depth as nat,
            steps: self.steps as nat,
        }
    }

    /// The functions of the program being run.
    pub closed spec fn fs(&self) -> Seq<FuncV> {
        funcs_view(self.funcs@)
    }
}

/// The index of the binding of `name` in a scope.
fn find_key(sc: &Vec<(String, Value)>, name: &str) -> (r: Option<usize>)
    ensures
        match r {
            Some(k) => k < sc@.len() && key_index(scope_view(sc@), name@) == k,
            None => key_index(scope_view(sc@), name@) == -1,
        },
{
    let ghost v = scope_view(sc@);
    let mut i = sc.len();
    assert(v.take(i as int) =~= v);
    while i > 0
        invariant
            i <= sc@.len(),
            v == scope_view(sc@),
            key_index(v, name@) == key_index(v.take(i as int), name@),
        decreases i,
    {
        assert(v.take(i as int).drop_last() =~= v.take(i - 1));
        if str_eq(sc[i - 1].0.as_str(), name) {
            return Some(i - 1);
        }
        i = i - 1;
    }
    None
}

/// `name` bound to `value` in a scope, replacing an earlier binding.
fn scope_put(sc: &mut Vec<(String, Value)>, name: &String, value: Value)
    ensures
        scope_view(final(sc)@) == scope_insert(scope_view(old(sc)@), name@, value@),
{
    match find_key(sc, name.as_str()) {
        Some(k) => {
            sc.set(k, (name.clone(), value));
            assert(scope_view(sc@) =~= scope_view(old(sc)@).update(k as int, (name@, value@)));
        },
        None => {
            sc.push((name.clone(), value));
            assert(scope_view(sc@) =~= scope_view(old(sc)@).push((name@, value@)));
        },
    }
}

/// The innermost scope in `lo..hi` that binds `name`, with the binding's index.
fn find_scope_exec(scopes: &Vec<Vec<(String, Value)>>, name: &str, lo: usize, hi: usize) -> (r: Option<(usize, usize)>)
    requires
        hi <= scopes@.len(),
    ensures
        match r {
            Some((i, k)) => {
                &&& lo <= i < hi
                &&& find_scope(scopes_view(scopes@), name@, lo as int, hi as int) == Some(i as int)
                &&& k < scopes@[i as int]@.len()
                &&& key_index(scope_view(scopes@[i as int]@), name@) == k
            },
            None => find_scope(scopes_view(scopes@), name@, lo as int, hi as int) is None,
        },
{
    let ghost v = scopes_view(scopes@);
    let mut h = hi;
    while h > lo
        invariant
            h <= hi <= scopes@.len(),
            v == scopes_view(scopes@),
            find_scope(v, name@, lo as int, hi as int) == find_scope(v, name@, lo as int, h as int),
        decreases h,
    {
        match find_key(&scopes[h - 1], name) {
            Some(k) => {
                return Some((h - 1, k));
            },
            None => {},
        }
        h = h - 1;
    }
    None
}

/// Whether `name` is among `names`.
fn names_contains(names: &Vec<String>, name: &str) -> (r: bool)
    ensures
        r == strings_view(names@).contains(name@),
{
    let ghost v = strings_view(names@);
    let mut i: usize = 0;
    while i < names.len()
        invariant
            i <= names@.len(),
            v == strings_view(names@),
            forall|j: int| 0 <= j < i ==> v[j] != name@,
        decreases names@.len() - i,
    {
        if str_eq(names[i].as_str(), name) {
            assert(v[i as int] == name@);
            return true;
        }
        i = i + 1;
    }
    false
}

/// `names` without any occurrence of `name`.
fn names_without(names: &Vec<String>, name: &str) -> (r: Vec<String>)
    ensures
        strings_view(r@) == names_remove(strings_view(names@), name@),
{
    let ghost v = strings_view(names@);
    let mut r: Vec<String> = Vec::new();
    let mut i: usize = 0;
    while i < names.len()
        invariant
            i <= names@.len(),
            v == strings_view(names@),
            strings_view(r@) == names_remove(v.take(i as int), name@),
        decreases names@.len() - i,
    {
        assert(v.take(i + 1).drop_last() =~= v.take(i as int));
        if !str_eq(names[i].as_str(), name) {
            r.push(names[i].clone());
            assert(strings_view(r@) =~= names_remove(v.take(i as int), name@).push(v[i as int]));
        }
        i = i + 1;
    }
    assert(v.take(i as int) =~= v);
    r
}

/// The `.tas` line for an action.
fn action_line_exec(timing: String, name: &str, args: &Vec<String>) -> (r: String)
    ensures
        r@ == action_line(timing@, name@, strings_view(args@)),
{
    let ghost v = strings_view(args@);
    let mut r = timing;
    push_str(&mut r, " ");
    push_str(&mut r, name);
    let mut i: usize = 0;
    assert(v.take(0) =~= Seq::<Seq<char>>::empty());
    while i < args.len()
        invariant
            i <= args@.len(),
            v == strings_view(args@),
            r@ == action_line(timing@, name@, v.take(i as int)),
        decreases args@.len() - i,
    {
        assert(v.take(i + 1).drop_last() =~= v.take(i as int));
        push_str(&mut r, " ");
        push_str(&mut r, args[i].as_str());
        i = i + 1;
    }
    assert(v.take(i as int) =~= v);
    r
}

impl<'a> Compiler<'a> {
    fn base(&self) -> (b: usize)
        requires
            state_wf(self.state()),
        ensures
            b == self.state().frame_base.last(),
            b < self.scopes@.len(),
    {
        self.frame_base[self.frame_base.len() - 1]
    }

    /// The value of a variable (see `lookup`).
    fn lookup_exec(&self, name: &str) -> (r: Option<Value>)
        requires
            state_wf(self.state()),
        ensures
            match r {
                Some(v) => lookup(self.state(), name@) == Some(v@),
                None => lookup(self.state(), name@) is None,
            },
    {
        let base = self.base();
        match find_scope_exec(&self.scopes, name, base, self.scopes.len()) {
            Some((i, k)) => Some(self.scopes[i][k].1.duplicate()),
            None => match find_key(&self.scopes[0], name) {
                Some(k) => Some(self.scopes[0][k].1.duplicate()),
                None => None,
            },
        }
    }

    /// `let`/`const`: a new binding in the innermost scope (see `declare`).
    fn declare_exec(&mut self, name: &String, value: Value, constant: bool, line: usize) -> (r: Result<(), String>)
        requires
            state_wf(old(self).state()),
        ensures
            (ures(r), final(self).state()) == declare(old(self).state(), name@, value@, constant, line as nat),
            final(self).funcs == old(self).funcs,
    {
        let last = self.scopes.len() - 1;
        if find_key(&self.scopes[last], name.as_str()).is_some() {
            let mut m = at_line_exec(line);
            push_str(&mut m, "'");
            push_str(&mut m, name.as_str());
            push_str(&mut m, "' is already declared in this scope");
            return Err(m);
        }
        let ghost old_sc = self.scopes@[last as int];
        let ghost pair = (name@, value@);
        self.scopes[last].push((name.clone(), value));
        assert(scope_view(self.scopes@[last as int]@) =~= scope_view(old_sc@).push(pair));
        assert(scopes_view(self.scopes@) =~= scopes_view(old(self).scopes@).update(last as int, scope_view(old_sc@).push(pair)));
        if constant {
            if !names_contains(&self.consts, name.as_str()) {
                self.consts.push(name.clone());
                assert(strings_view(self.consts@) =~= strings_view(old(self).consts@).push(name@));
            }
        } else {
            self.consts = names_without(&self.consts, name.as_str());
        }
        Ok(())
    }

    /// Assignment to an existing variable (see `assign`).
    fn assign_exec(&mut self, name: &String, value: Value, line: usize) -> (r: Result<(), String>)
        requires
            state_wf(old(self).state()),
        ensures
            (ures(r), final(self).state()) == assign(old(self).state(), name@, value@, line as nat),
            kept(old(self).state(), final(self).state()),
            state_wf(final(self).state()),
            final(self).funcs == old(self).funcs,
    {
        if names_contains(&self.consts, name.as_str()) {
            let mut m = at_line_exec(line);
            push_str(&mut m, "cannot assign to constant '");
            push_str(&mut m, name.as_str());
            push_str(&mut m, "'");
            return Err(m);
        }
        let base = self.base();
        let ghost vv = value@;
        let target = match find_scope_exec(&self.scopes, name.as_str(), base, self.scopes.len()) {
            Some((i, _)) => i,
            None => match find_key(&self.scopes[0], name.as_str()) {
                Some(_) => 0,
                None => {
                    let mut m = at_line_exec(line);
                    push_str(&mut m, "undefined variable '");
                    push_str(&mut m, name.as_str());
                    push_str(&mut m, "' (use 'let' to declare it)");
                    return Err(m);
                },
            },
        };
        let ghost old_sc = self.scopes@[target as int];
        scope_put(&mut self.scopes[target], name, value);
        assert(scopes_view(self.scopes@) =~= scopes_view(old(self).scopes@).update(
            target as int,
            scope_insert(scope_view(old_sc@), name@, vv),
        ));
        Ok(())
    }

    /// Emits an action line at the current frame (see `emit`).
    fn emit_exec(&mut self, name: &String, args: &Vec<String>, line: usize)
        ensures
            final(self).state() == emit(old(self).state(), name@, strings_view(args@), line as nat),
            final(self).funcs == old(self).funcs,
    {
        let is_await = str_eq(name.as_str(), "await");
        if !is_await && self.frame < self.last_emitted {
            let mut w = at_line_exec(line);
            push_str(&mut w, "action is emitted at frame ");
            push_signed_decimal(&mut w, self.frame as i128);
            push_str(&mut w, " which is before the previous frame ");
            push_signed_decimal(&mut w, self.last_emitted as i128);
            self.warnings.push(w);
        }
        if self.last_emitted < self.frame {
            self.last_emitted = self.frame;
        }
        let timing = match self.output_frame {
            None => to_owned_string("0"),
            Some(previous) => {
                let delta = self.frame.wrapping_sub(previous);
                if delta >= 0 {
                    let mut t = to_owned_string("+");
                    push_signed_decimal(&mut t, delta as i128);
                    t
                } else {
                    let mut w = at_line_exec(line);
                    push_str(&mut w, "relative output cannot represent a backwards move from frame ");
                    push_signed_decimal(&mut w, previous as i128);
                    push_str(&mut w, " to ");
                    push_signed_decimal(&mut w, self.frame as i128);
                    self.warnings.push(w);
                    i64_to_string(self.frame)
                }
            },
        };
        self.output_frame = Some(self.frame);
        let text = action_line_exec(timing, name.as_str(), args);
        self.out.push(text);
        proof {
            assert(strings_view(self.out@) =~= strings_view(old(self).out@).push(text@));
            assert(strings_view(self.warnings@) == emit(old(self).state(), name@, strings_view(args@), line as nat).warnings);
        }
    }

    /// The index of the function named `name` (see `func_index`).
    fn find_func(&self, name: &str) -> (r: Option<usize>)
        ensures
            match r {
                Some(i) => i < self.funcs@.len() && func_index(self.fs(), name@) == i,
                None => func_index(self.fs(), name@) < 0,
            },
    {
        let ghost v = self.fs();
        let mut i: usize = 0;
        assert(v.skip(0) =~= v);
        while i < self.funcs.len()
            invariant
                i <= self.funcs@.len(),
                v == self.fs(),
                v.len() == self.funcs@.len(),
                func_index(v, name@) == (if func_index(v.skip(i as int), name@) >= 0 {
                    func_index(v.skip(i as int), name@) + i
                } else {
                    -1
                }),
            decreases self.funcs@.len() - i,
        {
            assert(v.skip(i as int)[0] == v[i as int]);
            assert(v.skip(i as int).drop_first() =~= v.skip(i + 1));
            if str_eq(self.funcs[i].name.as_str(), name) {
                return Some(i);
            }
            i = i + 1;
        }
        None
    }
}

pub open spec fn values_view(vs: Seq<Value>) -> Seq<ValueV> {
    vs.map_values(|v: Value| v@)
}

/// An outcome with `p` put in front of its list of results.
pub open spec fn with_prefix<A>(p: Seq<A>, r: (Result<Seq<A>, Seq<char>>, StateV)) -> (Result<Seq<A>, Seq<char>>, StateV) {
    (
        match r.0 {
            Ok(xs) => Ok(p + xs),
            Err(m) => Err(m),
        },
        r.1,
    )
}

proof fn lemma_with_prefix<A>(p: Seq<A>, x: A, r: (Result<Seq<A>, Seq<char>>, StateV))
    ensures
        with_prefix(p, with_prefix(seq![x], r)) == with_prefix(p.push(x), r),
{
    if let Ok(xs) = r.0 {
        assert(p + (seq![x] + xs) =~= p.push(x) + xs);
    }
}

fn steps_error_exec() -> (m: String)
    ensures
        m@ == steps_error(),
{
    to_owned_string("script exceeded the maximum number of steps (infinite loop?)")
}

fn is_builtin_exec(name: &str) -> (r: bool)
    ensures
        r == is_builtin(name@),
{
    str_eq(name, "frame") || str_eq(name, "abs") || str_eq(name, "int") || str_eq(name, "float") || str_eq(name, "floor")
        || str_eq(name, "ceil") || str_eq(name, "round") || str_eq(name, "sqrt") || str_eq(name, "min") || str_eq(name, "max")
        || str_eq(name, "str")
}

fn builtin_arity_exec(name: &str) -> (n: usize)
    ensures
        n == builtin_arity(name@),
{
    if str_eq(name, "frame") {
        0
    } else if str_eq(name, "min") || str_eq(name, "max") {
        2
    } else {
        1
    }
}

fn arity_error_exec(name: &str, n: usize, got: usize, line: usize) -> (m: String)
    ensures
        m@ == arity_error(name@, n as nat, got as nat, line as nat),
{
    let mut m = at_line_exec(line);
    push_str(&mut m, "'");
    push_str(&mut m, name);
    push_str(&mut m, "' expects ");
    let a = usize_to_string(n);
    push_str(&mut m, a.as_str());
    push_str(&mut m, " argument(s), got ");
    let b = usize_to_string(got);
    push_str(&mut m, b.as_str());
    m
}

fn line_message(line: usize, text: &str) -> (m: String)
    ensures
        m@ == at_line(line as nat) + text@,
{
    let mut m = at_line_exec(line);
    push_str(&mut m, text);
    m
}

/// A builtin applied to its evaluated argument(s) (see `apply_builtin`).
fn apply_builtin_exec<F: Fn(FloatOp) -> FloatOut>(name: &str, a: Value, b: Value, line: usize, fl: &F, Ghost(fu): Ghost<FloatFn>) -> (r: Result<Value, String>)
    requires
        unit_computes(fl, fu),
    ensures
        vres(r) == apply_builtin(fu, name@, a@, b@, line as nat),
{
    if str_eq(name, "abs") {
        return match a {
            Value::Int(i) => Ok(Value::Int(if i < 0 { 0i64.wrapping_sub(i) } else { i })),
            Value::Float(x) => Ok(Value::Float(ask(fl, FloatOp::Abs(x), Ghost(fu)).bits)),
            Value::Str(_) => Err(line_message(line, "'abs' expects a number")),
        };
    }
    if let Value::Str(s) = a {
        if str_eq(name, "str") {
            return Ok(Value::Str(s));
        }
        return Err(number_error_exec(line));
    }
    if str_eq(name, "str") {
        return Ok(Value::Str(render_exec(&a, fl, Ghost(fu))));
    }
    if str_eq(name, "float") {
        return Ok(Value::Float(to_float_exec(&a, fl, Ghost(fu))));
    }
    if str_eq(name, "sqrt") {
        let x = to_float_exec(&a, fl, Ghost(fu));
        if ask(fl, FloatOp::IsNegative(x), Ghost(fu)).flag {
            return Err(line_message(line, "'sqrt' of a negative number"));
        }
        return Ok(Value::Float(ask(fl, FloatOp::Sqrt(x), Ghost(fu)).bits));
    }
    if str_eq(name, "min") || str_eq(name, "max") {
        if let Value::Str(_) = b {
            return Err(number_error_exec(line));
        }
        let op = if str_eq(name, "min") { BinOp::Le } else { BinOp::Ge };
        let exact = match (&a, &b) {
            (Value::Int(x), Value::Int(y)) => if is_small(*x) && is_small(*y) {
                Some(compare_ints_exec(op, *x, *y))
            } else {
                None
            },
            _ => None,
        };
        let take_first = match exact {
            Some(t) => t,
            None => {
                let x = to_float_exec(&a, fl, Ghost(fu));
                let y = to_float_exec(&b, fl, Ghost(fu));
                ask(fl, FloatOp::Arith(op, x, y), Ghost(fu)).flag
            },
        };
        return Ok(if take_first { a } else { b });
    }
    if let Value::Int(i) = a {
        if is_small(i) {
            return Ok(a);
        }
    }
    let x = to_float_exec(&a, fl, Ghost(fu));
    let n = if str_eq(name, "int") {
        ask(fl, FloatOp::Trunc(x), Ghost(fu)).int
    } else if str_eq(name, "floor") {
        ask(fl, FloatOp::Floor(x), Ghost(fu)).int
    } else if str_eq(name, "ceil") {
        ask(fl, FloatOp::Ceil(x), Ghost(fu)).int
    } else {
        ask(fl, FloatOp::Round(x), Ghost(fu)).int
    };
    Ok(Value::Int(n))
}

/// A frame count for `wait`/`at` (see `frame_count`).
fn frame_count_exec<F: Fn(FloatOp) -> FloatOut>(v: &Value, line: usize, what: &str, fl: &F, Ghost(fu): Ghost<FloatFn>) -> (r: Result<i64, String>)
    requires
        unit_computes(fl, fu),
    ensures
        match r {
            Ok(n) => frame_count(fu, v@, line as nat, what@) == Ok::<i64, Seq<char>>(n),
            Err(m) => frame_count(fu, v@, line as nat, what@) == Err::<i64, Seq<char>>(m@),
        },
{
    if let Value::Str(_) = v {
        return Err(number_error_exec(line));
    }
    let n = rounded_exec(v, fl, Ghost(fu));
    if n < 0 {
        let mut m = at_line_exec(line);
        push_str(&mut m, what);
        push_signed_decimal(&mut m, n as i128);
        return Err(m);
    }
    Ok(n)
}

impl<'a> Compiler<'a> {
    /// The value of an expression (see `eval`).
    fn eval<F: Fn(FloatOp) -> FloatOut>(&mut self, e: &Expr, fl: &F, Ghost(fu): Ghost<FloatFn>) -> (r: Result<Value, String>)
        requires
            unit_computes(fl, fu),
            state_wf(old(self).state()),
        ensures
            (vres(r), final(self).state()) == eval(old(self).fs(), fu, expr_view(*e), old(self).state()),
            kept(old(self).state(), final(self).state()),
            r is Ok ==> state_wf(final(self).state()),
            final(self).funcs == old(self).funcs,
        decreases max_steps() - old(self).state().steps, max_call_depth() - old(self).state().depth, esize(expr_view(*e)), 3int,
    {
        match e {
            Expr::Int(v) => Ok(Value::Int(*v)),
            Expr::Float(s) => Ok(Value::Float(ask(fl, FloatOp::Parse(s.clone()), Ghost(fu)).bits)),
            Expr::Str(s) => Ok(Value::Str(s.clone())),
            Expr::Var(name, line) => match self.lookup_exec(name.as_str()) {
                Some(v) => Ok(v),
                None => {
                    let mut m = at_line_exec(*line);
                    push_str(&mut m, "undefined variable '");
                    push_str(&mut m, name.as_str());
                    push_str(&mut m, "'");
                    Err(m)
                },
            },
            Expr::Unary(op, inner) => {
                let v = match self.eval(&**inner, fl, Ghost(fu)) {
                    Ok(v) => v,
                    Err(m) => return Err(m),
                };
                unop_exec(*op, v, fl, Ghost(fu))
            },
            Expr::Bin(op, lhs, rhs, line) => {
                let l = match self.eval(&**lhs, fl, Ghost(fu)) {
                    Ok(v) => v,
                    Err(m) => return Err(m),
                };
                if *op == BinOp::And && !truthy_exec(&l, fl, Ghost(fu)) {
                    return Ok(Value::Int(0));
                }
                if *op == BinOp::Or && truthy_exec(&l, fl, Ghost(fu)) {
                    return Ok(Value::Int(1));
                }
                let r = match self.eval(&**rhs, fl, Ghost(fu)) {
                    Ok(v) => v,
                    Err(m) => return Err(m),
                };
                if *op == BinOp::And || *op == BinOp::Or {
                    let t = truthy_exec(&r, fl, Ghost(fu));
                    Ok(bool_exec(t))
                } else {
                    binop_exec(*op, l, r, *line, fl, Ghost(fu))
                }
            },
            Expr::Call(name, args, line) => {
                if is_builtin_exec(name.as_str()) {
                    self.builtin(name, args, *line, fl, Ghost(fu))
                } else {
                    self.call(name, args, *line, fl, Ghost(fu))
                }
            },
        }
    }

    /// A builtin function call (see `builtin`).
    fn builtin<F: Fn(FloatOp) -> FloatOut>(&mut self, name: &String, args: &Vec<Expr>, line: usize, fl: &F, Ghost(fu): Ghost<FloatFn>) -> (r: Result<Value, String>)
        requires
            unit_computes(fl, fu),
            state_wf(old(self).state()),
        ensures
            (vres(r), final(self).state()) == builtin(old(self).fs(), fu, name@, exprs_view(args@), line as nat, old(self).state()),
            kept(old(self).state(), final(self).state()),
            r is Ok ==> state_wf(final(self).state()),
            final(self).funcs == old(self).funcs,
        decreases max_steps() - old(self).state().steps, max_call_depth() - old(self).state().depth, esizes(exprs_view(args@)) + 1, 2int,
    {
        let ghost av = exprs_view(args@);
        proof {
            lemma_exprs_view_index(args@);
        }
        let n = builtin_arity_exec(name.as_str());
        if args.len() != n {
            return Err(arity_error_exec(name.as_str(), n, args.len(), line));
        }
        if str_eq(name.as_str(), "frame") {
            return Ok(Value::Int(self.frame));
        }
        proof {
            lemma_esizes_elem(av, 0);
        }
        let a = match self.eval(&args[0], fl, Ghost(fu)) {
            Ok(v) => v,
            Err(m) => return Err(m),
        };
        if args.len() == 1 {
            let a2 = a.duplicate();
            return apply_builtin_exec(name.as_str(), a, a2, line, fl, Ghost(fu));
        }
        proof {
            lemma_esizes_elem(av, 1);
        }
        let b = match self.eval(&args[1], fl, Ghost(fu)) {
            Ok(v) => v,
            Err(m) => return Err(m),
        };
        apply_builtin_exec(name.as_str(), a, b, line, fl, Ghost(fu))
    }

    /// The values of a list of expressions (see `eval_all`).
    fn eval_all<F: Fn(FloatOp) -> FloatOut>(&mut self, es: &Vec<Expr>, fl: &F, Ghost(fu): Ghost<FloatFn>) -> (r: Result<Vec<Value>, String>)
        requires
            unit_computes(fl, fu),
            state_wf(old(self).state()),
        ensures
            ((match r {
                Ok(vs) => Ok(values_view(vs@)),
                Err(m) => Err(m@),
            }), final(self).state()) == eval_all(old(self).fs(), fu, exprs_view(es@), old(self).state()),
            r is Ok ==> r->Ok_0@.len() == es@.len(),
            kept(old(self).state(), final(self).state()),
            r is Ok ==> state_wf(final(self).state()),
            final(self).funcs == old(self).funcs,
        decreases max_steps() - old(self).state().steps, max_call_depth() - old(self).state().depth, esizes(exprs_view(es@)) + 1, 0int,
    {
        let ghost st0 = self.state();
        let ghost fs = self.fs();
        let ghost v = exprs_view(es@);
        proof {
            lemma_exprs_view_index(es@);
        }
        let mut vals: Vec<Value> = Vec::new();
        let mut i: usize = 0;
        assert(v.skip(0) =~= v);
        assert(with_prefix(Seq::<ValueV>::empty(), eval_all(fs, fu, v, st0)) == eval_all(fs, fu, v, st0)) by {
            if let Ok(xs) = eval_all(fs, fu, v, st0).0 {
                assert(Seq::<ValueV>::empty() + xs =~= xs);
            }
        }
        while i < es.len()
            invariant
                i <= es@.len(),
                v == exprs_view(es@),
                v.len() == es@.len(),
                forall|j: int| 0 <= j < es@.len() ==> #[trigger] v[j] == expr_view(es@[j]),
                fs == self.fs(),
                unit_computes(fl, fu),
                state_wf(self.state()),
                kept(st0, self.state()),
                self.funcs == old(self).funcs,
                st0 == old(self).state(),
                vals@.len() == i,
                eval_all(fs, fu, v, st0) == with_prefix(values_view(vals@), eval_all(fs, fu, v.skip(i as int), self.state())),
            decreases es@.len() - i,
        {
            let ghost cur = self.state();
            assert(v.skip(i as int)[0] == v[i as int]);
            assert(v.skip(i as int).drop_first() =~= v.skip(i + 1));
            proof {
                lemma_esizes_elem(v, i as int);
            }
            let x = match self.eval(&es[i], fl, Ghost(fu)) {
                Ok(x) => x,
                Err(m) => return Err(m),
            };
            proof {
                lemma_with_prefix(values_view(vals@), x@, eval_all(fs, fu, v.skip(i + 1), self.state()));
            }
            let ghost pre = values_view(vals@);
            let ghost xv = x@;
            vals.push(x);
            assert(values_view(vals@) =~= pre.push(xv));
            i = i + 1;
        }
        assert(v.skip(i as int) =~= Seq::<ExprV>::empty());
        assert(values_view(vals@) + Seq::<ValueV>::empty() =~= values_view(vals@));
        Ok(vals)
    }
}

impl<'a> Compiler<'a> {
    /// A call of a user function (see `call`).
    fn call<F: Fn(FloatOp) -> FloatOut>(&mut self, name: &String, args: &Vec<Expr>, line: usize, fl: &F, Ghost(fu): Ghost<FloatFn>) -> (r: Result<Value, String>)
        requires
            unit_computes(fl, fu),
            state_wf(old(self).state()),
        ensures
            (vres(r), final(self).state()) == call(old(self).fs(), fu, name@, exprs_view(args@), line as nat, old(self).state()),
            kept(old(self).state(), final(self).state()),
            r is Ok ==> state_wf(final(self).state()),
            final(self).funcs == old(self).funcs,
        decreases max_steps() - old(self).state().steps, max_call_depth() - old(self).state().depth, esizes(exprs_view(args@)) + 1, 1int,
    {
        let ghost fs = self.fs();
        let i = match self.find_func(name.as_str()) {
            Some(i) => i,
            None => {
                let mut m = at_line_exec(line);
                push_str(&mut m, "undefined function '");
                push_str(&mut m, name.as_str());
                push_str(&mut m, "'");
                return Err(m);
            },
        };
        let funcs: &'a Vec<Func> = self.funcs;
        let func: &'a Func = &funcs[i];
        assert(fs[i as int] == func_view(*func));
        let ghost pv = strings_view(func.params@);
        if args.len() != func.params.len() {
            let mut m = at_line_exec(line);
            push_str(&mut m, "function '");
            push_str(&mut m, name.as_str());
            push_str(&mut m, "' expects ");
            let a = usize_to_string(func.params.len());
            push_str(&mut m, a.as_str());
            push_str(&mut m, " argument(s), got ");
            let b = usize_to_string(args.len());
            push_str(&mut m, b.as_str());
            proof {
                lemma_exprs_view_index(args@);
            }
            return Err(m);
        }
        proof {
            lemma_exprs_view_index(args@);
        }
        let values = match self.eval_all(args, fl, Ghost(fu)) {
            Ok(v) => v,
            Err(m) => return Err(m),
        };
        if self.depth + 1 > 128 {
            let mut m = at_line_exec(line);
            push_str(&mut m, "maximum call depth (128) exceeded in '");
            push_str(&mut m, name.as_str());
            push_str(&mut m, "'");
            return Err(m);
        }
        let ghost vv = values_view(values@);
        let mut scope: Vec<(String, Value)> = Vec::new();
        let mut j: usize = 0;
        assert(pv.take(0) =~= Seq::<Seq<char>>::empty());
        while j < func.params.len()
            invariant
                j <= func.params@.len(),
                values@.len() == func.params@.len(),
                pv == strings_view(func.params@),
                vv == values_view(values@),
                scope_view(scope@) == params_scope(pv.take(j as int), vv.take(j as int)),
            decreases func.params@.len() - j,
        {
            assert(pv.take(j + 1).drop_last() =~= pv.take(j as int));
            assert(vv.take(j + 1).drop_last() =~= vv.take(j as int));
            let x = values[j].duplicate();
            scope_put(&mut scope, &func.params[j], x);
            j = j + 1;
        }
        assert(pv.take(j as int) =~= pv);
        assert(vv.take(j as int) =~= vv);
        let ghost st1 = self.state();
        let ghost sc = scope_view(scope@);
        self.depth = self.depth + 1;
        let n = self.scopes.len();
        self.frame_base.push(n);
        self.scopes.push(scope);
        assert(self.state().scopes =~= st1.scopes.push(sc));
        assert(self.state().frame_base =~= st1.frame_base.push(st1.scopes.len()));
        let result = self.exec_stmts(&func.body, fl, Ghost(fu));
        let ghost st3 = self.state();
        self.scopes.pop();
        self.frame_base.pop();
        self.depth = self.depth - 1;
        assert(self.state().scopes =~= st3.scopes.drop_last());
        assert(self.state().frame_base =~= st3.frame_base.drop_last());
        assert(st3.frame_base.drop_last() =~= st1.frame_base);
        match result {
            Err(m) => Err(m),
            Ok(Flow::Return(v)) => Ok(v),
            Ok(Flow::Normal) => Ok(Value::Int(0)),
        }
    }

    /// The rendered arguments of an action line (see `eval_action_args`).
    fn eval_action_args<F: Fn(FloatOp) -> FloatOut>(&mut self, args: &Vec<Arg>, fl: &F, Ghost(fu): Ghost<FloatFn>) -> (r: Result<Vec<String>, String>)
        requires
            unit_computes(fl, fu),
            state_wf(old(self).state()),
        ensures
            ((match r {
                Ok(xs) => Ok(strings_view(xs@)),
                Err(m) => Err(m@),
            }), final(self).state()) == eval_action_args(old(self).fs(), fu, args_view(args@), old(self).state()),
            kept(old(self).state(), final(self).state()),
            r is Ok ==> state_wf(final(self).state()),
            final(self).funcs == old(self).funcs,
        decreases max_steps() - old(self).state().steps, max_call_depth() - old(self).state().depth, asizes(args_view(args@)) + 1, 0int,
    {
        let ghost st0 = self.state();
        let ghost fs = self.fs();
        let ghost v = args_view(args@);
        let mut out: Vec<String> = Vec::new();
        let mut i: usize = 0;
        assert(v.skip(0) =~= v);
        assert(with_prefix(Seq::<Seq<char>>::empty(), eval_action_args(fs, fu, v, st0)) == eval_action_args(fs, fu, v, st0)) by {
            if let Ok(xs) = eval_action_args(fs, fu, v, st0).0 {
                assert(Seq::<Seq<char>>::empty() + xs =~= xs);
            }
        }
        while i < args.len()
            invariant
                i <= args@.len(),
                v == args_view(args@),
                fs == self.fs(),
                unit_computes(fl, fu),
                state_wf(self.state()),
                kept(st0, self.state()),
                self.funcs == old(self).funcs,
                st0 == old(self).state(),
                eval_action_args(fs, fu, v, st0) == with_prefix(strings_view(out@), eval_action_args(fs, fu, v.skip(i as int), self.state())),
            decreases args@.len() - i,
        {
            assert(v.skip(i as int)[0] == v[i as int]);
            assert(v.skip(i as int).drop_first() =~= v.skip(i + 1));
            let x = match &args[i] {
                Arg::Word(w) => w.clone(),
                Arg::Expr(e) => {
                    proof {
                        lemma_asizes_elem(v, i as int);
                    }
                    let val = match self.eval(e, fl, Ghost(fu)) {
                        Ok(x) => x,
                        Err(m) => return Err(m),
                    };
                    render_exec(&val, fl, Ghost(fu))
                },
            };
            proof {
                lemma_with_prefix(strings_view(out@), x@, eval_action_args(fs, fu, v.skip(i + 1), self.state()));
            }
            let ghost pre = strings_view(out@);
            let ghost xv = x@;
            out.push(x);
            assert(strings_view(out@) =~= pre.push(xv));
            i = i + 1;
        }
        assert(v.skip(i as int) =~= Seq::<ArgV>::empty());
        assert(strings_view(out@) + Seq::<Seq<char>>::empty() =~= strings_view(out@));
        Ok(out)
    }

    /// Statements run in order until one returns (see `exec_stmts`).
    fn exec_stmts<F: Fn(FloatOp) -> FloatOut>(&mut self, ss: &Vec<Stmt>, fl: &F, Ghost(fu): Ghost<FloatFn>) -> (r: Result<Flow, String>)
        requires
            unit_computes(fl, fu),
            state_wf(old(self).state()),
        ensures
            (fres(r), final(self).state()) == exec_stmts(old(self).fs(), fu, stmts_view(ss@), old(self).state()),
            kept(old(self).state(), final(self).state()),
            r is Ok ==> state_wf(final(self).state()),
            final(self).funcs == old(self).funcs,
        decreases max_steps() - old(self).state().steps, max_call_depth() - old(self).state().depth, ssizes(stmts_view(ss@)) + 1, 3int,
    {
        let ghost st0 = self.state();
        let ghost fs = self.fs();
        let ghost v = stmts_view(ss@);
        proof {
            lemma_stmts_view_index(ss@);
        }
        let mut i: usize = 0;
        assert(v.skip(0) =~= v);
        while i < ss.len()
            invariant
                i <= ss@.len(),
                v == stmts_view(ss@),
                v.len() == ss@.len(),
                forall|j: int| 0 <= j < ss@.len() ==> #[trigger] v[j] == stmt_view(ss@[j]),
                fs == self.fs(),
                unit_computes(fl, fu),
                state_wf(self.state()),
                kept(st0, self.state()),
                self.funcs == old(self).funcs,
                st0 == old(self).state(),
                exec_stmts(fs, fu, v, st0) == exec_stmts(fs, fu, v.skip(i as int), self.state()),
            decreases ss@.len() - i,
        {
            assert(v.skip(i as int)[0] == v[i as int]);
            assert(v.skip(i as int).drop_first() =~= v.skip(i + 1));
            if self.steps + 1 > 50_000_000 {
                self.steps = self.steps + 1;
                return Err(steps_error_exec());
            }
            self.steps = self.steps + 1;
            match self.exec_stmt(&ss[i], fl, Ghost(fu)) {
                Err(m) => return Err(m),
                Ok(Flow::Return(v)) => return Ok(Flow::Return(v)),
                Ok(Flow::Normal) => {},
            }
            i = i + 1;
        }
        assert(v.skip(i as int) =~= Seq::<StmtV>::empty());
        Ok(Flow::Normal)
    }

    /// Statements run in a new innermost scope (see `exec_block`).
    fn exec_block<F: Fn(FloatOp) -> FloatOut>(&mut self, body: &Vec<Stmt>, fl: &F, Ghost(fu): Ghost<FloatFn>) -> (r: Result<Flow, String>)
        requires
            unit_computes(fl, fu),
            state_wf(old(self).state()),
        ensures
            (fres(r), final(self).state()) == exec_block(old(self).fs(), fu, stmts_view(body@), old(self).state()),
            kept(old(self).state(), final(self).state()),
            r is Ok ==> state_wf(final(self).state()),
            final(self).funcs == old(self).funcs,
        decreases max_steps() - old(self).state().steps, max_call_depth() - old(self).state().depth, ssizes(stmts_view(body@)) + 1, 4int,
    {
        let ghost st0 = self.state();
        let ghost pre = self.scopes@;
        self.scopes.push(Vec::new());
        assert(scope_view(self.scopes@[pre.len() as int]@) =~= Seq::<(Seq<char>, ValueV)>::empty());
        assert(self.state().scopes =~= st0.scopes.push(Seq::empty()));
        let r = self.exec_stmts(body, fl, Ghost(fu));
        let ghost st1 = self.state();
        self.scopes.pop();
        assert(self.state().scopes =~= st1.scopes.drop_last());
        r
    }

    /// `repeat count { body }` (see `exec_stmt` and `repeat_loop`).
    fn exec_repeat<F: Fn(FloatOp) -> FloatOut>(&mut self, count: &Expr, body: &Vec<Stmt>, line: usize, fl: &F, Ghost(fu): Ghost<FloatFn>) -> (r: Result<Flow, String>)
        requires
            unit_computes(fl, fu),
            state_wf(old(self).state()),
        ensures
            (fres(r), final(self).state()) == exec_stmt(
                old(self).fs(),
                fu,
                StmtV::Repeat { count: expr_view(*count), body: stmts_view(body@), line: line as nat },
                old(self).state(),
            ),
            kept(old(self).state(), final(self).state()),
            r is Ok ==> state_wf(final(self).state()),
            final(self).funcs == old(self).funcs,
        decreases max_steps() - old(self).state().steps, max_call_depth() - old(self).state().depth,
            ssize(StmtV::Repeat { count: expr_view(*count), body: stmts_view(body@), line: line as nat }), 5int,
    {
        let ghost st0 = self.state();
        let ghost fs = self.fs();
        let ghost bv = stmts_view(body@);
        let v = match self.eval(count, fl, Ghost(fu)) {
            Ok(v) => v,
            Err(m) => return Err(m),
        };
        if let Value::Str(_) = v {
            return Err(number_error_exec(line));
        }
        let n = rounded_exec(&v, fl, Ghost(fu));
        let mut k: i64 = n;
        while k > 0
            invariant
                fs == self.fs(),
                bv == stmts_view(body@),
                unit_computes(fl, fu),
                state_wf(self.state()),
                kept(st0, self.state()),
                self.funcs == old(self).funcs,
                st0 == old(self).state(),
                exec_stmt(fs, fu, StmtV::Repeat { count: expr_view(*count), body: bv, line: line as nat }, st0)
                    == repeat_loop(fs, fu, bv, k as int, self.state()),
            decreases k,
        {
            if self.steps + 1 > 50_000_000 {
                self.steps = self.steps + 1;
                return Err(steps_error_exec());
            }
            self.steps = self.steps + 1;
            match self.exec_block(body, fl, Ghost(fu)) {
                Err(m) => return Err(m),
                Ok(Flow::Return(v)) => return Ok(Flow::Return(v)),
                Ok(Flow::Normal) => {},
            }
            k = k - 1;
        }
        Ok(Flow::Normal)
    }

    /// `while cond { body }` (see `while_loop`).
    fn exec_while<F: Fn(FloatOp) -> FloatOut>(&mut self, cond: &Expr, body: &Vec<Stmt>, fl: &F, Ghost(fu): Ghost<FloatFn>) -> (r: Result<Flow, String>)
        requires
            unit_computes(fl, fu),
            state_wf(old(self).state()),
        ensures
            (fres(r), final(self).state()) == while_loop(old(self).fs(), fu, expr_view(*cond), stmts_view(body@), old(self).state()),
            kept(old(self).state(), final(self).state()),
            r is Ok ==> state_wf(final(self).state()),
            final(self).funcs == old(self).funcs,
        decreases max_steps() - old(self).state().steps, max_call_depth() - old(self).state().depth,
            ssize(StmtV::While { cond: expr_view(*cond), body: stmts_view(body@) }), 5int,
    {
        let ghost st0 = self.state();
        let ghost fs = self.fs();
        let ghost cv = expr_view(*cond);
        let ghost bv = stmts_view(body@);
        loop
            invariant
                fs == self.fs(),
                cv == expr_view(*cond),
                bv == stmts_view(body@),
                unit_computes(fl, fu),
                state_wf(self.state()),
                kept(st0, self.state()),
                self.funcs == old(self).funcs,
                st0 == old(self).state(),
                while_loop(fs, fu, cv, bv, st0) == while_loop(fs, fu, cv, bv, self.state()),
            decreases max_steps() - self.state().steps,
        {
            if self.steps + 1 > 50_000_000 {
                self.steps = self.steps + 1;
                return Err(steps_error_exec());
            }
            self.steps = self.steps + 1;
            let c = match self.eval(cond, fl, Ghost(fu)) {
                Ok(c) => c,
                Err(m) => return Err(m),
            };
            if !truthy_exec(&c, fl, Ghost(fu)) {
                return Ok(Flow::Normal);
            }
            match self.exec_block(body, fl, Ghost(fu)) {
                Err(m) => return Err(m),
                Ok(Flow::Return(v)) => return Ok(Flow::Return(v)),
                Ok(Flow::Normal) => {},
            }
        }
    }

    /// `let`/`const` (see `exec_stmt`).
    fn exec_let<F: Fn(FloatOp) -> FloatOut>(&mut self, name: &String, expr: &Expr, constant: bool, line: usize, fl: &F, Ghost(fu): Ghost<FloatFn>) -> (r: Result<Flow, String>)
        requires
            unit_computes(fl, fu),
            state_wf(old(self).state()),
        ensures
            (fres(r), final(self).state()) == exec_stmt(old(self).fs(), fu, StmtV::Let { name: name@, expr: expr_view(*expr), constant, line: line as nat }, old(self).state()),
            kept(old(self).state(), final(self).state()),
            r is Ok ==> state_wf(final(self).state()),
            final(self).funcs == old(self).funcs,
        decreases max_steps() - old(self).state().steps, max_call_depth() - old(self).state().depth, ssize(StmtV::Let { name: name@, expr: expr_view(*expr), constant, line: line as nat }), 5int,
    {
        let v = match self.eval(expr, fl, Ghost(fu)) {
            Ok(v) => v,
            Err(m) => return Err(m),
        };
        match self.declare_exec(name, v, constant, line) {
            Err(m) => Err(m),
            Ok(_) => Ok(Flow::Normal),
        }
    }

    /// Assignment (see `exec_stmt`).
    fn exec_assign<F: Fn(FloatOp) -> FloatOut>(&mut self, name: &String, expr: &Expr, line: usize, fl: &F, Ghost(fu): Ghost<FloatFn>) -> (r: Result<Flow, String>)
        requires
            unit_computes(fl, fu),
            state_wf(old(self).state()),
        ensures
            (fres(r), final(self).state()) == exec_stmt(old(self).fs(), fu, StmtV::Assign { name: name@, expr: expr_view(*expr), line: line as nat }, old(self).state()),
            kept(old(self).state(), final(self).state()),
            r is Ok ==> state_wf(final(self).state()),
            final(self).funcs == old(self).funcs,
        decreases max_steps() - old(self).state().steps, max_call_depth() - old(self).state().depth, ssize(StmtV::Assign { name: name@, expr: expr_view(*expr), line: line as nat }), 5int,
    {
        let v = match self.eval(expr, fl, Ghost(fu)) {
            Ok(v) => v,
            Err(m) => return Err(m),
        };
        match self.assign_exec(name, v, line) {
            Err(m) => Err(m),
            Ok(_) => Ok(Flow::Normal),
        }
    }

    /// `wait n` (see `exec_stmt`).
    fn exec_wait<F: Fn(FloatOp) -> FloatOut>(&mut self, e: &Expr, line: usize, fl: &F, Ghost(fu): Ghost<FloatFn>) -> (r: Result<Flow, String>)
        requires
            unit_computes(fl, fu),
            state_wf(old(self).state()),
        ensures
            (fres(r), final(self).state()) == exec_stmt(old(self).fs(), fu, StmtV::Wait(expr_view(*e), line as nat), old(self).state()),
            kept(old(self).state(), final(self).state()),
            r is Ok ==> state_wf(final(self).state()),
            final(self).funcs == old(self).funcs,
        decreases max_steps() - old(self).state().steps, max_call_depth() - old(self).state().depth, ssize(StmtV::Wait(expr_view(*e), line as nat)), 5int,
    {
        let v = match self.eval(e, fl, Ghost(fu)) {
            Ok(v) => v,
            Err(m) => return Err(m),
        };
        let n = match frame_count_exec(&v, line, "'wait' needs a non-negative amount of frames, got ", fl, Ghost(fu)) {
            Ok(n) => n,
            Err(m) => return Err(m),
        };
        self.frame = self.frame.wrapping_add(n);
        Ok(Flow::Normal)
    }

    /// `at n` (see `exec_stmt`).
    fn exec_at<F: Fn(FloatOp) -> FloatOut>(&mut self, e: &Expr, line: usize, fl: &F, Ghost(fu): Ghost<FloatFn>) -> (r: Result<Flow, String>)
        requires
            unit_computes(fl, fu),
            state_wf(old(self).state()),
        ensures
            (fres(r), final(self).state()) == exec_stmt(old(self).fs(), fu, StmtV::At(expr_view(*e), line as nat), old(self).state()),
            kept(old(self).state(), final(self).state()),
            r is Ok ==> state_wf(final(self).state()),
            final(self).funcs == old(self).funcs,
        decreases max_steps() - old(self).state().steps, max_call_depth() - old(self).state().depth, ssize(StmtV::At(expr_view(*e), line as nat)), 5int,
    {
        let v = match self.eval(e, fl, Ghost(fu)) {
            Ok(v) => v,
            Err(m) => return Err(m),
        };
        let n = match frame_count_exec(&v, line, "'at' needs a non-negative frame, got ", fl, Ghost(fu)) {
            Ok(n) => n,
            Err(m) => return Err(m),
        };
        self.frame = n;
        Ok(Flow::Normal)
    }

    /// An in-game action line (see `exec_stmt`).
    fn exec_action<F: Fn(FloatOp) -> FloatOut>(&mut self, name: &String, args: &Vec<Arg>, line: usize, fl: &F, Ghost(fu): Ghost<FloatFn>) -> (r: Result<Flow, String>)
        requires
            unit_computes(fl, fu),
            state_wf(old(self).state()),
        ensures
            (fres(r), final(self).state()) == exec_stmt(old(self).fs(), fu, StmtV::Action { name: name@, args: args_view(args@), line: line as nat }, old(self).state()),
            kept(old(self).state(), final(self).state()),
            r is Ok ==> state_wf(final(self).state()),
            final(self).funcs == old(self).funcs,
        decreases max_steps() - old(self).state().steps, max_call_depth() - old(self).state().depth, ssize(StmtV::Action { name: name@, args: args_view(args@), line: line as nat }), 5int,
    {
        let rendered = match self.eval_action_args(args, fl, Ghost(fu)) {
            Ok(r) => r,
            Err(m) => return Err(m),
        };
        assert(views(rendered@) =~= strings_view(rendered@));
        match validate_with(name.as_str(), rendered.as_slice(), fl, Ghost(fu)) {
            Err(m) => {
                let mut t = at_line_exec(line);
                push_str(&mut t, m.as_str());
                Err(t)
            },
            Ok(_) => {
                self.emit_exec(name, &rendered, line);
                Ok(Flow::Normal)
            },
        }
    }

    /// A call statement (see `exec_stmt`).
    fn exec_call<F: Fn(FloatOp) -> FloatOut>(&mut self, name: &String, args: &Vec<Expr>, line: usize, fl: &F, Ghost(fu): Ghost<FloatFn>) -> (r: Result<Flow, String>)
        requires
            unit_computes(fl, fu),
            state_wf(old(self).state()),
        ensures
            (fres(r), final(self).state()) == exec_stmt(old(self).fs(), fu, StmtV::Call { name: name@, args: exprs_view(args@), line: line as nat }, old(self).state()),
            kept(old(self).state(), final(self).state()),
            r is Ok ==> state_wf(final(self).state()),
            final(self).funcs == old(self).funcs,
        decreases max_steps() - old(self).state().steps, max_call_depth() - old(self).state().depth, ssize(StmtV::Call { name: name@, args: exprs_view(args@), line: line as nat }), 5int,
    {
        match self.call(name, args, line, fl, Ghost(fu)) {
            Err(m) => Err(m),
            Ok(_) => Ok(Flow::Normal),
        }
    }

    /// `if cond { .. } else { .. }` (see `exec_stmt`).
    fn exec_if<F: Fn(FloatOp) -> FloatOut>(&mut self, cond: &Expr, then_body: &Vec<Stmt>, else_body: &Vec<Stmt>, fl: &F, Ghost(fu): Ghost<FloatFn>) -> (r: Result<Flow, String>)
        requires
            unit_computes(fl, fu),
            state_wf(old(self).state()),
        ensures
            (fres(r), final(self).state()) == exec_stmt(old(self).fs(), fu, StmtV::If { cond: expr_view(*cond), then_body: stmts_view(then_body@), else_body: stmts_view(else_body@) }, old(self).state()),
            kept(old(self).state(), final(self).state()),
            r is Ok ==> state_wf(final(self).state()),
            final(self).funcs == old(self).funcs,
        decreases max_steps() - old(self).state().steps, max_call_depth() - old(self).state().depth, ssize(StmtV::If { cond: expr_view(*cond), then_body: stmts_view(then_body@), else_body: stmts_view(else_body@) }), 5int,
    {
        let c = match self.eval(cond, fl, Ghost(fu)) {
            Ok(c) => c,
            Err(m) => return Err(m),
        };
        if truthy_exec(&c, fl, Ghost(fu)) {
            self.exec_block(then_body, fl, Ghost(fu))
        } else {
            self.exec_block(else_body, fl, Ghost(fu))
        }
    }

    /// `return` (see `exec_stmt`).
    fn exec_return<F: Fn(FloatOp) -> FloatOut>(&mut self, e: &Option<Expr>, fl: &F, Ghost(fu): Ghost<FloatFn>) -> (r: Result<Flow, String>)
        requires
            unit_computes(fl, fu),
            state_wf(old(self).state()),
        ensures
            (fres(r), final(self).state()) == exec_stmt(old(self).fs(), fu, StmtV::Return(match *e { Some(x) => Some(expr_view(x)), None => None }), old(self).state()),
            kept(old(self).state(), final(self).state()),
            r is Ok ==> state_wf(final(self).state()),
            final(self).funcs == old(self).funcs,
        decreases max_steps() - old(self).state().steps, max_call_depth() - old(self).state().depth, ssize(StmtV::Return(match *e { Some(x) => Some(expr_view(x)), None => None })), 5int,
    {
        match e {
            None => Ok(Flow::Return(Value::Int(0))),
            Some(x) => {
                let v = match self.eval(x, fl, Ghost(fu)) {
                    Ok(v) => v,
                    Err(m) => return Err(m),
                };
                Ok(Flow::Return(v))
            },
        }
    }

    /// `print` (see `exec_stmt`).
    fn exec_print<F: Fn(FloatOp) -> FloatOut>(&mut self, e: &Expr, fl: &F, Ghost(fu): Ghost<FloatFn>) -> (r: Result<Flow, String>)
        requires
            unit_computes(fl, fu),
            state_wf(old(self).state()),
        ensures
            (fres(r), final(self).state()) == exec_stmt(old(self).fs(), fu, StmtV::Print(expr_view(*e)), old(self).state()),
            kept(old(self).state(), final(self).state()),
            r is Ok ==> state_wf(final(self).state()),
            final(self).funcs == old(self).funcs,
        decreases max_steps() - old(self).state().steps, max_call_depth() - old(self).state().depth, ssize(StmtV::Print(expr_view(*e))), 5int,
    {
        let v = match self.eval(e, fl, Ghost(fu)) {
            Ok(v) => v,
            Err(m) => return Err(m),
        };
        let t = render_exec(&v, fl, Ghost(fu));
        let ghost pre = strings_view(self.printed@);
        let ghost tv = t@;
        self.printed.push(t);
        assert(strings_view(self.printed@) =~= pre.push(tv));
        Ok(Flow::Normal)
    }

    /// One statement (see `exec_stmt`).
    fn exec_stmt<F: Fn(FloatOp) -> FloatOut>(&mut self, s: &Stmt, fl: &F, Ghost(fu): Ghost<FloatFn>) -> (r: Result<Flow, String>)
        requires
            unit_computes(fl, fu),
            state_wf(old(self).state()),
        ensures
            (fres(r), final(self).state()) == exec_stmt(old(self).fs(), fu, stmt_view(*s), old(self).state()),
            kept(old(self).state(), final(self).state()),
            r is Ok ==> state_wf(final(self).state()),
            final(self).funcs == old(self).funcs,
        decreases max_steps() - old(self).state().steps, max_call_depth() - old(self).state().depth, ssize(stmt_view(*s)), 6int,
    {
        match s {
            Stmt::Import { line, .. } => Err(
                line_message(*line, "imports must be resolved from a file, not compiled from a source string"),
            ),
            Stmt::Let { name, expr, constant, line } => self.exec_let(name, expr, *constant, *line, fl, Ghost(fu)),
            Stmt::Assign { name, expr, line } => self.exec_assign(name, expr, *line, fl, Ghost(fu)),
            Stmt::Wait(e, line) => self.exec_wait(e, *line, fl, Ghost(fu)),
            Stmt::At(e, line) => self.exec_at(e, *line, fl, Ghost(fu)),
            Stmt::Action { name, args, line } => self.exec_action(name, args, *line, fl, Ghost(fu)),
            Stmt::Call { name, args, line } => self.exec_call(name, args, *line, fl, Ghost(fu)),
            Stmt::Repeat { count, body, line } => self.exec_repeat(count, body, *line, fl, Ghost(fu)),
            Stmt::While { cond, body } => self.exec_while(cond, body, fl, Ghost(fu)),
            Stmt::If { cond, then_body, else_body } => self.exec_if(cond, then_body, else_body, fl, Ghost(fu)),
            Stmt::Return(e) => self.exec_return(e, fl, Ghost(fu)),
            Stmt::Print(e) => self.exec_print(e, fl, Ghost(fu)),
        }
    }
}

/// The error for the function `f`, declared a second time.
pub open spec fn duplicate_error(f: FuncV) -> Seq<char> {
    at_line(f.line) + "duplicate function '"@ + f.name + "'"@
}

/// The outcome of a compile as plain values: the `.tas` lines and the
/// warnings, or the error; beside it, what `print` showed.
pub open spec fn compiled_view(r: (Result<(Vec<String>, Vec<String>), String>, Vec<String>)) -> (
    Result<(Seq<Seq<char>>, Seq<Seq<char>>), Seq<char>>,
    Seq<Seq<char>>,
) {
    (
        match r.0 {
            Ok((lines, warnings)) => Ok((strings_view(lines@), strings_view(warnings@))),
            Err(m) => Err(m@),
        },
        strings_view(r.1@),
    )
}

/// Whether one of the first `n` functions is named `name`.
fn name_among(funcs: &Vec<Func>, name: &str, n: usize) -> (r: bool)
    requires
        n <= funcs@.len(),
    ensures
        r == (func_index(funcs_view(funcs@).take(n as int), name@) >= 0),
{
    let ghost fv = funcs_view(funcs@);
    let ghost pre = fv.take(n as int);
    proof {
        lemma_func_index_exists(pre, name@);
    }
    let mut j: usize = 0;
    while j < n
        invariant
            j <= n <= funcs@.len(),
            fv == funcs_view(funcs@),
            pre == fv.take(n as int),
            forall|k: int| 0 <= k < j ==> #[trigger] pre[k].name != name@,
        decreases n - j,
    {
        if str_eq(funcs[j].name.as_str(), name) {
            assert(pre[j as int].name == name@);
            proof {
                lemma_func_index_exists(pre, name@);
            }
            return true;
        }
        j = j + 1;
    }
    proof {
        lemma_func_index_exists(pre, name@);
    }
    false
}

impl<'a> Compiler<'a> {
    /// A compiler for `program`, in the starting state; an error names the
    /// first function whose name an earlier function already has.
    pub fn new(program: &'a Program) -> (r: Result<Compiler<'a>, String>)
        ensures
            match r {
                Ok(c) => {
                    &&& c.state() == initial_state()
                    &&& c.fs() == funcs_view(program.funcs@)
                    &&& first_duplicate(funcs_view(program.funcs@), 0) is None
                },
                Err(m) => {
                    &&& first_duplicate(funcs_view(program.funcs@), 0) is Some
                    &&& m@ == duplicate_error(
                        funcs_view(program.funcs@)[first_duplicate(funcs_view(program.funcs@), 0)->0],
                    )
                },
            },
    {
        let ghost fv = funcs_view(program.funcs@);
        let mut i: usize = 0;
        while i < program.funcs.len()
            invariant
                i <= program.funcs@.len(),
                fv == funcs_view(program.funcs@),
                first_duplicate(fv, 0) == first_duplicate(fv, i as int),
            decreases program.funcs@.len() - i,
        {
            let f = &program.funcs[i];
            if name_among(&program.funcs, f.name.as_str(), i) {
                let mut m = at_line_exec(f.line);
                push_str(&mut m, "duplicate function '");
                push_str(&mut m, f.name.as_str());
                push_str(&mut m, "'");
                return Err(m);
            }
            i = i + 1;
        }
        let mut scopes: Vec<Vec<(String, Value)>> = Vec::new();
        scopes.push(Vec::new());
        let mut frame_base: Vec<usize> = Vec::new();
        frame_base.push(0);
        let c = Compiler {
            funcs: &program.funcs,
            scopes,
            consts: Vec::new(),
            frame_base,
            frame: 0,
            out: Vec::new(),
            last_emitted: 0,
            output_frame: None,
            warnings: Vec::new(),
            printed: Vec::new(),
            depth: 0,
            steps: 0,
        };
        proof {
            assert(scope_view(c.scopes@[0]@) =~= Seq::<(Seq<char>, ValueV)>::empty());
            assert(c.state().scopes =~= seq![Seq::<(Seq<char>, ValueV)>::empty()]);
            assert(c.state().frame_base =~= seq![0nat]);
            assert(c.state().consts =~= Seq::<Seq<char>>::empty());
            assert(c.state().out =~= Seq::<Seq<char>>::empty());
            assert(c.state().warnings =~= Seq::<Seq<char>>::empty());
            assert(c.state().printed =~= Seq::<Seq<char>>::empty());
        }
        Ok(c)
    }

    /// Runs the program's top-level statements in the global scope: the
    /// `.tas` lines and the warnings, or the first error; beside it, the text
    /// of each `print`, in order.
    pub fn compile<F: Fn(FloatOp) -> FloatOut>(self, program: &'a Program, fl: &F) -> (r: (
        Result<(Vec<String>, Vec<String>), String>,
        Vec<String>,
    ))
        requires
            self.state() == initial_state(),
            unit_deterministic(fl),
        ensures
            compiled_view(r) == spec_compile(self.fs(), unit_function(fl), stmts_view(program.main@)),
    {
        proof {
            lemma_unit_function(fl);
        }
        let mut c = self;
        let flow = c.exec_stmts(&program.main, fl, Ghost(unit_function(fl)));
        let Compiler { out, warnings, printed, .. } = c;
        match flow {
            Err(m) => (Err(m), printed),
            Ok(Flow::Return(_)) => (Err(to_owned_string("'return' is only allowed inside a function")), printed),
            Ok(Flow::Normal) => (Ok((out, warnings)), printed),
        }
    }
}

} // verus!
