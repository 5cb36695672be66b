//! What single operations of the language do, for every input: comparisons
//! and `min`/`max` on integers, the `pause` action's arguments, expression
//! arguments of action lines, and `return` inside a `repeat` body.

use vstd::prelude::*;
use crate::actions::{check_nums, check_pause, spec_validate};
use crate::ast::{ArgV, BinOp, ExprV, FuncV, StmtV, UnOp};
use crate::lexer::TokenV;
use crate::number::is_float_literal;
use crate::parser::{advanced, binop_at, line_at, peek, spec_action_args, spec_action_expr, spec_expr, spec_level, spec_level_rest};
use crate::semantics::{
    exec_stmt, advances, apply_builtin, eval, exec_block, max_steps, repeat_loop, spec_binop, truthy, while_loop, FloatFn, FlowV, StateV, ValueV,
};

verus! {

// ---------------------------------------------------------------- values
/// Comparisons of integers (up to 2^53 in size) are exact: each gives 1 when
/// the comparison holds of the two integers and 0 when it does not.
pub proof fn law_integer_comparisons(fu: FloatFn, a: i64, b: i64, line: nat)
    requires
        -9007199254740992 <= a <= 9007199254740992,
        -9007199254740992 <= b <= 9007199254740992,
    ensures
        spec_binop(fu, BinOp::Eq, ValueV::Int(a), ValueV::Int(b), line) == Ok::<ValueV, Seq<char>>(ValueV::Int(if a == b { 1 } else { 0 })),
        spec_binop(fu, BinOp::Ne, ValueV::Int(a), ValueV::Int(b), line) == Ok::<ValueV, Seq<char>>(ValueV::Int(if a != b { 1 } else { 0 })),
        spec_binop(fu, BinOp::Lt, ValueV::Int(a), ValueV::Int(b), line) == Ok::<ValueV, Seq<char>>(ValueV::Int(if a < b { 1 } else { 0 })),
        spec_binop(fu, BinOp::Le, ValueV::Int(a), ValueV::Int(b), line) == Ok::<ValueV, Seq<char>>(ValueV::Int(if a <= b { 1 } else { 0 })),
        spec_binop(fu, BinOp::Gt, ValueV::Int(a), ValueV::Int(b), line) == Ok::<ValueV, Seq<char>>(ValueV::Int(if a > b { 1 } else { 0 })),
        spec_binop(fu, BinOp::Ge, ValueV::Int(a), ValueV::Int(b), line) == Ok::<ValueV, Seq<char>>(ValueV::Int(if a >= b { 1 } else { 0 })),
{
}

/// `min` and `max` give back one of their two arguments, whatever numbers
/// they are; on integers (up to 2^53 in size) `min` gives the smaller and
/// `max` the larger, the first one when they are equal.
pub proof fn law_min_max(fu: FloatFn, a: ValueV, b: ValueV, line: nat)
    requires
        !(a is Str),
        !(b is Str),
    ensures
        apply_builtin(fu, "min"@, a, b, line) == Ok::<ValueV, Seq<char>>(a) || apply_builtin(fu, "min"@, a, b, line) == Ok::<ValueV, Seq<char>>(b),
        apply_builtin(fu, "max"@, a, b, line) == Ok::<ValueV, Seq<char>>(a) || apply_builtin(fu, "max"@, a, b, line) == Ok::<ValueV, Seq<char>>(b),
        a is Int && b is Int && -9007199254740992 <= a->Int_0 <= 9007199254740992 && -9007199254740992 <= b->Int_0 <= 9007199254740992 ==> {
            &&& apply_builtin(fu, "min"@, a, b, line) == Ok::<ValueV, Seq<char>>(ValueV::Int(if a->Int_0 <= b->Int_0 { a->Int_0 } else { b->Int_0 }))
            &&& apply_builtin(fu, "max"@, a, b, line) == Ok::<ValueV, Seq<char>>(ValueV::Int(if a->Int_0 >= b->Int_0 { a->Int_0 } else { b->Int_0 }))
        },
{
    reveal_strlit("min");
    reveal_strlit("max");
    reveal_strlit("abs");
    reveal_strlit("str");
    reveal_strlit("float");
    reveal_strlit("sqrt");
    assert("min"@[0] == 'm' && "max"@[0] == 'm' && "min"@[1] == 'i' && "max"@[1] == 'a');
    assert("abs"@[0] == 'a' && "str"@[0] == 's' && "float"@[0] == 'f' && "sqrt"@[0] == 's');
    assert("min"@ != "abs"@ && "min"@ != "str"@ && "min"@ != "float"@ && "min"@ != "sqrt"@);
    assert("max"@ != "abs"@ && "max"@ != "str"@ && "max"@ != "float"@ && "max"@ != "sqrt"@ && "max"@ != "min"@);
}

/// `==` and `!=` on two strings compare their text: `==` gives 1 exactly
/// when the texts are the same, `!=` exactly when they differ.
pub proof fn law_string_equality(fu: FloatFn, x: Seq<char>, y: Seq<char>, line: nat)
    ensures
        spec_binop(fu, BinOp::Eq, ValueV::Str(x), ValueV::Str(y), line) == Ok::<ValueV, Seq<char>>(ValueV::Int(if x == y { 1 } else { 0 })),
        spec_binop(fu, BinOp::Ne, ValueV::Str(x), ValueV::Str(y), line) == Ok::<ValueV, Seq<char>>(ValueV::Int(if x != y { 1 } else { 0 })),
{
}

/// `&&`, `||` and `!` on integers: an integer counts as true when it is not 0,
/// and each gives 1 for true and 0 for false.
pub proof fn law_logical_operators(fs: Seq<FuncV>, fu: FloatFn, a: i64, b: i64, line: nat, st: StateV)
    requires
        st.steps <= max_steps(),
    ensures
        eval(fs, fu, ExprV::Bin(BinOp::And, Box::new(ExprV::Int(a)), Box::new(ExprV::Int(b)), line), st)
            == (Ok::<ValueV, Seq<char>>(ValueV::Int(if a != 0 && b != 0 { 1 } else { 0 })), st),
        eval(fs, fu, ExprV::Bin(BinOp::Or, Box::new(ExprV::Int(a)), Box::new(ExprV::Int(b)), line), st)
            == (Ok::<ValueV, Seq<char>>(ValueV::Int(if a != 0 || b != 0 { 1 } else { 0 })), st),
        eval(fs, fu, ExprV::Unary(UnOp::Not, Box::new(ExprV::Int(a))), st)
            == (Ok::<ValueV, Seq<char>>(ValueV::Int(if a == 0 { 1 } else { 0 })), st),
{
    assert(eval(fs, fu, ExprV::Int(a), st) == (Ok::<ValueV, Seq<char>>(ValueV::Int(a)), st));
    assert(eval(fs, fu, ExprV::Int(b), st) == (Ok::<ValueV, Seq<char>>(ValueV::Int(b)), st));
}

/// `-x` on an integer (other than the least `i64`) is its negation.
pub proof fn law_integer_negation(fs: Seq<FuncV>, fu: FloatFn, a: i64, st: StateV)
    requires
        a > i64::MIN,
    ensures
        eval(fs, fu, ExprV::Unary(UnOp::Neg, Box::new(ExprV::Int(a))), st) == (Ok::<ValueV, Seq<char>>(ValueV::Int((-a) as i64)), st),
{
    assert(eval(fs, fu, ExprV::Int(a), st) == (Ok::<ValueV, Seq<char>>(ValueV::Int(a)), st));
    assert(0i64.wrapping_sub(a) == -a);
}

/// `abs` of an integer (other than the least `i64`) is its absolute value;
/// `int`, `floor`, `ceil` and `round` leave an integer up to 2^53 in size as
/// it is.
pub proof fn law_integer_builtins(fu: FloatFn, a: i64, line: nat)
    requires
        a > i64::MIN,
    ensures
        apply_builtin(fu, "abs"@, ValueV::Int(a), ValueV::Int(a), line) == Ok::<ValueV, Seq<char>>(ValueV::Int(if a < 0 { (-a) as i64 } else { a })),
        -9007199254740992 <= a <= 9007199254740992 ==> {
            &&& apply_builtin(fu, "int"@, ValueV::Int(a), ValueV::Int(a), line) == Ok::<ValueV, Seq<char>>(ValueV::Int(a))
            &&& apply_builtin(fu, "floor"@, ValueV::Int(a), ValueV::Int(a), line) == Ok::<ValueV, Seq<char>>(ValueV::Int(a))
            &&& apply_builtin(fu, "ceil"@, ValueV::Int(a), ValueV::Int(a), line) == Ok::<ValueV, Seq<char>>(ValueV::Int(a))
            &&& apply_builtin(fu, "round"@, ValueV::Int(a), ValueV::Int(a), line) == Ok::<ValueV, Seq<char>>(ValueV::Int(a))
        },
{
    reveal_strlit("abs");
    reveal_strlit("str");
    reveal_strlit("float");
    reveal_strlit("sqrt");
    reveal_strlit("min");
    reveal_strlit("max");
    reveal_strlit("int");
    reveal_strlit("floor");
    reveal_strlit("ceil");
    reveal_strlit("round");
    assert("abs"@[0] == 'a' && "str"@[0] == 's' && "float"@[0] == 'f' && "sqrt"@[0] == 's' && "min"@[0] == 'm' && "max"@[0] == 'm');
    assert("int"@[0] == 'i' && "floor"@[0] == 'f' && "ceil"@[0] == 'c' && "round"@[0] == 'r' && "floor"@[1] == 'l' && "float"@[1] == 'l');
    assert("floor"@[2] == 'o' && "float"@[2] == 'o' && "floor"@[3] == 'o' && "float"@[3] == 'a' && "round"@[1] == 'o' && "str"@[1] == 't');
    assert("int"@ != "abs"@ && "int"@ != "str"@ && "int"@ != "float"@ && "int"@ != "sqrt"@ && "int"@ != "min"@ && "int"@ != "max"@);
    assert("floor"@ != "abs"@ && "floor"@ != "str"@ && "floor"@ != "float"@ && "floor"@ != "sqrt"@ && "floor"@ != "min"@ && "floor"@ != "max"@);
    assert("ceil"@ != "abs"@ && "ceil"@ != "str"@ && "ceil"@ != "float"@ && "ceil"@ != "sqrt"@ && "ceil"@ != "min"@ && "ceil"@ != "max"@);
    assert("round"@ != "abs"@ && "round"@ != "str"@ && "round"@ != "float"@ && "round"@ != "sqrt"@ && "round"@ != "min"@ && "round"@ != "max"@);
    assert(0i64.wrapping_sub(a) == -a);
}

// ---------------------------------------------------------------- actions

/// `pause ms` takes one argument, a number of milliseconds: it is accepted
/// exactly when that argument is a number, and `pause input` takes none.
pub proof fn law_pause_grammar(n: Seq<char>, fu: FloatFn)
    ensures
        spec_validate("pause"@, seq!["ms"@, n], fu) == (if is_float_literal(n) {
            Ok::<(), Seq<char>>(())
        } else {
            Err::<(), Seq<char>>("argument '"@ + n + "' must be a number"@)
        }),
        spec_validate("pause"@, seq!["input"@], fu) == Ok::<(), Seq<char>>(()),
{
    reveal_strlit("pause");
    reveal_strlit("ms");
    reveal_strlit("input");
    reveal_strlit("nothing");
    reveal_strlit("fps");
    reveal_strlit("frame");
    reveal_strlit("key");
    reveal_strlit("key_alternative");
    reveal_strlit("gamepad");
    reveal_strlit("mouse");
    reveal_strlit("await");
    assert("pause"@[0] == 'p' && "pause"@.len() == 5 && "ms"@.len() == 2 && "input"@.len() == 5 && "ms"@[0] == 'm' && "input"@[0] == 'i');
    assert("nothing"@[0] == 'n' && "fps"@[0] == 'f' && "frame"@[0] == 'f' && "key"@[0] == 'k' && "key_alternative"@[0] == 'k');
    assert("gamepad"@[0] == 'g' && "mouse"@[0] == 'm' && "await"@[0] == 'a');
    assert("pause"@ != "nothing"@ && "pause"@ != "fps"@ && "pause"@ != "frame"@ && "pause"@ != "key"@);
    assert("pause"@ != "key_alternative"@ && "pause"@ != "gamepad"@ && "pause"@ != "mouse"@ && "pause"@ != "await"@);
    assert("input"@ != "ms"@);
    let args = seq!["ms"@, n];
    assert(args[0] == "ms"@ && args[1] == n && args.len() == 2);
    assert(check_nums(args, 2, 2) == Ok::<(), Seq<char>>(()));
    assert(check_pause(args) == spec_validate("pause"@, args, fu));
}

/// `fps` and `frame` take one argument, and accept it exactly when it is a
/// number; `mouse move` takes two, and accepts them exactly when both are
/// numbers.
pub proof fn law_numeric_actions(n: Seq<char>, x: Seq<char>, y: Seq<char>, fu: FloatFn)
    ensures
        spec_validate("fps"@, seq![n], fu) is Ok <==> is_float_literal(n),
        spec_validate("frame"@, seq![n], fu) is Ok <==> is_float_literal(n),
        spec_validate("mouse"@, seq!["move"@, x, y], fu) is Ok <==> is_float_literal(x) && is_float_literal(y),
{
    reveal_strlit("nothing");
    reveal_strlit("fps");
    reveal_strlit("frame");
    reveal_strlit("key");
    reveal_strlit("key_alternative");
    reveal_strlit("gamepad");
    reveal_strlit("mouse");
    reveal_strlit("move");
    reveal_strlit("button");
    reveal_strlit("scroll");
    assert("nothing"@[0] == 'n' && "fps"@[0] == 'f' && "frame"@[0] == 'f' && "key"@[0] == 'k' && "key_alternative"@[0] == 'k');
    assert("gamepad"@[0] == 'g' && "mouse"@[0] == 'm' && "fps"@[1] == 'p' && "frame"@[1] == 'r');
    assert("move"@[0] == 'm' && "button"@[0] == 'b' && "scroll"@[0] == 's');
    assert("fps"@ != "nothing"@ && "frame"@ != "nothing"@);
    assert("mouse"@ != "nothing"@ && "mouse"@ != "fps"@ && "mouse"@ != "frame"@ && "mouse"@ != "key"@);
    assert("mouse"@ != "key_alternative"@ && "mouse"@ != "gamepad"@);
    assert("move"@ != "button"@ && "move"@ != "scroll"@);
    let one = seq![n];
    assert(one[0] == n && one.len() == 1);
    assert(check_nums(one, 1, 1) == Ok::<(), Seq<char>>(()));
    let m = seq!["move"@, x, y];
    assert(m[0] == "move"@ && m[1] == x && m[2] == y && m.len() == 3);
    assert(check_nums(m, 3, 3) == Ok::<(), Seq<char>>(()));
    assert(is_float_literal(y) ==> check_nums(m, 2, 3) == Ok::<(), Seq<char>>(()));
}

/// `key` takes a state, `up` or `down`, and a key name that is not empty, and
/// accepts exactly those.
pub proof fn law_key_grammar(state: Seq<char>, name: Seq<char>, fu: FloatFn)
    ensures
        spec_validate("key"@, seq![state, name], fu) is Ok <==> (state == "up"@ || state == "down"@) && name.len() > 0,
{
    reveal_strlit("nothing");
    reveal_strlit("fps");
    reveal_strlit("frame");
    reveal_strlit("key");
    assert("nothing"@[0] == 'n' && "fps"@[0] == 'f' && "frame"@[0] == 'f' && "key"@[0] == 'k');
    assert("key"@ != "nothing"@ && "key"@ != "fps"@ && "key"@ != "frame"@);
    let args = seq![state, name];
    assert(args[0] == state && args[1] == name && args.len() == 2);
    let ud = seq!["down"@, "up"@];
    assert(ud[0] == "down"@ && ud[1] == "up"@);
    assert(ud.contains(state) <==> (state == "up"@ || state == "down"@)) by {
        if ud.contains(state) {
            let k = choose|k: int| 0 <= k < ud.len() && ud[k] == state;
            assert(k == 0 || k == 1);
        }
        if state == "down"@ {
            assert(ud[0] == state);
        }
        if state == "up"@ {
            assert(ud[1] == state);
        }
    }
}

// ---------------------------------------------------------------- action arguments

/// The operators after an operand never move the position back, and stay
/// within the tokens.
proof fn lemma_level_rest_advances(ts: Seq<TokenV>, lhs: ExprV, q: int, lv: int, e: ExprV, q2: int)
    requires
        q <= ts.len(),
        spec_level_rest(ts, lhs, q, lv) == Ok::<(ExprV, int), Seq<char>>((e, q2)),
    ensures
        q <= q2 <= ts.len(),
    decreases ts.len() - q,
{
    if let Some(op) = binop_at(lv, peek(ts, q)) {
        let line = line_at(ts, q);
        if let Ok((rhs, q3)) = spec_level(ts, q + 1, lv + 1) {
            if advanced(ts, q, q3) {
                lemma_level_rest_advances(ts, ExprV::Bin(op, Box::new(lhs), Box::new(rhs), line), q3, lv, e, q2);
            }
        }
    }
}

/// An argument of an action line that starts with `-`, a number, a string,
/// `$` or `(` is read as an expression, whose value becomes the argument; the
/// arguments after it follow. An error in that expression is the line's error.
pub proof fn law_action_argument_expressions(ts: Seq<TokenV>, acc: Seq<ArgV>, q: int)
    requires
        0 <= q,
        peek(ts, q) is Minus || peek(ts, q) is Int || peek(ts, q) is Float || peek(ts, q) is Str || peek(ts, q) is Dollar
            || peek(ts, q) is LParen,
    ensures
        match spec_expr(ts, q) {
            Ok((e, q2)) => q < q2 && spec_action_args(ts, acc, q) == spec_action_args(ts, acc.push(ArgV::Expr(e)), q2),
            Err(m) => spec_action_args(ts, acc, q) == Err::<(Seq<ArgV>, int), Seq<char>>(m),
        },
{
    assert(q < ts.len());
    assert(spec_action_args(ts, acc, q) == spec_action_expr(ts, acc, q));
    if let Ok((e, q2)) = spec_expr(ts, q) {
        if let Ok((lhs, q1)) = spec_level(ts, q, 1) {
            if advanced(ts, q, q1) {
                assert(spec_level_rest(ts, lhs, q1, 0) == Ok::<(ExprV, int), Seq<char>>((e, q2)));
                lemma_level_rest_advances(ts, lhs, q1, 0, e, q2);
                assert(advanced(ts, q, q2));
            }
        }
    }
}

// ---------------------------------------------------------------- returns in loops

/// A `return` inside a `repeat` body ends the loop and returns from the
/// function: when an iteration (each counts one step) returns a value, the
/// loop ends there with that value and the state the body left.
pub proof fn law_return_ends_repeat(fs: Seq<FuncV>, fu: FloatFn, body: Seq<StmtV>, k: int, st: StateV, v: ValueV, st1: StateV)
    requires
        k >= 1,
        st.steps < max_steps(),
        exec_block(fs, fu, body, StateV { steps: st.steps + 1, ..st }) == (Ok::<FlowV, Seq<char>>(FlowV::Return(v)), st1),
    ensures
        repeat_loop(fs, fu, body, k, st) == (Ok::<FlowV, Seq<char>>(FlowV::Return(v)), st1),
{
}

/// A `return` inside a `while` body ends the loop and returns from the
/// function: when the condition holds and the body then returns a value, the
/// loop ends there with that value and the state the body left.
pub proof fn law_return_ends_while(
    fs: Seq<FuncV>,
    fu: FloatFn,
    cond: ExprV,
    body: Seq<StmtV>,
    st: StateV,
    c: ValueV,
    st1: StateV,
    v: ValueV,
    st2: StateV,
)
    requires
        st.steps < max_steps(),
        eval(fs, fu, cond, StateV { steps: st.steps + 1, ..st }) == (Ok::<ValueV, Seq<char>>(c), st1),
        advances(StateV { steps: st.steps + 1, ..st }, st1),
        truthy(fu, c),
        exec_block(fs, fu, body, st1) == (Ok::<FlowV, Seq<char>>(FlowV::Return(v)), st2),
    ensures
        while_loop(fs, fu, cond, body, st) == (Ok::<FlowV, Seq<char>>(FlowV::Return(v)), st2),
{
}

/// An `if` runs its first block when the condition's value is true (a
/// non-zero number, a non-empty string), and its `else` block otherwise.
pub proof fn law_if_chooses_by_condition(
    fs: Seq<FuncV>,
    fu: FloatFn,
    cond: ExprV,
    then_body: Seq<StmtV>,
    else_body: Seq<StmtV>,
    st: StateV,
    c: ValueV,
    st1: StateV,
)
    requires
        eval(fs, fu, cond, st) == (Ok::<ValueV, Seq<char>>(c), st1),
        advances(st, st1),
    ensures
        exec_stmt(fs, fu, StmtV::If { cond, then_body, else_body }, st) == exec_block(
            fs,
            fu,
            if truthy(fu, c) { then_body } else { else_body },
            st1,
        ),
        c is Int ==> (truthy(fu, c) <==> c->Int_0 != 0),
        c is Str ==> (truthy(fu, c) <==> c->Str_0.len() > 0),
{
}

/// A `repeat` whose count is zero or less runs its body no time at all.
pub proof fn law_repeat_zero_times(fs: Seq<FuncV>, fu: FloatFn, body: Seq<StmtV>, k: int, st: StateV)
    requires
        k <= 0,
    ensures
        repeat_loop(fs, fu, body, k, st) == (Ok::<FlowV, Seq<char>>(FlowV::Normal), st),
{
}

} // verus!
