//! Properties of the language and of the loader that hold for every input:
//! what the language promises its users, and what the compiler keeps to.

use vstd::prelude::*;
use crate::actions::{spec_is_action, spec_validate};
use crate::ast::{ArgV, BinOp, ExprV, FuncV, ProgramV, StmtV};
use crate::lexer::{
    at_line, comment_end, ident_end, is_ident_char, lemma_comment_end, lemma_ident_end, lemma_number_end, lemma_scan_string,
    lex_from, number_end, one_char_tok, scan_string, spec_lex, strip_bom, two_char_tok, StringScan,
};
use crate::number::is_digit;
use crate::parser::spec_parse_program;
use crate::loader::{
    done_program_of, resumed, file_start, on_read, snippet_start, FrameV, advance, empty_program, merged, on_located, spec_compile_program, stack_of, LoaderV, RequestV, WaitV,
};
use crate::interp::kept;
use crate::semantics::{
    action_line, advances, asizes, assign, builtin, call, declare, emit, esize, esizes, eval, eval_action_args, eval_all,
    exec_block, exec_stmt, exec_stmts, find_scope, first_duplicate, func_index, is_builtin, key_index, lemma_asizes_elem,
    lemma_esize_pos, lemma_esizes_elem, lemma_func_index_exists, lookup, max_call_depth, max_steps, params_scope, render,
    repeat_loop, rounded, scope_insert, spec_binop, spec_compile, ssize, ssizes, state_wf, truthy, while_loop, FloatFn,
    FlowV, ScopeV, StateV, ValueV,
};
use crate::text::decimal;

verus! {

// ---------------------------------------------------------------- values

/// `+` concatenates when either side is a string: the text of the left
/// operand, then the text of the right one.
pub proof fn law_plus_concatenates_strings(fu: FloatFn, l: ValueV, r: ValueV, line: nat)
    requires
        l is Str || r is Str,
    ensures
        spec_binop(fu, BinOp::Add, l, r, line) == Ok::<ValueV, Seq<char>>(ValueV::Str(render(fu, l) + render(fu, r))),
{
}

/// Integer arithmetic stays integer: `+`, `-` and `*` on integers (up to
/// 2^53 in size, where every integer is also exact as a float) give the
/// exact integer result whenever it is again that small.
pub proof fn law_integer_arithmetic_is_exact(fu: FloatFn, op: BinOp, a: i64, b: i64, line: nat)
    requires
        op == BinOp::Add || op == BinOp::Sub || op == BinOp::Mul,
        -9007199254740992 <= a <= 9007199254740992,
        -9007199254740992 <= b <= 9007199254740992,
        -9007199254740992 <= (if op == BinOp::Add {
            a + b
        } else if op == BinOp::Sub {
            a - b
        } else {
            a * b
        }) <= 9007199254740992,
    ensures
        spec_binop(fu, op, ValueV::Int(a), ValueV::Int(b), line) == Ok::<ValueV, Seq<char>>(
            ValueV::Int(
                (if op == BinOp::Add {
                    a + b
                } else if op == BinOp::Sub {
                    a - b
                } else {
                    a * b
                }) as i64,
            ),
        ),
{
}

// ---------------------------------------------------------------- actions

/// An action line is accepted only for one of the known actions; any other
/// name is refused as unknown, whatever its arguments.
pub proof fn law_only_known_actions(name: Seq<char>, args: Seq<Seq<char>>, fu: FloatFn)
    ensures
        spec_validate(name, args, fu) is Ok ==> spec_is_action(name),
        !spec_is_action(name) ==> spec_validate(name, args, fu) == Err::<(), Seq<char>>(
            "unknown action '"@ + name + "'"@,
        ),
{
}

// ---------------------------------------------------------------- variables

/// A variable declared with `let` or `const` reads back as the value it was
/// given, until something else changes it.
pub proof fn law_declared_variable_reads_back(st: StateV, name: Seq<char>, v: ValueV, constant: bool, line: nat)
    requires
        state_wf(st),
        declare(st, name, v, constant, line).0 is Ok,
    ensures
        lookup(declare(st, name, v, constant, line).1, name) == Some(v),
{
    let st1 = declare(st, name, v, constant, line).1;
    let last = st.scopes.len() - 1;
    let sc = st.scopes[last].push((name, v));
    assert(st1.scopes[last] == sc);
    assert(key_index(sc, name) == sc.len() - 1);
    assert(find_scope(st1.scopes, name, st1.frame_base.last() as int, st1.scopes.len() as int) == Some(last));
}

/// A name bound in a scope is found at its last binding.
proof fn lemma_key_index_bounds(sc: ScopeV, name: Seq<char>)
    ensures
        -1 <= key_index(sc, name) < sc.len(),
        key_index(sc, name) >= 0 ==> sc[key_index(sc, name)].0 == name,
        forall|j: int| key_index(sc, name) < j < sc.len() ==> #[trigger] sc[j].0 != name,
    decreases sc.len(),
{
    if sc.len() > 0 && sc.last().0 != name {
        lemma_key_index_bounds(sc.drop_last(), name);
        assert forall|j: int| key_index(sc, name) < j < sc.len() implies #[trigger] sc[j].0 != name by {
            if j < sc.len() - 1 {
                assert(sc.drop_last()[j] == sc[j]);
            }
        }
    }
}

/// Two scopes whose entries from `k` on are the same, with `name` bound at
/// `k` in both, find `name` at `k`.
proof fn lemma_key_index_at(sc: ScopeV, name: Seq<char>, k: int)
    requires
        0 <= k < sc.len(),
        sc[k].0 == name,
        forall|j: int| k < j < sc.len() ==> #[trigger] sc[j].0 != name,
    ensures
        key_index(sc, name) == k,
    decreases sc.len(),
{
    if sc.len() - 1 != k {
        assert(sc.last().0 != name);
        lemma_key_index_at(sc.drop_last(), name, k);
    }
}

/// A binding put in a scope is the one found for its name.
proof fn lemma_scope_insert_found(sc: ScopeV, name: Seq<char>, v: ValueV)
    ensures
        key_index(scope_insert(sc, name, v), name) >= 0,
        scope_insert(sc, name, v)[key_index(scope_insert(sc, name, v), name)].1 == v,
{
    lemma_key_index_bounds(sc, name);
    let s2 = scope_insert(sc, name, v);
    if key_index(sc, name) >= 0 {
        let k = key_index(sc, name);
        assert forall|j: int| k < j < s2.len() implies #[trigger] s2[j].0 != name by {
            assert(s2[j] == sc[j]);
        }
        lemma_key_index_at(s2, name, k);
    } else {
        lemma_key_index_at(s2, name, sc.len() as int);
    }
}

/// `find_scope` gives the innermost scope in `lo..hi` that binds the name.
proof fn lemma_find_scope(scopes: Seq<ScopeV>, name: Seq<char>, lo: int, hi: int)
    ensures
        match find_scope(scopes, name, lo, hi) {
            Some(i) => lo <= i < hi && key_index(scopes[i], name) >= 0 && forall|j: int|
                i < j < hi ==> #[trigger] key_index(scopes[j], name) < 0,
            None => forall|j: int| lo <= j < hi ==> #[trigger] key_index(scopes[j], name) < 0,
        },
    decreases hi - lo,
{
    if hi > lo && key_index(scopes[hi - 1], name) < 0 {
        lemma_find_scope(scopes, name, lo, hi - 1);
    }
}

/// Scope lists that bind `name` in the same places in `lo..hi` give the same `find_scope`.
proof fn lemma_find_scope_same(s1: Seq<ScopeV>, s2: Seq<ScopeV>, name: Seq<char>, lo: int, hi: int)
    requires
        hi <= s1.len(),
        hi <= s2.len(),
        forall|j: int| lo <= j < hi ==> (#[trigger] key_index(s1[j], name) >= 0) == (key_index(s2[j], name) >= 0),
    ensures
        find_scope(s1, name, lo, hi) == find_scope(s2, name, lo, hi),
    decreases hi - lo,
{
    if hi > lo {
        assert((key_index(s1[hi - 1], name) >= 0) == (key_index(s2[hi - 1], name) >= 0));
        lemma_find_scope_same(s1, s2, name, lo, hi - 1);
    }
}

/// After an assignment succeeds, the variable reads back as the value assigned.
pub proof fn law_assigned_variable_reads_back(st: StateV, name: Seq<char>, v: ValueV, line: nat)
    requires
        state_wf(st),
        assign(st, name, v, line).0 is Ok,
    ensures
        lookup(assign(st, name, v, line).1, name) == Some(v),
{
    let st1 = assign(st, name, v, line).1;
    let base = st.frame_base.last() as int;
    let hi = st.scopes.len() as int;
    lemma_find_scope(st.scopes, name, base, hi);
    match find_scope(st.scopes, name, base, hi) {
        Some(i) => {
            let sc2 = scope_insert(st.scopes[i], name, v);
            lemma_scope_insert_found(st.scopes[i], name, v);
            assert(st1.scopes == st.scopes.update(i, sc2));
            assert forall|j: int| base <= j < hi implies (#[trigger] key_index(st.scopes[j], name) >= 0) == (
            key_index(st1.scopes[j], name) >= 0) by {
                if j == i {
                    assert(st1.scopes[j] == sc2);
                } else {
                    assert(st1.scopes[j] == st.scopes[j]);
                }
            }
            lemma_find_scope_same(st.scopes, st1.scopes, name, base, hi);
        },
        None => {
            let sc2 = scope_insert(st.scopes[0], name, v);
            lemma_scope_insert_found(st.scopes[0], name, v);
            assert(st1.scopes == st.scopes.update(0, sc2));
            assert(base > 0) by {
                if base == 0 {
                    assert(key_index(st.scopes[0], name) < 0);
                }
            }
            assert forall|j: int| base <= j < hi implies (#[trigger] key_index(st.scopes[j], name) >= 0) == (
            key_index(st1.scopes[j], name) >= 0) by {
                assert(st1.scopes[j] == st.scopes[j]);
            }
            lemma_find_scope_same(st.scopes, st1.scopes, name, base, hi);
            assert(st1.scopes[0] == sc2);
        },
    }
}

/// A variable declared with `const` cannot be assigned afterwards.
pub proof fn law_constants_stay_constant(
    st: StateV,
    name: Seq<char>,
    v: ValueV,
    line: nat,
    w: ValueV,
    line2: nat,
)
    requires
        declare(st, name, v, true, line).0 is Ok,
    ensures
        assign(declare(st, name, v, true, line).1, name, w, line2).0 == Err::<(), Seq<char>>(
            at_line(line2) + "cannot assign to constant '"@ + name + "'"@,
        ),
{
    let st1 = declare(st, name, v, true, line).1;
    if !st.consts.contains(name) {
        assert(st1.consts.last() == name);
        assert(st1.consts.contains(name));
    }
}

// ---------------------------------------------------------------- functions

/// `first_duplicate` finds a function whose name an earlier one has, from `k` on.
proof fn lemma_first_duplicate(fs: Seq<FuncV>, k: int)
    requires
        0 <= k,
    ensures
        (first_duplicate(fs, k) is Some) == (exists|i: int, j: int|
            0 <= i < j && k <= j < fs.len() && #[trigger] fs[i].name == #[trigger] fs[j].name),
    decreases fs.len() - k,
{
    if k < fs.len() {
        let pre = fs.take(k);
        lemma_func_index_exists(pre, fs[k].name);
        lemma_first_duplicate(fs, k + 1);
        if func_index(pre, fs[k].name) >= 0 {
            let i = choose|i: int| 0 <= i < pre.len() && #[trigger] pre[i].name == fs[k].name;
            assert(fs[i].name == fs[k].name);
        } else {
            if exists|i: int, j: int| 0 <= i < j && k <= j < fs.len() && #[trigger] fs[i].name == #[trigger] fs[j].name {
                let (i, j) = choose|i: int, j: int|
                    0 <= i < j && k <= j < fs.len() && #[trigger] fs[i].name == #[trigger] fs[j].name;
                if j == k {
                    assert(pre[i].name == fs[k].name);
                }
            }
        }
    }
}

/// A program in which two functions have the same name is refused; one in
/// which all names differ is run.
pub proof fn law_function_names_are_unique(p: ProgramV, fu: FloatFn)
    ensures
        (exists|i: int, j: int| 0 <= i < j < p.funcs.len() && #[trigger] p.funcs[i].name == #[trigger] p.funcs[j].name)
            ==> spec_compile_program(p, fu).0 is Err,
        (forall|i: int, j: int| 0 <= i < j < p.funcs.len() ==> #[trigger] p.funcs[i].name != #[trigger] p.funcs[j].name)
            ==> spec_compile_program(p, fu) == spec_compile(p.funcs, fu, p.main),
{
    lemma_first_duplicate(p.funcs, 0);
}

// ---------------------------------------------------------------- output

/// The first action line is timed `0`; each later one is timed `+n`, where
/// `n` is how many frames lie between it and the previous one, when it does
/// not lie before it.
pub proof fn law_action_timing(st: StateV, name: Seq<char>, args: Seq<Seq<char>>, line: nat)
    ensures
        st.output_frame is None ==> emit(st, name, args, line).out == st.out.push(action_line("0"@, name, args)),
        (st.output_frame matches Some(p) && 0 <= p <= st.frame) ==> emit(st, name, args, line).out == st.out.push(
            action_line("+"@ + decimal((st.frame - st.output_frame->0) as nat), name, args),
        ),
        emit(st, name, args, line).output_frame == Some(st.frame),
{
}

/// `print` shows a value and adds no action line: the lines are those that
/// evaluating its expression left.
pub proof fn law_print_is_not_output(fs: Seq<FuncV>, fu: FloatFn, e: ExprV, st: StateV)
    ensures
        exec_stmt(fs, fu, StmtV::Print(e), st).1.out == eval(fs, fu, e, st).1.out,
        eval(fs, fu, e, st).0 matches Ok(v) ==> exec_stmt(fs, fu, StmtV::Print(e), st).1.printed == eval(
            fs,
            fu,
            e,
            st,
        ).1.printed.push(render(fu, v)),
{
}

// ---------------------------------------------------------------- loading

/// A file is read at most once in a load: it is asked for only when it was
/// not loaded before, and from then on it counts as loaded.
pub proof fn law_each_file_read_once(l: LoaderV, target: Seq<char>, c: Seq<char>)
    ensures
        on_located(l, target, Ok(c)).1 is Read ==> {
            &&& on_located(l, target, Ok(c)).1 == RequestV::Read(c)
            &&& !l.loaded.contains(c)
            &&& on_located(l, target, Ok(c)).0.loaded == l.loaded.push(c)
        },
{
    if l.frames.len() > 0 {
        let g = l.frames.last();
        law_loading_keeps_loaded_files(
            LoaderV {
                frames: l.frames.drop_last().push(crate::loader::resumed(g, empty_program())),
                waiting: WaitV::Nothing,
                ..l
            },
        );
    }
}

/// Importing a file that was loaded before adds nothing (so modules imported
/// along several paths declare their functions once): when the importing
/// file's next statement imports a file already loaded, the loader asks for
/// it to be located and, told the same canonical path, comes to exactly the
/// state it would be in had the statement not been there. Since each step
/// depends on the state and the answer alone, the rest of the load and its
/// result are then those of the load without the repeated import.
pub proof fn law_repeated_import_adds_nothing(l: LoaderV, path: Seq<char>, line: nat, target: Seq<char>, c: Seq<char>)
    requires
        l.frames.len() > 0,
        l.frames.last().rest.len() > 0,
        l.frames.last().rest[0] == (StmtV::Import { path, line }),
        l.frames.last().import == Seq::<char>::empty(),
        l.frames.last().line == 0,
        l.loaded.contains(c),
        !stack_of(l.frames).contains(c),
    ensures
        advance(l).1 == (RequestV::Locate { from: Some(l.frames.last().base), import: path }),
        on_located(advance(l).0, target, Ok(c)) == advance(
            LoaderV {
                frames: l.frames.drop_last().push(FrameV { rest: l.frames.last().rest.drop_first(), ..l.frames.last() }),
                waiting: WaitV::Nothing,
                ..l
            },
        ),
{
    let f = l.frames.last();
    let l1 = advance(l).0;
    let f1 = FrameV { rest: f.rest.drop_first(), import: path, line, ..f };
    assert(l1.frames == l.frames.drop_last().push(f1));
    assert(l1.frames.last() == f1);
    assert(l1.frames.drop_last() =~= l.frames.drop_last());
    assert(stack_of(l1.frames) == stack_of(l.frames)) by {
        assert(l1.frames.drop_last() =~= l.frames.drop_last());
    }
    let g = crate::loader::resumed(f1, empty_program());
    assert(merged(f1.program, empty_program()) =~= f1.program);
    assert(g == FrameV { rest: f.rest.drop_first(), ..f });
}

/// A file that imports itself, directly or through other files, is refused.
pub proof fn law_import_cycles_refused(l: LoaderV, target: Seq<char>, c: Seq<char>)
    requires
        stack_of(l.frames).contains(c),
    ensures
        on_located(l, target, Ok(c)).1 matches RequestV::Done(Err(_)),
{
}

/// Taking in statements never forgets which files were loaded, and reads no
/// file by itself: it asks for one to be located, or ends.
pub proof fn law_loading_keeps_loaded_files(l: LoaderV)
    ensures
        advance(l).0.loaded == l.loaded,
        !(advance(l).1 is Read),
    decreases l.frames.len(), crate::loader::top_rest_len(l),
{
    if l.frames.len() > 0 {
        let f = l.frames.last();
        let below = l.frames.drop_last();
        if f.rest.len() == 0 {
            if below.len() > 0 {
                let g = below.last();
                law_loading_keeps_loaded_files(
                    LoaderV {
                        frames: below.drop_last().push(
                            crate::loader::resumed(g, crate::loader::done_program_of(f)),
                        ),
                        waiting: WaitV::Nothing,
                        ..l
                    },
                );
            }
        } else if !(f.rest[0] is Import) {
            law_loading_keeps_loaded_files(
                LoaderV {
                    frames: below.push(
                        crate::loader::FrameV {
                            rest: f.rest.drop_first(),
                            program: ProgramV { main: f.program.main.push(f.rest[0]), ..f.program },
                            ..f
                        },
                    ),
                    waiting: WaitV::Nothing,
                    ..l
                },
            );
        }
    }
}

// ---------------------------------------------------------------- the call stack

/// Evaluating an expression leaves the call stack (depth, frames and
/// scopes) as it found it, never winds the step counter back, and, when it
/// succeeds, stays within the step and depth limits.
pub proof fn law_expressions_keep_the_call_stack(fs: Seq<FuncV>, fu: FloatFn, e: ExprV, st: StateV)
    requires
        state_wf(st),
    ensures
        kept(st, eval(fs, fu, e, st).1),
        keeps_output(st, eval(fs, fu, e, st).1, fu),
        eval(fs, fu, e, st).0 is Ok ==> state_wf(eval(fs, fu, e, st).1),
    decreases max_steps() - st.steps, max_call_depth() - st.depth, esize(e), 3int,
{
    match e {
        ExprV::Unary(_, a) => {
            law_expressions_keep_the_call_stack(fs, fu, *a, st);
        },
        ExprV::Bin(op, l, r, _) => {
            law_expressions_keep_the_call_stack(fs, fu, *l, st);
            let (lr, st1) = eval(fs, fu, *l, st);
            if lr is Ok && advances(st, st1) {
                law_expressions_keep_the_call_stack(fs, fu, *r, st1);
            }
        },
        ExprV::Call(name, args, line) => {
            if is_builtin(name) {
                lemma_builtin_kept(fs, fu, name, args, line, st);
            } else {
                lemma_call_kept(fs, fu, name, args, line, st);
            }
        },
        _ => {},
    }
}

proof fn lemma_builtin_kept(fs: Seq<FuncV>, fu: FloatFn, name: Seq<char>, args: Seq<ExprV>, line: nat, st: StateV)
    requires
        state_wf(st),
    ensures
        kept(st, builtin(fs, fu, name, args, line, st).1),
        keeps_output(st, builtin(fs, fu, name, args, line, st).1, fu),
        builtin(fs, fu, name, args, line, st).0 is Ok ==> state_wf(builtin(fs, fu, name, args, line, st).1),
    decreases max_steps() - st.steps, max_call_depth() - st.depth, esizes(args) + 1, 2int,
{
    if args.len() > 0 && args.len() == crate::semantics::builtin_arity(name) && name != "frame"@ {
        lemma_esizes_elem(args, 0);
        law_expressions_keep_the_call_stack(fs, fu, args[0], st);
        let (ar, st1) = eval(fs, fu, args[0], st);
        if ar is Ok && args.len() != 1 && advances(st, st1) {
            lemma_esizes_elem(args, 1);
            law_expressions_keep_the_call_stack(fs, fu, args[1], st1);
        }
    }
}

proof fn lemma_eval_all_kept(fs: Seq<FuncV>, fu: FloatFn, es: Seq<ExprV>, st: StateV)
    requires
        state_wf(st),
    ensures
        kept(st, eval_all(fs, fu, es, st).1),
        keeps_output(st, eval_all(fs, fu, es, st).1, fu),
        eval_all(fs, fu, es, st).0 is Ok ==> state_wf(eval_all(fs, fu, es, st).1),
    decreases max_steps() - st.steps, max_call_depth() - st.depth, esizes(es) + 1, 0int,
{
    if es.len() > 0 {
        lemma_esizes_elem(es, 0);
        law_expressions_keep_the_call_stack(fs, fu, es[0], st);
        let (r, st1) = eval(fs, fu, es[0], st);
        if r is Ok && advances(st, st1) {
            lemma_esize_pos(es[0]);
            lemma_eval_all_kept(fs, fu, es.drop_first(), st1);
        }
    }
}

proof fn lemma_call_kept(fs: Seq<FuncV>, fu: FloatFn, name: Seq<char>, args: Seq<ExprV>, line: nat, st: StateV)
    requires
        state_wf(st),
    ensures
        kept(st, call(fs, fu, name, args, line, st).1),
        keeps_output(st, call(fs, fu, name, args, line, st).1, fu),
        call(fs, fu, name, args, line, st).0 is Ok ==> state_wf(call(fs, fu, name, args, line, st).1),
    decreases max_steps() - st.steps, max_call_depth() - st.depth, esizes(args) + 1, 1int,
{
    let i = func_index(fs, name);
    if i >= 0 && args.len() == fs[i].params.len() {
        lemma_eval_all_kept(fs, fu, args, st);
        let (vr, st1) = eval_all(fs, fu, args, st);
        if vr is Ok && advances(st, st1) && st1.depth + 1 <= max_call_depth() {
            let st2 = StateV {
                depth: st1.depth + 1,
                frame_base: st1.frame_base.push(st1.scopes.len()),
                scopes: st1.scopes.push(params_scope(fs[i].params, vr->Ok_0)),
                ..st1
            };
            law_statements_keep_the_call_stack(fs, fu, fs[i].body, st2);
            let st3 = exec_stmts(fs, fu, fs[i].body, st2).1;
            assert(st3.frame_base.drop_last() =~= st1.frame_base);
        }
    }
}

proof fn lemma_action_args_kept(fs: Seq<FuncV>, fu: FloatFn, args: Seq<ArgV>, st: StateV)
    requires
        state_wf(st),
    ensures
        kept(st, eval_action_args(fs, fu, args, st).1),
        keeps_output(st, eval_action_args(fs, fu, args, st).1, fu),
        eval_action_args(fs, fu, args, st).0 is Ok ==> state_wf(eval_action_args(fs, fu, args, st).1),
    decreases max_steps() - st.steps, max_call_depth() - st.depth, asizes(args) + 1, 0int,
{
    if args.len() > 0 {
        let st1 = match args[0] {
            ArgV::Word(_) => st,
            ArgV::Expr(e) => {
                lemma_asizes_elem(args, 0);
                law_expressions_keep_the_call_stack(fs, fu, e, st);
                eval(fs, fu, e, st).1
            },
        };
        let ok = match args[0] {
            ArgV::Word(_) => true,
            ArgV::Expr(e) => eval(fs, fu, e, st).0 is Ok,
        };
        if ok && advances(st, st1) {
            lemma_action_args_kept(fs, fu, args.drop_first(), st1);
        }
    }
}

/// Running statements leaves the call stack as it found it, never winds the
/// step counter back, and, when it succeeds, stays within the limits.
pub proof fn law_statements_keep_the_call_stack(fs: Seq<FuncV>, fu: FloatFn, ss: Seq<StmtV>, st: StateV)
    requires
        state_wf(st),
    ensures
        kept(st, exec_stmts(fs, fu, ss, st).1),
        keeps_output(st, exec_stmts(fs, fu, ss, st).1, fu),
        exec_stmts(fs, fu, ss, st).0 is Ok ==> state_wf(exec_stmts(fs, fu, ss, st).1),
    decreases max_steps() - st.steps, max_call_depth() - st.depth, ssizes(ss) + 1, 3int,
{
    if ss.len() > 0 && st.steps + 1 <= max_steps() {
        let st0 = StateV { steps: st.steps + 1, ..st };
        law_each_statement_keeps_the_call_stack(fs, fu, ss[0], st0);
        let (r, st1) = exec_stmt(fs, fu, ss[0], st0);
        if r matches Ok(FlowV::Normal) && advances(st0, st1) {
            law_statements_keep_the_call_stack(fs, fu, ss.drop_first(), st1);
        }
    }
}

/// A block's scope is gone after it: running a block leaves the call stack
/// (the number of scopes among it) as it found it.
pub proof fn law_blocks_keep_the_call_stack(fs: Seq<FuncV>, fu: FloatFn, ss: Seq<StmtV>, st: StateV)
    requires
        state_wf(st),
    ensures
        kept(st, exec_block(fs, fu, ss, st).1),
        keeps_output(st, exec_block(fs, fu, ss, st).1, fu),
        exec_block(fs, fu, ss, st).0 is Ok ==> state_wf(exec_block(fs, fu, ss, st).1),
    decreases max_steps() - st.steps, max_call_depth() - st.depth, ssizes(ss) + 1, 4int,
{
    let st0 = StateV { scopes: st.scopes.push(Seq::empty()), ..st };
    law_statements_keep_the_call_stack(fs, fu, ss, st0);
}

proof fn lemma_repeat_kept(fs: Seq<FuncV>, fu: FloatFn, body: Seq<StmtV>, k: int, st: StateV)
    requires
        state_wf(st),
    ensures
        kept(st, repeat_loop(fs, fu, body, k, st).1),
        keeps_output(st, repeat_loop(fs, fu, body, k, st).1, fu),
        repeat_loop(fs, fu, body, k, st).0 is Ok ==> state_wf(repeat_loop(fs, fu, body, k, st).1),
    decreases max_steps() - st.steps, max_call_depth() - st.depth, ssizes(body) + 1, 5int,
{
    if k > 0 && st.steps + 1 <= max_steps() {
        let st0 = StateV { steps: st.steps + 1, ..st };
        law_blocks_keep_the_call_stack(fs, fu, body, st0);
        let (r, st1) = exec_block(fs, fu, body, st0);
        if r matches Ok(FlowV::Normal) && advances(st0, st1) {
            lemma_repeat_kept(fs, fu, body, k - 1, st1);
        }
    }
}

proof fn lemma_while_kept(fs: Seq<FuncV>, fu: FloatFn, cond: ExprV, body: Seq<StmtV>, st: StateV)
    requires
        state_wf(st),
    ensures
        kept(st, while_loop(fs, fu, cond, body, st).1),
        keeps_output(st, while_loop(fs, fu, cond, body, st).1, fu),
        while_loop(fs, fu, cond, body, st).0 is Ok ==> state_wf(while_loop(fs, fu, cond, body, st).1),
    decreases max_steps() - st.steps, max_call_depth() - st.depth, esize(cond) + ssizes(body) + 1, 5int,
{
    if st.steps + 1 <= max_steps() {
        let st0 = StateV { steps: st.steps + 1, ..st };
        law_expressions_keep_the_call_stack(fs, fu, cond, st0);
        let (cr, st1) = eval(fs, fu, cond, st0);
        if cr is Ok && truthy(fu, cr->Ok_0) && advances(st0, st1) {
            law_blocks_keep_the_call_stack(fs, fu, body, st1);
            let (r, st2) = exec_block(fs, fu, body, st1);
            if r matches Ok(FlowV::Normal) && advances(st1, st2) {
                lemma_while_kept(fs, fu, cond, body, st2);
            }
        }
    }
}

proof fn lemma_let_kept(fs: Seq<FuncV>, fu: FloatFn, name: Seq<char>, expr: ExprV, constant: bool, line: nat, st: StateV)
    requires
        state_wf(st),
    ensures
        kept(st, exec_stmt(fs, fu, StmtV::Let { name, expr, constant, line }, st).1),
        keeps_output(st, exec_stmt(fs, fu, StmtV::Let { name, expr, constant, line }, st).1, fu),
        exec_stmt(fs, fu, StmtV::Let { name, expr, constant, line }, st).0 is Ok ==> state_wf(exec_stmt(fs, fu, StmtV::Let { name, expr, constant, line }, st).1),
    decreases max_steps() - st.steps, max_call_depth() - st.depth, ssize(StmtV::Let { name, expr, constant, line }), 5int,
{
    law_expressions_keep_the_call_stack(fs, fu, expr, st);
}

proof fn lemma_assign_kept(fs: Seq<FuncV>, fu: FloatFn, name: Seq<char>, expr: ExprV, line: nat, st: StateV)
    requires
        state_wf(st),
    ensures
        kept(st, exec_stmt(fs, fu, StmtV::Assign { name, expr, line }, st).1),
        keeps_output(st, exec_stmt(fs, fu, StmtV::Assign { name, expr, line }, st).1, fu),
        exec_stmt(fs, fu, StmtV::Assign { name, expr, line }, st).0 is Ok ==> state_wf(exec_stmt(fs, fu, StmtV::Assign { name, expr, line }, st).1),
    decreases max_steps() - st.steps, max_call_depth() - st.depth, ssize(StmtV::Assign { name, expr, line }), 5int,
{
    law_expressions_keep_the_call_stack(fs, fu, expr, st);
    let st1 = eval(fs, fu, expr, st).1;
    lemma_find_scope(st1.scopes, name, st1.frame_base.last() as int, st1.scopes.len() as int);
}

proof fn lemma_wait_kept(fs: Seq<FuncV>, fu: FloatFn, e: ExprV, line: nat, st: StateV)
    requires
        state_wf(st),
    ensures
        kept(st, exec_stmt(fs, fu, StmtV::Wait(e, line), st).1),
        keeps_output(st, exec_stmt(fs, fu, StmtV::Wait(e, line), st).1, fu),
        exec_stmt(fs, fu, StmtV::Wait(e, line), st).0 is Ok ==> state_wf(exec_stmt(fs, fu, StmtV::Wait(e, line), st).1),
    decreases max_steps() - st.steps, max_call_depth() - st.depth, ssize(StmtV::Wait(e, line)), 5int,
{
    law_expressions_keep_the_call_stack(fs, fu, e, st);
}

proof fn lemma_at_kept(fs: Seq<FuncV>, fu: FloatFn, e: ExprV, line: nat, st: StateV)
    requires
        state_wf(st),
    ensures
        kept(st, exec_stmt(fs, fu, StmtV::At(e, line), st).1),
        keeps_output(st, exec_stmt(fs, fu, StmtV::At(e, line), st).1, fu),
        exec_stmt(fs, fu, StmtV::At(e, line), st).0 is Ok ==> state_wf(exec_stmt(fs, fu, StmtV::At(e, line), st).1),
    decreases max_steps() - st.steps, max_call_depth() - st.depth, ssize(StmtV::At(e, line)), 5int,
{
    law_expressions_keep_the_call_stack(fs, fu, e, st);
}

proof fn lemma_action_kept(fs: Seq<FuncV>, fu: FloatFn, name: Seq<char>, args: Seq<ArgV>, line: nat, st: StateV)
    requires
        state_wf(st),
    ensures
        kept(st, exec_stmt(fs, fu, StmtV::Action { name, args, line }, st).1),
        keeps_output(st, exec_stmt(fs, fu, StmtV::Action { name, args, line }, st).1, fu),
        exec_stmt(fs, fu, StmtV::Action { name, args, line }, st).0 is Ok ==> state_wf(exec_stmt(fs, fu, StmtV::Action { name, args, line }, st).1),
    decreases max_steps() - st.steps, max_call_depth() - st.depth, ssize(StmtV::Action { name, args, line }), 5int,
{
    lemma_action_args_kept(fs, fu, args, st);
    let (r, st1) = eval_action_args(fs, fu, args, st);
    if let Ok(rendered) = r {
        if spec_validate(name, rendered, fu) is Ok {
            lemma_emit_valid(st1, name, rendered, line, fu);
        }
    }
}

proof fn lemma_call_stmt_kept(fs: Seq<FuncV>, fu: FloatFn, name: Seq<char>, args: Seq<ExprV>, line: nat, st: StateV)
    requires
        state_wf(st),
    ensures
        kept(st, exec_stmt(fs, fu, StmtV::Call { name, args, line }, st).1),
        keeps_output(st, exec_stmt(fs, fu, StmtV::Call { name, args, line }, st).1, fu),
        exec_stmt(fs, fu, StmtV::Call { name, args, line }, st).0 is Ok ==> state_wf(exec_stmt(fs, fu, StmtV::Call { name, args, line }, st).1),
    decreases max_steps() - st.steps, max_call_depth() - st.depth, ssize(StmtV::Call { name, args, line }), 5int,
{
    lemma_call_kept(fs, fu, name, args, line, st);
}

proof fn lemma_repeat_stmt_kept(fs: Seq<FuncV>, fu: FloatFn, count: ExprV, body: Seq<StmtV>, line: nat, st: StateV)
    requires
        state_wf(st),
    ensures
        kept(st, exec_stmt(fs, fu, StmtV::Repeat { count, body, line }, st).1),
        keeps_output(st, exec_stmt(fs, fu, StmtV::Repeat { count, body, line }, st).1, fu),
        exec_stmt(fs, fu, StmtV::Repeat { count, body, line }, st).0 is Ok ==> state_wf(exec_stmt(fs, fu, StmtV::Repeat { count, body, line }, st).1),
    decreases max_steps() - st.steps, max_call_depth() - st.depth, ssize(StmtV::Repeat { count, body, line }), 5int,
{
    law_expressions_keep_the_call_stack(fs, fu, count, st);
    let (r, st1) = eval(fs, fu, count, st);
    if r is Ok && !(r->Ok_0 is Str) && advances(st, st1) {
        lemma_repeat_kept(fs, fu, body, rounded(fu, r->Ok_0) as int, st1);
    }
}

proof fn lemma_if_kept(fs: Seq<FuncV>, fu: FloatFn, cond: ExprV, then_body: Seq<StmtV>, else_body: Seq<StmtV>, st: StateV)
    requires
        state_wf(st),
    ensures
        kept(st, exec_stmt(fs, fu, StmtV::If { cond, then_body, else_body }, st).1),
        keeps_output(st, exec_stmt(fs, fu, StmtV::If { cond, then_body, else_body }, st).1, fu),
        exec_stmt(fs, fu, StmtV::If { cond, then_body, else_body }, st).0 is Ok ==> state_wf(exec_stmt(fs, fu, StmtV::If { cond, then_body, else_body }, st).1),
    decreases max_steps() - st.steps, max_call_depth() - st.depth, ssize(StmtV::If { cond, then_body, else_body }), 5int,
{
    law_expressions_keep_the_call_stack(fs, fu, cond, st);
    let (r, st1) = eval(fs, fu, cond, st);
    if r is Ok && advances(st, st1) {
        law_blocks_keep_the_call_stack(fs, fu, then_body, st1);
        law_blocks_keep_the_call_stack(fs, fu, else_body, st1);
    }
}

proof fn lemma_return_kept(fs: Seq<FuncV>, fu: FloatFn, e: Option<ExprV>, st: StateV)
    requires
        state_wf(st),
    ensures
        kept(st, exec_stmt(fs, fu, StmtV::Return(e), st).1),
        keeps_output(st, exec_stmt(fs, fu, StmtV::Return(e), st).1, fu),
        exec_stmt(fs, fu, StmtV::Return(e), st).0 is Ok ==> state_wf(exec_stmt(fs, fu, StmtV::Return(e), st).1),
    decreases max_steps() - st.steps, max_call_depth() - st.depth, ssize(StmtV::Return(e)), 5int,
{
    if let Some(x) = e {
        law_expressions_keep_the_call_stack(fs, fu, x, st);
    }
}

proof fn lemma_print_kept(fs: Seq<FuncV>, fu: FloatFn, e: ExprV, st: StateV)
    requires
        state_wf(st),
    ensures
        kept(st, exec_stmt(fs, fu, StmtV::Print(e), st).1),
        keeps_output(st, exec_stmt(fs, fu, StmtV::Print(e), st).1, fu),
        exec_stmt(fs, fu, StmtV::Print(e), st).0 is Ok ==> state_wf(exec_stmt(fs, fu, StmtV::Print(e), st).1),
    decreases max_steps() - st.steps, max_call_depth() - st.depth, ssize(StmtV::Print(e)), 5int,
{
    law_expressions_keep_the_call_stack(fs, fu, e, st);
}

/// Running one statement leaves the call stack as it found it (every scope
/// and frame it pushes is popped again, on success and on error), never
/// winds the step counter back, and, when it succeeds, stays within the
/// limits; the output it adds is valid.
pub proof fn law_each_statement_keeps_the_call_stack(fs: Seq<FuncV>, fu: FloatFn, s: StmtV, st: StateV)
    requires
        state_wf(st),
    ensures
        kept(st, exec_stmt(fs, fu, s, st).1),
        keeps_output(st, exec_stmt(fs, fu, s, st).1, fu),
        exec_stmt(fs, fu, s, st).0 is Ok ==> state_wf(exec_stmt(fs, fu, s, st).1),
    decreases max_steps() - st.steps, max_call_depth() - st.depth, ssize(s), 6int,
{
    match s {
        StmtV::Import { .. } => {},
        StmtV::Let { name, expr, constant, line } => lemma_let_kept(fs, fu, name, expr, constant, line, st),
        StmtV::Assign { name, expr, line } => lemma_assign_kept(fs, fu, name, expr, line, st),
        StmtV::Wait(e, line) => lemma_wait_kept(fs, fu, e, line, st),
        StmtV::At(e, line) => lemma_at_kept(fs, fu, e, line, st),
        StmtV::Action { name, args, line } => lemma_action_kept(fs, fu, name, args, line, st),
        StmtV::Call { name, args, line } => lemma_call_stmt_kept(fs, fu, name, args, line, st),
        StmtV::Repeat { count, body, line } => lemma_repeat_stmt_kept(fs, fu, count, body, line, st),
        StmtV::While { cond, body } => lemma_while_kept(fs, fu, cond, body, st),
        StmtV::If { cond, then_body, else_body } => lemma_if_kept(fs, fu, cond, then_body, else_body, st),
        StmtV::Return(e) => lemma_return_kept(fs, fu, e, st),
        StmtV::Print(e) => lemma_print_kept(fs, fu, e, st),
    }
}

// ---------------------------------------------------------------- more on lexing

/// A byte order mark at the start of the source is ignored.
pub proof fn law_byte_order_mark_ignored(src: Seq<char>, fu: FloatFn)
    ensures
        spec_lex(seq!['\u{feff}'] + src, fu) == spec_lex(src, fu),
{
    let s = seq!['\u{feff}'] + src;
    assert(s.drop_first() =~= src);
    assert(strip_bom(s) == strip_bom(src));
}

// ---------------------------------------------------------------- the step limit

/// A loop that never ends (`while 1 { }`) is stopped by the step limit.
pub proof fn law_runaway_loops_stop(fs: Seq<FuncV>, fu: FloatFn, st: StateV)
    requires
        state_wf(st),
    ensures
        exec_stmt(fs, fu, StmtV::While { cond: ExprV::Int(1), body: Seq::empty() }, st).0 == Err::<FlowV, Seq<char>>(
            crate::semantics::steps_error(),
        ),
    decreases max_steps() - st.steps,
{
    if st.steps + 1 <= max_steps() {
        let st0 = StateV { steps: st.steps + 1, ..st };
        let inner = StateV { scopes: st0.scopes.push(Seq::empty()), ..st0 };
        assert(exec_stmts(fs, fu, Seq::empty(), inner) == (Ok::<FlowV, Seq<char>>(FlowV::Normal), inner));
        let st2 = StateV { scopes: inner.scopes.drop_last(), ..inner };
        assert(st2.scopes =~= st0.scopes);
        assert(exec_block(fs, fu, Seq::empty(), st0) == (Ok::<FlowV, Seq<char>>(FlowV::Normal), st2));
        law_runaway_loops_stop(fs, fu, st2);
    }
}

// ---------------------------------------------------------------- files without imports

/// Whether `text` parses to a program with no `import`, when it parses at all.
pub open spec fn has_no_imports(text: Seq<char>, fu: FloatFn) -> bool {
    match spec_lex(text, fu) {
        Ok(ts) => match spec_parse_program(ts) {
            Ok(p) => forall|k: int| 0 <= k < p.main.len() ==> !(#[trigger] p.main[k] is Import),
            Err(_) => true,
        },
        Err(_) => true,
    }
}

/// What the lexing and parsing of `text` gives, with each error prefixed by `prefix`.
pub open spec fn parsed_as(text: Seq<char>, fu: FloatFn, prefix: Seq<char>) -> Result<ProgramV, Seq<char>> {
    match spec_lex(text, fu) {
        Err(e) => Err(prefix + e),
        Ok(ts) => match spec_parse_program(ts) {
            Err(e) => Err(prefix + e),
            Ok(p) => Ok(p),
        },
    }
}

/// The only frame, with no import among its statements, is taken in whole.
proof fn lemma_advance_without_imports(l: LoaderV)
    requires
        l.frames.len() == 1,
        forall|k: int| 0 <= k < l.frames[0].rest.len() ==> !(#[trigger] l.frames[0].rest[k] is Import),
    ensures
        advance(l) == (
            LoaderV { frames: Seq::empty(), waiting: WaitV::Nothing, ..l },
            RequestV::Done(
                Ok(
                    ProgramV {
                        funcs: l.frames[0].program.funcs + l.frames[0].funcs,
                        main: l.frames[0].program.main + l.frames[0].rest,
                    },
                ),
            ),
        ),
    decreases l.frames[0].rest.len(),
{
    let f = l.frames[0];
    assert(l.frames.last() == f);
    assert(l.frames.drop_last() =~= Seq::<FrameV>::empty());
    if f.rest.len() == 0 {
        assert(f.program.main + f.rest =~= f.program.main);
    } else {
        let s = f.rest[0];
        assert(!(s is Import));
        let f1 = FrameV { rest: f.rest.drop_first(), program: ProgramV { main: f.program.main.push(s), ..f.program }, ..f };
        let l1 = LoaderV { frames: l.frames.drop_last().push(f1), waiting: WaitV::Nothing, ..l };
        assert(l1.frames[0] == f1);
        assert forall|k: int| 0 <= k < f1.rest.len() implies !(#[trigger] f1.rest[k] is Import) by {
            assert(f1.rest[k] == f.rest[k + 1]);
        }
        lemma_advance_without_imports(l1);
        assert(f.program.main.push(s) + f.rest.drop_first() =~= f.program.main + f.rest);
        assert(LoaderV { frames: Seq::empty(), waiting: WaitV::Nothing, ..l1 } == LoaderV {
            frames: Seq::empty(),
            waiting: WaitV::Nothing,
            ..l
        });
    }
}

/// A snippet without imports loads as its own lexing and parsing gives it,
/// wherever it is taken to be.
pub proof fn law_snippet_without_imports(source: Seq<char>, virtual_file: Seq<char>, fu: FloatFn)
    requires
        has_no_imports(source, fu),
    ensures
        snippet_start(source, virtual_file, fu).1 == RequestV::Done(parsed_as(source, fu, Seq::empty())),
{
    if let Ok(ts) = spec_lex(source, fu) {
        if let Ok(p) = spec_parse_program(ts) {
            let f = FrameV {
                prefix: Seq::empty(),
                base: virtual_file,
                file: false,
                rest: p.main,
                funcs: p.funcs,
                program: empty_program(),
                import: Seq::empty(),
                line: 0,
            };
            let l = LoaderV { frames: seq![f], ..crate::loader::idle() };
            assert(l.frames[0] == f);
            lemma_advance_without_imports(l);
            assert(Seq::<FuncV>::empty() + p.funcs =~= p.funcs);
            assert(Seq::<StmtV>::empty() + p.main =~= p.main);
        }
    } else {
        assert(Seq::<char>::empty() + spec_lex(source, fu)->Err_0 =~= spec_lex(source, fu)->Err_0);
    }
    if let Ok(ts) = spec_lex(source, fu) {
        if let Err(e) = spec_parse_program(ts) {
            assert(Seq::<char>::empty() + e =~= e);
        }
    }
}

/// Loading a file without imports: it is located, read, and loads as its own
/// lexing and parsing gives it, an error prefixed with its canonical path.
pub proof fn law_file_without_imports(path: Seq<char>, c: Seq<char>, text: Seq<char>, fu: FloatFn)
    requires
        has_no_imports(text, fu),
    ensures
        file_start(path).1 == (RequestV::Locate { from: None, import: path }),
        on_located(file_start(path).0, path, Ok(c)).1 == RequestV::Read(c),
        on_read(on_located(file_start(path).0, path, Ok(c)).0, c, Ok(text), fu).1 == RequestV::Done(
            parsed_as(text, fu, c + ": "@),
        ),
{
    let l2 = on_located(file_start(path).0, path, Ok(c)).0;
    assert(stack_of(Seq::<FrameV>::empty()) == Seq::<Seq<char>>::empty());
    assert(l2.frames =~= Seq::<FrameV>::empty());
    assert(l2.loaded =~= seq![c]);
    if let Ok(ts) = spec_lex(text, fu) {
        if let Ok(p) = spec_parse_program(ts) {
            let f = FrameV {
                prefix: c + ":"@,
                base: c,
                file: true,
                rest: p.main,
                funcs: p.funcs,
                program: empty_program(),
                import: Seq::empty(),
                line: 0,
            };
            let l = LoaderV { frames: l2.frames.push(f), waiting: WaitV::Nothing, ..l2 };
            assert(l.frames =~= seq![f]);
            assert(l.frames[0] == f);
            lemma_advance_without_imports(l);
            assert(Seq::<FuncV>::empty() + p.funcs =~= p.funcs);
            assert(Seq::<StmtV>::empty() + p.main =~= p.main);
        }
    }
}

// ---------------------------------------------------------------- comments

/// The end of a comment is unchanged by more text without a newline, unless
/// it ran to the end, where it still does.
proof fn lemma_comment_end_extended(cs: Seq<char>, tail: Seq<char>, j: int)
    requires
        0 <= j <= cs.len(),
        !tail.contains('\n'),
    ensures
        comment_end(cs, j) < cs.len() ==> comment_end(cs + tail, j) == comment_end(cs, j),
        comment_end(cs, j) == cs.len() ==> comment_end(cs + tail, j) == cs.len() + tail.len(),
    decreases cs.len() + tail.len() - j,
{
    let x = cs + tail;
    lemma_comment_end(cs, j);
    if j < cs.len() {
        assert(x[j] == cs[j]);
        if cs[j] != '\n' {
            lemma_comment_end_extended(cs, tail, j + 1);
        }
    } else if j < x.len() {
        assert(x[j] == tail[j - cs.len()]);
        lemma_comment_end_tail(x, cs.len() as int, j);
    }
}

proof fn lemma_comment_end_tail(x: Seq<char>, from: int, j: int)
    requires
        0 <= from <= j <= x.len(),
        forall|k: int| from <= k < x.len() ==> x[k] != '\n',
    ensures
        comment_end(x, j) == x.len(),
    decreases x.len() - j,
{
    if j < x.len() {
        lemma_comment_end_tail(x, from, j + 1);
    }
}

proof fn lemma_ident_end_extended(cs: Seq<char>, tail: Seq<char>, j: int)
    requires
        0 <= j <= cs.len(),
        tail.len() > 0,
        tail[0] == ' ',
    ensures
        ident_end(cs + tail, j) == ident_end(cs, j),
    decreases cs.len() - j,
{
    let x = cs + tail;
    if j < cs.len() {
        assert(x[j] == cs[j]);
        if is_ident_char(cs[j]) {
            lemma_ident_end_extended(cs, tail, j + 1);
        }
    } else {
        assert(x[j] == ' ');
    }
}

proof fn lemma_number_end_extended(cs: Seq<char>, tail: Seq<char>, j: int, seen: bool)
    requires
        0 <= j <= cs.len(),
        tail.len() > 0,
        tail[0] == ' ',
    ensures
        number_end(cs + tail, j, seen) == number_end(cs, j, seen),
    decreases cs.len() - j,
{
    let x = cs + tail;
    if j < cs.len() {
        assert(x[j] == cs[j]);
        if j + 1 < cs.len() {
            assert(x[j + 1] == cs[j + 1]);
        } else {
            assert(x[j + 1] == ' ');
        }
        if crate::lexer::number_continues(cs, j) {
            if cs[j] == '.' {
                if !seen {
                    lemma_number_end_extended(cs, tail, j + 1, true);
                }
            } else {
                lemma_number_end_extended(cs, tail, j + 1, seen);
            }
        }
    } else {
        assert(x[j] == ' ');
    }
}

proof fn lemma_scan_string_extended(cs: Seq<char>, tail: Seq<char>, j: int, acc: Seq<char>)
    requires
        0 <= j,
        scan_string(cs, j, acc) is Done,
    ensures
        scan_string(cs + tail, j, acc) == scan_string(cs, j, acc),
    decreases cs.len() - j,
{
    let x = cs + tail;
    assert(x[j] == cs[j]);
    if cs[j] == '\\' {
        assert(x[j + 1] == cs[j + 1]);
        lemma_scan_string_extended(cs, tail, j + 2, acc.push(crate::lexer::unescape(cs[j + 1])));
    } else if cs[j] != '"' {
        lemma_scan_string_extended(cs, tail, j + 1, acc.push(cs[j]));
    }
}

/// Tokens from `i` on are unchanged by a comment added at the end after a space.
proof fn lemma_lex_from_extended(cs: Seq<char>, tail: Seq<char>, i: int, line: nat, fu: FloatFn)
    requires
        0 <= i <= cs.len(),
        tail.len() >= 2,
        tail[0] == ' ',
        tail[1] == ';' || tail[1] == '#',
        !tail.contains('\n'),
        lex_from(cs, i, line, fu) is Ok,
    ensures
        lex_from(cs + tail, i, line, fu) == lex_from(cs, i, line, fu),
    decreases cs.len() - i,
{
    let x = cs + tail;
    if i == cs.len() {
        assert(x[i] == ' ');
        assert(x[i + 1] == tail[1]);
        assert forall|k: int| i + 1 <= k < x.len() implies x[k] != '\n' by {
            assert(x[k] == tail[k - cs.len()]);
        }
        lemma_comment_end_tail(x, i + 1, i + 1);
        assert(lex_from(x, i + 1, line, fu) == lex_from(x, x.len() as int, line, fu));
    } else {
        let c = cs[i];
        assert(x[i] == c);
        if c == ';' || c == '#' {
            lemma_comment_end(cs, i + 1);
            lemma_comment_end_extended(cs, tail, i);
            if comment_end(cs, i) < cs.len() {
                lemma_lex_from_extended(cs, tail, comment_end(cs, i), line, fu);
            }
        } else if c == '\r' || c == ' ' || c == '\t' {
            lemma_lex_from_extended(cs, tail, i + 1, line, fu);
        } else if c == '\n' {
            lemma_lex_from_extended(cs, tail, i + 1, line + 1, fu);
        } else if is_digit(c) {
            lemma_number_end(cs, i + 1, false);
            lemma_number_end_extended(cs, tail, i, false);
            let j = number_end(cs, i, false);
            assert(x.subrange(i, j) =~= cs.subrange(i, j));
            lemma_lex_from_extended(cs, tail, j, line, fu);
        } else if crate::lexer::is_ident_start(c) {
            lemma_ident_end(cs, i + 1);
            lemma_ident_end_extended(cs, tail, i + 1);
            let j = ident_end(cs, i + 1);
            assert(x.subrange(i, j) =~= cs.subrange(i, j));
            lemma_lex_from_extended(cs, tail, j, line, fu);
        } else if c == '"' {
            lemma_scan_string(cs, i + 1, Seq::empty());
            lemma_scan_string_extended(cs, tail, i + 1, Seq::empty());
            if let StringScan::Done(_, j) = scan_string(cs, i + 1, Seq::empty()) {
                lemma_lex_from_extended(cs, tail, j, line, fu);
            }
        } else {
            if i + 1 < cs.len() {
                assert(x[i + 1] == cs[i + 1]);
            } else {
                assert(x[i + 1] == ' ');
            }
            assert(two_char_tok(x, i) == two_char_tok(cs, i));
            if two_char_tok(cs, i) is Some {
                lemma_lex_from_extended(cs, tail, i + 2, line, fu);
            } else if one_char_tok(c) is Some {
                lemma_lex_from_extended(cs, tail, i + 1, line, fu);
            }
        }
    }
}

proof fn lemma_strip_bom_extended(a: Seq<char>, b: Seq<char>)
    requires
        b.len() > 0,
        b[0] != '\u{feff}',
    ensures
        strip_bom(a + b) == strip_bom(a) + b,
    decreases a.len(),
{
    if a.len() > 0 && a[0] == '\u{feff}' {
        assert((a + b).drop_first() =~= a.drop_first() + b);
        lemma_strip_bom_extended(a.drop_first(), b);
    } else if a.len() > 0 {
        assert((a + b)[0] == a[0]);
    } else {
        assert(a + b =~= b);
        assert(Seq::<char>::empty() + b =~= b);
    }
}

/// A comment (`;` or `#`) added after a space at the end of a source that
/// lexes leaves its tokens unchanged: a comment runs to the end of its line.
pub proof fn law_trailing_comment_ignored(src: Seq<char>, c: char, text: Seq<char>, fu: FloatFn)
    requires
        spec_lex(src, fu) is Ok,
        c == ';' || c == '#',
        !text.contains('\n'),
    ensures
        spec_lex(src + seq![' ', c] + text, fu) == spec_lex(src, fu),
{
    let tail = seq![' ', c] + text;
    assert(src + seq![' ', c] + text =~= src + tail);
    assert(!tail.contains('\n')) by {
        if tail.contains('\n') {
            let k = choose|k: int| 0 <= k < tail.len() && tail[k] == '\n';
            assert(text[k - 2] == '\n');
        }
    }
    lemma_strip_bom_extended(src, tail);
    let cs = strip_bom(src);
    lemma_lex_from_extended(cs, tail, 0, 1, fu);
}

// ---------------------------------------------------------------- the output

/// A timing of the form `+d`.
pub open spec fn is_relative_timing(t: Seq<char>) -> bool {
    exists|d: nat| t == "+"@ + decimal(d)
}

/// A timing that is an absolute frame.
pub open spec fn is_absolute_timing(t: Seq<char>) -> bool {
    exists|f: int| t == crate::text::signed_decimal(f)
}

/// The timing of an output line: `0` for the first, `+d` for a later one, or
/// an absolute frame when there are warnings.
pub open spec fn well_timed(t: Seq<char>, first: bool, warned: bool) -> bool {
    if first {
        t == "0"@
    } else {
        is_relative_timing(t) || (warned && is_absolute_timing(t))
    }
}

/// An output line: a timing, then an action that the action-line grammar accepts.
pub open spec fn valid_action_line(l: Seq<char>, first: bool, warned: bool, fu: FloatFn) -> bool {
    exists|t: Seq<char>, name: Seq<char>, args: Seq<Seq<char>>|
        #![trigger action_line(t, name, args)]
        l == action_line(t, name, args) && spec_validate(name, args, fu) is Ok && well_timed(t, first, warned)
}

/// Output lines that are all valid, each timed as its place asks; there is
/// a previous output frame exactly when there is a line.
pub open spec fn valid_output(out: Seq<Seq<char>>, warnings: Seq<Seq<char>>, output_frame: Option<i64>, fu: FloatFn) -> bool {
    &&& (output_frame is None <==> out.len() == 0)
    &&& forall|k: int| 0 <= k < out.len() ==> valid_action_line(#[trigger] out[k], k == 0, warnings.len() > 0, fu)
}

/// From `st` to `r`, valid output stays valid.
pub open spec fn keeps_output(st: StateV, r: StateV, fu: FloatFn) -> bool {
    valid_output(st.out, st.warnings, st.output_frame, fu) ==> valid_output(r.out, r.warnings, r.output_frame, fu)
}

/// Emitting an action the grammar accepts keeps the output valid.
proof fn lemma_emit_valid(st: StateV, name: Seq<char>, args: Seq<Seq<char>>, line: nat, fu: FloatFn)
    requires
        spec_validate(name, args, fu) is Ok,
    ensures
        keeps_output(st, emit(st, name, args, line), fu),
{
    let r = emit(st, name, args, line);
    if valid_output(st.out, st.warnings, st.output_frame, fu) {
        assert(r.warnings.len() >= st.warnings.len());
        let n = st.out.len();
        assert(r.out == st.out.push(r.out.last()));
        let timing = match st.output_frame {
            None => "0"@,
            Some(p) => if st.frame.wrapping_sub(p) >= 0 {
                "+"@ + crate::text::signed_decimal(st.frame.wrapping_sub(p) as int)
            } else {
                crate::text::signed_decimal(st.frame as int)
            },
        };
        assert(r.out.last() == action_line(timing, name, args));
        if let Some(p) = st.output_frame {
            if st.frame.wrapping_sub(p) >= 0 {
                assert(timing == "+"@ + decimal(st.frame.wrapping_sub(p) as nat));
            } else {
                assert(r.warnings.len() > 0);
            }
        }
        assert(well_timed(timing, n == 0, r.warnings.len() > 0));
        assert(valid_action_line(r.out[n as int], n == 0, r.warnings.len() > 0, fu));
        assert forall|k: int| 0 <= k < r.out.len() implies valid_action_line(#[trigger] r.out[k], k == 0, r.warnings.len() > 0, fu) by {
            if k < n {
                assert(r.out[k] == st.out[k]);
                assert(valid_action_line(st.out[k], k == 0, st.warnings.len() > 0, fu));
                let (t, nm, a) = choose|t: Seq<char>, nm: Seq<char>, a: Seq<Seq<char>>|
                    #![trigger action_line(t, nm, a)]
                    st.out[k] == action_line(t, nm, a) && spec_validate(nm, a, fu) is Ok && well_timed(t, k == 0, st.warnings.len() > 0);
                assert(well_timed(t, k == 0, r.warnings.len() > 0));
            }
        }
    }
}

/// Every line a successful compile emits is an action the action-line
/// grammar accepts; the first is timed `0`, and each later one `+d`, or with
/// an absolute frame only when there are warnings.
pub proof fn law_output_lines_are_valid(fs: Seq<FuncV>, fu: FloatFn, main: Seq<StmtV>)
    ensures
        spec_compile(fs, fu, main).0 matches Ok((lines, warnings)) ==> forall|k: int|
            0 <= k < lines.len() ==> valid_action_line(#[trigger] lines[k], k == 0, warnings.len() > 0, fu),
{
    let st = crate::semantics::initial_state();
    assert(valid_output(st.out, st.warnings, st.output_frame, fu));
    law_statements_keep_the_call_stack(fs, fu, main, st);
}

// ---------------------------------------------------------------- carriage returns

/// The source without its character at `p`.
pub open spec fn without_char(cs: Seq<char>, p: int) -> Seq<char> {
    cs.take(p) + cs.skip(p + 1)
}

/// Where position `i` lands once the character at `p` is taken out.
pub open spec fn shifted(i: int, p: int) -> int {
    if i <= p {
        i
    } else {
        i - 1
    }
}

/// `cs` has a carriage return at `p` and a newline right after it.
pub open spec fn crlf_at(cs: Seq<char>, p: int) -> bool {
    0 <= p && p + 1 < cs.len() && cs[p] == '\r' && cs[p + 1] == '\n'
}

proof fn lemma_without_char(cs: Seq<char>, p: int)
    requires
        crlf_at(cs, p),
    ensures
        without_char(cs, p).len() == cs.len() - 1,
        forall|k: int| 0 <= k < p ==> #[trigger] without_char(cs, p)[k] == cs[k],
        forall|k: int| p <= k < cs.len() - 1 ==> #[trigger] without_char(cs, p)[k] == cs[k + 1],
{
    let x = without_char(cs, p);
    assert forall|k: int| p <= k < cs.len() - 1 implies #[trigger] x[k] == cs[k + 1] by {
        assert(x[k] == cs.skip(p + 1)[k - p]);
    }
}

proof fn lemma_comment_end_cr(cs: Seq<char>, p: int, j: int)
    requires
        crlf_at(cs, p),
        0 <= j <= cs.len(),
    ensures
        shifted(comment_end(cs, j), p) == comment_end(without_char(cs, p), shifted(j, p)),
    decreases cs.len() - j,
{
    let x = without_char(cs, p);
    lemma_without_char(cs, p);
    if j < cs.len() && cs[j] != '\n' {
        lemma_comment_end_cr(cs, p, j + 1);
        if j < p {
            assert(x[j] == cs[j]);
        } else if j > p {
            assert(x[j - 1] == cs[j]);
        }
    } else if j < cs.len() {
        if j < p {
            assert(x[j] == cs[j]);
        } else {
            assert(x[j - 1] == cs[j]);
        }
    }
}

proof fn lemma_ident_end_cr(cs: Seq<char>, p: int, j: int)
    requires
        crlf_at(cs, p),
        0 <= j <= cs.len(),
    ensures
        shifted(ident_end(cs, j), p) == ident_end(without_char(cs, p), shifted(j, p)),
    decreases cs.len() - j,
{
    let x = without_char(cs, p);
    lemma_without_char(cs, p);
    if j < cs.len() {
        if j < p {
            assert(x[j] == cs[j]);
        } else if j == p {
            assert(x[p] == '\n');
        } else {
            assert(x[j - 1] == cs[j]);
        }
        if is_ident_char(cs[j]) {
            lemma_ident_end_cr(cs, p, j + 1);
        }
    }
}

proof fn lemma_number_end_cr(cs: Seq<char>, p: int, j: int, seen: bool)
    requires
        crlf_at(cs, p),
        0 <= j <= cs.len(),
    ensures
        shifted(number_end(cs, j, seen), p) == number_end(without_char(cs, p), shifted(j, p), seen),
    decreases cs.len() - j,
{
    let x = without_char(cs, p);
    lemma_without_char(cs, p);
    if j < cs.len() {
        if j < p {
            assert(x[j] == cs[j]);
            if j + 1 < p {
                assert(x[j + 1] == cs[j + 1]);
            } else {
                assert(x[p] == '\n');
            }
        } else if j == p {
            assert(x[p] == '\n');
        } else {
            assert(x[j - 1] == cs[j]);
            if j + 1 < cs.len() {
                assert(x[j] == cs[j + 1]);
            }
        }
        if crate::lexer::number_continues(cs, j) {
            if cs[j] == '.' {
                if !seen {
                    lemma_number_end_cr(cs, p, j + 1, true);
                }
            } else {
                lemma_number_end_cr(cs, p, j + 1, seen);
            }
        }
    }
}

proof fn lemma_lex_from_cr(cs: Seq<char>, p: int, i: int, line: nat, fu: FloatFn)
    requires
        crlf_at(cs, p),
        !cs.contains('"'),
        0 <= i <= cs.len(),
    ensures
        lex_from(cs, i, line, fu) == lex_from(without_char(cs, p), shifted(i, p), line, fu),
    decreases cs.len() - i,
{
    let x = without_char(cs, p);
    lemma_without_char(cs, p);
    if i == p {
        lemma_lex_from_cr(cs, p, i + 1, line, fu);
    } else if i < cs.len() {
        let c = cs[i];
        let mi = shifted(i, p);
        if i < p {
            assert(x[i] == c);
        } else {
            assert(x[i - 1] == c);
        }
        assert(x[mi] == c);
        if c == ';' || c == '#' {
            lemma_comment_end(cs, i + 1);
            lemma_comment_end_cr(cs, p, i);
            lemma_lex_from_cr(cs, p, comment_end(cs, i), line, fu);
        } else if c == '\r' || c == ' ' || c == '\t' {
            lemma_lex_from_cr(cs, p, i + 1, line, fu);
        } else if c == '\n' {
            lemma_lex_from_cr(cs, p, i + 1, line + 1, fu);
        } else if is_digit(c) {
            lemma_number_end(cs, i + 1, false);
            lemma_number_end_cr(cs, p, i, false);
            let j = number_end(cs, i, false);
            if i < p {
                assert(j <= p) by {
                    if j > p {
                        lemma_number_end_reaches(cs, i, false, p);
                    }
                }
                assert(x.subrange(i, j) =~= cs.subrange(i, j));
            } else {
                assert(x.subrange(i - 1, j - 1) =~= cs.subrange(i, j));
            }
            lemma_lex_from_cr(cs, p, j, line, fu);
        } else if crate::lexer::is_ident_start(c) {
            lemma_ident_end(cs, i + 1);
            lemma_ident_end_cr(cs, p, i + 1);
            let j = ident_end(cs, i + 1);
            if i < p {
                assert(j <= p) by {
                    if j > p {
                        lemma_ident_end_reaches(cs, i + 1, p);
                    }
                }
                assert(x.subrange(i, j) =~= cs.subrange(i, j));
            } else {
                assert(x.subrange(i - 1, j - 1) =~= cs.subrange(i, j));
            }
            lemma_lex_from_cr(cs, p, j, line, fu);
        } else if c == '"' {
            assert(cs.contains('"'));
        } else {
            if i + 1 < cs.len() {
                if i + 1 < p {
                    assert(x[i + 1] == cs[i + 1]);
                } else if i + 1 == p {
                    assert(x[p] == '\n');
                } else {
                    assert(x[i] == cs[i + 1]);
                }
            }
            assert(two_char_tok(x, mi) == two_char_tok(cs, i));
            if two_char_tok(cs, i) is Some {
                lemma_lex_from_cr(cs, p, i + 2, line, fu);
            } else if one_char_tok(c) is Some {
                lemma_lex_from_cr(cs, p, i + 1, line, fu);
            }
        }
    }
}

/// An identifier run from `j` does not pass a carriage return at `p`.
proof fn lemma_ident_end_reaches(cs: Seq<char>, j: int, p: int)
    requires
        0 <= j <= p < cs.len(),
        cs[p] == '\r',
    ensures
        ident_end(cs, j) <= p,
    decreases p - j,
{
    if j < p && is_ident_char(cs[j]) {
        lemma_ident_end_reaches(cs, j + 1, p);
    }
}

/// A number run from `j` does not pass a carriage return at `p`.
proof fn lemma_number_end_reaches(cs: Seq<char>, j: int, seen: bool, p: int)
    requires
        0 <= j <= p < cs.len(),
        cs[p] == '\r',
    ensures
        number_end(cs, j, seen) <= p,
    decreases p - j,
{
    if j < p && crate::lexer::number_continues(cs, j) {
        if cs[j] == '.' {
            if !seen {
                lemma_number_end_reaches(cs, j + 1, true, p);
            }
        } else {
            lemma_number_end_reaches(cs, j + 1, seen, p);
        }
    }
}

proof fn lemma_strip_bom_suffix(s: Seq<char>)
    ensures
        strip_bom(s).len() <= s.len(),
        strip_bom(s) == s.skip(s.len() - strip_bom(s).len()),
    decreases s.len(),
{
    if s.len() > 0 && s[0] == '\u{feff}' {
        lemma_strip_bom_suffix(s.drop_first());
        assert(s.drop_first().skip(s.drop_first().len() - strip_bom(s).len()) =~= s.skip(s.len() - strip_bom(s).len()));
    } else {
        assert(s.skip(0) =~= s);
    }
}

proof fn lemma_strip_bom_cr(src: Seq<char>, p: int)
    requires
        crlf_at(src, p),
    ensures
        exists|q: int| crlf_at(strip_bom(src), q) && strip_bom(without_char(src, p)) == without_char(strip_bom(src), q),
    decreases src.len(),
{
    let x = without_char(src, p);
    lemma_without_char(src, p);
    if src[0] == '\u{feff}' {
        assert(p > 0);
        assert(x[0] == src[0]);
        assert(x.drop_first() =~= without_char(src.drop_first(), p - 1));
        lemma_strip_bom_cr(src.drop_first(), p - 1);
        assert(strip_bom(x) == strip_bom(x.drop_first()));
        assert(strip_bom(src) == strip_bom(src.drop_first()));
        let q = choose|q: int|
            crlf_at(strip_bom(src.drop_first()), q) && strip_bom(without_char(src.drop_first(), p - 1))
                == without_char(strip_bom(src.drop_first()), q);
        assert(crlf_at(strip_bom(src), q) && strip_bom(x) == without_char(strip_bom(src), q));
    } else {
        if p > 0 {
            assert(x[0] == src[0]);
        } else {
            assert(x[0] == '\n');
        }
        assert(strip_bom(x) == x);
        assert(strip_bom(src) == src);
        assert(crlf_at(strip_bom(src), p) && strip_bom(x) == without_char(strip_bom(src), p));
    }
}

/// Taking out the carriage return of a CR-LF line end leaves the tokens of a
/// source without string literals unchanged; taking them out one by one, so
/// does replacing every `\r\n` by `\n`.
pub proof fn law_carriage_return_ignored(src: Seq<char>, p: int, fu: FloatFn)
    requires
        crlf_at(src, p),
        !src.contains('"'),
    ensures
        spec_lex(without_char(src, p), fu) == spec_lex(src, fu),
{
    lemma_strip_bom_cr(src, p);
    let cs = strip_bom(src);
    let q = choose|q: int| crlf_at(cs, q) && strip_bom(without_char(src, p)) == without_char(cs, q);
    lemma_strip_bom_suffix(src);
    assert(!cs.contains('"')) by {
        if cs.contains('"') {
            let k = choose|k: int| 0 <= k < cs.len() && cs[k] == '"';
            assert(src[k + (src.len() - cs.len())] == '"');
        }
    }
    lemma_lex_from_cr(cs, q, 0, 1, fu);
}

/// The text with every `\r\n` replaced by `\n` (`str::replace`, left to right).
pub open spec fn crlf_to_lf(s: Seq<char>) -> Seq<char>
    decreases s.len(),
{
    if s.len() == 0 {
        s
    } else if s.len() >= 2 && s[0] == '\r' && s[1] == '\n' {
        crlf_to_lf(s.drop_first())
    } else {
        seq![s[0]] + crlf_to_lf(s.drop_first())
    }
}

proof fn lemma_crlf_to_lf(a: Seq<char>, r: Seq<char>, fu: FloatFn)
    requires
        !(a + r).contains('"'),
    ensures
        spec_lex(a + crlf_to_lf(r), fu) == spec_lex(a + r, fu),
    decreases r.len(),
{
    if r.len() == 0 {
        assert(crlf_to_lf(r) == r);
    } else if r.len() >= 2 && r[0] == '\r' && r[1] == '\n' {
        let s = a + r;
        let p = a.len() as int;
        assert(s[p] == '\r' && s[p + 1] == '\n');
        assert(without_char(s, p) =~= a + r.drop_first());
        law_carriage_return_ignored(s, p, fu);
        assert(!(a + r.drop_first()).contains('"')) by {
            if (a + r.drop_first()).contains('"') {
                let k = choose|k: int| 0 <= k < (a + r.drop_first()).len() && (a + r.drop_first())[k] == '"';
                if k < p {
                    assert(s[k] == '"');
                } else {
                    assert(s[k + 1] == '"');
                }
            }
        }
        lemma_crlf_to_lf(a, r.drop_first(), fu);
    } else {
        let a1 = a.push(r[0]);
        assert(a1 + r.drop_first() =~= a + r);
        assert(a + crlf_to_lf(r) =~= a1 + crlf_to_lf(r.drop_first()));
        lemma_crlf_to_lf(a1, r.drop_first(), fu);
    }
}

/// Replacing every `\r\n` by `\n` leaves the tokens of a source without
/// string literals unchanged: a carriage return is skipped like a space.
pub proof fn law_windows_line_ends_ignored(src: Seq<char>, fu: FloatFn)
    requires
        !src.contains('"'),
    ensures
        spec_lex(crlf_to_lf(src), fu) == spec_lex(src, fu),
{
    assert(Seq::<char>::empty() + src =~= src);
    assert(Seq::<char>::empty() + crlf_to_lf(src) =~= crlf_to_lf(src));
    lemma_crlf_to_lf(Seq::empty(), src, fu);
}

} // verus!
