//! Validation of SoulsTAS action lines: the action names, and the number and
//! form of the arguments each action takes.

use vstd::prelude::*;
use crate::interp::{ask, lemma_unit_function, unit_computes, unit_deterministic, unit_function, FloatOp, FloatOut};
use crate::number::{in_unit_interval, in_unit_interval_exec, is_float_literal, is_float_text};
use crate::semantics::{FloatFn, FloatOpV};
use crate::text::{chars_of, decimal, push_str, str_eq, to_owned_string, usize_to_string};

verus! {

/// The names of the actions that SoulsTAS understands.
pub open spec fn spec_is_action(name: Seq<char>) -> bool {
    ||| name == "nothing"@
    ||| name == "fps"@
    ||| name == "frame"@
    ||| name == "key"@
    ||| name == "key_alternative"@
    ||| name == "gamepad"@
    ||| name == "mouse"@
    ||| name == "await"@
    ||| name == "pause"@
}

/// Whether `name` is one of the SoulsTAS action names.
pub fn is_action(name: &str) -> (r: bool)
    ensures
        r == spec_is_action(name@),
{
    str_eq(name, "nothing") || str_eq(name, "fps") || str_eq(name, "frame") || str_eq(name, "key")
        || str_eq(name, "key_alternative") || str_eq(name, "gamepad") || str_eq(name, "mouse")
        || str_eq(name, "await") || str_eq(name, "pause")
}

/// The outcome of a check: the first error message, if any.
pub type Check = Result<(), Seq<char>>;

/// `first`, and when it passes, `rest`.
pub open spec fn and_then(first: Check, rest: Check) -> Check {
    match first {
        Err(e) => Err(e),
        Ok(_) => rest,
    }
}

/// Whether an executable outcome is the one described by a check.
pub open spec fn outcome_is(r: Result<(), String>, c: Check) -> bool {
    match (r, c) {
        (Ok(_), Ok(_)) => true,
        (Err(e), Err(m)) => e@ == m,
        _ => false,
    }
}

pub open spec fn views(args: Seq<String>) -> Seq<Seq<char>> {
    args.map_values(|a: String| a@)
}

pub open spec fn str_views(items: Seq<&str>) -> Seq<Seq<char>> {
    items.map_values(|a: &str| a@)
}

/// The items separated by `sep`.
pub open spec fn join(items: Seq<Seq<char>>, sep: Seq<char>) -> Seq<char>
    decreases items.len(),
{
    if items.len() == 0 {
        Seq::empty()
    } else if items.len() == 1 {
        items[0]
    } else {
        join(items.drop_last(), sep) + sep + items.last()
    }
}

pub open spec fn check_len(name: Seq<char>, args: Seq<Seq<char>>, n: nat) -> Check {
    if args.len() == n {
        Ok(())
    } else {
        Err(
            "action '"@ + name + "' expects "@ + decimal(n) + " argument(s), got "@ + decimal(
                args.len(),
            ),
        )
    }
}

pub open spec fn check_one_of(value: Seq<char>, allowed: Seq<Seq<char>>, what: Seq<char>) -> Check {
    if allowed.contains(value) {
        Ok(())
    } else {
        Err(
            "invalid "@ + what + " '"@ + value + "', expected one of: "@ + join(allowed, ", "@),
        )
    }
}

/// The arguments `lo..hi` are numbers; the error names the first that is not.
pub open spec fn check_nums(args: Seq<Seq<char>>, lo: int, hi: int) -> Check
    decreases hi - lo,
{
    if lo >= hi {
        Ok(())
    } else if !is_float_literal(args[lo]) {
        Err("argument '"@ + args[lo] + "' must be a number"@)
    } else {
        check_nums(args, lo + 1, hi)
    }
}

pub open spec fn check_nonempty(arg: Seq<char>, message: Seq<char>) -> Check {
    if arg.len() == 0 {
        Err(message)
    } else {
        Ok(())
    }
}

pub open spec fn up_down() -> Seq<Seq<char>> {
    seq!["down"@, "up"@]
}

pub open spec fn stick_sides() -> Seq<Seq<char>> {
    seq!["left"@, "right"@]
}

pub open spec fn await_conditions() -> Seq<Seq<char>> {
    seq!["focus"@, "ingame"@, "no_ingame"@, "cutscene"@, "no_cutscene"@, "mainmenu"@, "no_mainmenu"@]
}

/// The `{}` text of the 64-bit float that the number literal `s` reads as.
pub open spec fn float_text(fu: FloatFn, s: Seq<char>) -> Seq<char> {
    fu(FloatOpV::Display(fu(FloatOpV::Parse(s)).bits)).text
}

pub open spec fn check_gamepad(args: Seq<Seq<char>>, fu: FloatFn) -> Check {
    if args.len() == 0 {
        Err("action 'gamepad' expects a sub-action (button/stick/axis)"@)
    } else if args[0] == "button"@ {
        and_then(
            check_len("gamepad button"@, args, 3),
            and_then(
                check_one_of(args[1], up_down(), "button state"@),
                check_nonempty(args[2], "gamepad button name must not be empty"@),
            ),
        )
    } else if args[0] == "stick"@ {
        and_then(
            check_len("gamepad stick"@, args, 4),
            and_then(
                check_one_of(args[1], stick_sides(), "stick"@),
                and_then(
                    check_nums(args, 2, 4),
                    if in_unit_interval(args[3]) {
                        Ok(())
                    } else {
                        Err("gamepad stick amount must be between 0 and 1, got "@ + float_text(fu, args[3]))
                    },
                ),
            ),
        )
    } else if args[0] == "axis"@ {
        and_then(
            check_len("gamepad axis"@, args, 3),
            and_then(
                check_nonempty(args[1], "gamepad axis name must not be empty"@),
                check_nums(args, 2, 3),
            ),
        )
    } else {
        Err("invalid gamepad sub-action '"@ + args[0] + "', expected one of: button, stick, axis"@)
    }
}

pub open spec fn check_mouse(args: Seq<Seq<char>>) -> Check {
    if args.len() == 0 {
        Err("action 'mouse' expects a sub-action (button/scroll/move)"@)
    } else if args[0] == "button"@ {
        and_then(
            check_len("mouse button"@, args, 3),
            and_then(
                check_one_of(args[1], up_down(), "button state"@),
                check_nonempty(args[2], "mouse button name must not be empty"@),
            ),
        )
    } else if args[0] == "scroll"@ {
        and_then(
            check_len("mouse scroll"@, args, 3),
            and_then(check_one_of(args[1], up_down(), "scroll direction"@), check_nums(args, 2, 3)),
        )
    } else if args[0] == "move"@ {
        and_then(check_len("mouse move"@, args, 3), check_nums(args, 1, 3))
    } else {
        Err("invalid mouse sub-action '"@ + args[0] + "', expected one of: button, scroll, move"@)
    }
}

pub open spec fn check_await(args: Seq<Seq<char>>) -> Check {
    if args.len() == 0 {
        Err("action 'await' expects a condition"@)
    } else if args[0] == "position"@ || args[0] == "position_alternative"@ {
        and_then(check_len("await "@ + args[0], args, 5), check_nums(args, 1, 5))
    } else {
        and_then(
            check_one_of(args[0], await_conditions(), "await condition"@),
            check_len("await "@ + args[0], args, 1),
        )
    }
}

pub open spec fn check_pause(args: Seq<Seq<char>>) -> Check {
    if args.len() == 0 {
        Err("action 'pause' expects a sub-action (ms/input)"@)
    } else if args[0] == "ms"@ {
        and_then(check_len("pause ms"@, args, 2), check_nums(args, 1, 2))
    } else if args[0] == "input"@ {
        check_len("pause input"@, args, 1)
    } else {
        Err("invalid pause sub-action '"@ + args[0] + "', expected one of: ms, input"@)
    }
}

/// The action-line grammar: the outcome of validating action `name` with the
/// (fully evaluated) arguments `args`. A number shown in a message is the
/// 64-bit float it reads as, in the text the float unit `fu` gives it.
pub open spec fn spec_validate(name: Seq<char>, args: Seq<Seq<char>>, fu: FloatFn) -> Check {
    if name == "nothing"@ {
        check_len(name, args, 0)
    } else if name == "fps"@ || name == "frame"@ {
        and_then(check_len(name, args, 1), check_nums(args, 0, 1))
    } else if name == "key"@ || name == "key_alternative"@ {
        and_then(
            check_len(name, args, 2),
            and_then(
                check_one_of(args[0], up_down(), "key state"@),
                check_nonempty(args[1], "key name must not be empty"@),
            ),
        )
    } else if name == "gamepad"@ {
        check_gamepad(args, fu)
    } else if name == "mouse"@ {
        check_mouse(args)
    } else if name == "await"@ {
        check_await(args)
    } else if name == "pause"@ {
        check_pause(args)
    } else {
        Err("unknown action '"@ + name + "'"@)
    }
}

fn error(message: &str) -> (r: Result<(), String>)
    ensures
        outcome_is(r, Err(message@)),
{
    Err(to_owned_string(message))
}

fn expect_len(name: &str, args: &[String], n: usize) -> (r: Result<(), String>)
    ensures
        outcome_is(r, check_len(name@, views(args@), n as nat)),
{
    if args.len() != n {
        let mut m = to_owned_string("action '");
        push_str(&mut m, name);
        push_str(&mut m, "' expects ");
        let a = usize_to_string(n);
        push_str(&mut m, a.as_str());
        push_str(&mut m, " argument(s), got ");
        let b = usize_to_string(args.len());
        push_str(&mut m, b.as_str());
        return Err(m);
    }
    Ok(())
}

fn join_exec(items: &[&str], sep: &str) -> (r: String)
    ensures
        r@ == join(str_views(items@), sep@),
{
    let mut out = String::new();
    let mut i: usize = 0;
    let ghost v = str_views(items@);
    while i < items.len()
        invariant
            i <= items@.len(),
            v == str_views(items@),
            out@ == join(v.take(i as int), sep@),
        decreases items@.len() - i,
    {
        if i > 0 {
            push_str(&mut out, sep);
        }
        push_str(&mut out, items[i]);
        proof {
            assert(v.take(i + 1).drop_last() =~= v.take(i as int));
            assert(v.take(i + 1).last() == items@[i as int]@);
            if i == 0 {
                assert(join(v.take(0), sep@) =~= Seq::<char>::empty());
            }
        }
        i = i + 1;
    }
    assert(v.take(items@.len() as int) =~= v);
    out
}

fn expect_one_of(value: &str, allowed: &[&str], what: &str) -> (r: Result<(), String>)
    ensures
        outcome_is(r, check_one_of(value@, str_views(allowed@), what@)),
{
    let ghost v = str_views(allowed@);
    let mut i: usize = 0;
    while i < allowed.len()
        invariant
            i <= allowed@.len(),
            v == str_views(allowed@),
            forall|j: int| 0 <= j < i ==> #[trigger] v[j] != value@,
        decreases allowed@.len() - i,
    {
        if str_eq(allowed[i], value) {
            assert(v[i as int] == value@);
            return Ok(());
        }
        i = i + 1;
    }
    let mut m = to_owned_string("invalid ");
    push_str(&mut m, what);
    push_str(&mut m, " '");
    push_str(&mut m, value);
    push_str(&mut m, "', expected one of: ");
    let j = join_exec(allowed, ", ");
    push_str(&mut m, j.as_str());
    Err(m)
}

fn expect_nums(args: &[String], lo: usize, hi: usize) -> (r: Result<(), String>)
    requires
        lo <= hi <= args@.len(),
    ensures
        outcome_is(r, check_nums(views(args@), lo as int, hi as int)),
{
    let ghost v = views(args@);
    let mut i = lo;
    while i < hi
        invariant
            lo <= i <= hi <= args@.len(),
            v == views(args@),
            check_nums(v, lo as int, hi as int) == check_nums(v, i as int, hi as int),
        decreases hi - i,
    {
        let cs = chars_of(args[i].as_str());
        if !is_float_text(&cs) {
            let mut m = to_owned_string("argument '");
            push_str(&mut m, args[i].as_str());
            push_str(&mut m, "' must be a number");
            return Err(m);
        }
        i = i + 1;
    }
    Ok(())
}

/// Validates a fully evaluated action line: action `name` with arguments
/// `args`. Returns a human readable message on failure. The float unit `fl`
/// shows a number in a message as the 64-bit float it reads as.
pub fn validate<F: Fn(FloatOp) -> FloatOut>(name: &str, args: &[String], fl: &F) -> (r: Result<(), String>)
    requires
        unit_deterministic(fl),
    ensures
        outcome_is(r, spec_validate(name@, views(args@), unit_function(fl))),
{
    proof {
        lemma_unit_function(fl);
    }
    validate_with(name, args, fl, Ghost(unit_function(fl)))
}

/// `validate`, with the float unit answering as `fu` does.
pub(crate) fn validate_with<F: Fn(FloatOp) -> FloatOut>(name: &str, args: &[String], fl: &F, Ghost(fu): Ghost<FloatFn>) -> (r: Result<(), String>)
    requires
        unit_computes(fl, fu),
    ensures
        outcome_is(r, spec_validate(name@, views(args@), fu)),
{
    let ghost a = views(args@);
    let up_down_items = ["down", "up"];
    assert(str_views(up_down_items@) =~= up_down());
    if str_eq(name, "nothing") {
        expect_len(name, args, 0)
    } else if str_eq(name, "fps") || str_eq(name, "frame") {
        let r = expect_len(name, args, 1);
        if r.is_err() {
            return r;
        }
        expect_nums(args, 0, 1)
    } else if str_eq(name, "key") || str_eq(name, "key_alternative") {
        let r = expect_len(name, args, 2);
        if r.is_err() {
            return r;
        }
        let r = expect_one_of(args[0].as_str(), &up_down_items, "key state");
        if r.is_err() {
            return r;
        }
        if args[1].as_str().is_empty() {
            return error("key name must not be empty");
        }
        Ok(())
    } else if str_eq(name, "gamepad") {
        validate_gamepad(args, fl, Ghost(fu))
    } else if str_eq(name, "mouse") {
        validate_mouse(args)
    } else if str_eq(name, "await") {
        validate_await(args)
    } else if str_eq(name, "pause") {
        validate_pause(args)
    } else {
        let mut m = to_owned_string("unknown action '");
        push_str(&mut m, name);
        push_str(&mut m, "'");
        Err(m)
    }
}

fn validate_gamepad<F: Fn(FloatOp) -> FloatOut>(args: &[String], fl: &F, Ghost(fu): Ghost<FloatFn>) -> (r: Result<(), String>)
    requires
        unit_computes(fl, fu),
    ensures
        outcome_is(r, check_gamepad(views(args@), fu)),
{
    let up_down_items = ["down", "up"];
    assert(str_views(up_down_items@) =~= up_down());
    if args.len() == 0 {
        return error("action 'gamepad' expects a sub-action (button/stick/axis)");
    }
    let sub = args[0].as_str();
    if str_eq(sub, "button") {
        let r = expect_len("gamepad button", args, 3);
        if r.is_err() {
            return r;
        }
        let r = expect_one_of(args[1].as_str(), &up_down_items, "button state");
        if r.is_err() {
            return r;
        }
        if args[2].as_str().is_empty() {
            return error("gamepad button name must not be empty");
        }
        Ok(())
    } else if str_eq(sub, "stick") {
        let sides = ["left", "right"];
        assert(str_views(sides@) =~= stick_sides());
        let r = expect_len("gamepad stick", args, 4);
        if r.is_err() {
            return r;
        }
        let r = expect_one_of(args[1].as_str(), &sides, "stick");
        if r.is_err() {
            return r;
        }
        let r = expect_nums(args, 2, 4);
        if r.is_err() {
            return r;
        }
        let amount = chars_of(args[3].as_str());
        proof {
            let v = views(args@);
            assert(check_nums(v, 2, 4) == check_nums(v, 3, 4));
        }
        if !in_unit_interval_exec(&amount) {
            let mut m = to_owned_string("gamepad stick amount must be between 0 and 1, got ");
            let bits = ask(fl, FloatOp::Parse(args[3].clone()), Ghost(fu)).bits;
            let t = ask(fl, FloatOp::Display(bits), Ghost(fu)).text;
            push_str(&mut m, t.as_str());
            return Err(m);
        }
        Ok(())
    } else if str_eq(sub, "axis") {
        let r = expect_len("gamepad axis", args, 3);
        if r.is_err() {
            return r;
        }
        if args[1].as_str().is_empty() {
            return error("gamepad axis name must not be empty");
        }
        expect_nums(args, 2, 3)
    } else {
        let mut m = to_owned_string("invalid gamepad sub-action '");
        push_str(&mut m, sub);
        push_str(&mut m, "', expected one of: button, stick, axis");
        Err(m)
    }
}

fn validate_mouse(args: &[String]) -> (r: Result<(), String>)
    ensures
        outcome_is(r, check_mouse(views(args@))),
{
    let up_down_items = ["down", "up"];
    assert(str_views(up_down_items@) =~= up_down());
    if args.len() == 0 {
        return error("action 'mouse' expects a sub-action (button/scroll/move)");
    }
    let sub = args[0].as_str();
    if str_eq(sub, "button") {
        let r = expect_len("mouse button", args, 3);
        if r.is_err() {
            return r;
        }
        let r = expect_one_of(args[1].as_str(), &up_down_items, "button state");
        if r.is_err() {
            return r;
        }
        if args[2].as_str().is_empty() {
            return error("mouse button name must not be empty");
        }
        Ok(())
    } else if str_eq(sub, "scroll") {
        let r = expect_len("mouse scroll", args, 3);
        if r.is_err() {
            return r;
        }
        let r = expect_one_of(args[1].as_str(), &up_down_items, "scroll direction");
        if r.is_err() {
            return r;
        }
        expect_nums(args, 2, 3)
    } else if str_eq(sub, "move") {
        let r = expect_len("mouse move", args, 3);
        if r.is_err() {
            return r;
        }
        expect_nums(args, 1, 3)
    } else {
        let mut m = to_owned_string("invalid mouse sub-action '");
        push_str(&mut m, sub);
        push_str(&mut m, "', expected one of: button, scroll, move");
        Err(m)
    }
}

fn validate_await(args: &[String]) -> (r: Result<(), String>)
    ensures
        outcome_is(r, check_await(views(args@))),
{
    if args.len() == 0 {
        return error("action 'await' expects a condition");
    }
    let sub = args[0].as_str();
    let mut label = to_owned_string("await ");
    push_str(&mut label, sub);
    if str_eq(sub, "position") || str_eq(sub, "position_alternative") {
        let r = expect_len(label.as_str(), args, 5);
        if r.is_err() {
            return r;
        }
        expect_nums(args, 1, 5)
    } else {
        let conditions = ["focus", "ingame", "no_ingame", "cutscene", "no_cutscene", "mainmenu", "no_mainmenu"];
        assert(str_views(conditions@) =~= await_conditions());
        let r = expect_one_of(sub, &conditions, "await condition");
        if r.is_err() {
            return r;
        }
        expect_len(label.as_str(), args, 1)
    }
}

fn validate_pause(args: &[String]) -> (r: Result<(), String>)
    ensures
        outcome_is(r, check_pause(views(args@))),
{
    if args.len() == 0 {
        return error("action 'pause' expects a sub-action (ms/input)");
    }
    let sub = args[0].as_str();
    if str_eq(sub, "ms") {
        let r = expect_len("pause ms", args, 2);
        if r.is_err() {
            return r;
        }
        expect_nums(args, 1, 2)
    } else if str_eq(sub, "input") {
        expect_len("pause input", args, 1)
    } else {
        let mut m = to_owned_string("invalid pause sub-action '");
        push_str(&mut m, sub);
        push_str(&mut m, "', expected one of: ms, input");
        Err(m)
    }
}

} // verus!
