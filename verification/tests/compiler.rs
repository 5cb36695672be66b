use stasc::actions::{is_action, validate};
use stasc::ast::BinOp;
use stasc::interp::{FloatOp, FloatOut, Value};
use stasc::lexer::{lex, Tok};
use stasc::ast::Program;
use stasc::loader;
use stasc::loader::{std_module_path, tas_file_text, LoadRequest, Loader};
use std::collections::HashMap;

/// The text of a float as the compiler prints it.
fn fmt_f64(v: f64) -> String {
    if v.is_finite() && v.fract() == 0.0 && v.abs() < 1e15 {
        format!("{}", v as i64)
    } else {
        format!("{v}")
    }
}

/// 64-bit IEEE arithmetic for the compiler.
fn float_unit(op: FloatOp) -> FloatOut {
    let mut out = FloatOut { bits: 0, int: 0, flag: false, text: String::new() };
    let f = f64::from_bits;
    match op {
        FloatOp::FromInt(i) => out.bits = (i as f64).to_bits(),
        FloatOp::Parse(s) => out.bits = s.parse::<f64>().unwrap_or(f64::NAN).to_bits(),
        FloatOp::Arith(op, a, b) => {
            let (a, b) = (f(a), f(b));
            match op {
                BinOp::Add => out.bits = (a + b).to_bits(),
                BinOp::Sub => out.bits = (a - b).to_bits(),
                BinOp::Mul => out.bits = (a * b).to_bits(),
                BinOp::Div => out.bits = (a / b).to_bits(),
                BinOp::Rem => out.bits = (a % b).to_bits(),
                BinOp::Eq => out.flag = a == b,
                BinOp::Ne => out.flag = a != b,
                BinOp::Lt => out.flag = a < b,
                BinOp::Le => out.flag = a <= b,
                BinOp::Gt => out.flag = a > b,
                BinOp::Ge => out.flag = a >= b,
                BinOp::And | BinOp::Or => {}
            }
        }
        FloatOp::Neg(a) => out.bits = (-f(a)).to_bits(),
        FloatOp::Abs(a) => out.bits = f(a).abs().to_bits(),
        FloatOp::Sqrt(a) => out.bits = f(a).sqrt().to_bits(),
        FloatOp::Round(a) => out.int = f(a).round() as i64,
        FloatOp::Floor(a) => out.int = f(a).floor() as i64,
        FloatOp::Ceil(a) => out.int = f(a).ceil() as i64,
        FloatOp::Trunc(a) => out.int = f(a).trunc() as i64,
        FloatOp::IsZero(a) => out.flag = f(a) == 0.0,
        FloatOp::IsNegative(a) => out.flag = f(a) < 0.0,
        FloatOp::Integral(a) => {
            out.flag = f(a).fract() == 0.0;
            out.int = f(a) as i64;
        }
        FloatOp::Render(a) => out.text = fmt_f64(f(a)),
        FloatOp::Display(a) => out.text = format!("{}", f(a)),
        FloatOp::Debug(a) => out.text = format!("{:?}", f(a)),
    }
    out
}

fn compile(source: &str) -> Result<(Vec<String>, Vec<String>), String> {
    loader::compile(source, &float_unit).0
}

fn printed(source: &str) -> Vec<String> {
    loader::compile(source, &float_unit).1
}

fn out(src: &str) -> Vec<String> {
    compile(src).expect("compilation failed").0
}

fn err(src: &str) -> String {
    compile(src).expect_err("compilation should fail")
}

#[test]
fn basic_timing() {
    let lines = out("await focus\nwait 20\nkey down w\nwait 40\nkey up w\n");
    assert_eq!(lines, vec!["0 await focus", "+20 key down w", "+40 key up w"]);
}

#[test]
fn functions_and_arguments() {
    let src = "\
fn tap(k, hold) {
    key down $k
    wait $hold
    key up $k
}
tap(\"w\", 5)
wait 10
tap(\"s\", 2)
";
    assert_eq!(out(src), vec!["0 key down w", "+5 key up w", "+10 key down s", "+2 key up s"]);
}

#[test]
fn variables_repeat_and_math() {
    let src = "\
const DELAY = 3
let n = 2
repeat $n {
    mouse button down left
    wait $DELAY * 2
    mouse button up left
    wait 1
}
";
    assert_eq!(
        out(src),
        vec!["0 mouse button down left", "+6 mouse button up left", "+1 mouse button down left", "+6 mouse button up left"]
    );
}

#[test]
fn conditionals_and_return_values() {
    let src = "\
fn double(x) {
    return $x * 2
}
let d = double(15)
at $d
gamepad axis stick_right_x 30000
if $d > 20 {
    fps 30
} else {
    fps 60
}
";
    assert_eq!(out(src), vec!["0 gamepad axis stick_right_x 30000", "+0 fps 30"]);
}

#[test]
fn rejects_invalid_action_arguments() {
    assert!(compile("key sideways w\n").is_err());
    assert!(compile("gamepad stick left 90 5\n").is_err());
    assert!(compile("await something\n").is_err());
    assert!(compile("mouse move 10\n").is_err());
}

#[test]
fn rejects_bad_scripts() {
    assert!(compile("wait -5\n").is_err());
    assert!(compile("const X = 1\nX = 2\n").is_err());
    assert!(compile("key down $missing\n").is_err());
    assert!(compile("nope(1)\n").is_err());
}

#[test]
fn readme_roll_example() {
    let src = "\
const FORWARD = \"w\"

fn roll(recovery) {
    key down $FORWARD
    key down space
    wait 2
    key up space
    wait $recovery - 2
    key up $FORWARD
}

await focus
wait 20
repeat 2 {
    roll(24)
    wait 4
}
";
    assert_eq!(
        out(src),
        vec![
            "0 await focus",
            "+20 key down w",
            "+0 key down space",
            "+2 key up space",
            "+22 key up w",
            "+4 key down w",
            "+0 key down space",
            "+2 key up space",
            "+22 key up w",
        ]
    );
}

#[test]
fn error_messages_name_the_line() {
    assert_eq!(err("wait -5\n"), "line 1: 'wait' needs a non-negative amount of frames, got -5");
    assert_eq!(err("at 0 - 3\n"), "line 1: 'at' needs a non-negative frame, got -3");
    assert_eq!(err("const X = 1\nX = 2\n"), "line 2: cannot assign to constant 'X'");
    assert_eq!(err("key down $missing\n"), "line 1: undefined variable 'missing'");
    assert_eq!(err("nope(1)\n"), "line 1: undefined function 'nope'");
    assert_eq!(err("y = 1\n"), "line 1: undefined variable 'y' (use 'let' to declare it)");
    assert_eq!(err("let a = 1\nlet a = 2\n"), "line 2: 'a' is already declared in this scope");
    assert_eq!(err("let x = 1 / 0\n"), "line 1: division by zero");
    assert_eq!(err("let x = 1 % 0\n"), "line 1: modulo by zero");
    assert_eq!(err("let x = \"a\" - 1\n"), "line 1: expected a number, got a string");
    assert_eq!(err("let x = -\"a\"\n"), "cannot negate a string");
    assert_eq!(err("return 1\n"), "'return' is only allowed inside a function");
    assert_eq!(
        err("import \"lib\"\n"),
        "line 1: imports must be resolved from a file, not compiled from a source string"
    );
    assert_eq!(err("key sideways w\n"), "line 1: invalid key state 'sideways', expected one of: down, up");
    assert_eq!(err("jump\n"), "line 1: unknown statement or action 'jump'");
}

#[test]
fn builtin_functions() {
    assert_eq!(
        out("wait 7\nmouse move frame() abs(0 - 3)\nmouse move min(4, 2.5) max(4, 2.5)\n"),
        vec!["0 mouse move 7 3", "+0 mouse move 2.5 4"]
    );
    assert_eq!(
        out("mouse move int(2.7) floor(2.7)\nmouse move ceil(2.2) round(2.5)\nmouse move sqrt(16) float(3)\n"),
        vec!["0 mouse move 2 2", "+0 mouse move 3 3", "+0 mouse move 4 3"]
    );
    assert_eq!(out("key down str(12) + \"a\"\n"), vec!["0 key down 12a"]);
    assert_eq!(err("let x = sqrt(0 - 1)\n"), "line 1: 'sqrt' of a negative number");
    assert_eq!(err("let x = abs(1, 2)\n"), "line 1: 'abs' expects 1 argument(s), got 2");
    assert_eq!(err("let x = abs(\"a\")\n"), "line 1: 'abs' expects a number");
    assert_eq!(err("let x = min(1, \"a\")\n"), "line 1: expected a number, got a string");
}

#[test]
fn arithmetic_keeps_integers_and_concatenates_strings() {
    assert_eq!(out("mouse move 7 / 2 6 / 3\n"), vec!["0 mouse move 3.5 2"]);
    assert_eq!(out("mouse move 7 % 3 2 * 3 - 1\n"), vec!["0 mouse move 1 5"]);
    assert_eq!(out("mouse move 1.5 + 1.5 0.1 + 0.2\n"), vec!["0 mouse move 3 0.30000000000000004"]);
    assert_eq!(out("let k = \"sp\" + \"ace\"\nkey down $k\n"), vec!["0 key down space"]);
    assert_eq!(out("let k = 1 + \"x\"\nkey down $k\n"), vec!["0 key down 1x"]);
    assert_eq!(out("mouse move 1 < 2 2 == 3\n"), vec!["0 mouse move 1 0"]);
    assert_eq!(out("mouse move 0 + !0 0 - 5\n"), vec!["0 mouse move 1 -5"]);
    assert_eq!(out("mouse move 1 && 0 0 || 2\n"), vec!["0 mouse move 0 1"]);
    assert_eq!(out("let a = \"x\"\nmouse move $a == \"x\" $a != \"x\"\n"), vec!["0 mouse move 1 0"]);
}

#[test]
fn control_flow() {
    let src = "\
let i = 0
while i < 3 {
    key down w
    i = i + 1
}
if i == 2 {
    fps 30
} else if i == 3 {
    fps 60
} else {
    fps 90
}
";
    assert_eq!(out(src), vec!["0 key down w", "+0 key down w", "+0 key down w", "+0 fps 60"]);
    assert_eq!(out("repeat 0 - 2 {\n    key down w\n}\nnothing\n"), vec!["0 nothing"]);
}

#[test]
fn scopes_and_functions() {
    assert_eq!(err("if 1 {\n    let x = 1\n}\nmouse move $x 0\n"), "line 4: undefined variable 'x'");
    assert_eq!(out("let g = \"w\"\nfn f() {\n    key down $g\n}\nf()\n"), vec!["0 key down w"]);
    assert_eq!(
        err("fn f() {\n    key down $y\n}\nif 1 {\n    let y = \"w\"\n    f()\n}\n"),
        "line 2: undefined variable 'y'"
    );
    assert_eq!(out("let n = 1\nfn bump() {\n    n = n + 1\n}\nbump()\nbump()\nfps $n\n"), vec!["0 fps 3"]);
    assert_eq!(err("fn f(a) {\n}\nf(1, 2)\n"), "line 3: function 'f' expects 1 argument(s), got 2");
    assert_eq!(err("fn a() {\n}\nfn a() {\n}\n"), "line 3: duplicate function 'a'");
    assert_eq!(err("fn f() {\n    f()\n}\nf()\n"), "line 2: maximum call depth (128) exceeded in 'f'");
}

#[test]
fn backwards_moves_warn() {
    let (lines, warnings) = compile("at 10\nkey down w\nat 5\nkey up w\nawait focus\n").expect("compiles");
    assert_eq!(lines, vec!["0 key down w", "5 key up w", "+0 await focus"]);
    assert_eq!(
        warnings,
        vec![
            "line 4: action is emitted at frame 5 which is before the previous frame 10",
            "line 4: relative output cannot represent a backwards move from frame 10 to 5",
        ]
    );
}

#[test]
fn print_is_not_output() {
    let src = "print 1 + 2\nprint \"a\" + 0.5\nkey down w\n";
    assert_eq!(printed(src), vec!["3", "a0.5"]);
    assert_eq!(out(src), vec!["0 key down w"]);
}

#[test]
fn lexer_and_parser_errors() {
    assert_eq!(err("let x = @\n"), "line 1: unexpected character '@'");
    assert_eq!(err("let s = \"abc\n"), "line 1: unterminated string literal");
    assert_eq!(err("key down w\n\"a\\nb\"\n"), "line 2: expected a statement, found Str(\"a\\nb\")");
    assert_eq!(out("let é = \"w\"\nkey down $é\n"), vec!["0 key down w"]);
    assert_eq!(out("let a_1 = 4\nfps $a_1\n"), vec!["0 fps 4"]);
    let toks = lex("wait 1.5 ; comment\n", &float_unit).expect("lexes");
    assert!(matches!(toks.last().map(|t| &t.tok), Some(Tok::Eof)));
    assert_eq!(toks.len(), 4);
    assert_eq!(err("1.50\n"), "line 1: expected a statement, found Float(1.5)");
    assert_eq!(err("1.00000000000000000001\n"), "line 1: expected a statement, found Float(1.0)");
    assert_eq!(err("12345678901234567.5\n"), "line 1: expected a statement, found Float(1.2345678901234568e16)");
}

#[test]
fn action_grammar() {
    assert!(is_action("key"));
    assert!(is_action("await"));
    assert!(!is_action("jump"));
    let args = |v: &[&str]| v.iter().map(|s| s.to_string()).collect::<Vec<String>>();
    assert_eq!(validate("key", &args(&["down", "w"]), &float_unit), Ok(()));
    assert_eq!(validate("nothing", &args(&["x"]), &float_unit), Err("action 'nothing' expects 0 argument(s), got 1".to_string()));
    assert_eq!(validate("key", &args(&["down", ""]), &float_unit), Err("key name must not be empty".to_string()));
    assert_eq!(validate("mouse", &args(&["move", "inf", "1e3"]), &float_unit), Ok(()));
    assert_eq!(validate("mouse", &args(&["move", "x", "1"]), &float_unit), Err("argument 'x' must be a number".to_string()));
    assert_eq!(validate("gamepad", &args(&["stick", "left", "90", "0.5"]), &float_unit), Ok(()));
    assert!(validate("gamepad", &args(&["stick", "left", "90", "5"]), &float_unit).is_err());
    assert_eq!(validate("await", &args(&["position", "1", "2", "3", "4"]), &float_unit), Ok(()));
    assert_eq!(
        validate("pause", &args(&["later"]), &float_unit),
        Err("invalid pause sub-action 'later', expected one of: ms, input".to_string())
    );
    assert_eq!(validate("jump", &args(&[]), &float_unit), Err("unknown action 'jump'".to_string()));
    assert_eq!(
        validate("gamepad", &args(&["stick", "left", "90", "9007199254740993"]), &float_unit),
        Err("gamepad stick amount must be between 0 and 1, got 9007199254740992".to_string())
    );
    assert_eq!(
        validate("gamepad", &args(&["stick", "left", "90", "1.50"]), &float_unit),
        Err("gamepad stick amount must be between 0 and 1, got 1.5".to_string())
    );
    assert_eq!(validate("gamepad", &args(&["stick", "left", "90", "1e-400"]), &float_unit), Ok(()));
}

#[test]
fn values_render_as_printed() {
    assert_eq!(Value::Int(-5).render(&float_unit), "-5");
    assert_eq!(Value::Float(2.5f64.to_bits()).render(&float_unit), "2.5");
    assert_eq!(Value::Float(3.0f64.to_bits()).render(&float_unit), "3");
    assert_eq!(Value::Str("hi".to_string()).render(&float_unit), "hi");
}

/// A small file system: where each path leads, and what each file holds.
struct Disk {
    canonical: HashMap<String, String>,
    files: HashMap<String, String>,
    reads: Vec<String>,
}

impl Disk {
    fn new(files: &[(&str, &str)]) -> Disk {
        let mut d = Disk { canonical: HashMap::new(), files: HashMap::new(), reads: Vec::new() };
        for (path, text) in files {
            d.canonical.insert(path.to_string(), path.to_string());
            d.files.insert(path.to_string(), text.to_string());
        }
        d
    }

    /// Imports are relative to the importing file's folder and get `.stas` added.
    fn target(from: &Option<String>, import: &str) -> String {
        match from {
            None => import.to_string(),
            Some(f) => {
                let dir = &f[..f.rfind('/').unwrap()];
                let name = match std_module_path(import) {
                    Some(m) => format!("/std/{m}"),
                    None => format!("{dir}/{import}"),
                };
                if name.ends_with(".stas") { name } else { format!("{name}.stas") }
            }
        }
    }

    fn load(&mut self, start: (Loader, LoadRequest)) -> Result<Program, String> {
        let (mut loader, mut req) = start;
        loop {
            req = match req {
                LoadRequest::Locate { from, import } => {
                    let target = Disk::target(&from, &import);
                    let found = self.canonical.get(&target).cloned().ok_or("not found".to_string());
                    loader.located(&target, found)
                }
                LoadRequest::Read(c) => {
                    self.reads.push(c.clone());
                    loader.read(self.files.get(&c).cloned().ok_or("unreadable".to_string()), &float_unit)
                }
                LoadRequest::Done(r) => return r,
            };
        }
    }
}

fn run_program(p: &Program) -> Vec<String> {
    loader::compile_program(p, &float_unit).0.expect("compiles").0
}

#[test]
fn imports_are_loaded_before_the_importing_file() {
    let mut disk = Disk::new(&[
        ("/p/main.stas", "import \"lib\"\nawait focus\ntap(\"w\", 5)\n"),
        ("/p/lib.stas", "fn tap(k, hold) {\n    key down $k\n    wait $hold\n    key up $k\n}\nwait 1\n"),
    ]);
    let p = disk.load(Loader::for_file("/p/main.stas")).expect("loads");
    assert_eq!(p.funcs.len(), 1);
    assert_eq!(run_program(&p), vec!["0 await focus", "+0 key down w", "+5 key up w"]);
    assert_eq!(disk.reads, vec!["/p/main.stas", "/p/lib.stas"]);
}

#[test]
fn repeated_imports_load_once() {
    let mut disk = Disk::new(&[
        ("/p/main.stas", "import \"a\"\nimport \"b\"\nboth()\n"),
        ("/p/a.stas", "import \"common\"\nfn both() {\n    c()\n    c()\n}\n"),
        ("/p/b.stas", "import \"common\"\n"),
        ("/p/common.stas", "fn c() {\n    nothing\n}\n"),
    ]);
    let p = disk.load(Loader::for_file("/p/main.stas")).expect("loads");
    assert_eq!(disk.reads, vec!["/p/main.stas", "/p/a.stas", "/p/common.stas", "/p/b.stas"]);
    assert_eq!(p.funcs.len(), 2);
    assert_eq!(run_program(&p), vec!["0 nothing", "+0 nothing"]);
}

#[test]
fn import_cycles_are_refused() {
    let mut disk = Disk::new(&[("/p/a.stas", "import \"b\"\n"), ("/p/b.stas", "\nimport \"a\"\n")]);
    let e = disk.load(Loader::for_file("/p/a.stas")).expect_err("a cycle");
    assert_eq!(
        e,
        "/p/a.stas:1: while importing 'b': /p/b.stas:2: while importing 'a': import cycle detected: /p/a.stas -> /p/b.stas -> /p/a.stas"
    );
}

#[test]
fn loading_errors_name_the_file() {
    let mut disk = Disk::new(&[("/p/main.stas", "import \"gone\"\n"), ("/p/bad.stas", "let x = @\n")]);
    assert_eq!(
        disk.load(Loader::for_file("/p/main.stas")).expect_err("missing"),
        "/p/main.stas:1: while importing 'gone': cannot resolve '/p/gone.stas': not found"
    );
    assert_eq!(
        disk.load(Loader::for_file("/p/bad.stas")).expect_err("bad"),
        "/p/bad.stas: line 1: unexpected character '@'"
    );
    assert_eq!(disk.load(Loader::for_file("nowhere.stas")).expect_err("missing"), "cannot resolve 'nowhere.stas': not found");
}

#[test]
fn snippets_import_from_their_folder() {
    let mut disk = Disk::new(&[("/std/buttons.stas", "fn tap_button(b, hold) {\n    gamepad button down $b\n    wait $hold\n    gamepad button up $b\n}\n")]);
    let p = disk
        .load(Loader::for_snippet("import \"std/buttons\"\ntap_button(\"a\", 5)\n", "/p/snippet.stas", &float_unit))
        .expect("loads");
    assert_eq!(run_program(&p), vec!["0 gamepad button down a", "+5 gamepad button up a"]);
    assert_eq!(
        disk.load(Loader::for_snippet("import \"nope\"\n", "/p/snippet.stas", &float_unit)).expect_err("missing"),
        "1: while importing 'nope': cannot resolve '/p/nope.stas': not found"
    );
}

#[test]
fn standard_library_paths() {
    assert_eq!(std_module_path("std/gamepad"), Some("gamepad".to_string()));
    assert_eq!(std_module_path("std\\a\\b.stas"), Some("a/b.stas".to_string()));
    assert_eq!(std_module_path("lib/std/x"), None);
    assert_eq!(std_module_path("std"), None);
}

#[test]
fn tas_file_layout() {
    let lines = vec!["0 await focus".to_string(), "+20 key down w".to_string()];
    assert_eq!(
        tas_file_text("run.stas", &lines),
        "; Generated by stasc from run.stas\n; Do not edit by hand.\n\n0 await focus\n+20 key down w\n"
    );
}

#[test]
fn variables_read_back() {
    assert_eq!(out("let a = 4\nfps $a\na = 7\nfps $a\n"), vec!["0 fps 4", "+0 fps 7"]);
    assert_eq!(out("let a = 1\nfn f() {\n    a = 9\n}\nf()\nfps $a\n"), vec!["0 fps 9"]);
}

#[test]
fn diamond_imports_each_file_once_imports_first() {
    let mut disk = Disk::new(&[
        ("/p/a.stas", "import \"b\"\nimport \"c\"\nfn fa() {\n}\nfps 1\n"),
        ("/p/b.stas", "import \"d\"\nfn fb() {\n}\nfps 2\n"),
        ("/p/c.stas", "import \"d\"\nfn fc() {\n}\nfps 3\n"),
        ("/p/d.stas", "fn fd() {\n}\nfps 4\n"),
    ]);
    let p = disk.load(Loader::for_file("/p/a.stas")).expect("loads");
    let names: Vec<&str> = p.funcs.iter().map(|f| f.name.as_str()).collect();
    assert_eq!(names, vec!["fd", "fb", "fc", "fa"]);
    assert_eq!(run_program(&p), vec!["0 fps 4", "+0 fps 2", "+0 fps 3", "+0 fps 1"]);
    assert_eq!(disk.reads, vec!["/p/a.stas", "/p/b.stas", "/p/d.stas", "/p/c.stas"]);
}

#[test]
fn importing_twice_is_importing_once() {
    let mut disk = Disk::new(&[("/p/lib.stas", "fn tap() {\n    nothing\n}\nfps 5\n")]);
    let twice = disk
        .load(Loader::for_snippet("import \"lib\"\nimport \"lib\"\ntap()\n", "/p/snippet.stas", &float_unit))
        .expect("loads");
    let once = disk
        .load(Loader::for_snippet("import \"lib\"\n\ntap()\n", "/p/snippet.stas", &float_unit))
        .expect("loads");
    assert_eq!(twice.funcs.len(), once.funcs.len());
    assert_eq!(run_program(&twice), run_program(&once));
    assert_eq!(run_program(&once), vec!["0 fps 5", "+0 nothing"]);
}

#[test]
fn comments_carriage_returns_and_marks_change_nothing() {
    let debug = |src: &str| -> Vec<(String, usize)> {
        lex(src, &float_unit).expect("lexes").iter().map(|t| (t.tok.debug_text(), t.line)).collect()
    };
    assert_eq!(debug("let a = 1.5 + x"), debug("let a = 1.5 + x ;note"));
    assert_eq!(debug("wait 2\nkey up w"), debug("wait 2\nkey up w #more \"text\""));
    assert_eq!(debug("wait 2\r\nkey up w\r\n"), debug("wait 2\nkey up w\n"));
    assert_eq!(debug("\u{feff}wait 2\n"), debug("wait 2\n"));
    assert_eq!(out("\u{feff}wait 3\r\nnothing\r\n"), vec!["0 nothing"]);
}

#[test]
fn files_without_imports_compile_as_their_text() {
    let mut disk = Disk::new(&[("/p/one.stas", "wait 2\nnothing\n"), ("/p/bad.stas", "fn 1.50\n")]);
    let p = disk.load(Loader::for_file("/p/one.stas")).expect("loads");
    assert_eq!(run_program(&p), out("wait 2\nnothing\n"));
    assert_eq!(
        disk.load(Loader::for_file("/p/bad.stas")).expect_err("bad"),
        "/p/bad.stas: line 1: expected function name, found Float(1.5)"
    );
    let q = disk.load(Loader::for_snippet("wait 2\nnothing\n", "/anywhere/else.stas", &float_unit)).expect("loads");
    assert_eq!(run_program(&q), out("wait 2\nnothing\n"));
}
