//! Whole-program compilation: from source text, or from a parsed program;
//! and the loading of a program spread over several files by `import`.
//!
//! Loading is a conversation: a `Loader` says what it needs next (a file
//! located, a file read), the caller does that and hands back what it found,
//! until the loader is done with the merged program or an error.

use vstd::prelude::*;
use crate::actions::join;
use crate::ast::{
    funcs_view, lemma_stmts_view_append, lemma_stmts_view_drop_first, program_view, stmt_view, stmts_view, strings_view,
    Func, FuncV, Program, ProgramV, Stmt, StmtV,
};
use crate::text::{chars_of, decimal, push_char, push_decimal, push_str, str_eq, to_owned_string};
use crate::interp::{compiled_view, duplicate_error, unit_deterministic, unit_function, Compiler, FloatOp, FloatOut};
use crate::lexer::{lemma_lex_ends_with_eof, lex, spec_lex};
use crate::parser::{spec_parse_program, Parser};
use crate::semantics::{first_duplicate, spec_compile, FloatFn};

verus! {

/// The outcome of compiling a program: a program that declares a function
/// twice is refused; otherwise its top-level statements are run.
pub open spec fn spec_compile_program(p: ProgramV, fu: FloatFn) -> (
    Result<(Seq<Seq<char>>, Seq<Seq<char>>), Seq<char>>,
    Seq<Seq<char>>,
) {
    match first_duplicate(p.funcs, 0) {
        Some(i) => (Err(duplicate_error(p.funcs[i])), Seq::empty()),
        None => spec_compile(p.funcs, fu, p.main),
    }
}

/// The outcome of compiling source text: the first lexing or parsing error,
/// or the outcome of compiling the program it spells.
pub open spec fn spec_compile_source(src: Seq<char>, fu: FloatFn) -> (
    Result<(Seq<Seq<char>>, Seq<Seq<char>>), Seq<char>>,
    Seq<Seq<char>>,
) {
    match spec_lex(src, fu) {
        Err(m) => (Err(m), Seq::empty()),
        Ok(ts) => match spec_parse_program(ts) {
            Err(m) => (Err(m), Seq::empty()),
            Ok(p) => spec_compile_program(p, fu),
        },
    }
}

/// Compiles a parsed program: the `.tas` lines and the warnings, or the
/// first error; beside it, the text of each `print` that ran.
pub fn compile_program<F: Fn(FloatOp) -> FloatOut>(program: &Program, fl: &F) -> (r: (
    Result<(Vec<String>, Vec<String>), String>,
    Vec<String>,
))
    requires
        unit_deterministic(fl),
    ensures
        compiled_view(r) == spec_compile_program(program_view(*program), unit_function(fl)),
{
    match Compiler::new(program) {
        Err(m) => (Err(m), Vec::new()),
        Ok(c) => c.compile(program, fl),
    }
}

/// Compiles STAS source text (which must not contain imports) in one go:
/// lexing, parsing and running it.
pub fn compile<F: Fn(FloatOp) -> FloatOut>(source: &str, fl: &F) -> (r: (
    Result<(Vec<String>, Vec<String>), String>,
    Vec<String>,
))
    requires
        source@.len() < usize::MAX,
        unit_deterministic(fl),
    ensures
        compiled_view(r) == spec_compile_source(source@, unit_function(fl)),
{
    let tokens = match lex(source, fl) {
        Ok(t) => t,
        Err(m) => return (Err(m), Vec::new()),
    };
    proof {
        lemma_lex_ends_with_eof(source@, unit_function(fl));
    }
    let mut parser = Parser::new(tokens);
    let program = match parser.parse_program() {
        Ok(p) => p,
        Err(m) => return (Err(m), Vec::new()),
    };
    compile_program(&program, fl)
}

// ---------------------------------------------------------------- imports

/// Whether an import names a module of the bundled standard library.
pub open spec fn is_std_import(requested: Seq<char>) -> bool {
    requested.len() >= 4 && requested[0] == 's' && requested[1] == 't' && requested[2] == 'd' && (requested[3] == '/'
        || requested[3] == '\\')
}

/// The module path of a standard-library import (after `std/`), with `/` for every `\`.
pub open spec fn std_module(requested: Seq<char>) -> Seq<char> {
    requested.skip(4).map_values(|c: char| if c == '\\' { '/' } else { c })
}

/// For an import of the standard library (`std/...` or `std\...`), its path
/// inside the library folder, written with `/`; `None` for any other import,
/// which names a file relative to the importing one.
pub fn std_module_path(requested: &str) -> (r: Option<String>)
    ensures
        match r {
            Some(m) => is_std_import(requested@) && m@ == std_module(requested@),
            None => !is_std_import(requested@),
        },
{
    let cs = chars_of(requested);
    if cs.len() < 4 || cs[0] != 's' || cs[1] != 't' || cs[2] != 'd' || (cs[3] != '/' && cs[3] != '\\') {
        return None;
    }
    let mut m = String::new();
    let mut i: usize = 4;
    while i < cs.len()
        invariant
            4 <= i <= cs@.len(),
            cs@ == requested@,
            m@ == std_module(requested@).take(i - 4),
        decreases cs@.len() - i,
    {
        let c = cs[i];
        push_char(&mut m, if c == '\\' { '/' } else { c });
        assert(std_module(requested@).take(i - 3) =~= std_module(requested@).take(i - 4).push(if c == '\\' { '/' } else { c }));
        i = i + 1;
    }
    assert(std_module(requested@).take(i - 4) =~= std_module(requested@));
    Some(m)
}

// ---------------------------------------------------------------- the loader, as a model

/// A file (or the snippet) whose top-level statements are being taken in.
pub struct FrameV {
    /// What an error from one of its imports is prefixed with: `path:` for a
    /// file, nothing for a snippet.
    pub prefix: Seq<char>,
    /// The path its imports are relative to.
    pub base: Seq<char>,
    /// Whether it is a file (and so on the import stack).
    pub file: bool,
    /// Its top-level statements not taken in yet.
    pub rest: Seq<StmtV>,
    /// Its own functions, which come after those of its imports.
    pub funcs: Seq<FuncV>,
    /// What it has gathered so far.
    pub program: ProgramV,
    /// The import being loaded, and its line.
    pub import: Seq<char>,
    pub line: nat,
}

pub enum WaitV {
    Locate(Seq<char>),
    Read(Seq<char>),
    Nothing,
}

pub struct LoaderV {
    /// Canonical paths of the files loaded so far.
    pub loaded: Seq<Seq<char>>,
    pub frames: Seq<FrameV>,
    pub waiting: WaitV,
}

pub enum RequestV {
    /// Find the file named `import`: as written in the file `from`, or, with
    /// no `from`, as given by the user.
    Locate { from: Option<Seq<char>>, import: Seq<char> },
    /// Read the file at this canonical path.
    Read(Seq<char>),
    /// Loading has ended.
    Done(Result<ProgramV, Seq<char>>),
}

/// Canonical paths of the files being loaded, outermost first.
pub open spec fn stack_of(frames: Seq<FrameV>) -> Seq<Seq<char>>
    decreases frames.len(),
{
    if frames.len() == 0 {
        Seq::empty()
    } else if frames.last().file {
        stack_of(frames.drop_last()).push(frames.last().base)
    } else {
        stack_of(frames.drop_last())
    }
}

pub open spec fn empty_program() -> ProgramV {
    ProgramV { funcs: Seq::empty(), main: Seq::empty() }
}

/// `p` followed by `q`: functions after functions, statements after statements.
pub open spec fn merged(p: ProgramV, q: ProgramV) -> ProgramV {
    ProgramV { funcs: p.funcs + q.funcs, main: p.main + q.main }
}

/// An error while loading an import, told from the innermost importing file outwards.
pub open spec fn wrap_error(frames: Seq<FrameV>, e: Seq<char>) -> Seq<char>
    decreases frames.len(),
{
    if frames.len() == 0 {
        e
    } else {
        let f = frames.last();
        wrap_error(frames.drop_last(), f.prefix + decimal(f.line) + ": while importing '"@ + f.import + "': "@ + e)
    }
}

pub open spec fn fail(l: LoaderV, e: Seq<char>) -> (LoaderV, RequestV) {
    (LoaderV { waiting: WaitV::Nothing, ..l }, RequestV::Done(Err(wrap_error(l.frames, e))))
}

/// What a frame with no statements left has gathered, its own functions last.
pub open spec fn done_program_of(f: FrameV) -> ProgramV {
    ProgramV { funcs: f.program.funcs + f.funcs, main: f.program.main }
}

pub open spec fn top_rest_len(l: LoaderV) -> nat {
    if l.frames.len() > 0 {
        l.frames.last().rest.len()
    } else {
        0
    }
}

/// Taking in the innermost frame's statements: those other than imports are
/// kept in order; at an import, its file is asked for; when none is left, the
/// frame's own functions follow those of its imports, and what it gathered
/// joins the frame below (or is the result, for the outermost).
pub open spec fn advance(l: LoaderV) -> (LoaderV, RequestV)
    decreases l.frames.len(), top_rest_len(l),
{
    if l.frames.len() == 0 {
        (LoaderV { waiting: WaitV::Nothing, ..l }, RequestV::Done(Ok(empty_program())))
    } else {
        let f = l.frames.last();
        let below = l.frames.drop_last();
        if f.rest.len() == 0 {
            let done = done_program_of(f);
            if below.len() == 0 {
                (LoaderV { frames: below, waiting: WaitV::Nothing, ..l }, RequestV::Done(Ok(done)))
            } else {
                let g = below.last();
                advance(
                    LoaderV {
                        frames: below.drop_last().push(resumed(g, done)),
                        waiting: WaitV::Nothing,
                        ..l
                    },
                )
            }
        } else {
            let s = f.rest[0];
            match s {
                StmtV::Import { path, line } => (
                    LoaderV {
                        frames: below.push(FrameV { rest: f.rest.drop_first(), import: path, line, ..f }),
                        waiting: WaitV::Locate(path),
                        ..l
                    },
                    RequestV::Locate { from: Some(f.base), import: path },
                ),
                _ => advance(
                    LoaderV {
                        frames: below.push(
                            FrameV {
                                rest: f.rest.drop_first(),
                                program: ProgramV { main: f.program.main.push(s), ..f.program },
                                ..f
                            },
                        ),
                        waiting: WaitV::Nothing,
                        ..l
                    },
                ),
            }
        }
    }
}

/// The frame `g` after its import, which loaded `p`: `p` joins what it
/// gathered, and it has no import in flight any more.
pub open spec fn resumed(g: FrameV, p: ProgramV) -> FrameV {
    FrameV { program: merged(g.program, p), import: Seq::empty(), line: 0, ..g }
}

/// The program `p` loaded for the innermost frame's import.
pub open spec fn deliver(l: LoaderV, p: ProgramV) -> (LoaderV, RequestV) {
    if l.frames.len() == 0 {
        (LoaderV { waiting: WaitV::Nothing, ..l }, RequestV::Done(Ok(p)))
    } else {
        let g = l.frames.last();
        advance(
            LoaderV {
                frames: l.frames.drop_last().push(resumed(g, p)),
                waiting: WaitV::Nothing,
                ..l
            },
        )
    }
}

/// The file asked for was located at `target`: its canonical path, or why
/// it could not be. A file already being loaded is an import cycle; a file
/// loaded before contributes nothing a second time; any other is read.
pub open spec fn on_located(l: LoaderV, target: Seq<char>, r: Result<Seq<char>, Seq<char>>) -> (LoaderV, RequestV) {
    match r {
        Err(e) => fail(l, "cannot resolve '"@ + target + "': "@ + e),
        Ok(c) => if stack_of(l.frames).contains(c) {
            fail(l, "import cycle detected: "@ + join(stack_of(l.frames).push(c), " -> "@))
        } else if l.loaded.contains(c) {
            deliver(l, empty_program())
        } else {
            (LoaderV { loaded: l.loaded.push(c), waiting: WaitV::Read(c), ..l }, RequestV::Read(c))
        },
    }
}

/// The file at canonical path `c` was read: its text, or why it could not be.
pub open spec fn on_read(l: LoaderV, c: Seq<char>, r: Result<Seq<char>, Seq<char>>, fu: FloatFn) -> (LoaderV, RequestV) {
    match r {
        Err(e) => fail(l, "cannot read '"@ + c + "': "@ + e),
        Ok(text) => match spec_lex(text, fu) {
            Err(e) => fail(l, c + ": "@ + e),
            Ok(ts) => match spec_parse_program(ts) {
                Err(e) => fail(l, c + ": "@ + e),
                Ok(p) => advance(
                    LoaderV {
                        frames: l.frames.push(
                            FrameV {
                                prefix: c + ":"@,
                                base: c,
                                file: true,
                                rest: p.main,
                                funcs: p.funcs,
                                program: empty_program(),
                                import: Seq::empty(),
                                line: 0,
                            },
                        ),
                        waiting: WaitV::Nothing,
                        ..l
                    },
                ),
            },
        },
    }
}

pub open spec fn idle() -> LoaderV {
    LoaderV { loaded: Seq::empty(), frames: Seq::empty(), waiting: WaitV::Nothing }
}

/// Loading the file at `path`: first, it is located.
pub open spec fn file_start(path: Seq<char>) -> (LoaderV, RequestV) {
    (LoaderV { waiting: WaitV::Locate(path), ..idle() }, RequestV::Locate { from: None, import: path })
}

/// Loading the snippet `source`, as though it were the file `virtual_file`.
pub open spec fn snippet_start(source: Seq<char>, virtual_file: Seq<char>, fu: FloatFn) -> (LoaderV, RequestV) {
    match spec_lex(source, fu) {
        Err(e) => (idle(), RequestV::Done(Err(e))),
        Ok(ts) => match spec_parse_program(ts) {
            Err(e) => (idle(), RequestV::Done(Err(e))),
            Ok(p) => advance(
                LoaderV {
                    frames: seq![
                        FrameV {
                            prefix: Seq::empty(),
                            base: virtual_file,
                            file: false,
                            rest: p.main,
                            funcs: p.funcs,
                            program: empty_program(),
                            import: Seq::empty(),
                            line: 0,
                        },
                    ],
                    ..idle()
                },
            ),
        },
    }
}

// ---------------------------------------------------------------- the loader

struct Frame {
    prefix: String,
    base: String,
    file: bool,
    rest: Vec<Stmt>,
    funcs: Vec<Func>,
    program: Program,
    import: String,
    line: usize,
}

spec fn frame_view(f: Frame) -> FrameV {
    FrameV {
        prefix: f.prefix@,
        base: f.base@,
        file: f.file,
        rest: stmts_view(f.rest@),
        funcs: funcs_view(f.funcs@),
        program: program_view(f.program),
        import: f.import@,
        line: f.line as nat,
    }
}

enum Waiting {
    Locate(String),
    Read(String),
    Nothing,
}

/// What a loader needs next.
pub enum LoadRequest {
    /// Find the file named `import`: as written in the file `from` (relative
    /// to it, or in the standard library, see `std_module_path`), or, with no
    /// `from`, as given by the user. Answer with `Loader::located`.
    Locate { from: Option<String>, import: String },
    /// Read the file at this canonical path. Answer with `Loader::read`.
    Read(String),
    /// Loading has ended: the merged program, or the first error.
    Done(Result<Program, String>),
}

pub open spec fn request_view(r: LoadRequest) -> RequestV {
    match r {
        LoadRequest::Locate { from, import } => RequestV::Locate {
            from: match from {
                Some(f) => Some(f@),
                None => None,
            },
            import: import@,
        },
        LoadRequest::Read(c) => RequestV::Read(c@),
        LoadRequest::Done(r) => RequestV::Done(
            match r {
                Ok(p) => Ok(program_view(p)),
                Err(e) => Err(e@),
            },
        ),
    }
}

/// Loads a program from a file and the files it imports, each file once.
pub struct Loader {
    loaded: Vec<String>,
    frames: Vec<Frame>,
    waiting: Waiting,
}

impl View for Loader {
    type V = LoaderV;

    closed spec fn view(&self) -> LoaderV {
        LoaderV {
            loaded: strings_view(self.loaded@),
            frames: self.frames@.map_values(|f: Frame| frame_view(f)),
            waiting: match self.waiting {
                Waiting::Locate(p) => WaitV::Locate(p@),
                Waiting::Read(c) => WaitV::Read(c@),
                Waiting::Nothing => WaitV::Nothing,
            },
        }
    }
}

/// The items, separated by `sep`.
fn join_strings(items: &Vec<String>, sep: &str) -> (r: String)
    ensures
        r@ == join(strings_view(items@), sep@),
{
    let ghost v = strings_view(items@);
    let mut out = String::new();
    let mut i: usize = 0;
    while i < items.len()
        invariant
            i <= items@.len(),
            v == strings_view(items@),
            out@ == join(v.take(i as int), sep@),
        decreases items@.len() - i,
    {
        if i > 0 {
            push_str(&mut out, sep);
        }
        push_str(&mut out, items[i].as_str());
        proof {
            assert(v.take(i + 1).drop_last() =~= v.take(i as int));
            assert(v.take(i + 1).last() == items@[i as int]@);
            if i == 0 {
                assert(join(v.take(0), sep@) =~= Seq::<char>::empty());
            }
        }
        i = i + 1;
    }
    assert(v.take(items@.len() as int) =~= v);
    out
}

/// Whether `s` is among `items`.
fn contains_string(items: &Vec<String>, s: &str) -> (r: bool)
    ensures
        r == strings_view(items@).contains(s@),
{
    let ghost v = strings_view(items@);
    let mut i: usize = 0;
    while i < items.len()
        invariant
            i <= items@.len(),
            v == strings_view(items@),
            forall|j: int| 0 <= j < i ==> v[j] != s@,
        decreases items@.len() - i,
    {
        if str_eq(items[i].as_str(), s) {
            assert(v[i as int] == s@);
            return true;
        }
        i = i + 1;
    }
    false
}

impl Loader {
    /// Whether the loader waits for a file to be read.
    pub open spec fn awaits_text(&self) -> bool {
        self@.waiting is Read
    }

    /// Ends loading with the error `e`, told through the importing files.
    fn fail(&mut self, e: String) -> (r: LoadRequest)
        ensures
            (final(self)@, request_view(r)) == fail(old(self)@, e@),
    {
        let ghost fv = self@.frames;
        let mut m = e;
        let mut i = self.frames.len();
        assert(fv.take(i as int) =~= fv);
        while i > 0
            invariant
                i <= self.frames@.len(),
                fv == self@.frames,
                wrap_error(fv, e@) == wrap_error(fv.take(i as int), m@),
            decreases i,
        {
            let f = &self.frames[i - 1];
            assert(fv.take(i as int).drop_last() =~= fv.take(i - 1));
            assert(fv.take(i as int).last() == frame_view(self.frames@[i - 1]));
            let mut w = f.prefix.clone();
            push_decimal(&mut w, f.line as u128);
            push_str(&mut w, ": while importing '");
            push_str(&mut w, f.import.as_str());
            push_str(&mut w, "': ");
            push_str(&mut w, m.as_str());
            m = w;
            i = i - 1;
        }
        assert(fv.take(0) =~= Seq::<FrameV>::empty());
        self.waiting = Waiting::Nothing;
        LoadRequest::Done(Err(m))
    }
}

impl Loader {
    /// Takes in statements of the innermost frame (see `advance`).
    fn advance(&mut self) -> (r: LoadRequest)
        requires
            old(self)@.frames.len() > 0,
        ensures
            (final(self)@, request_view(r)) == advance(old(self)@),
    {
        loop
            invariant
                self@.frames.len() > 0,
                advance(old(self)@) == advance(self@),
            decreases self@.frames.len(), top_rest_len(self@),
        {
            let ghost l = self@;
            let ghost fv = l.frames.last();
            let mut f = self.frames.pop().unwrap();
            assert(self@.frames =~= l.frames.drop_last());
            assert(frame_view(f) == fv);
            if f.rest.len() == 0 {
                let Frame { funcs: mut own, program: mut done, .. } = f;
                let ghost done_funcs = funcs_view(done.funcs@);
                done.funcs.append(&mut own);
                assert(funcs_view(done.funcs@) =~= fv.program.funcs + fv.funcs);
                assert(program_view(done) == ProgramV { funcs: fv.program.funcs + fv.funcs, main: fv.program.main });
                if self.frames.len() == 0 {
                    self.waiting = Waiting::Nothing;
                    return LoadRequest::Done(Ok(done));
                }
                let ghost below = self@.frames;
                let mut g = self.frames.pop().unwrap();
                let ghost gv = frame_view(g);
                assert(gv == below.last());
                let ghost gm = g.program.main@;
                let ghost dm = done.main@;
                g.program.funcs.append(&mut done.funcs);
                g.program.main.append(&mut done.main);
                proof {
                    lemma_stmts_view_append(gm, dm);
                }
                assert(funcs_view(g.program.funcs@) =~= gv.program.funcs + (fv.program.funcs + fv.funcs));
                assert(stmts_view(g.program.main@) =~= gv.program.main + fv.program.main);
                assert(program_view(g.program) == merged(gv.program, done_program_of(fv)));
                g.import = String::new();
                g.line = 0;
                assert(frame_view(g) == resumed(gv, done_program_of(fv)));
                self.frames.push(g);
                self.waiting = Waiting::Nothing;
                assert(self@.frames =~= below.drop_last().push(resumed(gv, done_program_of(fv))));
            } else {
                let ghost rest0 = f.rest@;
                let s = f.rest.remove(0);
                proof {
                    lemma_stmts_view_drop_first(rest0);
                }
                assert(f.rest@ =~= rest0.drop_first());
                match s {
                    Stmt::Import { path, line } => {
                        f.import = path.clone();
                        f.line = line;
                        let from = f.base.clone();
                        self.frames.push(f);
                        self.waiting = Waiting::Locate(path.clone());
                        assert(self@.frames =~= l.frames.drop_last().push(
                            FrameV { rest: fv.rest.drop_first(), import: path@, line: line as nat, ..fv },
                        ));
                        return LoadRequest::Locate { from: Some(from), import: path };
                    },
                    other => {
                        let ghost mm = f.program.main@;
                        f.program.main.push(other);
                        proof {
                            lemma_stmts_view_append(mm, seq![other]);
                            assert(mm.push(other) =~= mm + seq![other]);
                            assert(stmts_view(seq![other]) =~= seq![stmt_view(other)]) by {
                                assert(seq![other].drop_first() =~= Seq::<Stmt>::empty());
                                assert(stmts_view(seq![other].drop_first()) =~= Seq::<StmtV>::empty());
                                assert(seq![other][0] == other);
                            }
                            assert(stmts_view(f.program.main@) =~= fv.program.main.push(stmt_view(other)));
                            assert(program_view(f.program) == ProgramV { main: fv.program.main.push(stmt_view(other)), ..fv.program });
                            assert(stmts_view(f.rest@) == fv.rest.drop_first());
                        }
                        self.frames.push(f);
                        self.waiting = Waiting::Nothing;
                        assert(self@.frames =~= l.frames.drop_last().push(
                            FrameV {
                                rest: fv.rest.drop_first(),
                                program: ProgramV { main: fv.program.main.push(stmt_view(other)), ..fv.program },
                                ..fv
                            },
                        ));
                    },
                }
            }
        }
    }
}

pub open spec fn text_result(r: Result<String, String>) -> Result<Seq<char>, Seq<char>> {
    match r {
        Ok(t) => Ok(t@),
        Err(e) => Err(e@),
    }
}

impl Loader {
    /// Canonical paths of the files being loaded (see `stack_of`).
    fn stack_paths(&self) -> (r: Vec<String>)
        ensures
            strings_view(r@) == stack_of(self@.frames),
    {
        let ghost fv = self@.frames;
        let mut out: Vec<String> = Vec::new();
        let mut i: usize = 0;
        assert(fv.take(0) =~= Seq::<FrameV>::empty());
        assert(strings_view(out@) =~= Seq::<Seq<char>>::empty());
        while i < self.frames.len()
            invariant
                i <= self.frames@.len(),
                fv == self@.frames,
                strings_view(out@) == stack_of(fv.take(i as int)),
            decreases self.frames@.len() - i,
        {
            assert(fv.take(i + 1).drop_last() =~= fv.take(i as int));
            assert(fv.take(i + 1).last() == frame_view(self.frames@[i as int]));
            if self.frames[i].file {
                let ghost pre = strings_view(out@);
                out.push(self.frames[i].base.clone());
                assert(strings_view(out@) =~= pre.push(self.frames@[i as int].base@));
            }
            i = i + 1;
        }
        assert(fv.take(i as int) =~= fv);
        out
    }

    /// An import that contributes nothing: the innermost frame goes on (see `deliver`).
    fn deliver_nothing(&mut self) -> (r: LoadRequest)
        ensures
            (final(self)@, request_view(r)) == deliver(old(self)@, empty_program()),
    {
        self.waiting = Waiting::Nothing;
        if self.frames.len() == 0 {
            let p = Program { funcs: Vec::new(), main: Vec::new() };
            assert(program_view(p) =~= empty_program()) by {
                assert(funcs_view(p.funcs@) =~= Seq::<FuncV>::empty());
                assert(stmts_view(p.main@) =~= Seq::<StmtV>::empty());
            }
            return LoadRequest::Done(Ok(p));
        }
        let ghost l = old(self)@;
        let ghost gv = l.frames.last();
        assert(merged(gv.program, empty_program()) =~= gv.program) by {
            assert(gv.program.funcs + Seq::<FuncV>::empty() =~= gv.program.funcs);
            assert(gv.program.main + Seq::<StmtV>::empty() =~= gv.program.main);
        }
        let mut g = self.frames.pop().unwrap();
        assert(frame_view(g) == gv);
        g.import = String::new();
        g.line = 0;
        assert(frame_view(g) == resumed(gv, empty_program()));
        self.frames.push(g);
        assert(l.frames.drop_last().push(resumed(gv, empty_program())) =~= self@.frames);
        self.advance()
    }

    /// The file asked for was located at `target` (as shown in messages):
    /// `canonical` is its canonical path, or why it could not be found (see `on_located`).
    pub fn located(&mut self, target: &str, canonical: Result<String, String>) -> (r: LoadRequest)
        ensures
            (final(self)@, request_view(r)) == on_located(old(self)@, target@, text_result(canonical)),
    {
        match canonical {
            Err(e) => {
                let mut m = to_owned_string("cannot resolve '");
                push_str(&mut m, target);
                push_str(&mut m, "': ");
                push_str(&mut m, e.as_str());
                self.fail(m)
            },
            Ok(c) => {
                let mut chain = self.stack_paths();
                if contains_string(&chain, c.as_str()) {
                    let ghost pre = strings_view(chain@);
                    chain.push(c.clone());
                    assert(strings_view(chain@) =~= pre.push(c@));
                    let mut m = to_owned_string("import cycle detected: ");
                    let j = join_strings(&chain, " -> ");
                    push_str(&mut m, j.as_str());
                    return self.fail(m);
                }
                if contains_string(&self.loaded, c.as_str()) {
                    return self.deliver_nothing();
                }
                let ghost pre = strings_view(self.loaded@);
                self.loaded.push(c.clone());
                assert(strings_view(self.loaded@) =~= pre.push(c@));
                self.waiting = Waiting::Read(c.clone());
                LoadRequest::Read(c)
            },
        }
    }

    /// The file asked for was read: its text, or why it could not be (see `on_read`).
    pub fn read<F: Fn(FloatOp) -> FloatOut>(&mut self, text: Result<String, String>, fl: &F) -> (r: LoadRequest)
        requires
            old(self).awaits_text(),
            text matches Ok(t) ==> t@.len() < usize::MAX,
            unit_deterministic(fl),
        ensures
            (final(self)@, request_view(r)) == on_read(
                old(self)@,
                old(self)@.waiting->Read_0,
                text_result(text),
                unit_function(fl),
            ),
    {
        let c = match &self.waiting {
            Waiting::Read(c) => c.clone(),
            _ => {
                assert(false);
                to_owned_string("")
            },
        };
        match text {
            Err(e) => {
                let mut m = to_owned_string("cannot read '");
                push_str(&mut m, c.as_str());
                push_str(&mut m, "': ");
                push_str(&mut m, e.as_str());
                self.fail(m)
            },
            Ok(t) => {
                let tokens = match lex(t.as_str(), fl) {
                    Ok(ts) => ts,
                    Err(e) => {
                        let mut m = c.clone();
                        push_str(&mut m, ": ");
                        push_str(&mut m, e.as_str());
                        return self.fail(m);
                    },
                };
                proof {
                    lemma_lex_ends_with_eof(t@, unit_function(fl));
                }
                let mut parser = Parser::new(tokens);
                let prog = match parser.parse_program() {
                    Ok(p) => p,
                    Err(e) => {
                        let mut m = c.clone();
                        push_str(&mut m, ": ");
                        push_str(&mut m, e.as_str());
                        return self.fail(m);
                    },
                };
                let Program { funcs, main } = prog;
                let mut prefix = c.clone();
                push_str(&mut prefix, ":");
                let empty = Program { funcs: Vec::new(), main: Vec::new() };
                assert(program_view(empty) =~= empty_program()) by {
                    assert(funcs_view(empty.funcs@) =~= Seq::<FuncV>::empty());
                    assert(stmts_view(empty.main@) =~= Seq::<StmtV>::empty());
                }
                let frame = Frame {
                    prefix,
                    base: c,
                    file: true,
                    rest: main,
                    funcs,
                    program: empty,
                    import: String::new(),
                    line: 0,
                };
                let ghost fv = frame_view(frame);
                let ghost pre = self@.frames;
                self.frames.push(frame);
                self.waiting = Waiting::Nothing;
                assert(self@.frames =~= pre.push(fv));
                self.advance()
            },
        }
    }

    /// A loader for the program in the file at `path`, and its first request:
    /// to locate that file.
    pub fn for_file(path: &str) -> (r: (Loader, LoadRequest))
        ensures
            (r.0@, request_view(r.1)) == file_start(path@),
    {
        let l = Loader { loaded: Vec::new(), frames: Vec::new(), waiting: Waiting::Locate(to_owned_string(path)) };
        assert(l@.loaded =~= Seq::<Seq<char>>::empty());
        assert(l@.frames =~= Seq::<FrameV>::empty());
        (l, LoadRequest::Locate { from: None, import: to_owned_string(path) })
    }

    /// A loader for the program `source`, taken as the text of a file at
    /// `virtual_file` (which need not exist): its imports are found from there.
    /// Beside it, its first request.
    pub fn for_snippet<F: Fn(FloatOp) -> FloatOut>(source: &str, virtual_file: &str, fl: &F) -> (r: (Loader, LoadRequest))
        requires
            source@.len() < usize::MAX,
            unit_deterministic(fl),
        ensures
            (r.0@, request_view(r.1)) == snippet_start(source@, virtual_file@, unit_function(fl)),
    {
        let mut l = Loader { loaded: Vec::new(), frames: Vec::new(), waiting: Waiting::Nothing };
        assert(l@.loaded =~= Seq::<Seq<char>>::empty());
        assert(l@.frames =~= Seq::<FrameV>::empty());
        assert(l@ == idle());
        let tokens = match lex(source, fl) {
            Ok(ts) => ts,
            Err(e) => return (l, LoadRequest::Done(Err(e))),
        };
        proof {
            lemma_lex_ends_with_eof(source@, unit_function(fl));
        }
        let mut parser = Parser::new(tokens);
        let prog = match parser.parse_program() {
            Ok(p) => p,
            Err(e) => return (l, LoadRequest::Done(Err(e))),
        };
        let Program { funcs, main } = prog;
        let empty = Program { funcs: Vec::new(), main: Vec::new() };
        assert(program_view(empty) =~= empty_program()) by {
            assert(funcs_view(empty.funcs@) =~= Seq::<FuncV>::empty());
            assert(stmts_view(empty.main@) =~= Seq::<StmtV>::empty());
        }
        let frame = Frame {
            prefix: String::new(),
            base: to_owned_string(virtual_file),
            file: false,
            rest: main,
            funcs,
            program: empty,
            import: String::new(),
            line: 0,
        };
        let ghost fv = frame_view(frame);
        l.frames.push(frame);
        assert(l@.frames =~= seq![fv]);
        let r = l.advance();
        (l, r)
    }
}

// ---------------------------------------------------------------- the output file

/// The text of a `.tas` file: a two-line comment header naming the script
/// it came from and a blank line, then one line per action.
pub open spec fn tas_text(input_name: Seq<char>, lines: Seq<Seq<char>>) -> Seq<char>
    decreases lines.len(),
{
    if lines.len() == 0 {
        "; Generated by stasc from "@ + input_name + "\n; Do not edit by hand.\n\n"@
    } else {
        tas_text(input_name, lines.drop_last()) + lines.last() + "\n"@
    }
}

/// The text of the `.tas` file for the action `lines` compiled from the
/// script `input_name`.
pub fn tas_file_text(input_name: &str, lines: &Vec<String>) -> (r: String)
    ensures
        r@ == tas_text(input_name@, strings_view(lines@)),
{
    let ghost v = strings_view(lines@);
    let mut text = to_owned_string("; Generated by stasc from ");
    push_str(&mut text, input_name);
    push_str(&mut text, "\n; Do not edit by hand.\n\n");
    let mut i: usize = 0;
    assert(v.take(0) =~= Seq::<Seq<char>>::empty());
    while i < lines.len()
        invariant
            i <= lines@.len(),
            v == strings_view(lines@),
            text@ == tas_text(input_name@, v.take(i as int)),
        decreases lines@.len() - i,
    {
        assert(v.take(i + 1).drop_last() =~= v.take(i as int));
        push_str(&mut text, lines[i].as_str());
        push_str(&mut text, "\n");
        i = i + 1;
    }
    assert(v.take(i as int) =~= v);
    text
}

} // verus!
