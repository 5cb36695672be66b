//! How imports are loaded: the order in which files are asked for and read,
//! and what the loaded program holds, for a diamond of imports.

use vstd::prelude::*;
use crate::ast::{ProgramV, StmtV};
use crate::lexer::spec_lex;
use crate::parser::spec_parse_program;
use crate::loader::{
    advance, done_program_of, empty_program, file_start, on_located, on_read, resumed, stack_of, FrameV, LoaderV, RequestV, WaitV,
};
use crate::semantics::FloatFn;

verus! {

/// The text lexes and parses to the program `p`.
pub open spec fn parses_to(text: Seq<char>, fu: FloatFn, p: ProgramV) -> bool {
    spec_lex(text, fu) matches Ok(ts) && spec_parse_program(ts) == Ok::<ProgramV, Seq<char>>(p)
}

/// Statements none of which is an `import`.
pub open spec fn import_free(m: Seq<StmtV>) -> bool {
    forall|k: int| 0 <= k < m.len() ==> !(#[trigger] m[k] is Import)
}

/// The frame of a file just read, at canonical path `c`, whose text parsed to `p`.
pub open spec fn file_frame(c: Seq<char>, p: ProgramV) -> FrameV {
    FrameV {
        prefix: c + ":"@,
        base: c,
        file: true,
        rest: p.main,
        funcs: p.funcs,
        program: empty_program(),
        import: Seq::empty(),
        line: 0,
    }
}

proof fn lemma_read_file(l: LoaderV, c: Seq<char>, t: Seq<char>, fu: FloatFn, p: ProgramV)
    requires
        parses_to(t, fu, p),
    ensures
        on_read(l, c, Ok(t), fu) == advance(LoaderV { frames: l.frames.push(file_frame(c, p)), waiting: WaitV::Nothing, ..l }),
{
}

/// At an import, the innermost frame asks for its file.
proof fn lemma_advance_import(l: LoaderV, path: Seq<char>, line: nat)
    requires
        l.frames.len() > 0,
        l.frames.last().rest.len() > 0,
        l.frames.last().rest[0] == (StmtV::Import { path, line }),
    ensures
        advance(l) == (
            LoaderV {
                frames: l.frames.drop_last().push(
                    FrameV { rest: l.frames.last().rest.drop_first(), import: path, line, ..l.frames.last() },
                ),
                waiting: WaitV::Locate(path),
                ..l
            },
            RequestV::Locate { from: Some(l.frames.last().base), import: path },
        ),
{
}

/// A frame with no statements left joins the frame below.
proof fn lemma_advance_finish(l: LoaderV)
    requires
        l.frames.len() > 1,
        l.frames.last().rest.len() == 0,
    ensures
        advance(l) == advance(
            LoaderV {
                frames: l.frames.drop_last().drop_last().push(
                    resumed(l.frames.drop_last().last(), done_program_of(l.frames.last())),
                ),
                waiting: WaitV::Nothing,
                ..l
            },
        ),
{
}

/// A frame with no statements left, the only one, is the result.
proof fn lemma_advance_last(l: LoaderV)
    requires
        l.frames.len() == 1,
        l.frames.last().rest.len() == 0,
    ensures
        advance(l).1 == RequestV::Done(Ok(done_program_of(l.frames.last()))),
        advance(l).0.loaded == l.loaded,
{
}

/// The innermost frame takes in its statements without imports, in order.
proof fn lemma_take_in(l: LoaderV)
    requires
        l.frames.len() > 0,
        l.waiting == WaitV::Nothing,
        import_free(l.frames.last().rest),
    ensures
        advance(l) == advance(
            LoaderV {
                frames: l.frames.drop_last().push(
                    FrameV {
                        rest: Seq::empty(),
                        program: ProgramV {
                            main: l.frames.last().program.main + l.frames.last().rest,
                            ..l.frames.last().program
                        },
                        ..l.frames.last()
                    },
                ),
                ..l
            },
        ),
    decreases l.frames.last().rest.len(),
{
    let f = l.frames.last();
    let below = l.frames.drop_last();
    if f.rest.len() == 0 {
        let f2 = FrameV { rest: Seq::empty(), program: ProgramV { main: f.program.main + f.rest, ..f.program }, ..f };
        assert(f.program.main + f.rest =~= f.program.main);
        assert(f2.rest =~= f.rest);
        assert(f2 == f);
        assert(below.push(f2) =~= l.frames);
    } else {
        let s0 = f.rest[0];
        assert(!(s0 is Import));
        let f1 = FrameV { rest: f.rest.drop_first(), program: ProgramV { main: f.program.main.push(s0), ..f.program }, ..f };
        let l1 = LoaderV { frames: below.push(f1), waiting: WaitV::Nothing, ..l };
        assert(l1.frames.last() == f1);
        assert(l1.frames.drop_last() =~= below);
        assert(import_free(f1.rest)) by {
            assert forall|k: int| 0 <= k < f1.rest.len() implies !(#[trigger] f1.rest[k] is Import) by {
                assert(f1.rest[k] == f.rest[k + 1]);
            }
        }
        lemma_take_in(l1);
        assert(f.program.main.push(s0) + f.rest.drop_first() =~= f.program.main + f.rest);
    }
}

/// A frame after taking in all its statements (none of them an import).
pub open spec fn taken(f: FrameV) -> FrameV {
    FrameV { rest: Seq::empty(), program: ProgramV { main: f.program.main + f.rest, ..f.program }, ..f }
}

/// The innermost frame, without imports, is taken in whole and joins the frame below.
proof fn lemma_finish_top(l: LoaderV)
    requires
        l.frames.len() > 1,
        l.waiting == WaitV::Nothing,
        import_free(l.frames.last().rest),
    ensures
        advance(l) == advance(
            LoaderV {
                frames: l.frames.drop_last().drop_last().push(
                    resumed(l.frames.drop_last().last(), done_program_of(taken(l.frames.last()))),
                ),
                waiting: WaitV::Nothing,
                ..l
            },
        ),
{
    lemma_take_in(l);
    let l1 = LoaderV { frames: l.frames.drop_last().push(taken(l.frames.last())), ..l };
    assert(l1.frames.last() == taken(l.frames.last()));
    assert(l1.frames.drop_last() =~= l.frames.drop_last());
    lemma_advance_finish(l1);
}

/// The only frame, without imports, is taken in whole and is the result.
proof fn lemma_finish_only(l: LoaderV)
    requires
        l.frames.len() == 1,
        l.waiting == WaitV::Nothing,
        import_free(l.frames.last().rest),
    ensures
        advance(l).1 == RequestV::Done(Ok(done_program_of(taken(l.frames.last())))),
        advance(l).0.loaded == l.loaded,
{
    lemma_take_in(l);
    let l1 = LoaderV { frames: l.frames.drop_last().push(taken(l.frames.last())), ..l };
    assert(l1.frames.last() == taken(l.frames.last()));
    lemma_advance_last(l1);
}

/// A file that was neither loaded nor is being loaded is read next.
proof fn lemma_fresh_located(l: LoaderV, target: Seq<char>, c: Seq<char>)
    requires
        !stack_of(l.frames).contains(c),
        !l.loaded.contains(c),
    ensures
        on_located(l, target, Ok(c)) == (LoaderV { loaded: l.loaded.push(c), waiting: WaitV::Read(c), ..l }, RequestV::Read(c)),
{
}

/// A file read whose first statement is an import asks for that import.
proof fn lemma_read_then_import(l: LoaderV, c: Seq<char>, t: Seq<char>, fu: FloatFn, p: ProgramV, imp: StmtV)
    requires
        parses_to(t, fu, p),
        p.main.len() > 0,
        p.main[0] == imp,
        imp is Import,
    ensures
        on_read(l, c, Ok(t), fu) == (
            LoaderV {
                frames: l.frames.push(waiting_frame(c, p, imp)),
                waiting: WaitV::Locate(imp->Import_path),
                ..l
            },
            RequestV::Locate { from: Some(c), import: imp->Import_path },
        ),
{
    lemma_read_file(l, c, t, fu, p);
    let l1 = LoaderV { frames: l.frames.push(file_frame(c, p)), waiting: WaitV::Nothing, ..l };
    assert(l1.frames.last() == file_frame(c, p));
    assert(l1.frames.drop_last() =~= l.frames);
    lemma_advance_import(l1, imp->Import_path, imp->Import_line);
}

/// A frame waiting for the import `imp`, its first statement: the file at
/// `c` whose text parsed to `p`.
pub open spec fn waiting_frame(c: Seq<char>, p: ProgramV, imp: StmtV) -> FrameV {
    FrameV { rest: p.main.drop_first(), import: imp->Import_path, line: imp->Import_line, ..file_frame(c, p) }
}

/// The outer frame after its inner one, and the leaf file `d` (text parsed
/// to `p`) below that, are taken in: waiting for its next import `imp`.
pub open spec fn after_leaf(outer: FrameV, inner: FrameV, d: Seq<char>, p: ProgramV, imp: StmtV) -> FrameV {
    let o2 = resumed(outer, done_program_of(taken(resumed(inner, done_program_of(taken(file_frame(d, p)))))));
    FrameV { rest: o2.rest.drop_first(), import: imp->Import_path, line: imp->Import_line, ..o2 }
}

/// Two frames, the outer one waiting for an import; the inner one's file
/// `d` without imports is read: it, then the outer's own next part, are taken
/// in, and the outer frame asks for its next import `imp`.
proof fn lemma_read_leaf_then_import(
    l: LoaderV,
    outer: FrameV,
    inner: FrameV,
    d: Seq<char>,
    t: Seq<char>,
    fu: FloatFn,
    p: ProgramV,
    imp: StmtV,
)
    requires
        l.frames == seq![outer, inner],
        parses_to(t, fu, p),
        import_free(p.main),
        import_free(inner.rest),
        outer.rest.len() > 0,
        outer.rest[0] == imp,
        imp is Import,
    ensures
        on_read(l, d, Ok(t), fu) == (
            LoaderV {
                frames: seq![after_leaf(outer, inner, d, p, imp)],
                waiting: WaitV::Locate(imp->Import_path),
                ..l
            },
            RequestV::Locate { from: Some(outer.base), import: imp->Import_path },
        ),
{
    lemma_read_file(l, d, t, fu, p);
    let fd = file_frame(d, p);
    let l1 = LoaderV { frames: seq![outer, inner, fd], waiting: WaitV::Nothing, ..l };
    assert(l.frames.push(fd) =~= l1.frames);
    assert(l1.frames.last() == fd);
    assert(l1.frames.drop_last() =~= seq![outer, inner]);
    lemma_finish_top(l1);
    let i2 = resumed(inner, done_program_of(taken(fd)));
    let l2 = LoaderV { frames: seq![outer, i2], waiting: WaitV::Nothing, ..l1 };
    assert(seq![outer, inner].drop_last().push(i2) =~= l2.frames);
    assert(l2.frames.last() == i2);
    assert(l2.frames.drop_last() =~= seq![outer]);
    assert(i2.rest == inner.rest);
    lemma_finish_top(l2);
    let o2 = resumed(outer, done_program_of(taken(i2)));
    let l3 = LoaderV { frames: seq![o2], waiting: WaitV::Nothing, ..l2 };
    assert(seq![outer].drop_last().push(o2) =~= l3.frames);
    assert(l3.frames.last() == o2);
    assert(l3.frames.drop_last() =~= Seq::<FrameV>::empty());
    lemma_advance_import(l3, imp->Import_path, imp->Import_line);
    assert(l3.frames.drop_last().push(FrameV { rest: o2.rest.drop_first(), import: imp->Import_path, line: imp->Import_line, ..o2 })
        =~= seq![FrameV { rest: o2.rest.drop_first(), import: imp->Import_path, line: imp->Import_line, ..o2 }]);
}

/// Two frames, the inner one waiting for a file already loaded: that import
/// adds nothing, and both frames are taken in whole; the result is the
/// outer frame's program.
proof fn lemma_loaded_then_finish(l: LoaderV, outer: FrameV, inner: FrameV, target: Seq<char>, d: Seq<char>)
    requires
        l.frames == seq![outer, inner],
        l.loaded.contains(d),
        !stack_of(l.frames).contains(d),
        import_free(inner.rest),
        import_free(outer.rest),
    ensures
        on_located(l, target, Ok(d)).1 == RequestV::Done(
            Ok(done_program_of(taken(resumed(outer, done_program_of(taken(resumed(inner, empty_program()))))))),
        ),
        on_located(l, target, Ok(d)).0.loaded == l.loaded,
{
    let i1 = resumed(inner, empty_program());
    let l1 = LoaderV { frames: seq![outer, i1], waiting: WaitV::Nothing, ..l };
    assert(l.frames.drop_last().push(i1) =~= l1.frames);
    assert(l1.frames.last() == i1);
    assert(l1.frames.drop_last() =~= seq![outer]);
    lemma_finish_top(l1);
    let o2 = resumed(outer, done_program_of(taken(i1)));
    let l2 = LoaderV { frames: seq![o2], waiting: WaitV::Nothing, ..l1 };
    assert(seq![outer].drop_last().push(o2) =~= l2.frames);
    assert(l2.frames.last() == o2);
    lemma_finish_only(l2);
}

/// The stack of one file frame is its path.
proof fn lemma_stack_one(f: FrameV)
    requires
        f.file,
    ensures
        stack_of(seq![f]) == seq![f.base],
{
    let fs = seq![f];
    assert(fs.drop_last() =~= Seq::<FrameV>::empty());
    assert(stack_of(fs.drop_last()) == Seq::<Seq<char>>::empty());
    assert(fs.last() == f);
    assert(Seq::<Seq<char>>::empty().push(f.base) =~= seq![f.base]);
}

/// The stack of two file frames is their paths, outer first.
proof fn lemma_stack_two(f: FrameV, g: FrameV)
    requires
        f.file,
        g.file,
    ensures
        stack_of(seq![f, g]) == seq![f.base, g.base],
{
    let fs = seq![f, g];
    assert(fs.drop_last() =~= seq![f]);
    lemma_stack_one(f);
    assert(fs.last() == g);
    assert(seq![f.base].push(g.base) =~= seq![f.base, g.base]);
}

/// The first file is located and read; it asks for its first import.
proof fn lemma_diamond_a(pa_path: Seq<char>, a: Seq<char>, ta: Seq<char>, fu: FloatFn, pa: ProgramV)
    requires
        parses_to(ta, fu, pa),
        pa.main.len() >= 1,
        pa.main[0] is Import,
    ensures
        file_start(pa_path).1 == (RequestV::Locate { from: None, import: pa_path }),
        on_located(file_start(pa_path).0, pa_path, Ok(a)).1 == RequestV::Read(a),
        on_read(on_located(file_start(pa_path).0, pa_path, Ok(a)).0, a, Ok(ta), fu) == (
            LoaderV { loaded: seq![a], frames: seq![waiting_frame(a, pa, pa.main[0])], waiting: WaitV::Locate(pa.main[0]->Import_path) },
            RequestV::Locate { from: Some(a), import: pa.main[0]->Import_path },
        ),
{
    let l0 = file_start(pa_path).0;
    assert(l0.frames =~= Seq::<FrameV>::empty());
    lemma_fresh_located(l0, pa_path, a);
    let l1 = on_located(l0, pa_path, Ok(a)).0;
    assert(l1.loaded =~= seq![a]);
    lemma_read_then_import(l1, a, ta, fu, pa, pa.main[0]);
    assert(l1.frames.push(waiting_frame(a, pa, pa.main[0])) =~= seq![waiting_frame(a, pa, pa.main[0])]);
}

/// Its first import is located and read; that file asks for its own import.
proof fn lemma_diamond_b(l2: LoaderV, target: Seq<char>, b: Seq<char>, tb: Seq<char>, fu: FloatFn, pb: ProgramV, fa1: FrameV, a: Seq<char>)
    requires
        parses_to(tb, fu, pb),
        pb.main.len() >= 1,
        pb.main[0] is Import,
        fa1.file,
        fa1.base == a,
        a != b,
        l2.loaded == seq![a],
        l2.frames == seq![fa1],
    ensures
        on_located(l2, target, Ok(b)).1 == RequestV::Read(b),
        on_read(on_located(l2, target, Ok(b)).0, b, Ok(tb), fu) == (
            LoaderV {
                loaded: seq![a, b],
                frames: seq![fa1, waiting_frame(b, pb, pb.main[0])],
                waiting: WaitV::Locate(pb.main[0]->Import_path),
            },
            RequestV::Locate { from: Some(b), import: pb.main[0]->Import_path },
        ),
{
    lemma_stack_one(fa1);
    assert(!stack_of(l2.frames).contains(b)) by {
        if seq![a].contains(b) {
            let k = choose|k: int| 0 <= k < 1 && seq![a][k] == b;
            assert(k == 0);
        }
    }
    assert(!l2.loaded.contains(b)) by {
        if l2.loaded.contains(b) {
            let k = choose|k: int| 0 <= k < l2.loaded.len() && l2.loaded[k] == b;
            assert(k == 0);
        }
    }
    lemma_fresh_located(l2, target, b);
    let l3 = on_located(l2, target, Ok(b)).0;
    lemma_read_then_import(l3, b, tb, fu, pb, pb.main[0]);
    assert(l3.loaded =~= seq![a, b]);
    assert(l3.frames.push(waiting_frame(b, pb, pb.main[0])) =~= seq![fa1, waiting_frame(b, pb, pb.main[0])]);
}

/// The leaf is located and read; it and the file above it are taken in, and
/// the outermost file asks for its second import.
proof fn lemma_diamond_d(
    l4: LoaderV,
    target: Seq<char>,
    d: Seq<char>,
    td: Seq<char>,
    fu: FloatFn,
    pd: ProgramV,
    fa1: FrameV,
    fb1: FrameV,
    a: Seq<char>,
    b: Seq<char>,
)
    requires
        parses_to(td, fu, pd),
        import_free(pd.main),
        import_free(fb1.rest),
        fa1.rest.len() >= 1,
        fa1.rest[0] is Import,
        fa1.file,
        fa1.base == a,
        fb1.file,
        fb1.base == b,
        a != d,
        b != d,
        l4.loaded == seq![a, b],
        l4.frames == seq![fa1, fb1],
    ensures
        on_located(l4, target, Ok(d)).1 == RequestV::Read(d),
        on_read(on_located(l4, target, Ok(d)).0, d, Ok(td), fu) == (
            LoaderV {
                loaded: seq![a, b, d],
                frames: seq![after_leaf(fa1, fb1, d, pd, fa1.rest[0])],
                waiting: WaitV::Locate(fa1.rest[0]->Import_path),
            },
            RequestV::Locate { from: Some(a), import: fa1.rest[0]->Import_path },
        ),
{
    lemma_stack_two(fa1, fb1);
    assert(!stack_of(l4.frames).contains(d)) by {
        if seq![a, b].contains(d) {
            let k = choose|k: int| 0 <= k < 2 && seq![a, b][k] == d;
            assert(k == 0 || k == 1);
        }
    }
    assert(!l4.loaded.contains(d)) by {
        if l4.loaded.contains(d) {
            let k = choose|k: int| 0 <= k < l4.loaded.len() && l4.loaded[k] == d;
            assert(k == 0 || k == 1);
        }
    }
    lemma_fresh_located(l4, target, d);
    let l5 = on_located(l4, target, Ok(d)).0;
    assert(l5.loaded =~= seq![a, b, d]);
    lemma_read_leaf_then_import(l5, fa1, fb1, d, td, fu, pd, fa1.rest[0]);
}

/// The second import is located and read; its import of the leaf, loaded
/// already, adds nothing, and loading ends with the outermost file's program.
proof fn lemma_diamond_c(
    l6: LoaderV,
    target: Seq<char>,
    target_again: Seq<char>,
    c: Seq<char>,
    d: Seq<char>,
    tc: Seq<char>,
    fu: FloatFn,
    pc: ProgramV,
    fa3: FrameV,
    a: Seq<char>,
    b: Seq<char>,
)
    requires
        parses_to(tc, fu, pc),
        pc.main.len() >= 1,
        pc.main[0] is Import,
        import_free(pc.main.drop_first()),
        import_free(fa3.rest),
        fa3.file,
        fa3.base == a,
        a != c,
        b != c,
        c != d,
        a != d,
        l6.loaded == seq![a, b, d],
        l6.frames == seq![fa3],
    ensures
        on_located(l6, target, Ok(c)).1 == RequestV::Read(c),
        on_read(on_located(l6, target, Ok(c)).0, c, Ok(tc), fu).1 == (RequestV::Locate {
            from: Some(c),
            import: pc.main[0]->Import_path,
        }),
        ({
            let l8 = on_read(on_located(l6, target, Ok(c)).0, c, Ok(tc), fu).0;
            &&& on_located(l8, target_again, Ok(d)).1 == RequestV::Done(
                Ok(done_program_of(taken(resumed(fa3, done_program_of(taken(resumed(waiting_frame(c, pc, pc.main[0]), empty_program()))))))),
            )
            &&& on_located(l8, target_again, Ok(d)).0.loaded == seq![a, b, d, c]
        }),
{
    lemma_stack_one(fa3);
    assert(!stack_of(l6.frames).contains(c)) by {
        if seq![a].contains(c) {
            let k = choose|k: int| 0 <= k < 1 && seq![a][k] == c;
            assert(k == 0);
        }
    }
    assert(!l6.loaded.contains(c)) by {
        if l6.loaded.contains(c) {
            let k = choose|k: int| 0 <= k < l6.loaded.len() && l6.loaded[k] == c;
            assert(k == 0 || k == 1 || k == 2);
        }
    }
    lemma_fresh_located(l6, target, c);
    let l7 = on_located(l6, target, Ok(c)).0;
    lemma_read_then_import(l7, c, tc, fu, pc, pc.main[0]);
    let fc1 = waiting_frame(c, pc, pc.main[0]);
    let l8 = on_read(l7, c, Ok(tc), fu).0;
    assert(l8.frames =~= seq![fa3, fc1]);
    assert(l8.loaded =~= seq![a, b, d, c]);
    lemma_stack_two(fa3, fc1);
    assert(!stack_of(l8.frames).contains(d)) by {
        if seq![a, c].contains(d) {
            let k = choose|k: int| 0 <= k < 2 && seq![a, c][k] == d;
            assert(k == 0 || k == 1);
        }
    }
    assert(l8.loaded.contains(d)) by {
        assert(l8.loaded[2] == d);
    }
    assert(fc1.rest == pc.main.drop_first());
    lemma_loaded_then_finish(l8, fa3, fc1, target_again, d);
}

/// What a diamond of imports loads to: each file's functions once, those of
/// `d` first, then `b`, `c` and `a`; each file's own statements after the
/// imports at its top, in the same order.
pub open spec fn diamond_program(pa: ProgramV, pb: ProgramV, pc: ProgramV, pd: ProgramV) -> ProgramV {
    ProgramV {
        funcs: pd.funcs + pb.funcs + pc.funcs + pa.funcs,
        main: pd.main + pb.main.drop_first() + pc.main.drop_first() + pa.main.skip(2),
    }
}

/// The frames of a diamond, as loading leaves them, gather `diamond_program`.
proof fn lemma_diamond_program(a: Seq<char>, b: Seq<char>, c: Seq<char>, d: Seq<char>, pa: ProgramV, pb: ProgramV, pc: ProgramV, pd: ProgramV)
    requires
        pa.main.len() >= 2,
        pa.main[0] is Import,
        pa.main[1] is Import,
        pb.main.len() >= 1,
        pb.main[0] is Import,
        pc.main.len() >= 1,
        pc.main[0] is Import,
    ensures
        ({
            let fa1 = waiting_frame(a, pa, pa.main[0]);
            let fb1 = waiting_frame(b, pb, pb.main[0]);
            let fa3 = after_leaf(fa1, fb1, d, pd, fa1.rest[0]);
            let fc1 = waiting_frame(c, pc, pc.main[0]);
            &&& fa3.rest =~= pa.main.skip(2)
            &&& fa3.file && fa3.base == a
            &&& done_program_of(taken(resumed(fa3, done_program_of(taken(resumed(fc1, empty_program()))))))
                == diamond_program(pa, pb, pc, pd)
        }),
{
    let fa1 = waiting_frame(a, pa, pa.main[0]);
    let fb1 = waiting_frame(b, pb, pb.main[0]);
    let fdone = done_program_of(taken(file_frame(d, pd)));
    assert(fdone.funcs =~= pd.funcs);
    assert(fdone.main =~= pd.main);
    let bdone = done_program_of(taken(resumed(fb1, fdone)));
    assert(bdone.funcs =~= pd.funcs + pb.funcs);
    assert(bdone.main =~= pd.main + pb.main.drop_first());
    let fa3 = after_leaf(fa1, fb1, d, pd, fa1.rest[0]);
    assert(fa3.rest =~= pa.main.skip(2));
    assert(fa3.program.funcs =~= pd.funcs + pb.funcs);
    assert(fa3.program.main =~= pd.main + pb.main.drop_first());
    let fc1 = waiting_frame(c, pc, pc.main[0]);
    let cdone = done_program_of(taken(resumed(fc1, empty_program())));
    assert(cdone.funcs =~= pc.funcs);
    assert(cdone.main =~= pc.main.drop_first());
    let adone = done_program_of(taken(resumed(fa3, cdone)));
    assert(adone.funcs =~= pd.funcs + pb.funcs + pc.funcs + pa.funcs);
    assert(adone.main =~= pd.main + pb.main.drop_first() + pc.main.drop_first() + pa.main.skip(2));
}

/// A diamond of imports: `a` imports `b`, then `c`, and both of them import
/// `d`, which imports nothing; every import stands at the top of its file.
/// Loading `a` reads each of the four files once, in the order `a`, `b`,
/// `d`, `c`: the second import of `d` is located but not read again, and adds
/// nothing. The result holds each file's functions and statements once, a
/// file's imports before the file itself, in the order the imports come.
#[verifier::rlimit(100)]
pub proof fn law_diamond_imports_load_each_file_once(
    path: Seq<char>,
    a: Seq<char>,
    b: Seq<char>,
    c: Seq<char>,
    d: Seq<char>,
    ta: Seq<char>,
    tb: Seq<char>,
    tc: Seq<char>,
    td: Seq<char>,
    fu: FloatFn,
    pa: ProgramV,
    pb: ProgramV,
    pc: ProgramV,
    pd: ProgramV,
)
    requires
        parses_to(ta, fu, pa),
        parses_to(tb, fu, pb),
        parses_to(tc, fu, pc),
        parses_to(td, fu, pd),
        pa.main.len() >= 2,
        pa.main[0] is Import,
        pa.main[1] is Import,
        import_free(pa.main.skip(2)),
        pb.main.len() >= 1,
        pb.main[0] is Import,
        import_free(pb.main.drop_first()),
        pc.main.len() >= 1,
        pc.main[0] is Import,
        import_free(pc.main.drop_first()),
        import_free(pd.main),
        a != b,
        a != c,
        a != d,
        b != c,
        b != d,
        c != d,
    ensures
        ({
            let s0 = file_start(path);
            let s1 = on_located(s0.0, path, Ok(a));
            let s2 = on_read(s1.0, a, Ok(ta), fu);
            let s3 = on_located(s2.0, pa.main[0]->Import_path, Ok(b));
            let s4 = on_read(s3.0, b, Ok(tb), fu);
            let s5 = on_located(s4.0, pb.main[0]->Import_path, Ok(d));
            let s6 = on_read(s5.0, d, Ok(td), fu);
            let s7 = on_located(s6.0, pa.main[1]->Import_path, Ok(c));
            let s8 = on_read(s7.0, c, Ok(tc), fu);
            let s9 = on_located(s8.0, pc.main[0]->Import_path, Ok(d));
            &&& s0.1 == RequestV::Locate { from: None, import: path }
            &&& s1.1 == RequestV::Read(a)
            &&& s2.1 == RequestV::Locate { from: Some(a), import: pa.main[0]->Import_path }
            &&& s3.1 == RequestV::Read(b)
            &&& s4.1 == RequestV::Locate { from: Some(b), import: pb.main[0]->Import_path }
            &&& s5.1 == RequestV::Read(d)
            &&& s6.1 == RequestV::Locate { from: Some(a), import: pa.main[1]->Import_path }
            &&& s7.1 == RequestV::Read(c)
            &&& s8.1 == RequestV::Locate { from: Some(c), import: pc.main[0]->Import_path }
            &&& s9.1 == RequestV::Done(Ok(diamond_program(pa, pb, pc, pd)))
            &&& s9.0.loaded == seq![a, b, d, c]
        }),
{
    let ia = pa.main[0]->Import_path;
    let ic = pa.main[1]->Import_path;
    let ib = pb.main[0]->Import_path;
    let id = pc.main[0]->Import_path;
    let fa1 = waiting_frame(a, pa, pa.main[0]);
    let fb1 = waiting_frame(b, pb, pb.main[0]);
    let fa3 = after_leaf(fa1, fb1, d, pd, fa1.rest[0]);
    let l2 = LoaderV { loaded: seq![a], frames: seq![fa1], waiting: WaitV::Locate(ia) };
    let l4 = LoaderV { loaded: seq![a, b], frames: seq![fa1, fb1], waiting: WaitV::Locate(ib) };
    let l6 = LoaderV { loaded: seq![a, b, d], frames: seq![fa3], waiting: WaitV::Locate(ic) };
    let s0 = file_start(path);
    let s1 = on_located(s0.0, path, Ok(a));
    let s2 = on_read(s1.0, a, Ok(ta), fu);
    assert(s1.1 == RequestV::Read(a) && s2 == (l2, RequestV::Locate { from: Some(a), import: ia })) by {
        lemma_diamond_a(path, a, ta, fu, pa);
    }
    let s3 = on_located(l2, ia, Ok(b));
    let s4 = on_read(s3.0, b, Ok(tb), fu);
    assert(s3.1 == RequestV::Read(b) && s4 == (l4, RequestV::Locate { from: Some(b), import: ib })) by {
        lemma_diamond_b(l2, ia, b, tb, fu, pb, fa1, a);
    }
    let s5 = on_located(l4, ib, Ok(d));
    let s6 = on_read(s5.0, d, Ok(td), fu);
    assert(s5.1 == RequestV::Read(d) && s6 == (l6, RequestV::Locate { from: Some(a), import: ic })) by {
        assert(fa1.rest[0] == pa.main[1]);
        lemma_diamond_d(l4, ib, d, td, fu, pd, fa1, fb1, a, b);
    }
    let s7 = on_located(l6, ic, Ok(c));
    let s8 = on_read(s7.0, c, Ok(tc), fu);
    let s9 = on_located(s8.0, id, Ok(d));
    assert(s7.1 == RequestV::Read(c) && s8.1 == (RequestV::Locate { from: Some(c), import: id })
        && s9.1 == RequestV::Done(Ok(diamond_program(pa, pb, pc, pd))) && s9.0.loaded == seq![a, b, d, c]) by {
        lemma_diamond_program(a, b, c, d, pa, pb, pc, pd);
        lemma_diamond_c(l6, ic, id, c, d, tc, fu, pc, fa3, a, b);
    }
}

} // verus!
