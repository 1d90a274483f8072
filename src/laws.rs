use vstd::prelude::*;
use crate::bytecode::{cells, ByteCodePoint, Cell, CompileError, CompileErrorKind, Instruction};
use crate::compiler::{
    call_cells, cerr, compiled_view, compile_spec, draw_many_spec, draw_spec, fixed_form, lookup, Gen,
};
use crate::lexer::views;
use crate::literal::usize_of;
use crate::vm::{binary_spec, ready, step_spec, MState, RuntimeError, RuntimeErrorKind, Val};

verus! {

/// `b` keeps `a` as its beginning.
pub open spec fn extends(a: Seq<Cell>, b: Seq<Cell>) -> bool {
    b.len() >= a.len() && b.subrange(0, a.len() as int) == a
}

proof fn lemma_extends_trans(a: Seq<Cell>, b: Seq<Cell>, c: Seq<Cell>)
    requires
        extends(a, b),
        extends(b, c),
    ensures
        extends(a, c),
{
    assert(c.subrange(0, a.len() as int) =~= c.subrange(0, b.len() as int).subrange(
        0,
        a.len() as int,
    ));
}

proof fn lemma_extends_append(a: Seq<Cell>, t: Seq<Cell>)
    ensures
        extends(a, a + t),
{
    assert((a + t).subrange(0, a.len() as int) =~= a);
}

proof fn lemma_extends_update(a: Seq<Cell>, b: Seq<Cell>, i: int, x: Cell)
    requires
        extends(a, b),
        a.len() <= i < b.len(),
    ensures
        extends(a, b.update(i, x)),
{
    assert(b.update(i, x).subrange(0, a.len() as int) =~= b.subrange(0, a.len() as int));
}

/// Compiling a form only appends to the code before it (placeholders that it
/// overwrites lie in what it appended).
pub proof fn lemma_draw_extends(toks: Seq<Seq<char>>, g: Gen, owner: int, fuel: nat)
    ensures
        draw_spec(toks, g, owner, fuel) is Ok ==> extends(g.code, draw_spec(toks, g, owner, fuel)->Ok_0.code),
    decreases fuel, 0nat, 0nat,
{
    if fuel == 0 || g.ptr < 0 || g.ptr >= toks.len() {
        return;
    }
    let tok = toks[g.ptr];
    let p = g.ptr + 1;
    let f1 = (fuel - 1) as nat;
    if tok == "fn"@ {
        if p + 1 < toks.len() {
            if let Some(argc) = usize_of(toks[p + 1]) {
                let site = g.code.len() + 1int;
                let def = crate::bytecode::FnDef { start: (g.code.len() + 3) as usize, argc };
                let head = seq![Cell::Code(Instruction::JZ), Cell::Integer(0), Cell::Integer(0)];
                let inner = Gen {
                    ptr: p + 2,
                    fns: g.fns.push((toks[p], def)),
                    declared: g.declared.push(toks[p]),
                    code: g.code + head,
                };
                lemma_draw_extends(toks, inner, g.ptr, f1);
                if let Ok(b) = draw_spec(toks, inner, g.ptr, f1) {
                    lemma_extends_append(g.code, head);
                    lemma_extends_trans(g.code, inner.code, b.code);
                    lemma_extends_append(b.code, seq![Cell::Code(Instruction::RET)]);
                    assert(b.code + seq![Cell::Code(Instruction::RET)] =~= b.code.push(
                        Cell::Code(Instruction::RET),
                    ));
                    lemma_extends_trans(g.code, b.code, b.code.push(Cell::Code(Instruction::RET)));
                    lemma_extends_update(
                        g.code,
                        b.code.push(Cell::Code(Instruction::RET)),
                        site,
                        Cell::Integer((b.code.len() + 1) as i64),
                    );
                }
            }
        }
    } else if fixed_form(tok) is Some {
        let (op, n) = fixed_form(tok)->0;
        let g1 = Gen { ptr: p, fns: g.fns, declared: g.declared, code: g.code.push(Cell::Code(op)) };
        lemma_draw_many_extends(toks, g1, n, g.ptr, f1);
        lemma_extends_append(g.code, seq![Cell::Code(op)]);
        assert(g.code + seq![Cell::Code(op)] =~= g1.code);
        if let Ok(b) = draw_many_spec(toks, g1, n, g.ptr, f1) {
            lemma_extends_trans(g.code, g1.code, b.code);
        }
    } else if tok == "do"@ || tok == "arr"@ {
        if p < toks.len() {
            if let Some(n) = usize_of(toks[p]) {
                let t = if tok == "do"@ {
                    Seq::<Cell>::empty()
                } else {
                    seq![Cell::Code(Instruction::ARR), Cell::Integer(n as i64)]
                };
                let code = if tok == "do"@ {
                    g.code
                } else {
                    g.code + t
                };
                let g1 = Gen { ptr: p + 1, fns: g.fns, declared: g.declared, code };
                lemma_draw_many_extends(toks, g1, n as nat, g.ptr, f1);
                lemma_extends_append(g.code, t);
                assert(tok == "do"@ ==> g.code + t =~= g.code);
                if let Ok(b) = draw_many_spec(toks, g1, n as nat, g.ptr, f1) {
                    lemma_extends_trans(g.code, g1.code, b.code);
                }
            }
        }
    } else if tok == "ret"@ {
        let g1 = Gen { ptr: p, ..g };
        lemma_draw_extends(toks, g1, g.ptr, f1);
        if let Ok(b) = draw_spec(toks, g1, g.ptr, f1) {
            lemma_extends_append(b.code, seq![Cell::Code(Instruction::RET)]);
            assert(b.code + seq![Cell::Code(Instruction::RET)] =~= b.code.push(
                Cell::Code(Instruction::RET),
            ));
            lemma_extends_trans(g.code, b.code, b.code.push(Cell::Code(Instruction::RET)));
        }
    } else if tok == "if"@ {
        let site = g.code.len() + 1int;
        let t = seq![Cell::Code(Instruction::JZ), Cell::Integer(0)];
        let head = Gen { ptr: p, fns: g.fns, declared: g.declared, code: g.code + t };
        lemma_extends_append(g.code, t);
        lemma_draw_extends(toks, head, g.ptr, f1);
        if let Ok(c) = draw_spec(toks, head, g.ptr, f1) {
            lemma_extends_trans(g.code, head.code, c.code);
            if c.ptr < toks.len() {
                if let Some(d) = crate::compiler::lookup(c.fns, toks[c.ptr]) {
                    let g2 = Gen { ptr: c.ptr + 1, fns: c.fns, declared: c.declared, code: c.code + call_cells(d) };
                    lemma_extends_append(c.code, call_cells(d));
                    lemma_extends_trans(g.code, c.code, g2.code);
                    lemma_draw_many_extends(toks, g2, d.argc as nat, c.ptr, f1);
                    if let Ok(a) = draw_many_spec(toks, g2, d.argc as nat, c.ptr, f1) {
                        lemma_extends_trans(g.code, g2.code, a.code);
                        lemma_extends_update(
                            g.code,
                            a.code,
                            site,
                            Cell::Integer(a.code.len() as i64),
                        );
                    }
                }
            }
        }
    } else {
        if let Some(d) = crate::compiler::lookup(g.fns, tok) {
            let g2 = Gen { ptr: p, fns: g.fns, declared: g.declared, code: g.code + call_cells(d) };
            lemma_extends_append(g.code, call_cells(d));
            lemma_draw_many_extends(toks, g2, d.argc as nat, g.ptr, f1);
            if let Ok(a) = draw_many_spec(toks, g2, d.argc as nat, g.ptr, f1) {
                lemma_extends_trans(g.code, g2.code, a.code);
            }
        } else {
            let c = crate::compiler::leaf(tok);
            lemma_extends_append(g.code, seq![c]);
            assert(g.code + seq![c] =~= g.code.push(c));
        }
    }
}

/// Compiling several forms only appends to the code before them.
pub proof fn lemma_draw_many_extends(toks: Seq<Seq<char>>, g: Gen, n: nat, owner: int, fuel: nat)
    ensures
        draw_many_spec(toks, g, n, owner, fuel) is Ok ==> extends(
            g.code,
            draw_many_spec(toks, g, n, owner, fuel)->Ok_0.code,
        ),
    decreases fuel, 1nat, n,
{
    if n == 0 {
        assert(g.code.subrange(0, g.code.len() as int) =~= g.code);
    } else {
        lemma_draw_extends(toks, g, owner, fuel);
        if let Ok(g1) = draw_spec(toks, g, owner, fuel) {
            lemma_draw_many_extends(toks, g1, (n - 1) as nat, owner, fuel);
            if let Ok(b) = draw_many_spec(toks, g1, (n - 1) as nat, owner, fuel) {
                lemma_extends_trans(g.code, g1.code, b.code);
            }
        }
    }
}

/// A function declaration compiles to `JZ <target> 0`, its body, then `RET`,
/// and the jump target is the cell right after that `RET`: the constant zero
/// condition makes the jump always taken, so straight-line execution passes
/// over the body.
pub proof fn fn_jump_lands_after_ret(toks: Seq<Seq<char>>, g: Gen, owner: int, fuel: nat)
    requires
        0 <= g.ptr < toks.len(),
        toks[g.ptr] == "fn"@,
        draw_spec(toks, g, owner, fuel) is Ok,
    ensures
        ({
            let code = draw_spec(toks, g, owner, fuel)->Ok_0.code;
            let n = g.code.len() as int;
            &&& code.len() > n + 3
            &&& code.subrange(0, n) == g.code
            &&& code[n] == Cell::Code(Instruction::JZ)
            &&& code[n + 1] == Cell::Integer(code.len() as i64)
            &&& code[n + 2] == Cell::Integer(0)
            &&& code[code.len() - 1] == Cell::Code(Instruction::RET)
        }),
{
    lemma_draw_extends(toks, g, owner, fuel);
    let p = g.ptr + 1;
    let argc = usize_of(toks[p + 1])->0;
    let def = crate::bytecode::FnDef { start: (g.code.len() + 3) as usize, argc };
    let head = seq![Cell::Code(Instruction::JZ), Cell::Integer(0), Cell::Integer(0)];
    let inner = Gen {
                    ptr: p + 2,
                    fns: g.fns.push((toks[p], def)),
                    declared: g.declared.push(toks[p]),
                    code: g.code + head,
                };
    let f1 = (fuel - 1) as nat;
    lemma_draw_extends(toks, inner, g.ptr, f1);
    let b = draw_spec(toks, inner, g.ptr, f1)->Ok_0;
    let n = g.code.len() as int;
    assert(b.code.subrange(0, inner.code.len() as int) == inner.code);
    assert(b.code[n] == inner.code[n]);
    assert(b.code[n + 2] == inner.code[n + 2]);
}

/// Compilation is deterministic: two token sequences that spell the same
/// tokens, each compiled by `get_bytecode`, give the same cells one for one, or
/// the same error.
pub proof fn compile_is_deterministic(
    t1: Seq<String>,
    t2: Seq<String>,
    r1: Result<Vec<ByteCodePoint>, CompileError>,
    r2: Result<Vec<ByteCodePoint>, CompileError>,
)
    requires
        views(t1) == views(t2),
        compiled_view(r1) == compile_spec(views(t1)),
        compiled_view(r2) == compile_spec(views(t2)),
    ensures
        compiled_view(r1) == compiled_view(r2),
        r1 is Ok <==> r2 is Ok,
        (r1 is Ok && r2 is Ok) ==> (r1->Ok_0@.len() == r2->Ok_0@.len() && forall|i: int|
            0 <= i < r1->Ok_0@.len() ==> #[trigger] r1->Ok_0@[i].view() == r2->Ok_0@[i].view()),
{
    if let (Ok(c1), Ok(c2)) = (r1, r2) {
        assert(compiled_view(r1) == Ok::<Seq<Cell>, CompileError>(cells(c1@)));
        assert(compiled_view(r2) == Ok::<Seq<Cell>, CompileError>(cells(c2@)));
        assert(cells(c1@) == cells(c2@));
        assert(cells(c1@).len() == c1@.len() && cells(c2@).len() == c2@.len());
        assert forall|i: int| 0 <= i < c1@.len() implies #[trigger] c1@[i].view() == c2@[i].view() by {
            assert(cells(c1@)[i] == cells(c2@)[i]);
        }
    }
}

/// A function used where its declaring scope has closed is rejected: a token
/// that names a function declared earlier but no longer visible, and is no
/// keyword, is an `UnresolvedFunction` error at that token.
pub proof fn closed_function_is_unresolved(toks: Seq<Seq<char>>, g: Gen, owner: int, fuel: nat)
    requires
        fuel > 0,
        0 <= g.ptr < toks.len(),
        lookup(g.fns, toks[g.ptr]) is None,
        g.declared.contains(toks[g.ptr]),
        toks[g.ptr] != "fn"@,
        fixed_form(toks[g.ptr]) is None,
        toks[g.ptr] != "do"@,
        toks[g.ptr] != "arr"@,
        toks[g.ptr] != "ret"@,
        toks[g.ptr] != "if"@,
    ensures
        draw_spec(toks, g, owner, fuel) == Err::<Gen, CompileError>(
            cerr(CompileErrorKind::UnresolvedFunction, g.ptr),
        ),
{
}

/// Integer division by zero is always the `DivisionByZero` error, never a value.
pub proof fn division_by_zero_fails(x: i64)
    ensures
        binary_spec(Instruction::DIV, Val::Integer(x), Val::Integer(0)) == Err::<
            Val,
            RuntimeErrorKind,
        >(RuntimeErrorKind::DivisionByZero),
{
}

/// Straight-line execution passes over a declared body: from a state where no
/// instruction is ready to complete, the two steps through `JZ <t> 0` land on
/// cell `t` and change nothing else.
pub proof fn declaration_is_jumped_over(prog: Seq<Cell>, s: MState, t: i64)
    requires
        s.frames.len() >= 1,
        s.pending.len() >= s.frames.last().pbase,
        !ready(s),
        0 <= s.ip,
        s.ip + 2 < prog.len(),
        prog[s.ip] == Cell::Code(Instruction::JZ),
        prog[s.ip + 1] == Cell::Integer(t),
        prog[s.ip + 2] == Cell::Integer(0),
        0 <= t <= prog.len(),
        t <= usize::MAX,
        s.values.len() <= usize::MAX,
    ensures
        step_spec(prog, s) is Ok,
        step_spec(prog, step_spec(prog, s)->Ok_0) == Ok::<MState, RuntimeError>(
            MState { ip: t as int, ..s },
        ),
{
    assert(crate::vm::small_int(prog[s.ip + 1]) == Some(t as usize));
    assert(step_spec(prog, s) == Ok::<MState, RuntimeError>(
        crate::vm::wait(crate::vm::advance(s, 2), Instruction::JZ, 1, t as usize, s.ip as usize),
    ));
    let s1 = step_spec(prog, s)->Ok_0;
    let s2 = MState { values: s1.values.push(Val::Integer(0)), ip: s1.ip + 1, ..s1 };
    assert(s2.values.subrange(0, s.values.len() as int) =~= s.values);
    assert(s2.values.subrange(s.values.len() as int, s2.values.len() as int) =~= seq![
        Val::Integer(0),
    ]);
    assert(s2.pending.drop_last() =~= s.pending);
    assert(ready(s2));
    let s3 = MState { ip: t as int, ..s };
    assert(!ready(s3));
    assert(s2 == crate::vm::push_value(crate::vm::advance(s1, 1), Val::Integer(0)));
    assert(crate::vm::complete_spec(prog, s2) == Ok::<MState, RuntimeError>(s3));
    assert(crate::vm::settle_spec(prog, s3, s.pending.len()) == Ok::<MState, RuntimeError>(s3));
    assert(crate::vm::settle_all(prog, s2) == Ok::<MState, RuntimeError>(s3));
    assert(step_spec(prog, s1) == crate::vm::produce_spec(
        prog,
        crate::vm::advance(s1, 1),
        Val::Integer(0),
    ));
}

/// Closing a declaration's scope: after `fn <name> <arity> <body>` compiles,
/// the visible functions are those visible before it plus `name`, so any
/// other name resolves as it did before the declaration and nothing that the
/// body declared stays visible.
pub proof fn declaration_scope_closes(
    toks: Seq<Seq<char>>,
    g: Gen,
    owner: int,
    fuel: nat,
    other: Seq<char>,
)
    requires
        0 <= g.ptr < toks.len(),
        toks[g.ptr] == "fn"@,
        draw_spec(toks, g, owner, fuel) is Ok,
        other != toks[g.ptr + 1],
    ensures
        ({
            let fns = draw_spec(toks, g, owner, fuel)->Ok_0.fns;
            &&& fns.len() == g.fns.len() + 1
            &&& fns.drop_last() == g.fns
            &&& fns.last().0 == toks[g.ptr + 1]
            &&& lookup(fns, other) == lookup(g.fns, other)
        }),
{
    let fns = draw_spec(toks, g, owner, fuel)->Ok_0.fns;
    assert(fns.drop_last() =~= g.fns);
}

} // verus!
