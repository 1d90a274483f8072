use vstd::prelude::*;
use crate::bytecode::{ByteCodePoint, Cell, cells, CompileError, CompileErrorKind, FnDef, Instruction};
use crate::lexer::views;
use crate::literal::{i64_of, is_float_literal, is_float_text, parse_i64, parse_usize, usize_of};

verus! {

/// A function visible to the code being compiled. The scope stack is a
/// sequence of these: an inner scope is the part past the length that the
/// stack had when the scope was opened, and closing it cuts the stack back.
pub struct FnEntry {
    pub name: String,
    pub def: FnDef,
}

pub open spec fn entries(v: Seq<FnEntry>) -> Seq<(Seq<char>, FnDef)> {
    v.map_values(|e: FnEntry| (e.name@, e.def))
}

/// Resolution by name: the most recent entry wins, so inner scopes shadow
/// outer ones.
pub open spec fn lookup(fns: Seq<(Seq<char>, FnDef)>, name: Seq<char>) -> Option<FnDef>
    decreases fns.len(),
{
    if fns.len() == 0 {
        None
    } else if fns.last().0 == name {
        Some(fns.last().1)
    } else {
        lookup(fns.drop_last(), name)
    }
}

/// The generator's state: the next token, the visible functions, the names of
/// every function declared so far, the code so far.
pub struct Gen {
    pub ptr: int,
    pub fns: Seq<(Seq<char>, FnDef)>,
    pub declared: Seq<Seq<char>>,
    pub code: Seq<Cell>,
}

pub open spec fn gen_of(
    ptr: usize,
    fns: Seq<FnEntry>,
    declared: Seq<String>,
    code: Seq<ByteCodePoint>,
) -> Gen {
    Gen { ptr: ptr as int, fns: entries(fns), declared: views(declared), code: cells(code) }
}

pub open spec fn cerr(kind: CompileErrorKind, token: int) -> CompileError {
    CompileError { kind, token: token as usize }
}

/// The keywords that emit their opcode followed by a fixed number of forms.
pub open spec fn fixed_form(t: Seq<char>) -> Option<(Instruction, nat)> {
    if t == "sub"@ {
        Some((Instruction::SUB, 2))
    } else if t == "add"@ {
        Some((Instruction::ADD, 2))
    } else if t == "div"@ {
        Some((Instruction::DIV, 2))
    } else if t == "mul"@ {
        Some((Instruction::MUL, 2))
    } else if t == "comp"@ {
        Some((Instruction::CMP, 2))
    } else if t == "set"@ {
        Some((Instruction::SET, 2))
    } else if t == "ref"@ {
        Some((Instruction::REF, 1))
    } else if t == "val"@ {
        Some((Instruction::VAL, 1))
    } else if t == "print"@ {
        Some((Instruction::PRINT, 1))
    } else {
        None
    }
}

/// A token that names no function: an integer, else a float, else a symbol.
pub open spec fn leaf(t: Seq<char>) -> Cell {
    match i64_of(t) {
        Some(v) => Cell::Integer(v),
        None => if is_float_text(t) {
            Cell::Float(t)
        } else {
            Cell::Symbol(t)
        },
    }
}

pub open spec fn call_cells(d: FnDef) -> Seq<Cell> {
    seq![
        Cell::Code(Instruction::CALL),
        Cell::Integer(d.start as i64),
        Cell::Integer(d.argc as i64),
    ]
}

/// Compiles one form starting at `g.ptr`. Where the tokens end before the form,
/// the error names `owner`, the token that asked for the form. `fuel` bounds the
/// depth of nesting; any fuel above the number of tokens left gives the same
/// result.
pub open spec fn draw_spec(toks: Seq<Seq<char>>, g: Gen, owner: int, fuel: nat) -> Result<
    Gen,
    CompileError,
>
    decreases fuel, 0nat, 0nat,
{
    if fuel == 0 {
        Err(cerr(CompileErrorKind::ArgumentCountMismatch, g.ptr))
    } else if g.ptr < 0 || g.ptr >= toks.len() {
        Err(cerr(CompileErrorKind::ArgumentCountMismatch, owner))
    } else {
        let tok = toks[g.ptr];
        let p = g.ptr + 1;
        if tok == "fn"@ {
            if p + 1 >= toks.len() {
                Err(cerr(CompileErrorKind::UnknownArityOrCountLiteral, g.ptr))
            } else {
                match usize_of(toks[p + 1]) {
                    None => Err(cerr(CompileErrorKind::UnknownArityOrCountLiteral, p + 1)),
                    Some(argc) => {
                        let site = g.code.len() + 1int;
                        let def = FnDef { start: (g.code.len() + 3) as usize, argc };
                        let inner = Gen {
                            ptr: p + 2,
                            fns: g.fns.push((toks[p], def)),
                            declared: g.declared.push(toks[p]),
                            code: g.code + seq![
                                Cell::Code(Instruction::JZ),
                                Cell::Integer(0),
                                Cell::Integer(0),
                            ],
                        };
                        match draw_spec(toks, inner, g.ptr, (fuel - 1) as nat) {
                            Err(e) => Err(e),
                            Ok(b) => Ok(
                                Gen {
                                    ptr: b.ptr,
                                    fns: inner.fns,
                                    declared: b.declared,
                                    code: b.code.push(Cell::Code(Instruction::RET)).update(
                                        site,
                                        Cell::Integer((b.code.len() + 1) as i64),
                                    ),
                                },
                            ),
                        }
                    },
                }
            }
        } else if fixed_form(tok) is Some {
            let (op, n) = fixed_form(tok)->0;
            draw_many_spec(
                toks,
                Gen { ptr: p, fns: g.fns, declared: g.declared, code: g.code.push(Cell::Code(op)) },
                n,
                g.ptr,
                (fuel - 1) as nat,
            )
        } else if tok == "do"@ || tok == "arr"@ {
            if p >= toks.len() {
                Err(cerr(CompileErrorKind::UnknownArityOrCountLiteral, g.ptr))
            } else {
                match usize_of(toks[p]) {
                    None => Err(cerr(CompileErrorKind::UnknownArityOrCountLiteral, p)),
                    Some(n) => {
                        let code = if tok == "do"@ {
                            g.code
                        } else {
                            g.code + seq![Cell::Code(Instruction::ARR), Cell::Integer(n as i64)]
                        };
                        draw_many_spec(
                            toks,
                            Gen { ptr: p + 1, fns: g.fns, declared: g.declared, code },
                            n as nat,
                            g.ptr,
                            (fuel - 1) as nat,
                        )
                    },
                }
            }
        } else if tok == "ret"@ {
            match draw_spec(toks, Gen { ptr: p, ..g }, g.ptr, (fuel - 1) as nat) {
                Err(e) => Err(e),
                Ok(b) => Ok(Gen { code: b.code.push(Cell::Code(Instruction::RET)), ..b }),
            }
        } else if tok == "if"@ {
            let site = g.code.len() + 1int;
            let head = Gen {
                ptr: p,
                fns: g.fns,
                declared: g.declared,
                code: g.code + seq![Cell::Code(Instruction::JZ), Cell::Integer(0)],
            };
            match draw_spec(toks, head, g.ptr, (fuel - 1) as nat) {
                Err(e) => Err(e),
                Ok(c) => if c.ptr >= toks.len() {
                    Err(cerr(CompileErrorKind::ArgumentCountMismatch, g.ptr))
                } else {
                    match lookup(c.fns, toks[c.ptr]) {
                        None => Err(cerr(CompileErrorKind::UnresolvedFunction, c.ptr)),
                        Some(d) => match draw_many_spec(
                            toks,
                            Gen {
                                ptr: c.ptr + 1,
                                fns: c.fns,
                                declared: c.declared,
                                code: c.code + call_cells(d),
                            },
                            d.argc as nat,
                            c.ptr,
                            (fuel - 1) as nat,
                        ) {
                            Err(e) => Err(e),
                            Ok(a) => Ok(
                                Gen {
                                    code: a.code.update(site, Cell::Integer(a.code.len() as i64)),
                                    ..a
                                },
                            ),
                        },
                    }
                },
            }
        } else {
            match lookup(g.fns, tok) {
                Some(d) => draw_many_spec(
                    toks,
                    Gen { ptr: p, fns: g.fns, declared: g.declared, code: g.code + call_cells(d) },
                    d.argc as nat,
                    g.ptr,
                    (fuel - 1) as nat,
                ),
                None => if g.declared.contains(tok) {
                    Err(cerr(CompileErrorKind::UnresolvedFunction, g.ptr))
                } else {
                    Ok(Gen { ptr: p, fns: g.fns, declared: g.declared, code: g.code.push(leaf(tok)) })
                },
            }
        }
    }
}

/// Compiles `n` forms one after another, asked for by the token at `owner`.
pub open spec fn draw_many_spec(toks: Seq<Seq<char>>, g: Gen, n: nat, owner: int, fuel: nat) -> Result<
    Gen,
    CompileError,
>
    decreases fuel, 1nat, n,
{
    if n == 0 {
        Ok(g)
    } else {
        match draw_spec(toks, g, owner, fuel) {
            Err(e) => Err(e),
            Ok(g1) => draw_many_spec(toks, g1, (n - 1) as nat, owner, fuel),
        }
    }
}

/// Compiles forms until the tokens run out; `n` bounds the number of forms.
pub open spec fn compile_from(toks: Seq<Seq<char>>, g: Gen, n: nat) -> Result<
    Seq<Cell>,
    CompileError,
>
    decreases n,
{
    if g.ptr >= toks.len() {
        Ok(g.code)
    } else if n == 0 {
        Err(cerr(CompileErrorKind::ArgumentCountMismatch, g.ptr))
    } else {
        match draw_spec(toks, g, g.ptr, (toks.len() + 1) as nat) {
            Err(e) => Err(e),
            Ok(g1) => compile_from(toks, g1, (n - 1) as nat),
        }
    }
}

/// The program that a token sequence compiles to, or the first error.
pub open spec fn compile_spec(toks: Seq<Seq<char>>) -> Result<Seq<Cell>, CompileError> {
    compile_from(
        toks,
        Gen { ptr: 0, fns: Seq::empty(), declared: Seq::empty(), code: Seq::empty() },
        toks.len(),
    )
}

pub open spec fn compiled_view(r: Result<Vec<ByteCodePoint>, CompileError>) -> Result<
    Seq<Cell>,
    CompileError,
> {
    match r {
        Ok(c) => Ok(cells(c@)),
        Err(e) => Err(e),
    }
}

/// Takes the token at `*ptr` and moves past it.
pub fn next_tok<'a>(tokens: &'a [String], ptr: &mut usize) -> (r: &'a String)
    requires
        *old(ptr) < tokens@.len(),
    ensures
        *final(ptr) == *old(ptr) + 1,
        *r == tokens@[*old(ptr) as int],
{
    let i = *ptr;
    let n = tokens.len();
    assert(i < n);
    *ptr = i + 1;
    &tokens[i]
}

/// Whether the token spells `w`.
fn is_word(t: &String, w: &str) -> (r: bool)
    ensures
        r == (t@ == w@),
{
    let s = t.as_str();
    let n = s.unicode_len();
    if n != w.unicode_len() {
        return false;
    }
    let mut i: usize = 0;
    while i < n
        invariant
            n == s@.len(),
            n == w@.len(),
            s@ == t@,
            i <= n,
            forall|k: int| 0 <= k < i ==> s@[k] == w@[k],
        decreases n - i,
    {
        if s.get_char(i) != w.get_char(i) {
            return false;
        }
        i = i + 1;
    }
    assert(s@ =~= w@);
    true
}

fn fixed_form_of(t: &String) -> (r: Option<(Instruction, usize)>)
    ensures
        match fixed_form(t@) {
            Some((op, n)) => r == Some((op, n as usize)),
            None => r is None,
        },
{
    if is_word(t, "sub") {
        Some((Instruction::SUB, 2))
    } else if is_word(t, "add") {
        Some((Instruction::ADD, 2))
    } else if is_word(t, "div") {
        Some((Instruction::DIV, 2))
    } else if is_word(t, "mul") {
        Some((Instruction::MUL, 2))
    } else if is_word(t, "comp") {
        Some((Instruction::CMP, 2))
    } else if is_word(t, "set") {
        Some((Instruction::SET, 2))
    } else if is_word(t, "ref") {
        Some((Instruction::REF, 1))
    } else if is_word(t, "val") {
        Some((Instruction::VAL, 1))
    } else if is_word(t, "print") {
        Some((Instruction::PRINT, 1))
    } else {
        None
    }
}

fn leaf_of(t: &String) -> (r: ByteCodePoint)
    ensures
        r.view() == leaf(t@),
{
    match parse_i64(t.as_str()) {
        Some(v) => ByteCodePoint::Integer(v),
        None => if is_float_literal(t.as_str()) {
            ByteCodePoint::Float(t.clone())
        } else {
            ByteCodePoint::String(t.clone())
        },
    }
}

/// Whether a function of that name has been declared, visible or not.
fn was_declared(declared: &Vec<String>, name: &String) -> (r: bool)
    ensures
        r == views(declared@).contains(name@),
{
    let mut i: usize = 0;
    while i < declared.len()
        invariant
            i <= declared@.len(),
            forall|k: int| 0 <= k < i ==> views(declared@)[k] != name@,
        decreases declared@.len() - i,
    {
        if declared[i] == *name {
            assert(views(declared@)[i as int] == name@);
            return true;
        }
        i = i + 1;
    }
    false
}

/// Finds the visible function of that name, innermost first.
fn find_fn(fns: &Vec<FnEntry>, name: &String) -> (r: Option<FnDef>)
    ensures
        r == lookup(entries(fns@), name@),
{
    let mut i: usize = fns.len();
    assert(entries(fns@).subrange(0, i as int) =~= entries(fns@));
    while i > 0
        invariant
            i <= fns@.len(),
            lookup(entries(fns@), name@) == lookup(entries(fns@).subrange(0, i as int), name@),
        decreases i,
    {
        let ghost sub = entries(fns@).subrange(0, i as int);
        assert(sub.drop_last() =~= entries(fns@).subrange(0, i - 1));
        if fns[i - 1].name == *name {
            return Some(fns[i - 1].def);
        }
        i = i - 1;
    }
    assert(entries(fns@).subrange(0, 0) =~= Seq::<(Seq<char>, FnDef)>::empty());
    None
}

pub open spec fn draw_post(
    toks: Seq<Seq<char>>,
    spec_result: Result<Gen, CompileError>,
    r: Result<(), CompileError>,
    ptr: usize,
    fns: Seq<FnEntry>,
    declared: Seq<String>,
    code: Seq<ByteCodePoint>,
) -> bool {
    match r {
        Ok(_) => spec_result == Ok::<Gen, CompileError>(gen_of(ptr, fns, declared, code)),
        Err(e) => spec_result == Err::<Gen, CompileError>(e),
    }
}

proof fn lemma_cells_push(v: Seq<ByteCodePoint>, x: ByteCodePoint)
    ensures
        cells(v.push(x)) == cells(v).push(x.view()),
{
    assert(cells(v.push(x)) =~= cells(v).push(x.view()));
}

proof fn lemma_entries_push(v: Seq<FnEntry>, x: FnEntry)
    ensures
        entries(v.push(x)) == entries(v).push((x.name@, x.def)),
{
    assert(entries(v.push(x)) =~= entries(v).push((x.name@, x.def)));
}

/// Appends `CALL <entry> <arity>`.
fn emit_call(compiled: &mut Vec<ByteCodePoint>, d: FnDef)
    ensures
        cells(final(compiled)@) == cells(old(compiled)@) + call_cells(d),
        final(compiled)@.len() == old(compiled)@.len() + 3,
{
    let ghost c0 = compiled@;
    compiled.push(ByteCodePoint::Code(Instruction::CALL));
    compiled.push(ByteCodePoint::Integer(d.start as i64));
    compiled.push(ByteCodePoint::Integer(d.argc as i64));
    assert(cells(compiled@) =~= cells(c0) + call_cells(d));
}

/// Compiles one form: the token at `*ptr` and the forms it takes.
fn draw(
    tokens: &[String],
    ptr: &mut usize,
    fns: &mut Vec<FnEntry>,
    declared: &mut Vec<String>,
    compiled: &mut Vec<ByteCodePoint>,
    owner: usize,
    Ghost(fuel): Ghost<nat>,
) -> (r: Result<(), CompileError>)
    requires
        *old(ptr) <= tokens@.len(),
        fuel > tokens@.len() - *old(ptr),
    ensures
        draw_post(
            views(tokens@),
            draw_spec(
                views(tokens@),
                gen_of(*old(ptr), old(fns)@, old(declared)@, old(compiled)@),
                owner as int,
                fuel,
            ),
            r,
            *final(ptr),
            final(fns)@,
            final(declared)@,
            final(compiled)@,
        ),
        r is Ok ==> *old(ptr) < *final(ptr) <= tokens@.len(),
        r is Ok ==> final(compiled)@.len() >= old(compiled)@.len(),
        r is Ok ==> final(fns)@.len() >= old(fns)@.len(),
        r is Ok ==> final(fns)@.subrange(0, old(fns)@.len() as int) == old(fns)@,
    decreases fuel, 0nat,
{
    let ghost toks = views(tokens@);
    let ghost g = gen_of(*ptr, fns@, declared@, compiled@);
    let ghost fns0 = fns@;
    let n = tokens.len();
    if *ptr >= n {
        return Err(CompileError { kind: CompileErrorKind::ArgumentCountMismatch, token: owner });
    }
    let start = *ptr;
    let tok = next_tok(tokens, ptr);
    let p = *ptr;
    assert(toks[g.ptr] == tok@);
    if is_word(tok, "fn") {
        if n - p < 2 {
            return Err(
                CompileError { kind: CompileErrorKind::UnknownArityOrCountLiteral, token: start },
            );
        }
        let name = next_tok(tokens, ptr);
        let arity = next_tok(tokens, ptr);
        let argc = match parse_usize(arity.as_str()) {
            Some(a) => a,
            None => {
                return Err(
                    CompileError {
                        kind: CompileErrorKind::UnknownArityOrCountLiteral,
                        token: p + 1,
                    },
                );
            },
        };
        let ghost c0 = compiled@;
        compiled.push(ByteCodePoint::Code(Instruction::JZ));
        let site = compiled.len();
        compiled.push(ByteCodePoint::Integer(0));
        compiled.push(ByteCodePoint::Integer(0));
        let entry = FnEntry { name: name.clone(), def: FnDef { start: compiled.len(), argc } };
        fns.push(entry);
        let ghost d0 = declared@;
        declared.push(name.clone());
        assert(views(declared@) =~= views(d0).push(name@));
        let keep = fns.len();
        proof {
            assert(cells(compiled@) =~= cells(c0) + seq![
                Cell::Code(Instruction::JZ),
                Cell::Integer(0),
                Cell::Integer(0),
            ]);
            lemma_entries_push(fns0, fns@.last());
        }
        let ghost inner_fns = fns@;
        match draw(tokens, ptr, fns, declared, compiled, start, Ghost((fuel - 1) as nat)) {
            Ok(()) => {},
            Err(e) => {
                return Err(e);
            },
        }
        let ghost c1 = compiled@;
        compiled.push(ByteCodePoint::Code(Instruction::RET));
        let end = compiled.len();
        compiled.set(site, ByteCodePoint::Integer(#[verifier::truncate] (end as i64)));
        fns.truncate(keep);
        proof {
            assert(cells(compiled@) =~= cells(c1).push(Cell::Code(Instruction::RET)).update(
                site as int,
                Cell::Integer((c1.len() + 1) as i64),
            ));
            assert(compiled@.len() >= c0.len());
            assert(fns@ =~= inner_fns.subrange(0, keep as int));
            assert(fns@ =~= inner_fns);
            assert(fns@.subrange(0, fns0.len() as int) =~= fns0);
        }
        Ok(())
    } else if let Some((op, count)) = fixed_form_of(tok) {
        let ghost c0 = compiled@;
        compiled.push(ByteCodePoint::Code(op));
        proof {
            lemma_cells_push(c0, ByteCodePoint::Code(op));
        }
        draw_many(tokens, ptr, count, fns, declared, compiled, start, Ghost((fuel - 1) as nat))
    } else if is_word(tok, "do") || is_word(tok, "arr") {
        let is_do = is_word(tok, "do");
        if p >= n {
            return Err(
                CompileError { kind: CompileErrorKind::UnknownArityOrCountLiteral, token: start },
            );
        }
        let count_tok = next_tok(tokens, ptr);
        let count = match parse_usize(count_tok.as_str()) {
            Some(c) => c,
            None => {
                return Err(
                    CompileError { kind: CompileErrorKind::UnknownArityOrCountLiteral, token: p },
                );
            },
        };
        if !is_do {
            let ghost c0 = compiled@;
            compiled.push(ByteCodePoint::Code(Instruction::ARR));
            compiled.push(ByteCodePoint::Integer(#[verifier::truncate] (count as i64)));
            assert(cells(compiled@) =~= cells(c0) + seq![
                Cell::Code(Instruction::ARR),
                Cell::Integer(count as i64),
            ]);
        }
        draw_many(tokens, ptr, count, fns, declared, compiled, start, Ghost((fuel - 1) as nat))
    } else if is_word(tok, "ret") {
        match draw(tokens, ptr, fns, declared, compiled, start, Ghost((fuel - 1) as nat)) {
            Ok(()) => {},
            Err(e) => {
                return Err(e);
            },
        }
        let ghost c1 = compiled@;
        compiled.push(ByteCodePoint::Code(Instruction::RET));
        proof {
            lemma_cells_push(c1, ByteCodePoint::Code(Instruction::RET));
        }
        Ok(())
    } else if is_word(tok, "if") {
        let ghost c0 = compiled@;
        compiled.push(ByteCodePoint::Code(Instruction::JZ));
        let site = compiled.len();
        compiled.push(ByteCodePoint::Integer(0));
        assert(cells(compiled@) =~= cells(c0) + seq![
            Cell::Code(Instruction::JZ),
            Cell::Integer(0),
        ]);
        match draw(tokens, ptr, fns, declared, compiled, start, Ghost((fuel - 1) as nat)) {
            Ok(()) => {},
            Err(e) => {
                return Err(e);
            },
        }
        let ghost fns1 = fns@;
        if *ptr >= n {
            return Err(
                CompileError { kind: CompileErrorKind::ArgumentCountMismatch, token: start },
            );
        }
        let q = *ptr;
        let callee = next_tok(tokens, ptr);
        let d = match find_fn(fns, callee) {
            Some(d) => d,
            None => {
                return Err(CompileError { kind: CompileErrorKind::UnresolvedFunction, token: q });
            },
        };
        emit_call(compiled, d);
        match draw_many(tokens, ptr, d.argc, fns, declared, compiled, q, Ghost((fuel - 1) as nat)) {
            Ok(()) => {},
            Err(e) => {
                return Err(e);
            },
        }
        let ghost c2 = compiled@;
        let after = compiled.len();
        compiled.set(site, ByteCodePoint::Integer(#[verifier::truncate] (after as i64)));
        proof {
            assert(cells(compiled@) =~= cells(c2).update(site as int, Cell::Integer(after as i64)));
            assert(fns@.subrange(0, fns0.len() as int) =~= fns1.subrange(0, fns0.len() as int));
        }
        Ok(())
    } else {
        match find_fn(fns, tok) {
            Some(d) => {
                emit_call(compiled, d);
                draw_many(tokens, ptr, d.argc, fns, declared, compiled, start, Ghost((fuel - 1) as nat))
            },
            None => {
                if was_declared(declared, tok) {
                    return Err(
                        CompileError { kind: CompileErrorKind::UnresolvedFunction, token: start },
                    );
                }
                let ghost c0 = compiled@;
                let cell = leaf_of(tok);
                compiled.push(cell);
                proof {
                    lemma_cells_push(c0, cell);
                    assert(fns@.subrange(0, fns0.len() as int) =~= fns0);
                }
                Ok(())
            },
        }
    }
}

/// Compiles `count` forms one after another.
fn draw_many(
    tokens: &[String],
    ptr: &mut usize,
    count: usize,
    fns: &mut Vec<FnEntry>,
    declared: &mut Vec<String>,
    compiled: &mut Vec<ByteCodePoint>,
    owner: usize,
    Ghost(fuel): Ghost<nat>,
) -> (r: Result<(), CompileError>)
    requires
        *old(ptr) <= tokens@.len(),
        fuel > tokens@.len() - *old(ptr),
    ensures
        draw_post(
            views(tokens@),
            draw_many_spec(
                views(tokens@),
                gen_of(*old(ptr), old(fns)@, old(declared)@, old(compiled)@),
                count as nat,
                owner as int,
                fuel,
            ),
            r,
            *final(ptr),
            final(fns)@,
            final(declared)@,
            final(compiled)@,
        ),
        r is Ok ==> *old(ptr) <= *final(ptr) <= tokens@.len(),
        r is Ok ==> final(compiled)@.len() >= old(compiled)@.len(),
        r is Ok ==> final(fns)@.len() >= old(fns)@.len(),
        r is Ok ==> final(fns)@.subrange(0, old(fns)@.len() as int) == old(fns)@,
    decreases fuel, 1nat,
{
    let ghost toks = views(tokens@);
    let ghost g0 = gen_of(*ptr, fns@, declared@, compiled@);
    let ghost p0 = *ptr;
    let ghost fns0 = fns@;
    let ghost n0 = compiled@.len();
    let mut i: usize = 0;
    while i < count
        invariant
            i <= count,
            toks == views(tokens@),
            p0 <= *ptr <= tokens@.len(),
            compiled@.len() >= n0,
            n0 == old(compiled)@.len(),
            g0 == gen_of(*old(ptr), old(fns)@, old(declared)@, old(compiled)@),
            fns0 == old(fns)@,
            p0 == *old(ptr),
            fuel > tokens@.len() - p0,
            fns@.len() >= fns0.len(),
            fns@.subrange(0, fns0.len() as int) == fns0,
            draw_many_spec(toks, g0, count as nat, owner as int, fuel) == draw_many_spec(
                toks,
                gen_of(*ptr, fns@, declared@, compiled@),
                (count - i) as nat,
                owner as int,
                fuel,
            ),
        decreases count - i,
    {
        let ghost fns_before = fns@;
        let ghost gb = gen_of(*ptr, fns@, declared@, compiled@);
        assert(draw_many_spec(toks, gb, (count - i) as nat, owner as int, fuel) == match draw_spec(
            toks,
            gb,
            owner as int,
            fuel,
        ) {
            Err(e) => Err(e),
            Ok(g1) => draw_many_spec(toks, g1, (count - i - 1) as nat, owner as int, fuel),
        });
        match draw(tokens, ptr, fns, declared, compiled, owner, Ghost(fuel)) {
            Ok(()) => {},
            Err(e) => {
                assert(draw_spec(toks, gb, owner as int, fuel) == Err::<Gen, CompileError>(e));
                return Err(e);
            },
        }
        proof {
            assert(fns@.subrange(0, fns0.len() as int) =~= fns_before.subrange(
                0,
                fns0.len() as int,
            ));
        }
        i = i + 1;
    }
    Ok(())
}

/// Compiles a whole token sequence: forms one after another until the tokens
/// run out. Fails with the first error, and then hands out no code at all.
pub fn get_bytecode(tokens: Vec<String>) -> (r: Result<Vec<ByteCodePoint>, CompileError>)
    ensures
        compiled_view(r) == compile_spec(views(tokens@)),
{
    let ghost toks = views(tokens@);
    let mut ptr: usize = 0;
    let mut fns: Vec<FnEntry> = Vec::new();
    let mut declared: Vec<String> = Vec::new();
    let mut compiled: Vec<ByteCodePoint> = Vec::new();
    let ghost mut budget: nat = tokens@.len();
    assert(entries(fns@) =~= Seq::empty());
    assert(views(declared@) =~= Seq::empty());
    assert(cells(compiled@) =~= Seq::empty());
    while ptr < tokens.len()
        invariant
            toks == views(tokens@),
            ptr <= tokens@.len(),
            budget >= tokens@.len() - ptr,
            compile_spec(toks) == compile_from(
                toks,
                gen_of(ptr, fns@, declared@, compiled@),
                budget,
            ),
        decreases tokens@.len() - ptr,
    {
        let at = ptr;
        match draw(
            tokens.as_slice(),
            &mut ptr,
            &mut fns,
            &mut declared,
            &mut compiled,
            at,
            Ghost((tokens@.len() + 1) as nat),
        ) {
            Ok(()) => {},
            Err(e) => {
                return Err(e);
            },
        }
        proof {
            budget = (budget - 1) as nat;
        }
    }
    Ok(compiled)
}

} // verus!
