use vstd::prelude::*;
use crate::bytecode::{ByteCodePoint, Cell, cells, Instruction};
use crate::literal::{parse_usize, usize_of};

verus! {

/// A runtime value: an integer, or an array of integers built by `ARR`.
pub enum Value {
    Integer(i64),
    Array(Vec<i64>),
}

/// The mathematical value of a runtime value.
pub enum Val {
    Integer(i64),
    Array(Seq<i64>),
}

impl Value {
    pub open spec fn view(&self) -> Val {
        match self {
            Value::Integer(v) => Val::Integer(*v),
            Value::Array(a) => Val::Array(a@),
        }
    }
}

pub open spec fn vals(v: Seq<Value>) -> Seq<Val> {
    v.map_values(|x: Value| x.view())
}

#[derive(Clone, Copy, Debug, PartialEq, Eq, Structural)]
pub enum RuntimeErrorKind {
    /// An operand, a result or a call frame was missing.
    StackUnderflow,
    DivisionByZero,
    UnresolvedVariable,
    /// A jump or call whose target lies outside the program, or an operand
    /// cell of the wrong kind.
    InvalidJumpTarget,
    /// An integer operation met an array.
    TypeMismatch,
    /// An integer result outside the range of `i64`.
    Overflow,
    /// Floating-point values are not supported by this machine.
    UnsupportedFloat,
    /// The step budget ran out.
    StepLimit,
}

/// A runtime error and the index of the cell that was executing.
#[derive(Clone, Copy, Debug, PartialEq, Eq, Structural)]
pub struct RuntimeError {
    pub kind: RuntimeErrorKind,
    pub cell: usize,
}

/// An instruction waiting for `need` operands, which will be the values from
/// `base` up. `aux` is the jump or call target, or the cell holding a name;
/// `cell` is where the instruction itself stands, which its errors name.
#[derive(Clone, Copy, Debug, PartialEq, Eq, Structural)]
pub struct Pending {
    pub op: Instruction,
    pub need: usize,
    pub base: usize,
    pub aux: usize,
    pub cell: usize,
}

/// A call frame: where to resume, and where the caller's part of each stack ends.
#[derive(Clone, Copy, Debug, PartialEq, Eq, Structural)]
pub struct Frame {
    pub ret: usize,
    pub vbase: usize,
    pub pbase: usize,
    pub varbase: usize,
    pub abase: usize,
    pub argc: usize,
}

/// A variable bound by `SET` in the frame where it ran.
pub struct Binding {
    pub name: String,
    pub value: Value,
}

pub open spec fn bindings(v: Seq<Binding>) -> Seq<(Seq<char>, Val)> {
    v.map_values(|b: Binding| (b.name@, b.value.view()))
}

/// The state of the machine.
pub struct Machine {
    pub ip: usize,
    pub values: Vec<Value>,
    pub pending: Vec<Pending>,
    pub frames: Vec<Frame>,
    pub vars: Vec<Binding>,
    pub args: Vec<Value>,
    pub output: Vec<Value>,
}

/// The mathematical state of the machine.
pub struct MState {
    pub ip: int,
    pub values: Seq<Val>,
    pub pending: Seq<Pending>,
    pub frames: Seq<Frame>,
    pub vars: Seq<(Seq<char>, Val)>,
    pub args: Seq<Val>,
    pub output: Seq<Val>,
}

proof fn lemma_ints_of_none(v: Seq<Val>, i: int)
    requires
        0 <= i <= v.len(),
        ints_of(v.subrange(0, i)) is None,
    ensures
        ints_of(v) is None,
    decreases v.len() - i,
{
    if i < v.len() {
        assert(v.subrange(0, i + 1).drop_last() =~= v.subrange(0, i));
        lemma_ints_of_none(v, i + 1);
    } else {
        assert(v.subrange(0, i) =~= v);
    }
}

/// The integers of an array under construction.
fn ints_from(ops: &Vec<Value>) -> (r: Option<Vec<i64>>)
    ensures
        match r {
            Some(a) => ints_of(vals(ops@)) == Some(a@),
            None => ints_of(vals(ops@)) is None,
        },
{
    let ghost vs = vals(ops@);
    let mut out: Vec<i64> = Vec::new();
    let mut i: usize = 0;
    assert(vs.subrange(0, 0) =~= Seq::<Val>::empty());
    while i < ops.len()
        invariant
            i <= ops@.len(),
            vs == vals(ops@),
            ints_of(vs.subrange(0, i as int)) == Some(out@),
        decreases ops@.len() - i,
    {
        assert(vs.subrange(0, i + 1).drop_last() =~= vs.subrange(0, i as int));
        match &ops[i] {
            Value::Integer(x) => {
                out.push(*x);
            },
            Value::Array(_) => {
                proof {
                    lemma_ints_of_none(vs, i + 1);
                }
                return None;
            },
        }
        i = i + 1;
    }
    assert(vs.subrange(0, i as int) =~= vs);
    Some(out)
}

impl Machine {
    pub open spec fn view(&self) -> MState {
        MState {
            ip: self.ip as int,
            values: vals(self.values@),
            pending: self.pending@,
            frames: self.frames@,
            vars: bindings(self.vars@),
            args: vals(self.args@),
            output: vals(self.output@),
        }
    }
}

pub open spec fn abs(x: int) -> int {
    if x < 0 {
        -x
    } else {
        x
    }
}

/// Division rounding toward zero.
pub open spec fn trunc_div(x: int, y: int) -> int {
    if (x < 0) == (y < 0) {
        abs(x) / abs(y)
    } else {
        -(abs(x) / abs(y))
    }
}

/// What a two-operand instruction gives on two values.
pub open spec fn binary_spec(op: Instruction, a: Val, b: Val) -> Result<Val, RuntimeErrorKind> {
    match (a, b) {
        (Val::Integer(x), Val::Integer(y)) => {
            if op == Instruction::DIV && y == 0 {
                Err(RuntimeErrorKind::DivisionByZero)
            } else {
                let r: int = if op == Instruction::ADD {
                    x + y
                } else if op == Instruction::SUB {
                    x - y
                } else if op == Instruction::MUL {
                    x * y
                } else if op == Instruction::DIV {
                    trunc_div(x as int, y as int)
                } else if x < y {
                    -1
                } else if x == y {
                    0
                } else {
                    1
                };
                if i64::MIN <= r <= i64::MAX {
                    Ok(Val::Integer(r as i64))
                } else {
                    Err(RuntimeErrorKind::Overflow)
                }
            }
        },
        _ => Err(RuntimeErrorKind::TypeMismatch),
    }
}

/// Applies `ADD`, `SUB`, `MUL`, `DIV` or `CMP` to two values.
pub fn binary(op: Instruction, a: &Value, b: &Value) -> (r: Result<Value, RuntimeErrorKind>)
    requires
        op == Instruction::ADD || op == Instruction::SUB || op == Instruction::MUL || op
            == Instruction::DIV || op == Instruction::CMP,
    ensures
        match r {
            Ok(v) => binary_spec(op, a.view(), b.view()) == Ok::<Val, RuntimeErrorKind>(v.view()),
            Err(e) => binary_spec(op, a.view(), b.view()) == Err::<Val, RuntimeErrorKind>(e),
        },
{
    let (x, y) = match (a, b) {
        (Value::Integer(x), Value::Integer(y)) => (*x, *y),
        _ => {
            return Err(RuntimeErrorKind::TypeMismatch);
        },
    };
    if op == Instruction::DIV && y == 0 {
        return Err(RuntimeErrorKind::DivisionByZero);
    }
    let xw = x as i128;
    let yw = y as i128;
    let r: i128 = if op == Instruction::ADD {
        xw + yw
    } else if op == Instruction::SUB {
        xw - yw
    } else if op == Instruction::MUL {
        assert(-0x8000_0000_0000_0000 <= xw <= 0x7fff_ffff_ffff_ffff);
        assert(-0x8000_0000_0000_0000 <= yw <= 0x7fff_ffff_ffff_ffff);
        assert(-0x4000_0000_0000_0000_0000_0000_0000_0000 <= xw * yw
            <= 0x4000_0000_0000_0000_0000_0000_0000_0000) by (nonlinear_arith)
            requires
                -0x8000_0000_0000_0000 <= xw <= 0x7fff_ffff_ffff_ffff,
                -0x8000_0000_0000_0000 <= yw <= 0x7fff_ffff_ffff_ffff,
        ;
        xw * yw
    } else if op == Instruction::DIV {
        let ax: u128 = if xw < 0 { (-xw) as u128 } else { xw as u128 };
        let ay: u128 = if yw < 0 { (-yw) as u128 } else { yw as u128 };
        let q = ax / ay;
        assert(q <= ax) by (nonlinear_arith)
            requires
                ay >= 1,
                q == ax / ay,
        ;
        if (xw < 0) == (yw < 0) {
            q as i128
        } else {
            -(q as i128)
        }
    } else if x < y {
        -1
    } else if x == y {
        0
    } else {
        1
    };
    if r < i64::MIN as i128 || r > i64::MAX as i128 {
        return Err(RuntimeErrorKind::Overflow);
    }
    Ok(Value::Integer(r as i64))
}

pub open spec fn rerr(kind: RuntimeErrorKind, cell: int) -> RuntimeError {
    RuntimeError { kind, cell: cell as usize }
}

/// The first `n` items, or all of them where there are fewer.
pub open spec fn cut<A>(s: Seq<A>, n: int) -> Seq<A> {
    if 0 <= n < s.len() {
        s.subrange(0, n)
    } else {
        s
    }
}

/// The most recent binding of `name` at or above position `lo`.
pub open spec fn find_var(vars: Seq<(Seq<char>, Val)>, lo: int, name: Seq<char>) -> Option<Val>
    decreases vars.len(),
{
    if vars.len() == 0 || vars.len() <= lo {
        None
    } else if vars.last().0 == name {
        Some(vars.last().1)
    } else {
        find_var(vars.drop_last(), lo, name)
    }
}

/// `argK` names the K-th argument of the current call.
pub open spec fn arg_number(name: Seq<char>) -> Option<usize> {
    if name.len() > 3 && name[0] == 'a' && name[1] == 'r' && name[2] == 'g' {
        usize_of(name.subrange(3, name.len() as int))
    } else {
        None
    }
}

/// A name in the current frame: a variable that `SET` bound there, else an
/// argument of the call.
pub open spec fn resolve_var(s: MState, name: Seq<char>) -> Option<Val> {
    let f = s.frames.last();
    match find_var(s.vars, f.varbase as int, name) {
        Some(v) => Some(v),
        None => match arg_number(name) {
            Some(k) => if k < f.argc && f.abase + k < s.args.len() {
                Some(s.args[f.abase + k])
            } else {
                None
            },
            None => None,
        },
    }
}

pub open spec fn push_value(s: MState, v: Val) -> MState {
    MState { values: s.values.push(v), ..s }
}

pub open spec fn advance(s: MState, n: int) -> MState {
    MState { ip: s.ip + n, ..s }
}

pub open spec fn wait(s: MState, op: Instruction, need: usize, aux: usize, cell: usize) -> MState {
    MState {
        pending: s.pending.push(Pending { op, need, base: s.values.len() as usize, aux, cell }),
        ..s
    }
}

/// The top pending instruction of the current frame has all its operands.
pub open spec fn ready(s: MState) -> bool {
    let p = s.pending.last();
    &&& s.pending.len() > s.frames.last().pbase
    &&& p.base <= s.values.len()
    &&& s.values.len() - p.base == p.need
}

pub open spec fn ints_of(v: Seq<Val>) -> Option<Seq<i64>>
    decreases v.len(),
{
    if v.len() == 0 {
        Some(Seq::empty())
    } else {
        match (ints_of(v.drop_last()), v.last()) {
            (Some(a), Val::Integer(x)) => Some(a.push(x)),
            _ => None,
        }
    }
}

pub open spec fn is_binary(op: Instruction) -> bool {
    op == Instruction::ADD || op == Instruction::SUB || op == Instruction::MUL || op
        == Instruction::DIV || op == Instruction::CMP
}

/// Runs the top pending instruction on its operands. An error names the
/// instruction's own cell.
pub open spec fn complete_spec(prog: Seq<Cell>, s: MState) -> Result<MState, RuntimeError> {
    let p = s.pending.last();
    let ops = s.values.subrange(p.base as int, s.values.len() as int);
    let s0 = MState {
        pending: s.pending.drop_last(),
        values: s.values.subrange(0, p.base as int),
        ..s
    };
    if is_binary(p.op) {
        if ops.len() != 2 {
            Err(rerr(RuntimeErrorKind::StackUnderflow, p.cell as int))
        } else {
            match binary_spec(p.op, ops[0], ops[1]) {
                Ok(v) => Ok(push_value(s0, v)),
                Err(k) => Err(rerr(k, p.cell as int)),
            }
        }
    } else if p.op == Instruction::ARR {
        match ints_of(ops) {
            Some(a) => Ok(push_value(s0, Val::Array(a))),
            None => Err(rerr(RuntimeErrorKind::TypeMismatch, p.cell as int)),
        }
    } else if p.op == Instruction::CALL {
        if p.aux >= prog.len() {
            Err(rerr(RuntimeErrorKind::InvalidJumpTarget, p.cell as int))
        } else {
            Ok(
                MState {
                    ip: p.aux as int,
                    frames: s0.frames.push(
                        Frame {
                            ret: s.ip as usize,
                            vbase: p.base,
                            pbase: s0.pending.len() as usize,
                            varbase: s.vars.len() as usize,
                            abase: s.args.len() as usize,
                            argc: p.need,
                        },
                    ),
                    args: s.args + ops,
                    ..s0
                },
            )
        }
    } else if ops.len() != 1 {
        Err(rerr(RuntimeErrorKind::StackUnderflow, p.cell as int))
    } else if p.op == Instruction::PRINT {
        Ok(MState { output: s0.output.push(ops[0]), ..s0 })
    } else if p.op == Instruction::VAL {
        Ok(push_value(s0, ops[0]))
    } else if p.op == Instruction::SET {
        if p.aux >= prog.len() {
            Err(rerr(RuntimeErrorKind::InvalidJumpTarget, p.cell as int))
        } else {
        match prog[p.aux as int] {
            Cell::Symbol(n) => Ok(MState { vars: s0.vars.push((n, ops[0])), ..s0 }),
            _ => Err(rerr(RuntimeErrorKind::InvalidJumpTarget, p.cell as int)),
        }
        }
    } else if p.op == Instruction::JZ {
        match ops[0] {
            Val::Integer(c) => if c != 0 {
                Ok(s0)
            } else if p.aux > prog.len() {
                Err(rerr(RuntimeErrorKind::InvalidJumpTarget, p.cell as int))
            } else {
                Ok(MState { ip: p.aux as int, ..s0 })
            },
            _ => Err(rerr(RuntimeErrorKind::TypeMismatch, p.cell as int)),
        }
    } else {
        Err(rerr(RuntimeErrorKind::InvalidJumpTarget, p.cell as int))
    }
}

/// Completes pending instructions for as long as the top one is ready; `k`
/// bounds their number.
pub open spec fn settle_spec(prog: Seq<Cell>, s: MState, k: nat) -> Result<
    MState,
    RuntimeError,
>
    decreases k,
{
    if k == 0 || !ready(s) {
        Ok(s)
    } else {
        match complete_spec(prog, s) {
            Ok(s1) => settle_spec(prog, s1, (k - 1) as nat),
            Err(e) => Err(e),
        }
    }
}

pub open spec fn settle_all(prog: Seq<Cell>, s: MState) -> Result<MState, RuntimeError> {
    settle_spec(prog, s, s.pending.len())
}

/// Hands a value to the instruction waiting for it, or leaves it on the stack.
pub open spec fn produce_spec(prog: Seq<Cell>, s: MState, v: Val) -> Result<
    MState,
    RuntimeError,
> {
    settle_all(prog, push_value(s, v))
}

/// `RET`: leaves the current call with the value on top of its stack.
pub open spec fn ret_spec(prog: Seq<Cell>, s: MState) -> Result<MState, RuntimeError> {
    let f = s.frames.last();
    if s.frames.len() <= 1 || s.values.len() <= f.vbase {
        Err(rerr(RuntimeErrorKind::StackUnderflow, s.ip))
    } else {
        let v = s.values.last();
        let s1 = MState {
            ip: f.ret as int,
            values: cut(s.values, f.vbase as int),
            pending: cut(s.pending, f.pbase as int),
            frames: s.frames.drop_last(),
            vars: cut(s.vars, f.varbase as int),
            args: cut(s.args, f.abase as int),
            output: s.output,
        };
        produce_spec(prog, s1, v)
    }
}

pub open spec fn small_int(c: Cell) -> Option<usize> {
    match c {
        Cell::Integer(v) => if 0 <= v <= usize::MAX {
            Some(v as usize)
        } else {
            None
        },
        _ => None,
    }
}

/// Executes the cell at `s.ip`.
pub open spec fn step_spec(prog: Seq<Cell>, s: MState) -> Result<MState, RuntimeError> {
    let at = s.ip;
    let bad = Err(rerr(RuntimeErrorKind::InvalidJumpTarget, at));
    match prog[at] {
        Cell::Integer(v) => produce_spec(prog, advance(s, 1), Val::Integer(v)),
        Cell::Float(_) => Err(rerr(RuntimeErrorKind::UnsupportedFloat, at)),
        Cell::Symbol(n) => match resolve_var(s, n) {
            Some(v) => produce_spec(prog, advance(s, 1), v),
            None => Err(rerr(RuntimeErrorKind::UnresolvedVariable, at)),
        },
        Cell::Code(op) => if op == Instruction::RET {
            ret_spec(prog, s)
        } else if is_binary(op) {
            Ok(wait(advance(s, 1), op, 2, 0, at as usize))
        } else if op == Instruction::PRINT || op == Instruction::VAL {
            Ok(wait(advance(s, 1), op, 1, 0, at as usize))
        } else if at + 1 >= prog.len() {
            bad
        } else if op == Instruction::SET || op == Instruction::REF {
            match prog[at + 1] {
                Cell::Symbol(n) => if op == Instruction::SET {
                    Ok(wait(advance(s, 2), op, 1, (at + 1) as usize, at as usize))
                } else {
                    match resolve_var(s, n) {
                        Some(v) => produce_spec(prog, advance(s, 2), v),
                        None => Err(rerr(RuntimeErrorKind::UnresolvedVariable, at)),
                    }
                },
                _ => bad,
            }
        } else if op == Instruction::ARR || op == Instruction::JZ {
            match small_int(prog[at + 1]) {
                Some(n) => if op == Instruction::ARR {
                    settle_all(prog, wait(advance(s, 2), op, n, 0, at as usize))
                } else {
                    Ok(wait(advance(s, 2), op, 1, n, at as usize))
                },
                None => bad,
            }
        } else if at + 2 >= prog.len() {
            bad
        } else {
            match (small_int(prog[at + 1]), small_int(prog[at + 2])) {
                (Some(t), Some(n)) => settle_all(prog, wait(advance(s, 3), op, n, t, at as usize)),
                _ => bad,
            }
        },
    }
}

pub open spec fn initial_state() -> MState {
    MState {
        ip: 0,
        values: Seq::empty(),
        pending: Seq::empty(),
        frames: seq![Frame { ret: 0, vbase: 0, pbase: 0, varbase: 0, abase: 0, argc: 0 }],
        vars: Seq::empty(),
        args: Seq::empty(),
        output: Seq::empty(),
    }
}

/// Runs from state `s` for at most `fuel` steps. Running off the end of the
/// program halts it; an instruction still waiting for operands then is an
/// underflow.
pub open spec fn run_spec(prog: Seq<Cell>, s: MState, fuel: nat) -> Result<MState, RuntimeError>
    decreases fuel,
{
    if s.ip >= prog.len() {
        if s.pending.len() > 0 {
            Err(rerr(RuntimeErrorKind::StackUnderflow, prog.len() as int))
        } else {
            Ok(s)
        }
    } else if fuel == 0 {
        Err(rerr(RuntimeErrorKind::StepLimit, s.ip))
    } else {
        match step_spec(prog, s) {
            Ok(s1) => run_spec(prog, s1, (fuel - 1) as nat),
            Err(e) => Err(e),
        }
    }
}

proof fn lemma_vals_push(v: Seq<Value>, x: Value)
    ensures
        vals(v.push(x)) == vals(v).push(x.view()),
{
    assert(vals(v.push(x)) =~= vals(v).push(x.view()));
}

proof fn lemma_vals_split(v: Seq<Value>, i: int)
    requires
        0 <= i <= v.len(),
    ensures
        vals(v.subrange(0, i)) == vals(v).subrange(0, i),
        vals(v.subrange(i, v.len() as int)) == vals(v).subrange(i, v.len() as int),
{
    assert(vals(v.subrange(0, i)) =~= vals(v).subrange(0, i));
    assert(vals(v.subrange(i, v.len() as int)) =~= vals(v).subrange(i, v.len() as int));
}

proof fn lemma_vals_concat(a: Seq<Value>, b: Seq<Value>)
    ensures
        vals(a + b) == vals(a) + vals(b),
{
    assert(vals(a + b) =~= vals(a) + vals(b));
}

proof fn lemma_vals_cut(v: Seq<Value>, n: int)
    ensures
        vals(cut(v, n)) == cut(vals(v), n),
{
    assert(vals(cut(v, n)) =~= cut(vals(v), n));
}

proof fn lemma_bindings_push(v: Seq<Binding>, x: Binding)
    ensures
        bindings(v.push(x)) == bindings(v).push((x.name@, x.value.view())),
{
    assert(bindings(v.push(x)) =~= bindings(v).push((x.name@, x.value.view())));
}

proof fn lemma_bindings_cut(v: Seq<Binding>, n: int)
    ensures
        bindings(cut(v, n)) == cut(bindings(v), n),
{
    assert(bindings(cut(v, n)) =~= cut(bindings(v), n));
}

/// A copy of a value.
fn copy_value(v: &Value) -> (r: Value)
    ensures
        r.view() == v.view(),
{
    match v {
        Value::Integer(x) => Value::Integer(*x),
        Value::Array(a) => {
            let mut b: Vec<i64> = Vec::new();
            let mut i: usize = 0;
            while i < a.len()
                invariant
                    i <= a@.len(),
                    b@ == a@.subrange(0, i as int),
                decreases a@.len() - i,
            {
                b.push(a[i]);
                i = i + 1;
                assert(b@ =~= a@.subrange(0, i as int));
            }
            assert(b@ =~= a@);
            Value::Array(b)
        },
    }
}

fn small_int_of(c: &ByteCodePoint) -> (r: Option<usize>)
    ensures
        r == small_int(c.view()),
{
    match c {
        ByteCodePoint::Integer(v) => if *v >= 0 && (*v as u64) <= (usize::MAX as u64) {
            Some(*v as usize)
        } else {
            None
        },
        _ => None,
    }
}

/// Reads `argK` as K.
fn arg_number_of(name: &String) -> (r: Option<usize>)
    ensures
        r == arg_number(name@),
{
    let s = name.as_str();
    let n = s.unicode_len();
    if n > 3 && s.get_char(0) == 'a' && s.get_char(1) == 'r' && s.get_char(2) == 'g' {
        parse_usize(s.substring_char(3, n))
    } else {
        None
    }
}

impl Machine {
    pub open spec fn wf(&self) -> bool {
        self.frames@.len() >= 1
    }

    /// A machine at the start of a program, with the outermost frame open.
    pub fn new() -> (r: Machine)
        ensures
            r.view() == initial_state(),
            r.wf(),
    {
        let mut frames: Vec<Frame> = Vec::new();
        frames.push(Frame { ret: 0, vbase: 0, pbase: 0, varbase: 0, abase: 0, argc: 0 });
        let r = Machine {
            ip: 0,
            values: Vec::new(),
            pending: Vec::new(),
            frames,
            vars: Vec::new(),
            args: Vec::new(),
            output: Vec::new(),
        };
        assert(vals(r.values@) =~= Seq::empty());
        assert(vals(r.args@) =~= Seq::empty());
        assert(vals(r.output@) =~= Seq::empty());
        assert(bindings(r.vars@) =~= Seq::empty());
        assert(r.frames@ =~= initial_state().frames);
        r
    }

    fn is_ready(&self) -> (r: bool)
        requires
            self.wf(),
        ensures
            r == ready(self.view()),
    {
        let f = self.frames[self.frames.len() - 1];
        let np = self.pending.len();
        if np <= f.pbase {
            return false;
        }
        let p = self.pending[np - 1];
        p.base <= self.values.len() && self.values.len() - p.base == p.need
    }

    /// Runs the top pending instruction on its operands.
    fn complete(&mut self, program: &Vec<ByteCodePoint>) -> (r: Result<(), RuntimeError>)
        requires
            old(self).wf(),
            ready(old(self).view()),
        ensures
            match r {
                Ok(_) => complete_spec(cells(program@), old(self).view()) == Ok::<
                    MState,
                    RuntimeError,
                >(final(self).view()),
                Err(e) => complete_spec(cells(program@), old(self).view()) == Err::<
                    MState,
                    RuntimeError,
                >(e),
            },
            r is Ok ==> final(self).wf(),
            r is Ok ==> final(self).pending@.len() == old(self).pending@.len() - 1,
    {
        let ghost s = self.view();
        let ghost prog = cells(program@);
        let p = match self.pending.pop() {
            Some(p) => p,
            None => {
                return Err(RuntimeError { kind: RuntimeErrorKind::StackUnderflow, cell: self.ip });
            },
        };
        let ghost v0 = self.values@;
        let mut ops = self.values.split_off(p.base);
        proof {
            lemma_vals_split(v0, p.base as int);
            assert(self.pending@ =~= s.pending.drop_last());
        }
        let err = RuntimeError { kind: RuntimeErrorKind::InvalidJumpTarget, cell: p.cell };
        if p.op == Instruction::ADD || p.op == Instruction::SUB || p.op == Instruction::MUL
            || p.op == Instruction::DIV || p.op == Instruction::CMP {
            if ops.len() != 2 {
                return Err(RuntimeError { kind: RuntimeErrorKind::StackUnderflow, cell: p.cell });
            }
            match binary(p.op, &ops[0], &ops[1]) {
                Ok(v) => {
                    let ghost before = self.values@;
                    self.values.push(v);
                    proof {
                        lemma_vals_push(before, v);
                    }
                    Ok(())
                },
                Err(k) => Err(RuntimeError { kind: k, cell: p.cell }),
            }
        } else if p.op == Instruction::ARR {
            match ints_from(&ops) {
                Some(a) => {
                    let v = Value::Array(a);
                    let ghost before = self.values@;
                    self.values.push(v);
                    proof {
                        lemma_vals_push(before, v);
                    }
                    Ok(())
                },
                None => Err(RuntimeError { kind: RuntimeErrorKind::TypeMismatch, cell: p.cell }),
            }
        } else if p.op == Instruction::CALL {
            if p.aux >= program.len() {
                return Err(err);
            }
            let frame = Frame {
                ret: self.ip,
                vbase: p.base,
                pbase: self.pending.len(),
                varbase: self.vars.len(),
                abase: self.args.len(),
                argc: p.need,
            };
            self.frames.push(frame);
            let ghost a0 = self.args@;
            let ghost o0 = ops@;
            self.args.append(&mut ops);
            self.ip = p.aux;
            proof {
                lemma_vals_concat(a0, o0);
            }
            Ok(())
        } else {
            if ops.len() != 1 {
                return Err(RuntimeError { kind: RuntimeErrorKind::StackUnderflow, cell: p.cell });
            }
            let ghost o0 = ops@;
            let v = match ops.pop() {
                Some(v) => v,
                None => {
                    return Err(err);
                },
            };
            assert(v.view() == vals(o0)[0]);
            if p.op == Instruction::PRINT {
                let ghost before = self.output@;
                self.output.push(v);
                proof {
                    lemma_vals_push(before, v);
                }
                Ok(())
            } else if p.op == Instruction::VAL {
                let ghost before = self.values@;
                self.values.push(v);
                proof {
                    lemma_vals_push(before, v);
                }
                Ok(())
            } else if p.op == Instruction::SET {
                if p.aux >= program.len() {
                    return Err(err);
                }
                match &program[p.aux] {
                    ByteCodePoint::String(n) => {
                        let b = Binding { name: n.clone(), value: v };
                        let ghost before = self.vars@;
                        self.vars.push(b);
                        proof {
                            lemma_bindings_push(before, b);
                        }
                        Ok(())
                    },
                    _ => Err(err),
                }
            } else if p.op == Instruction::JZ {
                match v {
                    Value::Integer(c) => {
                        if c != 0 {
                            Ok(())
                        } else if p.aux > program.len() {
                            Err(err)
                        } else {
                            self.ip = p.aux;
                            Ok(())
                        }
                    },
                    _ => Err(RuntimeError { kind: RuntimeErrorKind::TypeMismatch, cell: p.cell }),
                }
            } else {
                Err(err)
            }
        }
    }

    /// Completes pending instructions for as long as the top one is ready.
    fn settle(&mut self, program: &Vec<ByteCodePoint>) -> (r: Result<(), RuntimeError>)
        requires
            old(self).wf(),
        ensures
            match r {
                Ok(_) => settle_all(cells(program@), old(self).view()) == Ok::<
                    MState,
                    RuntimeError,
                >(final(self).view()),
                Err(e) => settle_all(cells(program@), old(self).view()) == Err::<
                    MState,
                    RuntimeError,
                >(e),
            },
            r is Ok ==> final(self).wf(),
    {
        let ghost prog = cells(program@);
        let ghost s0 = self.view();
        let ghost mut k: nat = self.pending@.len();
        while self.is_ready()
            invariant
                self.wf(),
                prog == cells(program@),
                k == self.pending@.len(),
                s0 == old(self).view(),
                settle_all(prog, s0) == settle_spec(prog, self.view(), k),
            decreases k,
        {
            match self.complete(program) {
                Ok(()) => {},
                Err(e) => {
                    return Err(e);
                },
            }
            proof {
                k = (k - 1) as nat;
            }
        }
        Ok(())
    }

    /// Hands a value to the instruction waiting for it, or leaves it on the stack.
    fn produce(&mut self, program: &Vec<ByteCodePoint>, v: Value) -> (r: Result<
        (),
        RuntimeError,
    >)
        requires
            old(self).wf(),
        ensures
            match r {
                Ok(_) => produce_spec(cells(program@), old(self).view(), v.view())
                    == Ok::<MState, RuntimeError>(final(self).view()),
                Err(e) => produce_spec(cells(program@), old(self).view(), v.view())
                    == Err::<MState, RuntimeError>(e),
            },
            r is Ok ==> final(self).wf(),
    {
        let ghost before = self.values@;
        self.values.push(v);
        proof {
            lemma_vals_push(before, v);
        }
        self.settle(program)
    }

    /// `RET`: leaves the current call with the value on top of its stack.
    fn ret(&mut self, program: &Vec<ByteCodePoint>) -> (r: Result<(), RuntimeError>)
        requires
            old(self).wf(),
        ensures
            match r {
                Ok(_) => ret_spec(cells(program@), old(self).view()) == Ok::<MState, RuntimeError>(
                    final(self).view(),
                ),
                Err(e) => ret_spec(cells(program@), old(self).view()) == Err::<
                    MState,
                    RuntimeError,
                >(e),
            },
            r is Ok ==> final(self).wf(),
    {
        let ghost s = self.view();
        let at = self.ip;
        let nf = self.frames.len();
        let f = self.frames[nf - 1];
        if nf <= 1 || self.values.len() <= f.vbase {
            return Err(RuntimeError { kind: RuntimeErrorKind::StackUnderflow, cell: at });
        }
        let ghost v0 = self.values@;
        let v = match self.values.pop() {
            Some(v) => v,
            None => {
                return Err(RuntimeError { kind: RuntimeErrorKind::StackUnderflow, cell: at });
            },
        };
        self.values.truncate(f.vbase);
        let ghost p0 = self.pending@;
        self.pending.truncate(f.pbase);
        self.frames.pop();
        let ghost b0 = self.vars@;
        self.vars.truncate(f.varbase);
        let ghost a0 = self.args@;
        self.args.truncate(f.abase);
        self.ip = f.ret;
        proof {
            assert(self.values@ =~= cut(v0, f.vbase as int));
            lemma_vals_cut(v0, f.vbase as int);
            assert(self.pending@ =~= cut(p0, f.pbase as int));
            lemma_bindings_cut(b0, f.varbase as int);
            assert(self.vars@ =~= cut(b0, f.varbase as int));
            lemma_vals_cut(a0, f.abase as int);
            assert(self.args@ =~= cut(a0, f.abase as int));
            assert(self.frames@ =~= s.frames.drop_last());
            assert(v.view() == s.values.last());
        }
        self.produce(program, v)
    }

    /// Executes the instruction at the instruction pointer.
    pub fn eval(&mut self, program: &Vec<ByteCodePoint>) -> (r: Result<(), RuntimeError>)
        requires
            old(self).wf(),
            old(self).ip < program@.len(),
        ensures
            match r {
                Ok(_) => step_spec(cells(program@), old(self).view()) == Ok::<MState, RuntimeError>(
                    final(self).view(),
                ),
                Err(e) => step_spec(cells(program@), old(self).view()) == Err::<
                    MState,
                    RuntimeError,
                >(e),
            },
            r is Ok ==> final(self).wf(),
    {
        let at = self.ip;
        let n = program.len();
        let bad = RuntimeError { kind: RuntimeErrorKind::InvalidJumpTarget, cell: at };
        match &program[at] {
            ByteCodePoint::Integer(v) => {
                self.ip = at + 1;
                self.produce(program, Value::Integer(*v))
            },
            ByteCodePoint::Float(_) => Err(
                RuntimeError { kind: RuntimeErrorKind::UnsupportedFloat, cell: at },
            ),
            ByteCodePoint::String(name) => match self.resolve(name) {
                Some(v) => {
                    self.ip = at + 1;
                    self.produce(program, v)
                },
                None => Err(RuntimeError { kind: RuntimeErrorKind::UnresolvedVariable, cell: at }),
            },
            ByteCodePoint::Code(op) => {
                let op = *op;
                if op == Instruction::RET {
                    self.ret(program)
                } else if op == Instruction::ADD || op == Instruction::SUB || op
                    == Instruction::MUL || op == Instruction::DIV || op == Instruction::CMP {
                    self.ip = at + 1;
                    self.wait(op, 2, 0, at);
                    Ok(())
                } else if op == Instruction::PRINT || op == Instruction::VAL {
                    self.ip = at + 1;
                    self.wait(op, 1, 0, at);
                    Ok(())
                } else if at + 1 >= n {
                    Err(bad)
                } else if op == Instruction::SET || op == Instruction::REF {
                    match &program[at + 1] {
                        ByteCodePoint::String(name) => {
                            if op == Instruction::SET {
                                self.ip = at + 2;
                                self.wait(op, 1, at + 1, at);
                                Ok(())
                            } else {
                                match self.resolve(name) {
                                    Some(v) => {
                                        self.ip = at + 2;
                                        self.produce(program, v)
                                    },
                                    None => Err(
                                        RuntimeError {
                                            kind: RuntimeErrorKind::UnresolvedVariable,
                                            cell: at,
                                        },
                                    ),
                                }
                            }
                        },
                        _ => Err(bad),
                    }
                } else if op == Instruction::ARR || op == Instruction::JZ {
                    match small_int_of(&program[at + 1]) {
                        Some(k) => {
                            self.ip = at + 2;
                            if op == Instruction::ARR {
                                self.wait(op, k, 0, at);
                                self.settle(program)
                            } else {
                                self.wait(op, 1, k, at);
                                Ok(())
                            }
                        },
                        None => Err(bad),
                    }
                } else if at + 2 >= n {
                    Err(bad)
                } else {
                    match (small_int_of(&program[at + 1]), small_int_of(&program[at + 2])) {
                        (Some(t), Some(k)) => {
                            self.ip = at + 3;
                            self.wait(op, k, t, at);
                            self.settle(program)
                        },
                        _ => Err(bad),
                    }
                }
            },
        }
    }

    fn wait(&mut self, op: Instruction, need: usize, aux: usize, cell: usize)
        ensures
            final(self).view() == wait(old(self).view(), op, need, aux, cell),
            final(self).frames == old(self).frames,
    {
        let base = self.values.len();
        self.pending.push(Pending { op, need, base, aux, cell });
    }

    /// Looks a name up in the current frame.
    fn resolve(&self, name: &String) -> (r: Option<Value>)
        requires
            self.wf(),
        ensures
            match r {
                Some(v) => resolve_var(self.view(), name@) == Some(v.view()),
                None => resolve_var(self.view(), name@) is None,
            },
    {
        let f = self.frames[self.frames.len() - 1];
        let mut i: usize = self.vars.len();
        let ghost bs = bindings(self.vars@);
        assert(bs.subrange(0, i as int) =~= bs);
        while i > 0 && i > f.varbase
            invariant
                i <= self.vars@.len(),
                bs == bindings(self.vars@),
                f == self.frames@.last(),
                find_var(bs, f.varbase as int, name@) == find_var(
                    bs.subrange(0, i as int),
                    f.varbase as int,
                    name@,
                ),
            decreases i,
        {
            assert(bs.subrange(0, i as int).drop_last() =~= bs.subrange(0, i - 1));
            if self.vars[i - 1].name == *name {
                return Some(copy_value(&self.vars[i - 1].value));
            }
            i = i - 1;
        }
        match arg_number_of(name) {
            Some(k) => {
                if k < f.argc && k < self.args.len() && f.abase < self.args.len() - k {
                    Some(copy_value(&self.args[f.abase + k]))
                } else {
                    None
                }
            },
            None => None,
        }
    }
}

/// What a finished run leaves: the values printed, in order, and the values
/// left on the stack.
pub struct Outcome {
    pub output: Vec<Value>,
    pub stack: Vec<Value>,
}

pub open spec fn outcome_matches(r: Result<Outcome, RuntimeError>, s: Result<MState, RuntimeError>) -> bool {
    match (r, s) {
        (Ok(o), Ok(m)) => vals(o.output@) == m.output && vals(o.stack@) == m.values,
        (Err(e), Err(e2)) => e == e2,
        _ => false,
    }
}

/// Runs a program from its first cell for at most `max_steps` instructions.
pub fn run(program: &Vec<ByteCodePoint>, max_steps: usize) -> (r: Result<Outcome, RuntimeError>)
    ensures
        outcome_matches(r, run_spec(cells(program@), initial_state(), max_steps as nat)),
{
    let ghost prog = cells(program@);
    let mut m = Machine::new();
    let mut fuel = max_steps;
    while m.ip < program.len()
        invariant
            m.wf(),
            prog == cells(program@),
            run_spec(prog, initial_state(), max_steps as nat) == run_spec(prog, m.view(), fuel as nat),
        decreases fuel,
    {
        if fuel == 0 {
            return Err(RuntimeError { kind: RuntimeErrorKind::StepLimit, cell: m.ip });
        }
        match m.eval(program) {
            Ok(()) => {},
            Err(e) => {
                return Err(e);
            },
        }
        fuel = fuel - 1;
    }
    if m.pending.len() > 0 {
        return Err(RuntimeError { kind: RuntimeErrorKind::StackUnderflow, cell: program.len() });
    }
    Ok(Outcome { output: m.output, stack: m.values })
}

} // verus!
