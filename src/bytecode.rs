use vstd::prelude::*;

verus! {

/// The opcodes of the stack machine.
#[derive(Clone, Copy, Debug, PartialEq, Eq, Structural)]
pub enum Instruction {
    SUB,
    ADD,
    DIV,
    MUL,
    /// `CALL <entry> <arity>`, then `arity` argument forms.
    CALL,
    /// Leaves the current call with the value on top of the stack.
    RET,
    /// Pushes -1, 0 or 1 as the first operand is less than, equal to or
    /// greater than the second.
    CMP,
    /// `JZ <target>`, then one condition form: jumps when it is zero.
    JZ,
    /// `ARR <count>`, then `count` forms.
    ARR,
    /// `SET <name>`, then one value form.
    SET,
    /// `REF <name>`: pushes the value bound to the name in the current frame.
    /// Variables hold values, not references.
    REF,
    /// Then one form, whose value it passes on unchanged: since variables hold
    /// values, there is no reference to follow.
    VAL,
    /// Then one form, whose value it appends to the output.
    PRINT,
}

/// One cell of a compiled program. A float literal is kept as its text; a
/// `String` cell is a name, read by `SET`, `REF` or as a variable.
#[derive(Clone, Debug)]
pub enum ByteCodePoint {
    Code(Instruction),
    Float(String),
    Integer(i64),
    String(String),
}

/// The mathematical value of a cell.
pub enum Cell {
    Code(Instruction),
    Float(Seq<char>),
    Integer(i64),
    Symbol(Seq<char>),
}

impl ByteCodePoint {
    pub open spec fn view(&self) -> Cell {
        match self {
            ByteCodePoint::Code(i) => Cell::Code(*i),
            ByteCodePoint::Float(s) => Cell::Float(s@),
            ByteCodePoint::Integer(v) => Cell::Integer(*v),
            ByteCodePoint::String(s) => Cell::Symbol(s@),
        }
    }
}

pub open spec fn cells(v: Seq<ByteCodePoint>) -> Seq<Cell> {
    v.map_values(|c: ByteCodePoint| c.view())
}

/// Where a function's body starts, and how many arguments it takes.
#[derive(Clone, Copy, Debug, PartialEq, Eq, Structural)]
pub struct FnDef {
    pub start: usize,
    pub argc: usize,
}

#[derive(Clone, Copy, Debug, PartialEq, Eq, Structural)]
pub enum CompileErrorKind {
    /// An arity or count that is missing or is not a non-negative integer.
    UnknownArityOrCountLiteral,
    /// A function named where none of that name is visible: after `if`, or a
    /// function whose declaring scope has closed.
    UnresolvedFunction,
    /// The source ends before a form that an instruction or a call needs, or
    /// before the function named after `if`.
    ArgumentCountMismatch,
}

/// A compile error and the index of the token where it arose. Where the source
/// ends too early, that is the keyword or call that was left without a form.
#[derive(Clone, Copy, Debug, PartialEq, Eq, Structural)]
pub struct CompileError {
    pub kind: CompileErrorKind,
    pub token: usize,
}

} // verus!
