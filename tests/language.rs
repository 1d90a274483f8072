use prefix_vm::bytecode::{ByteCodePoint, CompileError, CompileErrorKind, Instruction};
use prefix_vm::compiler::{get_bytecode, next_tok};
use prefix_vm::lexer::tokenise;
use prefix_vm::program::{execute, Failure};
use prefix_vm::vm::{run, Outcome, RuntimeError, RuntimeErrorKind, Value};

const STEPS: usize = 100_000;

fn ints(v: &[Value]) -> Vec<i64> {
    v.iter()
        .map(|x| match x {
            Value::Integer(i) => *i,
            Value::Array(_) => panic!("an array where an integer was expected"),
        })
        .collect()
}

fn ok(src: &str) -> Outcome {
    match execute(src, STEPS) {
        Ok(o) => o,
        Err(e) => panic!("{src:?} failed: {e:?}"),
    }
}

fn compile(src: &str) -> Result<Vec<ByteCodePoint>, CompileError> {
    get_bytecode(tokenise(src))
}

fn dump(src: &str) -> String {
    format!("{:?}", compile(src).unwrap())
}

fn runtime_error(src: &str) -> RuntimeError {
    match execute(src, STEPS) {
        Err(Failure::Runtime(e)) => e,
        other => panic!("{src:?} gave {:?}", other.map(|o| ints(&o.stack))),
    }
}

fn rejected(src: &str) -> CompileError {
    match compile(src) {
        Err(e) => e,
        Ok(c) => panic!("{src:?} compiled to {c:?}"),
    }
}

#[test]
fn add_yields_five() {
    let o = ok("add 2 3");
    assert_eq!(ints(&o.stack), vec![5]);
    assert!(o.output.is_empty());
    let p = ok("print add 2 3");
    assert_eq!(ints(&p.output), vec![5]);
    assert_eq!(format!("{}", ints(&p.output)[0]), "5");
    assert!(p.stack.is_empty());
}

#[test]
fn add_compiles_to_prefix_cells() {
    let code = compile("add 2 3").unwrap();
    assert_eq!(code.len(), 3);
    assert!(matches!(code[0], ByteCodePoint::Code(Instruction::ADD)));
    assert!(matches!(code[1], ByteCodePoint::Integer(2)));
    assert!(matches!(code[2], ByteCodePoint::Integer(3)));
}

#[test]
fn compiling_twice_gives_identical_bytecode() {
    let src = "fn f 2 do 2 arg1 if arg0 f sub arg0 1 mul arg0 arg1 print f 5 1 arr 2 x 1.5";
    assert_eq!(dump(src), dump(src));
    assert_eq!(format!("{:?}", tokenise(src)), format!("{:?}", tokenise(src)));
}

#[test]
fn function_jump_lands_after_ret() {
    let code = compile("fn inc 1 add arg0 1").unwrap();
    assert_eq!(code.len(), 7);
    assert!(matches!(code[0], ByteCodePoint::Code(Instruction::JZ)));
    assert!(matches!(code[1], ByteCodePoint::Integer(7)));
    assert!(matches!(code[2], ByteCodePoint::Integer(0)));
    assert!(matches!(code[3], ByteCodePoint::Code(Instruction::ADD)));
    assert!(matches!(&code[4], ByteCodePoint::String(s) if s == "arg0"));
    assert!(matches!(code[5], ByteCodePoint::Integer(1)));
    assert!(matches!(code[6], ByteCodePoint::Code(Instruction::RET)));
    // Straight-line execution skips the body: nothing is computed or left behind.
    let o = run(&code, STEPS).unwrap();
    assert!(o.stack.is_empty());
    assert!(o.output.is_empty());
}

#[test]
fn function_is_entered_only_by_call() {
    let o = ok("fn inc 1 add arg0 1 print inc 41");
    assert_eq!(ints(&o.output), vec![42]);
    assert!(o.stack.is_empty());
}

#[test]
fn recursive_factorial() {
    let o = ok("fn fact 2 do 2 arg1 if arg0 fact sub arg0 1 mul arg0 arg1 print fact 5 1");
    assert_eq!(ints(&o.output), vec![120]);
    let z = ok("fn fact 2 do 2 arg1 if arg0 fact sub arg0 1 mul arg0 arg1 fact 0 1");
    assert_eq!(ints(&z.stack), vec![1]);
}

#[test]
fn missing_argument_is_a_rejected() {
    let e = rejected("fn pair 2 add arg0 arg1 pair 1");
    assert_eq!(e, CompileError { kind: CompileErrorKind::ArgumentCountMismatch, token: 6 });
    assert_eq!(
        rejected("fn f 2 add 1 2 f 1"),
        CompileError { kind: CompileErrorKind::ArgumentCountMismatch, token: 6 }
    );
    assert_eq!(
        execute("fn pair 2 add arg0 arg1 pair 1", STEPS).err(),
        Some(Failure::Compile(e))
    );
}

#[test]
fn division_by_zero_is_a_runtime_error() {
    let e = runtime_error("div 4 0");
    assert_eq!(e, RuntimeError { kind: RuntimeErrorKind::DivisionByZero, cell: 0 });
    let nested = runtime_error("div 4 sub 1 1");
    assert_eq!(nested, RuntimeError { kind: RuntimeErrorKind::DivisionByZero, cell: 0 });
    let inner = runtime_error("add 1 div 4 0");
    assert_eq!(inner, RuntimeError { kind: RuntimeErrorKind::DivisionByZero, cell: 2 });
}

#[test]
fn division_rounds_toward_zero() {
    assert_eq!(ints(&ok("div 7 2").stack), vec![3]);
    assert_eq!(ints(&ok("div -7 2").stack), vec![-3]);
    assert_eq!(ints(&ok("div 8 -2").stack), vec![-4]);
}

#[test]
fn inner_function_is_gone_after_its_scope() {
    let inside = ok("fn outer 0 do 2 fn inner 0 7 inner print outer");
    assert_eq!(ints(&inside.output), vec![7]);
    let e = rejected("fn outer 0 do 2 fn inner 0 1 inner if 1 inner");
    assert_eq!(e, CompileError { kind: CompileErrorKind::UnresolvedFunction, token: 12 });
    let plain = rejected("fn outer 0 fn inner 0 1 inner");
    assert_eq!(plain, CompileError { kind: CompileErrorKind::UnresolvedFunction, token: 7 });
    assert_eq!(
        execute("fn outer 0 fn inner 0 1 inner", STEPS).err(),
        Some(Failure::Compile(plain))
    );
}

#[test]
fn if_skips_call_on_zero() {
    assert_eq!(ints(&ok("fn one 0 1 if 0 one").stack), Vec::<i64>::new());
    assert_eq!(ints(&ok("fn one 0 1 if 5 one").stack), vec![1]);
    let code = compile("fn one 0 1 if 0 one").unwrap();
    // JZ <after the call> <cond> CALL <entry> <arity>
    assert!(matches!(code[5], ByteCodePoint::Code(Instruction::JZ)));
    assert!(matches!(code[6], ByteCodePoint::Integer(11)));
    assert!(matches!(code[8], ByteCodePoint::Code(Instruction::CALL)));
    assert!(matches!(code[9], ByteCodePoint::Integer(3)));
    assert!(matches!(code[10], ByteCodePoint::Integer(0)));
    assert_eq!(code.len(), 11);
}

#[test]
fn arithmetic_and_comparison() {
    assert_eq!(ints(&ok("sub 10 4").stack), vec![6]);
    assert_eq!(ints(&ok("mul 6 7").stack), vec![42]);
    assert_eq!(ints(&ok("comp 1 2 comp 2 2 comp 3 2").stack), vec![-1, 0, 1]);
    assert_eq!(ints(&ok("add mul 2 3 sub 10 4").stack), vec![12]);
}

#[test]
fn overflow_is_reported() {
    let e = runtime_error("add 9223372036854775807 1");
    assert_eq!(e.kind, RuntimeErrorKind::Overflow);
    assert_eq!(runtime_error("div -9223372036854775808 -1").kind, RuntimeErrorKind::Overflow);
}

#[test]
fn variables_and_references() {
    assert_eq!(ints(&ok("do 2 set x 4 add x ref x").stack), vec![8]);
    assert_eq!(ints(&ok("set x 4 val x").stack), vec![4]);
    let e = runtime_error("add y 1");
    assert_eq!(e, RuntimeError { kind: RuntimeErrorKind::UnresolvedVariable, cell: 1 });
}

#[test]
fn variables_stay_in_their_frame() {
    let e = runtime_error("fn peek 0 x set x 3 peek");
    assert_eq!(e.kind, RuntimeErrorKind::UnresolvedVariable);
}

#[test]
fn arrays_are_built_from_their_forms() {
    let o = ok("arr 3 1 add 1 1 3");
    assert_eq!(o.stack.len(), 1);
    assert!(matches!(&o.stack[0], Value::Array(a) if a == &vec![1, 2, 3]));
    let e = ok("arr 0");
    assert!(matches!(&e.stack[0], Value::Array(a) if a.is_empty()));
    assert_eq!(runtime_error("add arr 0 1").kind, RuntimeErrorKind::TypeMismatch);
}

#[test]
fn early_return_leaves_the_call() {
    let o = ok("fn f 0 do 2 ret 1 print 9 print f");
    assert_eq!(ints(&o.output), vec![1]);
}

#[test]
fn return_outside_a_call_underflows() {
    assert_eq!(runtime_error("ret 1").kind, RuntimeErrorKind::StackUnderflow);
}

#[test]
fn floats_are_kept_as_text_and_not_run() {
    let code = compile("1.5 -2e3 inf x1").unwrap();
    assert!(matches!(&code[0], ByteCodePoint::Float(s) if s == "1.5"));
    assert!(matches!(&code[1], ByteCodePoint::Float(s) if s == "-2e3"));
    assert!(matches!(&code[2], ByteCodePoint::Float(s) if s == "inf"));
    assert!(matches!(&code[3], ByteCodePoint::String(s) if s == "x1"));
    assert_eq!(runtime_error("add 1.5 1").kind, RuntimeErrorKind::UnsupportedFloat);
}

#[test]
fn out_of_range_integer_is_a_float_literal() {
    let code = compile("99999999999999999999").unwrap();
    assert!(matches!(&code[0], ByteCodePoint::Float(_)));
    let code = compile("-9223372036854775808").unwrap();
    assert!(matches!(code[0], ByteCodePoint::Integer(i64::MIN)));
}

#[test]
fn bad_count_literals() {
    assert_eq!(
        rejected("do x 1"),
        CompileError { kind: CompileErrorKind::UnknownArityOrCountLiteral, token: 1 }
    );
    assert_eq!(
        rejected("fn f -1 2"),
        CompileError { kind: CompileErrorKind::UnknownArityOrCountLiteral, token: 2 }
    );
    assert_eq!(
        rejected("arr"),
        CompileError { kind: CompileErrorKind::UnknownArityOrCountLiteral, token: 0 }
    );
    assert_eq!(
        rejected("fn f"),
        CompileError { kind: CompileErrorKind::UnknownArityOrCountLiteral, token: 0 }
    );
}

#[test]
fn missing_operand_is_a_rejected() {
    assert_eq!(
        rejected("add 1"),
        CompileError { kind: CompileErrorKind::ArgumentCountMismatch, token: 0 }
    );
    assert_eq!(
        rejected("print add 1 mul 2"),
        CompileError { kind: CompileErrorKind::ArgumentCountMismatch, token: 3 }
    );
    assert_eq!(
        rejected("fn one 0 1 if"),
        CompileError { kind: CompileErrorKind::ArgumentCountMismatch, token: 4 }
    );
}

#[test]
fn step_limit_stops_endless_recursion() {
    let e = runtime_error("fn f 0 f f");
    assert_eq!(e.kind, RuntimeErrorKind::StepLimit);
}

#[test]
fn tokenise_splits_on_blanks() {
    assert_eq!(tokenise("  add\t2\n\r3  "), vec!["add", "2", "3"]);
    assert!(tokenise("").is_empty());
    assert!(tokenise(" \n ").is_empty());
}

#[test]
fn tokenise_escapes_and_comments() {
    assert_eq!(tokenise("a\\ b c"), vec!["a b", "c"]);
    assert_eq!(tokenise("a /comment here/ b"), vec!["a", "b"]);
    assert_eq!(tokenise("ab/x\\/y/cd"), vec!["abcd"]);
    assert_eq!(tokenise("x \\/ y"), vec!["x", "/", "y"]);
    assert_eq!(tokenise("a /unterminated"), vec!["a"]);
}

#[test]
fn next_tok_advances() {
    let toks = tokenise("fn f 1");
    let mut p: usize = 1;
    assert_eq!(next_tok(&toks, &mut p), "f");
    assert_eq!(p, 2);
}
