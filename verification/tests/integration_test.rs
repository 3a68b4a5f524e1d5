use std::collections::HashMap;

use matrix_script::compiler::ast::Op;
use matrix_script::compiler::codegen::{CodeGen, CodegenError};
use matrix_script::compiler::ir::{Field, Instr, Module};
use matrix_script::compiler::parser::Parser;
use matrix_script::compiler::sem::Kind;

/// A value flowing through the generated code when it is executed with
/// real IEEE-754 doubles.
#[derive(Debug, Clone, Copy, PartialEq)]
enum Val {
    F(f64),
    I(u64),
    Slot(usize),
    Buf(usize),
    Rec(usize),
}

/// A runtime matrix record: buffer handle, rows, cols.
#[derive(Debug, Clone, Copy, Default)]
struct Rec {
    data: Option<usize>,
    rows: Option<u64>,
    cols: Option<u64>,
}

#[derive(Debug, Default)]
struct Machine {
    regs: HashMap<usize, Val>,
    slots: Vec<Option<Val>>,
    bufs: Vec<Vec<f64>>,
    recs: Vec<Rec>,
    ret: Option<Val>,
}

/// The result of running a compiled function: a native double, or a matrix
/// handed back by shape and row-major contents.
#[derive(Debug, Clone, PartialEq)]
enum RunResult {
    Scalar(f64),
    Matrix { rows: u64, cols: u64, data: Vec<f64> },
}

fn reg(m: &Machine, r: usize) -> Val {
    *m.regs.get(&r).expect("register read before write")
}

fn run_code(m: &mut Machine, code: &[Instr]) {
    for instr in code {
        if m.ret.is_some() {
            break;
        }
        match instr {
            Instr::FConst { dest, text } => {
                let x: f64 = text.parse().expect("numeric literal");
                m.regs.insert(*dest, Val::F(x));
            }
            Instr::IConst { dest, val } => {
                m.regs.insert(*dest, Val::I(*val));
            }
            Instr::FArith { dest, op, lhs, rhs } => {
                let (Val::F(a), Val::F(b)) = (reg(m, *lhs), reg(m, *rhs)) else {
                    panic!("float arithmetic on non-floats");
                };
                let v = match op {
                    Op::Add => a + b,
                    Op::Subtract => a - b,
                    Op::Multiply => a * b,
                    Op::Divide => a / b,
                };
                m.regs.insert(*dest, Val::F(v));
            }
            Instr::IMul { dest, lhs, rhs } => {
                let (Val::I(a), Val::I(b)) = (reg(m, *lhs), reg(m, *rhs)) else {
                    panic!("integer multiply on non-integers");
                };
                m.regs.insert(*dest, Val::I(a * b));
            }
            Instr::Alloca { dest, kind: _ } => {
                m.slots.push(None);
                m.regs.insert(*dest, Val::Slot(m.slots.len() - 1));
            }
            Instr::Store { slot, src } => {
                let Val::Slot(s) = reg(m, *slot) else { panic!("store to non-slot") };
                let v = reg(m, *src);
                m.slots[s] = Some(v);
            }
            Instr::Load { dest, slot, kind: _ } => {
                let Val::Slot(s) = reg(m, *slot) else { panic!("load from non-slot") };
                let v = m.slots[s].expect("load from uninitialized slot");
                m.regs.insert(*dest, v);
            }
            Instr::BufAlloc { dest, len } => {
                let Val::I(n) = reg(m, *len) else { panic!("buffer length not integer") };
                m.bufs.push(vec![0.0; n as usize]);
                m.regs.insert(*dest, Val::Buf(m.bufs.len() - 1));
            }
            Instr::BufStore { buf, idx, src } => {
                let Val::Buf(b) = reg(m, *buf) else { panic!("not a buffer") };
                let Val::I(k) = reg(m, *idx) else { panic!("index not integer") };
                let Val::F(x) = reg(m, *src) else { panic!("stored value not a double") };
                m.bufs[b][k as usize] = x;
            }
            Instr::BufLoad { dest, buf, idx } => {
                let Val::Buf(b) = reg(m, *buf) else { panic!("not a buffer") };
                let Val::I(k) = reg(m, *idx) else { panic!("index not integer") };
                let x = m.bufs[b][k as usize];
                m.regs.insert(*dest, Val::F(x));
            }
            Instr::RecAlloc { dest } => {
                m.recs.push(Rec::default());
                m.regs.insert(*dest, Val::Rec(m.recs.len() - 1));
            }
            Instr::RecSet { rec, field, src } => {
                let Val::Rec(r) = reg(m, *rec) else { panic!("not a record") };
                let v = reg(m, *src);
                match (field, v) {
                    (Field::Data, Val::Buf(b)) => m.recs[r].data = Some(b),
                    (Field::Rows, Val::I(n)) => m.recs[r].rows = Some(n),
                    (Field::Cols, Val::I(n)) => m.recs[r].cols = Some(n),
                    _ => panic!("record field set with wrong value"),
                }
            }
            Instr::RecGet { dest, rec, field } => {
                let Val::Rec(r) = reg(m, *rec) else { panic!("not a record") };
                let v = match field {
                    Field::Data => Val::Buf(m.recs[r].data.expect("data unset")),
                    Field::Rows => Val::I(m.recs[r].rows.expect("rows unset")),
                    Field::Cols => Val::I(m.recs[r].cols.expect("cols unset")),
                };
                m.regs.insert(*dest, v);
            }
            Instr::Loop { idx, total, body } => {
                let Val::I(n) = reg(m, *total) else { panic!("loop bound not integer") };
                let mut k: u64 = 0;
                loop {
                    m.regs.insert(*idx, Val::I(k));
                    run_code(m, body);
                    k += 1;
                    if k >= n {
                        break;
                    }
                }
            }
            Instr::Ret { src } => {
                let v = reg(m, *src);
                m.ret = Some(v);
            }
        }
    }
}

/// Compiles the generated module's named function to a result, running the
/// instructions with real doubles and interpreting the returned value by
/// the function's declared representation.
fn run_function(module: &Module, name: &str) -> Result<RunResult, String> {
    let i = module
        .find_function(name)
        .ok_or_else(|| format!("Function {} not found", name))?;
    let f = &module.functions[i];
    let mut m = Machine::default();
    run_code(&mut m, &f.body);
    let ret = m.ret.ok_or_else(|| "function fell off its end".to_string())?;
    match (f.ret, ret) {
        (Kind::Scalar, Val::F(x)) => Ok(RunResult::Scalar(x)),
        (Kind::Matrix, Val::Rec(r)) => {
            let rec = m.recs[r];
            let rows = rec.rows.ok_or("rows unset")?;
            let cols = rec.cols.ok_or("cols unset")?;
            let data = m.bufs[rec.data.ok_or("data unset")?].clone();
            Ok(RunResult::Matrix { rows, cols, data })
        }
        other => Err(format!("return representation mismatch: {:?}", other)),
    }
}

fn compile(source: &str) -> Result<CodeGen, String> {
    let mut parser = Parser::new(source).map_err(|e| format!("{:?}", e))?;
    let program = parser.parse_program().map_err(|e| format!("{:?}", e))?;
    let mut codegen = CodeGen::new("test_module");
    codegen
        .compile_program(&program)
        .map_err(|e| format!("{:?}", e))?;
    Ok(codegen)
}

fn codegen_error(source: &str) -> CodegenError {
    let mut parser = Parser::new(source).expect("Failed to create parser");
    let program = parser.parse_program().expect("Failed to parse program");
    let mut codegen = CodeGen::new("test_module");
    codegen
        .compile_program(&program)
        .expect_err("code generation should have failed")
}

#[test]
fn test_math_expression() {
    let code_body = "3.0 + 2.0";
    let source = format!("fn main() {{ return {}; }}", code_body);

    let mut parser = Parser::new(&source).expect("Failed to create parser");
    let program = parser.parse_program().expect("Failed to parse program");

    let mut codegen = CodeGen::new("test_module");
    codegen
        .compile_program(&program)
        .expect("Failed to compile program");

    let result = run_function(codegen.module(), "main").expect("Failed to run main");

    assert_eq!(result, RunResult::Scalar(5.0));
}

#[test]
fn test_complex_math() {
    let source = "
    fn main() {
        let a = 10.0;
        let b = 20.0;
        return a * b + 5.0;
    }
    ";

    let mut parser = Parser::new(source).expect("Failed to create parser");
    let program = parser.parse_program().expect("Failed to parse program");

    let mut codegen = CodeGen::new("test_module");
    codegen
        .compile_program(&program)
        .expect("Failed to compile program");

    let result = run_function(codegen.module(), "main").expect("Failed to run main");

    assert_eq!(result, RunResult::Scalar(205.0));
}

#[test]
fn test_matrix_addition_jit() {
    let code = r#"
    fn main() {
        let A = [[1.0, 2.0], [3.0, 4.0]];
        let B = [[5.0, 6.0], [7.0, 8.0]];
        return A + B;
    }
    "#;

    let mut parser = Parser::new(code).unwrap();
    let program = parser.parse_program().unwrap();

    let mut codegen = CodeGen::new("main");
    codegen.compile_program(&program).unwrap();

    let result = run_function(codegen.module(), "main");

    assert!(result.is_ok());
    assert_eq!(
        result.unwrap(),
        RunResult::Matrix {
            rows: 2,
            cols: 2,
            data: vec![6.0, 8.0, 10.0, 12.0],
        }
    );
}

#[test]
fn test_precedence_and_parentheses() {
    let cg = compile("fn main() { return 2.0 + 3.0 * 4.0; }").unwrap();
    assert_eq!(run_function(cg.module(), "main").unwrap(), RunResult::Scalar(14.0));

    let cg = compile("fn main() { return (2.0 + 3.0) * 4.0; }").unwrap();
    assert_eq!(run_function(cg.module(), "main").unwrap(), RunResult::Scalar(20.0));
}

#[test]
fn test_left_associativity() {
    let cg = compile("fn main() { return 10.0 - 2.0 - 3.0; }").unwrap();
    assert_eq!(run_function(cg.module(), "main").unwrap(), RunResult::Scalar(5.0));

    let cg = compile("fn main() { return 20.0 / 2.0 / 5.0; }").unwrap();
    assert_eq!(run_function(cg.module(), "main").unwrap(), RunResult::Scalar(2.0));
}

#[test]
fn test_fractional_literal() {
    let cg = compile("fn main() { return 0.5 + 1.25; }").unwrap();
    assert_eq!(run_function(cg.module(), "main").unwrap(), RunResult::Scalar(1.75));
}

#[test]
fn test_matrix_literal_round_trip() {
    let cg = compile("fn main() { return [[1.0, 2.0, 3.0], [4.0, 5.0, 6.0]]; }").unwrap();
    assert_eq!(
        run_function(cg.module(), "main").unwrap(),
        RunResult::Matrix {
            rows: 2,
            cols: 3,
            data: vec![1.0, 2.0, 3.0, 4.0, 5.0, 6.0],
        }
    );
}

#[test]
fn test_flat_literal_is_one_row() {
    let cg = compile("fn main() { return [1.0, 2.0]; }").unwrap();
    assert_eq!(
        run_function(cg.module(), "main").unwrap(),
        RunResult::Matrix {
            rows: 1,
            cols: 2,
            data: vec![1.0, 2.0],
        }
    );
}

#[test]
fn test_ragged_literal_fails() {
    let err = codegen_error("fn main() { return [[1.0, 2.0], [3.0]]; }");
    assert_eq!(err, CodegenError::RaggedMatrixLiteral);
}

#[test]
fn test_empty_literal_fails() {
    let err = codegen_error("fn main() { return []; }");
    assert_eq!(err, CodegenError::EmptyMatrixLiteral);

    let err = codegen_error("fn main() { return [[]]; }");
    assert_eq!(err, CodegenError::EmptyMatrixLiteral);
}

#[test]
fn test_unbound_identifier_fails() {
    let err = codegen_error("fn main() { return x; }");
    assert_eq!(err, CodegenError::UnknownIdentifier("x".to_string()));

    let err = codegen_error("fn main() { let a = 1.0; return a + y; }");
    assert_eq!(err, CodegenError::UnknownIdentifier("y".to_string()));
}

#[test]
fn test_unsupported_matrix_operator_fails() {
    let err = codegen_error(
        "fn main() { let a = [1.0]; let b = [2.0]; return a * b; }",
    );
    assert_eq!(err, CodegenError::UnsupportedMatrixOperator(Op::Multiply));
}

#[test]
fn test_non_scalar_matrix_element_fails() {
    let err = codegen_error("fn main() { return [1.0, [2.0]]; }");
    assert_eq!(err, CodegenError::NonScalarMatrixElement);
}

#[test]
fn test_operand_kind_mismatch_fails() {
    let err = codegen_error("fn main() { let a = [1.0]; return a + 2.0; }");
    assert_eq!(err, CodegenError::OperandKindMismatch);
}

#[test]
fn test_return_kind_inference() {
    let cg = compile("fn main() { let a = [[1.0], [2.0]]; return a; }").unwrap();
    let i = cg.module().find_function("main").unwrap();
    assert_eq!(cg.module().functions[i].ret, Kind::Matrix);

    let cg = compile("fn main() { return 7.0; }").unwrap();
    let i = cg.module().find_function("main").unwrap();
    assert_eq!(cg.module().functions[i].ret, Kind::Scalar);
}

#[test]
fn test_rebinding_last_write_wins() {
    let cg = compile("fn main() { let a = 1.0; let a = 2.0; return a + a; }").unwrap();
    assert_eq!(run_function(cg.module(), "main").unwrap(), RunResult::Scalar(4.0));
}

#[test]
fn test_compile_twice_identical() {
    let source = "fn main() { let a = [[1.0, 2.0], [3.0, 4.0]]; return a + a; }";
    let cg1 = compile(source).unwrap();
    let cg2 = compile(source).unwrap();
    assert_eq!(cg1.module(), cg2.module());
    assert_eq!(
        run_function(cg1.module(), "main").unwrap(),
        run_function(cg2.module(), "main").unwrap()
    );
}

#[test]
fn test_missing_entry_function() {
    let cg = compile("fn helper() { return 1.0; }").unwrap();
    assert!(cg.module().find_function("main").is_none());
    assert!(run_function(cg.module(), "main").is_err());
}

#[test]
fn test_lexer_rejects_unknown_character() {
    assert!(Parser::new("fn main() { return 1.0 @ 2.0; }").is_err());
}

#[test]
fn test_parser_rejects_missing_semicolon() {
    let mut parser = Parser::new("fn main() { return 1.0 }").unwrap();
    assert!(parser.parse_program().is_err());
}

#[test]
fn test_parser_rejects_function_arguments() {
    let mut parser = Parser::new("fn main(x) { return 1.0; }").unwrap();
    assert!(parser.parse_program().is_err());
}

#[test]
fn test_keyword_prefix_is_identifier() {
    let cg = compile("fn main() { let letx = 1.5; return letx; }").unwrap();
    assert_eq!(run_function(cg.module(), "main").unwrap(), RunResult::Scalar(1.5));
}

#[test]
fn test_bare_trailing_point_is_lex_error() {
    assert!(Parser::new("fn main() { return 1.; }").is_err());
}

#[test]
fn test_trailing_comma_in_literal() {
    let cg = compile("fn main() { return [1.0, 2.0,]; }").unwrap();
    assert_eq!(
        run_function(cg.module(), "main").unwrap(),
        RunResult::Matrix { rows: 1, cols: 2, data: vec![1.0, 2.0] }
    );
}

#[test]
fn test_two_functions_compile_independently() {
    let cg = compile("fn one() { return 1.0; } fn main() { return 2.0; }").unwrap();
    assert_eq!(run_function(cg.module(), "one").unwrap(), RunResult::Scalar(1.0));
    assert_eq!(run_function(cg.module(), "main").unwrap(), RunResult::Scalar(2.0));
}
