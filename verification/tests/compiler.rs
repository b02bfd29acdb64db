use lib::ast::{Stmt, Type};
use lib::checker::SemanticChecker;
use lib::codegen_riscv64;
use lib::codegen_riscv64::RiscV64CodeGen;
use lib::codegen_x86_64;
use lib::codegen_x86_64::X86_64CodeGen;
use lib::ir::{IrBinOp, IrFunction, IrInstruction, IrProgram, Location, Operand, Temp};
use lib::lexer::{Lexer, TokenKind};
use lib::link::{candidate_drivers, install_hint, link_args, missing_driver_message, Target};
use lib::lowering::Lowering;
use lib::module::{check_extension, MergeAction, ModuleSystem};
use lib::numlit::{infer_int_type, is_unsigned, parse_int_literal};
use lib::optimize::{
    constant_fold, dead_code_elim, fold_binop, fold_branches, mem_forward, optimize_function, optimize_program, peephole,
};
use lib::parser::{trim_quotes_str, Parser};
use lib::regalloc::{allocate, Home};

fn func(name: &str, instructions: Vec<IrInstruction>) -> IrFunction {
    IrFunction {
        name: name.to_string(),
        params: vec![],
        return_type: None,
        locals: vec![],
        instructions,
        next_temp: 100,
    }
}

fn imm(dst: u32, v: i64) -> IrInstruction {
    IrInstruction::LoadImm { dst: Temp(dst), value: Operand::ImmInt(v) }
}

fn binop(dst: u32, l: u32, op: IrBinOp, r: u32) -> IrInstruction {
    IrInstruction::BinaryOp { dst: Temp(dst), left: Temp(l), op, right: Temp(r) }
}

fn parse(source: &str) -> (lib::ast::Program, bool) {
    let mut p = Parser::try_new(source).expect("the source lexes");
    let program = p.parse_program();
    let errs = p.has_errors();
    (program, errs)
}

fn kinds(source: &str) -> Vec<String> {
    let mut lx = Lexer::new(source);
    let mut out = Vec::new();
    while let Some(t) = lx.next() {
        match t {
            Ok(tok) => {
                let k = format!("{:?}", tok.kind);
                let eof = matches!(tok.kind, TokenKind::Eof);
                out.push(k);
                if eof {
                    break;
                }
            }
            Err(e) => {
                out.push(format!("error: {}", e.message));
                break;
            }
        }
    }
    out
}

// ---------------------------------------------------------------- lexer

#[test]
fn lexer_reads_keywords_identifiers_and_operators() {
    let k = kinds("fn main() -> i64 { x <=> y; }");
    assert_eq!(k[0], "KwFn");
    assert_eq!(k[1], "Identifier(\"main\")");
    assert_eq!(k[2], "LParen");
    assert!(k.contains(&"ThinArrow".to_string()));
    assert!(k.contains(&"Spaceship".to_string()));
    assert_eq!(k.last().unwrap(), "RBrace");
    assert!(!k.contains(&"Eof".to_string()));
}

#[test]
fn lexer_reports_unterminated_string() {
    let k = kinds("\"abc");
    assert_eq!(k.last().unwrap(), "error: Unterminated string literal");
}

// ---------------------------------------------------------------- parser

#[test]
fn parser_reads_a_function_definition() {
    let (program, errs) = parse("fn add(a: i64, b: i64) -> i64 { a + b; }");
    assert!(!errs);
    assert_eq!(program.stmts.len(), 1);
    match &program.stmts[0] {
        Stmt::FnDef { name, params, return_type, .. } => {
            assert_eq!(name, "add");
            assert_eq!(params.len(), 2);
            assert_eq!(params[0].0, "a");
            assert!(matches!(return_type, Some(Type::I64)));
        }
        other => panic!("unexpected statement {:?}", other),
    }
}

#[test]
fn parser_reads_a_declaration_and_an_include() {
    let (program, errs) = parse("include \"lib.xrh\"; fn f(x: i32) -> i32;");
    assert!(!errs);
    assert_eq!(program.stmts.len(), 2);
    assert!(matches!(&program.stmts[0], Stmt::Include { path, .. } if path == "lib.xrh"));
    assert!(matches!(&program.stmts[1], Stmt::FnDecl { name, .. } if name == "f"));
}

#[test]
fn parser_reports_errors() {
    let (program, errs) = parse("let x = 1");
    assert!(errs);
    assert!(program.stmts.is_empty());
}

#[test]
fn parser_skips_a_statement_it_cannot_read() {
    // A missing function name is skipped over without an error being recorded.
    let (program, errs) = parse("fn ( ; fn g() { 1; }");
    assert!(!errs);
    assert_eq!(program.stmts.len(), 1);
}

#[test]
fn parser_refuses_a_source_that_does_not_lex() {
    assert!(Parser::try_new("fn main() { \"abc").is_none());
}

#[test]
fn trim_quotes_removes_all_surrounding_quotes() {
    assert_eq!(trim_quotes_str("\"\"hi\""), "hi");
    assert_eq!(trim_quotes_str("plain"), "plain");
}

// ---------------------------------------------------------------- numbers

#[test]
fn integer_literals_and_their_types() {
    let p = parse_int_literal("42");
    assert_eq!(p.bits, 42);
    assert!(matches!(infer_int_type(&p), Type::I32));
    let big = parse_int_literal("3000000000");
    assert_eq!(big.bits, 3_000_000_000);
    assert!(matches!(infer_int_type(&big), Type::I64));
    assert!(is_unsigned(&Type::U64));
    assert!(!is_unsigned(&Type::I64));
}

// ---------------------------------------------------------------- checker

#[test]
fn checker_accepts_a_well_typed_program() {
    let (program, errs) = parse("fn main() -> i32 { let x: i32 = 5; x; }");
    assert!(!errs);
    let mut c = SemanticChecker::new();
    c.check_program(&program);
    assert!(!c.has_errors(), "{:?}", c.get_errors());
}

#[test]
fn checker_reports_an_undefined_variable() {
    let (program, errs) = parse("fn main() -> i32 { y; }");
    assert!(!errs);
    let mut c = SemanticChecker::new();
    let ok = c.check_program(&program);
    assert!(!ok);
    assert!(c.has_errors());
}

#[test]
fn checker_types_a_large_literal_as_i64() {
    let (program, errs) = parse("let x: i64 = 9999999999999;");
    assert!(!errs);
    let mut c = SemanticChecker::new();
    assert!(c.check_program(&program), "{:?}", c.get_errors());
    assert!(!c.has_errors());
}

#[test]
fn checker_reports_division_of_booleans() {
    let (program, errs) = parse("let x: bool = (1 < 2) / (3 < 4);");
    assert!(!errs);
    let mut c = SemanticChecker::new();
    assert!(!c.check_program(&program));
    let msgs: Vec<String> = c.get_errors().iter().map(|e| e.message.clone()).collect();
    assert_eq!(msgs.len(), 1, "{:?}", msgs);
}

#[test]
fn lexer_keeps_the_type_suffix_of_a_literal() {
    let mut lx = Lexer::new("7_u32 1_000 1__000 1_000_i64 1_e5");
    let t = lx.next().unwrap().unwrap();
    assert!(matches!(t.kind, TokenKind::IntLiteral(s) if s == "7_u32"));
    assert_eq!((t.span.start, t.span.end), (0, 5));
    let t = lx.next().unwrap().unwrap();
    assert!(matches!(t.kind, TokenKind::IntLiteral(s) if s == "1_000"));
    let t = lx.next().unwrap().unwrap();
    assert!(matches!(t.kind, TokenKind::IntLiteral(s) if s == "1__000"));
    let t = lx.next().unwrap().unwrap();
    assert!(matches!(t.kind, TokenKind::IntLiteral(s) if s == "1_000_i64"));
    let t = lx.next().unwrap().unwrap();
    assert!(matches!(t.kind, TokenKind::FloatLiteral(s) if s == "1_e5"));
}

#[test]
fn unsuffixed_literals_beyond_i32_are_i64() {
    assert_eq!(infer_int_type(&parse_int_literal("18446744073709551615")), Type::I64);
    assert_eq!(infer_int_type(&parse_int_literal("9999999999999")), Type::I64);
    assert_eq!(infer_int_type(&parse_int_literal("2147483647")), Type::I32);
    assert_eq!(infer_int_type(&parse_int_literal("7_u32")), Type::U32);
}

// ---------------------------------------------------------------- lowering

#[test]
fn lowering_gives_one_function_per_definition() {
    let (program, errs) = parse("fn one() -> i32 { 1; } fn main() -> i32 { one$(); }");
    assert!(!errs);
    let mut l = Lowering::new();
    let ir = l.lower_program(&program).expect("lowers");
    assert_eq!(ir.functions.len(), 2);
    assert_eq!(ir.functions[0].name, "one");
    assert_eq!(ir.functions[1].name, "main");
    assert!(matches!(&ir.functions[0].instructions[0], IrInstruction::Label(l) if l == "func_one"));
    assert!(matches!(&ir.functions[1].instructions[0], IrInstruction::Label(l) if l == "func_main"));
    assert!(matches!(ir.functions[0].instructions.last(), Some(IrInstruction::Return(Some(_)))));
}

#[test]
fn lowering_keeps_parameters_and_return_type() {
    let (program, errs) = parse("fn add(a: i32, b: u64) -> i64 { a; } fn main() { add$(1, 2); }");
    assert!(!errs);
    let ir = Lowering::new().lower_program(&program).expect("lowers");
    assert_eq!(ir.functions.len(), 2);
    let f = &ir.functions[0];
    assert_eq!(f.params.len(), 2);
    assert_eq!(f.params[0].0, "a");
    assert_eq!(f.params[0].1, Type::I32);
    assert_eq!(f.params[1].0, "b");
    assert_eq!(f.params[1].1, Type::U64);
    assert_eq!(f.return_type, Some(Type::I64));
    assert!(ir.functions[1].params.is_empty());
    assert_eq!(ir.functions[1].return_type, None);
    assert!(matches!(f.instructions.last(), Some(IrInstruction::Return(Some(_)))));
    assert!(matches!(ir.functions[1].instructions.last(), Some(IrInstruction::Return(None))));
    assert!(matches!(&f.instructions[0], IrInstruction::Label(l) if l == "func_add"));
    assert!(matches!(f.instructions[1], IrInstruction::LoadParam { dst: Temp(0), index: 0 }));
    assert!(matches!(f.instructions[2], IrInstruction::StoreMem { dst: Location::StackSlot(-8), src: Temp(0) }));
    assert!(matches!(f.instructions[3], IrInstruction::LoadParam { dst: Temp(1), index: 1 }));
    assert!(matches!(f.instructions[4], IrInstruction::StoreMem { dst: Location::StackSlot(-16), src: Temp(1) }));
    assert_eq!(f.locals.len(), 2);
    assert_eq!(f.locals[0].0, "a");
    assert_eq!(f.locals[1].0, "b");
    assert_eq!(f.locals[1].1, Type::U64);
}

#[test]
fn lowering_refuses_a_function_returning_an_array() {
    let (program, errs) = parse("fn main() -> i32 { 0; } fn f() -> [i32; 2] { 1; }");
    assert!(!errs);
    let r = Lowering::new().lower_program(&program);
    match r {
        Err(e) => assert!(e.message.contains("'f'")),
        Ok(_) => panic!("a function returning an array must be refused"),
    }
}

fn listing(f: &IrFunction) -> Vec<String> {
    f.instructions.iter().map(|i| format!("{:?}", i)).collect()
}

fn expect_listing(f: &IrFunction, want: Vec<IrInstruction>) {
    let want: Vec<String> = want.iter().map(|i| format!("{:?}", i)).collect();
    assert_eq!(listing(f), want);
}

#[test]
fn lowering_gives_the_exact_code_of_a_function() {
    let (program, errs) = parse("fn add(a: i32, b: i32) -> i32 { a + b; }");
    assert!(!errs);
    let ir = Lowering::new().lower_program(&program).expect("lowers");
    let s = Location::StackSlot;
    expect_listing(
        &ir.functions[0],
        vec![
            IrInstruction::Label("func_add".to_string()),
            IrInstruction::LoadParam { dst: Temp(0), index: 0 },
            IrInstruction::StoreMem { dst: s(-8), src: Temp(0) },
            IrInstruction::LoadParam { dst: Temp(1), index: 1 },
            IrInstruction::StoreMem { dst: s(-16), src: Temp(1) },
            IrInstruction::LoadMem { dst: Temp(2), src: s(-8) },
            IrInstruction::LoadMem { dst: Temp(3), src: s(-16) },
            IrInstruction::BinaryOp { dst: Temp(4), left: Temp(2), op: IrBinOp::Add, right: Temp(3) },
            IrInstruction::Return(Some(Temp(4))),
        ],
    );
}

#[test]
fn lowering_gives_the_message_for_an_array_return() {
    let (program, errs) = parse("fn f() -> [i32; 2] { 1; }");
    assert!(!errs);
    match Lowering::new().lower_program(&program) {
        Err(e) => assert_eq!(e.message, "Funkcja 'f': zwracanie tablic z funkcji nie jest jeszcze obsługiwane"),
        Ok(_) => panic!("an array return must be refused"),
    }
}

#[test]
fn lowering_picks_unsigned_operations_for_unsigned_operands() {
    let (program, errs) = parse("fn f(x: u32, y: u32) -> bool { x < y; } fn g(x: i32, y: i32) -> i32 { x / y; }");
    assert!(!errs);
    let ir = Lowering::new().lower_program(&program).expect("lowers");
    assert!(ir.functions[0].instructions.iter().any(|i| matches!(i, IrInstruction::BinaryOp { op: IrBinOp::LtU, .. })));
    assert!(ir.functions[1].instructions.iter().any(|i| matches!(i, IrInstruction::BinaryOp { op: IrBinOp::Div, .. })));
}

#[test]
fn lowering_lays_out_an_if_with_a_zero_default() {
    let (program, errs) = parse("fn f(c: i32) -> i32 { if c { 1; } else { 2; }; }");
    assert!(!errs);
    let ir = Lowering::new().lower_program(&program).expect("lowers");
    let s = Location::StackSlot;
    let l = |x: &str| x.to_string();
    expect_listing(
        &ir.functions[0],
        vec![
            IrInstruction::Label(l("func_f")),
            IrInstruction::LoadParam { dst: Temp(0), index: 0 },
            IrInstruction::StoreMem { dst: s(-8), src: Temp(0) },
            IrInstruction::LoadMem { dst: Temp(1), src: s(-8) },
            IrInstruction::LoadImm { dst: Temp(2), value: Operand::ImmInt(0) },
            IrInstruction::StoreMem { dst: s(-16), src: Temp(2) },
            IrInstruction::JumpIfZero { cond: Temp(1), target: l("L1") },
            IrInstruction::Label(l("L0")),
            IrInstruction::LoadImm { dst: Temp(3), value: Operand::ImmInt(1) },
            IrInstruction::StoreMem { dst: s(-16), src: Temp(3) },
            IrInstruction::Jump(l("L2")),
            IrInstruction::Label(l("L1")),
            IrInstruction::LoadImm { dst: Temp(4), value: Operand::ImmInt(2) },
            IrInstruction::StoreMem { dst: s(-16), src: Temp(4) },
            IrInstruction::Label(l("L2")),
            IrInstruction::LoadMem { dst: Temp(5), src: s(-16) },
            IrInstruction::Return(Some(Temp(5))),
        ],
    );
}

#[test]
fn lowered_temporaries_are_defined_before_use() {
    let (program, _) = parse("fn main() -> i32 { let a: i32 = 2; let b: i32 = a * 3; b + a; }");
    let mut l = Lowering::new();
    let ir = l.lower_program(&program).expect("lowers");
    let f = &ir.functions[0];
    let mut defined: Vec<u32> = Vec::new();
    for ins in &f.instructions {
        if let IrInstruction::BinaryOp { dst, left, right, .. } = ins {
            assert!(defined.contains(&left.0) && defined.contains(&right.0));
            defined.push(dst.0);
        }
        match ins {
            IrInstruction::LoadImm { dst, .. }
            | IrInstruction::LoadParam { dst, .. }
            | IrInstruction::LoadMem { dst, .. } => defined.push(dst.0),
            IrInstruction::Return(Some(t)) => assert!(defined.contains(&t.0)),
            _ => {}
        }
        for d in &defined {
            assert!(*d < f.next_temp);
        }
    }
}

// ---------------------------------------------------------------- optimizer

#[test]
fn fold_binop_computes_like_the_machine() {
    assert_eq!(fold_binop(IrBinOp::Add, 2, 3), Some(5));
    assert_eq!(fold_binop(IrBinOp::Add, i64::MAX, 1), Some(i64::MIN));
    assert_eq!(fold_binop(IrBinOp::Div, -7, 2), Some(-3));
    assert_eq!(fold_binop(IrBinOp::Mod, -7, 2), Some(-1));
    assert_eq!(fold_binop(IrBinOp::Div, 1, 0), None);
    assert_eq!(fold_binop(IrBinOp::Mod, 1, 0), None);
    assert_eq!(fold_binop(IrBinOp::Div, i64::MIN, -1), Some(i64::MIN));
    assert_eq!(fold_binop(IrBinOp::Lt, 1, 2), Some(1));
    assert_eq!(fold_binop(IrBinOp::LtU, -1, 2), Some(0));
    assert_eq!(fold_binop(IrBinOp::DivU, -1, 2), Some(i64::MAX));
    assert_eq!(fold_binop(IrBinOp::And, 5, 0), Some(0));
    assert_eq!(fold_binop(IrBinOp::Or, 0, 7), Some(1));
}

#[test]
fn constant_folding_replaces_operations_on_constants() {
    let mut f = func("f", vec![imm(0, 6), imm(1, 7), binop(2, 0, IrBinOp::Mul, 1), IrInstruction::Return(Some(Temp(2)))]);
    assert!(constant_fold(&mut f));
    assert!(matches!(f.instructions[2], IrInstruction::LoadImm { dst: Temp(2), value: Operand::ImmInt(42) }));
    assert!(!constant_fold(&mut f));
}

#[test]
fn constant_folding_leaves_division_by_zero() {
    let mut f = func("f", vec![imm(0, 6), imm(1, 0), binop(2, 0, IrBinOp::Div, 1), IrInstruction::Return(Some(Temp(2)))]);
    assert!(!constant_fold(&mut f));
    assert!(matches!(f.instructions[2], IrInstruction::BinaryOp { .. }));
}

#[test]
fn branch_folding_resolves_known_conditions() {
    let mut f = func(
        "f",
        vec![
            imm(0, 0),
            IrInstruction::JumpIfZero { cond: Temp(0), target: "a".to_string() },
            imm(1, 1),
            IrInstruction::JumpIfNotZero { cond: Temp(1), target: "b".to_string() },
            IrInstruction::Label("a".to_string()),
            IrInstruction::Label("b".to_string()),
            IrInstruction::Return(None),
        ],
    );
    assert!(fold_branches(&mut f));
    assert!(matches!(&f.instructions[1], IrInstruction::Jump(t) if t == "a"));
    assert!(matches!(&f.instructions[3], IrInstruction::Jump(t) if t == "b"));
}

#[test]
fn dead_code_elimination_drops_unused_pure_definitions() {
    let mut f = func(
        "f",
        vec![
            imm(0, 1),
            imm(1, 2),
            IrInstruction::Call { dst: Some(Temp(2)), func: "g".to_string(), args: vec![] },
            IrInstruction::Return(Some(Temp(1))),
        ],
    );
    assert!(dead_code_elim(&mut f));
    assert_eq!(f.instructions.len(), 3);
    assert!(matches!(f.instructions[0], IrInstruction::LoadImm { dst: Temp(1), .. }));
    assert!(matches!(&f.instructions[1], IrInstruction::Call { dst: None, .. }));
}

#[test]
fn peephole_removes_jumps_to_next_unreachable_code_and_notes() {
    let mut f = func(
        "f",
        vec![
            IrInstruction::Comment("note".to_string()),
            IrInstruction::Jump("l".to_string()),
            IrInstruction::Label("l".to_string()),
            IrInstruction::Return(None),
            imm(0, 1),
            IrInstruction::Label("m".to_string()),
            IrInstruction::Return(None),
        ],
    );
    assert!(peephole(&mut f));
    assert_eq!(f.instructions.len(), 4);
    assert!(matches!(&f.instructions[0], IrInstruction::Label(l) if l == "l"));
    assert!(matches!(f.instructions[1], IrInstruction::Return(None)));
    assert!(matches!(&f.instructions[2], IrInstruction::Label(l) if l == "m"));
}

#[test]
fn memory_forwarding_reuses_a_stored_value() {
    let mut f = func(
        "f",
        vec![
            imm(0, 5),
            IrInstruction::StoreMem { dst: Location::StackSlot(-8), src: Temp(0) },
            IrInstruction::LoadMem { dst: Temp(1), src: Location::StackSlot(-8) },
            IrInstruction::Return(Some(Temp(1))),
        ],
    );
    assert!(mem_forward(&mut f));
    assert_eq!(f.instructions.len(), 3);
    assert!(matches!(f.instructions[1], IrInstruction::StoreMem { dst: Location::StackSlot(-8), src: Temp(0) }));
    assert!(matches!(f.instructions[2], IrInstruction::Return(Some(Temp(0)))));
}

#[test]
fn memory_forwarding_drops_an_overwritten_store() {
    let mut f = func(
        "f",
        vec![
            imm(0, 5),
            imm(1, 6),
            IrInstruction::StoreMem { dst: Location::StackSlot(-8), src: Temp(0) },
            IrInstruction::StoreMem { dst: Location::StackSlot(-8), src: Temp(1) },
            IrInstruction::Return(None),
        ],
    );
    assert!(mem_forward(&mut f));
    assert_eq!(f.instructions.len(), 3);
    assert!(matches!(f.instructions[2], IrInstruction::Return(None)));
    let mut g = func("g", vec![IrInstruction::LoadAddr { dst: Temp(0), base_offset: -8 }, IrInstruction::Return(None)]);
    assert!(!mem_forward(&mut g));
    assert_eq!(g.instructions.len(), 2);
}

#[test]
fn optimizing_keeps_the_header_and_drops_notes() {
    let mut f = func(
        "f",
        vec![
            IrInstruction::Comment("c".to_string()),
            imm(0, 2),
            imm(1, 3),
            binop(2, 0, IrBinOp::Add, 1),
            IrInstruction::Return(Some(Temp(2))),
        ],
    );
    let before = f.instructions.len();
    optimize_function(&mut f);
    assert_eq!(f.name, "f");
    assert_eq!(f.next_temp, 100);
    assert!(f.instructions.len() <= before);
    let again = f.instructions.len();
    optimize_function(&mut f);
    assert_eq!(f.instructions.len(), again);
    assert!(!f.instructions.iter().any(|i| matches!(i, IrInstruction::Comment(_))));
    assert!(f.instructions.iter().any(|i| matches!(i, IrInstruction::LoadImm { value: Operand::ImmInt(5), .. })));
    let mut p = IrProgram { functions: vec![func("g", vec![IrInstruction::Comment("x".to_string()), IrInstruction::Return(None)])] };
    optimize_program(&mut p);
    assert_eq!(p.functions[0].instructions.len(), 1);
}

// ---------------------------------------------------------------- registers

#[test]
fn allocation_homes_every_defined_temporary() {
    let f = func(
        "f",
        vec![imm(0, 1), imm(1, 2), imm(2, 3), binop(3, 0, IrBinOp::Add, 1), binop(4, 3, IrBinOp::Add, 2), IrInstruction::Return(Some(Temp(4)))],
    );
    let r = allocate(&f, 2);
    for t in 0..5u32 {
        assert!(r.home.contains_key(&t));
        match r.home[&t] {
            Home::Reg(k) => assert!(k < 2),
            Home::Spill(k) => assert!(k < r.num_spill_slots),
        }
    }
    assert!(r.num_spill_slots >= 1);
    assert!(r.num_spill_slots <= f.instructions.len());
    assert!(!r.home.contains_key(&7));
}

fn live_ranges(f: &IrFunction) -> Vec<(u32, usize, usize)> {
    // (temporary, first definition, last use or definition)
    let mut out: Vec<(u32, usize, usize)> = Vec::new();
    for (i, ins) in f.instructions.iter().enumerate() {
        let (def, uses): (Option<u32>, Vec<u32>) = match ins {
            IrInstruction::LoadImm { dst, .. } => (Some(dst.0), vec![]),
            IrInstruction::BinaryOp { dst, left, right, .. } => (Some(dst.0), vec![left.0, right.0]),
            IrInstruction::Return(Some(t)) => (None, vec![t.0]),
            _ => (None, vec![]),
        };
        for u in uses {
            if let Some(e) = out.iter_mut().find(|e| e.0 == u) {
                e.2 = e.2.max(i);
            }
        }
        if let Some(d) = def {
            if !out.iter().any(|e| e.0 == d) {
                out.push((d, i, i));
            }
        }
    }
    out
}

#[test]
fn allocation_never_shares_a_register_between_overlapping_ranges() {
    let f = func(
        "f",
        vec![
            imm(0, 1),
            imm(1, 2),
            binop(2, 0, IrBinOp::Add, 1),
            imm(3, 4),
            binop(4, 2, IrBinOp::Mul, 3),
            binop(5, 4, IrBinOp::Sub, 0),
            imm(6, 9),
            binop(7, 5, IrBinOp::Add, 6),
            IrInstruction::Return(Some(Temp(7))),
        ],
    );
    for regs in 1..4usize {
        let r = allocate(&f, regs);
        let ranges = live_ranges(&f);
        for a in &ranges {
            for b in &ranges {
                if a.0 != b.0 {
                    if let (Home::Reg(x), Home::Reg(y)) = (r.home[&a.0], r.home[&b.0]) {
                        if x == y {
                            assert!(a.2 < b.1 || b.2 < a.1, "{:?} and {:?} share register {}", a, b, x);
                        }
                    }
                }
            }
        }
    }
}

#[test]
fn allocation_spills_the_range_that_ends_last() {
    let f = func(
        "f",
        vec![imm(0, 1), imm(1, 2), binop(2, 0, IrBinOp::Add, 1), IrInstruction::Return(Some(Temp(2)))],
    );
    let r = allocate(&f, 1);
    assert!(matches!(r.home[&0], Home::Reg(0)));
    assert!(matches!(r.home[&1], Home::Spill(0)));
    assert!(matches!(r.home[&2], Home::Spill(1)));
    assert_eq!(r.num_spill_slots, 2);
}

#[test]
fn x86_64_spilled_temporaries_live_below_the_locals() {
    let mut body: Vec<IrInstruction> = (0..6).map(|t| imm(t, t as i64 + 1)).collect();
    body.push(binop(6, 0, IrBinOp::Add, 1));
    body.push(binop(7, 6, IrBinOp::Add, 2));
    body.push(binop(8, 7, IrBinOp::Add, 3));
    body.push(binop(9, 8, IrBinOp::Add, 4));
    body.push(binop(10, 9, IrBinOp::Add, 5));
    body.push(IrInstruction::Return(Some(Temp(10))));
    let p = IrProgram { functions: vec![func("main", body)] };
    let code = X86_64CodeGen::new().compile(&p);
    assert!(code.contains("    subq $16, %rsp\n"));
    assert!(code.contains("    movabsq $6, %rax\n    movq %rax, -48(%rbp)\n"));
    assert!(code.contains("    addq $16, %rsp\n"));
}

#[test]
fn allocation_gives_the_first_temporary_register_zero() {
    let f = func("f", vec![imm(0, 7), IrInstruction::Return(Some(Temp(0)))]);
    let r = allocate(&f, 5);
    assert!(matches!(r.home[&0], Home::Reg(0)));
    assert_eq!(r.num_spill_slots, 0);
}

// ---------------------------------------------------------------- code generation

const X86_START: &str = "    .text\n    .globl _start\n_start:\n    call main\n    movq %rax, %rdi\n    movq $60, %rax    # sys_exit\n    syscall\n";

#[test]
fn x86_64_code_of_a_constant_return() {
    let p = IrProgram { functions: vec![func("main", vec![imm(0, 7), IrInstruction::Return(Some(Temp(0)))])] };
    assert!(codegen_x86_64::program_compilable(&p));
    let code = X86_64CodeGen::new().compile(&p);
    let expected = format!(
        "{}\n    .globl main\nmain:\n    pushq %rbp\n    movq %rsp, %rbp\n    pushq %rbx\n    pushq %r12\n    pushq %r13\n    pushq %r14\n    pushq %r15\n    movabsq $7, %rbx\n    movq %rbx, %rax\n    jmp .Lepilogue_main\n.Lepilogue_main:\n    popq %r15\n    popq %r14\n    popq %r13\n    popq %r12\n    popq %rbx\n    popq %rbp\n    ret\n",
        X86_START
    );
    assert_eq!(code, expected);
}

#[test]
fn x86_64_strings_go_to_rodata_once() {
    let p = IrProgram {
        functions: vec![func(
            "main",
            vec![
                IrInstruction::LoadImm { dst: Temp(0), value: Operand::ImmString("\"hi\"".to_string()) },
                IrInstruction::LoadImm { dst: Temp(1), value: Operand::ImmString("hi".to_string()) },
                IrInstruction::Return(None),
            ],
        )],
    };
    let code = X86_64CodeGen::new().compile(&p);
    assert_eq!(code.matches("    leaq .Lstr0(%rip), %rbx\n").count(), 2);
    assert!(code.contains("    xorq %rax, %rax\n"));
    assert!(code.ends_with("\n    .section .rodata\n.Lstr0:\n    .asciz \"hi\"\n"));
    assert!(!code.contains(".Lstr1"));
}

#[test]
fn x86_64_comparison_and_division() {
    let p = IrProgram {
        functions: vec![func(
            "main",
            vec![imm(0, 9), imm(1, 2), binop(2, 0, IrBinOp::Lt, 1), binop(3, 0, IrBinOp::Div, 1), IrInstruction::Return(Some(Temp(3)))],
        )],
    };
    let code = X86_64CodeGen::new().compile(&p);
    assert!(code.contains("    cmpq %r12, %rax\n    setl %al\n    movzbq %al, %rax\n"));
    assert!(code.contains("    cqto\n    idivq %r12\n"));
}

#[test]
fn x86_64_skips_the_function_label_and_localises_others() {
    let p = IrProgram {
        functions: vec![func(
            "main",
            vec![
                IrInstruction::Label("func_main".to_string()),
                IrInstruction::Jump("end".to_string()),
                IrInstruction::Label("end".to_string()),
                IrInstruction::Return(None),
            ],
        )],
    };
    let code = X86_64CodeGen::new().compile(&p);
    assert!(!code.contains("func_main"));
    assert!(code.contains("    jmp .Lmain_end\n.Lmain_end:\n"));
}

#[test]
fn code_generators_refuse_what_they_cannot_compile() {
    let uses_undefined = IrProgram { functions: vec![func("main", vec![IrInstruction::Return(Some(Temp(3)))])] };
    assert!(!codegen_x86_64::program_compilable(&uses_undefined));
    assert!(!codegen_riscv64::program_compilable(&uses_undefined));
    let seventh = IrProgram { functions: vec![func("main", vec![IrInstruction::LoadParam { dst: Temp(0), index: 6 }, IrInstruction::Return(None)])] };
    assert!(!codegen_x86_64::program_compilable(&seventh));
    assert!(codegen_riscv64::program_compilable(&seventh));
    let ninth = IrProgram { functions: vec![func("main", vec![IrInstruction::LoadParam { dst: Temp(0), index: 8 }, IrInstruction::Return(None)])] };
    assert!(!codegen_riscv64::program_compilable(&ninth));
}

#[test]
fn riscv64_code_of_a_constant_return() {
    let p = IrProgram { functions: vec![func("main", vec![imm(0, 7), IrInstruction::Return(Some(Temp(0)))])] };
    assert!(codegen_riscv64::program_compilable(&p));
    let code = RiscV64CodeGen::new().compile(&p);
    let saves: String = (1..=8).map(|i| format!("    sd s{}, -{}(s0)\n", i, 16 + 8 * i)).collect();
    let restores: String = (1..=8).map(|i| format!("    ld s{}, -{}(s0)\n", i, 16 + 8 * i)).collect();
    let expected = format!(
        "    .text\n    .globl _start\n_start:\n    call main\n    li a7, 93    # sys_exit\n    ecall\n\n    .globl main\nmain:\n    addi sp, sp, -80\n    sd ra, 72(sp)\n    sd s0, 64(sp)\n    addi s0, sp, 80\n{}    li s1, 7\n    mv a0, s1\n    j .Lepilogue_main\n.Lepilogue_main:\n{}    ld ra, 72(sp)\n    ld s0, 64(sp)\n    addi sp, sp, 80\n    ret\n",
        saves, restores
    );
    assert_eq!(code, expected);
}

#[test]
fn riscv64_indexing_scales_by_shifting() {
    let p = IrProgram {
        functions: vec![IrFunction {
            locals: vec![("a".to_string(), Type::I64), ("b".to_string(), Type::I64)],
            ..func(
                "main",
                vec![
                    imm(0, 1),
                    IrInstruction::LoadIndexed { dst: Temp(1), base_offset: -8, index: Temp(0), elem_size: 8 },
                    IrInstruction::LoadIndexed { dst: Temp(2), base_offset: -8, index: Temp(0), elem_size: 3 },
                    IrInstruction::Return(Some(Temp(1))),
                ],
            )
        }],
    };
    let code = RiscV64CodeGen::new().compile(&p);
    assert!(code.contains("    mv t1, s1\n    slli t1, t1, 3\n    li t2, 88\n    sub t2, s0, t2\n    sub t2, t2, t1\n    ld s2, 0(t2)\n"));
    assert!(code.contains("    li t3, 3\n    mul t1, t1, t3\n"));
    assert!(code.contains("    addi sp, sp, -96\n"));
}

#[test]
fn riscv64_unsigned_and_logical_operations() {
    let p = IrProgram {
        functions: vec![func(
            "main",
            vec![imm(0, 9), imm(1, 2), binop(2, 0, IrBinOp::GeU, 1), binop(3, 0, IrBinOp::And, 1), IrInstruction::Return(Some(Temp(3)))],
        )],
    };
    let code = RiscV64CodeGen::new().compile(&p);
    assert!(code.contains("    sltu s3, s1, s2\n    xori s3, s3, 1\n"));
    assert!(code.contains("    snez t0, s1\n    snez t1, s2\n    and s3, t0, t1\n"));
}

// ---------------------------------------------------------------- modules

#[test]
fn extension_checks() {
    assert!(check_extension("a.xre").is_ok());
    assert!(check_extension("dir/b.xrh").is_ok());
    assert_eq!(check_extension("noext"), Err("No file extension".to_string()));
    assert_eq!(check_extension("x.txt"), Err("Unsupported file extension: txt".to_string()));
}

#[test]
fn loading_registers_declarations_and_definitions() {
    let mut ms = ModuleSystem::new();
    let src = "fn f(x: i64) -> i64; fn g() -> i64 { 1; }";
    assert_eq!(ms.load_source("m.xre", src), Ok(src.to_string()));
    let f = ms.find_function("f").expect("declared");
    assert_eq!(f.params.len(), 1);
    assert_eq!(ms.find_function("g").expect("defined").name, "g");
    assert!(ms.find_function("h").is_none());
}

#[test]
fn loading_reports_parse_errors_and_bad_extensions() {
    let mut ms = ModuleSystem::new();
    let r = ms.load_source("m.xre", "let x = 1");
    let e = r.unwrap_err();
    assert!(e.starts_with("Parse errors in m.xre: \"Expected Semicolon, found Eof\" @ "), "{}", e);
    assert!(e.contains(" @ "));
    assert_eq!(ms.load_source("m.c", "fn g() { 1; }"), Err("Unsupported file extension: c".to_string()));
    assert!(ms.find_function("g").is_none());
}

fn run_merge(files: &[(&str, &str)], entry: &str) -> Result<(lib::ast::Program, Vec<String>), String> {
    let mut ms = ModuleSystem::new();
    let mut merge = ms.build_merged_program(entry);
    let mut loads = Vec::new();
    loop {
        match merge.step() {
            MergeAction::Load(p) => {
                loads.push(p.clone());
                let src = files.iter().find(|(n, _)| *n == p).map(|(_, s)| *s).ok_or(format!("missing {}", p))?;
                ms.merge_load(&mut merge, &p, src)?;
            }
            MergeAction::Continue => {}
            MergeAction::Done(program) => return Ok((program, loads)),
        }
    }
}

#[test]
fn merging_follows_includes_once_and_keeps_the_last_definition() {
    let files = [
        ("main.xre", "include \"util.xre\"; include \"util.xre\"; fn main() -> i64 { 2; } fn twice() -> i64 { 2; }"),
        ("util.xre", "fn helper() -> i64 { 1; } fn twice() -> i64 { 1; }"),
    ];
    let (program, loads) = run_merge(&files, "main.xre").expect("merges");
    assert_eq!(loads, vec!["main.xre".to_string(), "util.xre".to_string()]);
    let names: Vec<String> = program
        .stmts
        .iter()
        .map(|s| match s {
            Stmt::FnDef { name, .. } => name.clone(),
            _ => panic!("only definitions are merged"),
        })
        .collect();
    assert_eq!(names, vec!["helper", "twice", "main"]);
    match &program.stmts[1] {
        Stmt::FnDef { body, .. } => match &body.stmts[0] {
            Stmt::Expr(e) => assert!(matches!(e.as_ref(), lib::ast::Expr::Literal(lib::ast::Literal::Int(v)) if v == "2")),
            other => panic!("unexpected {:?}", other),
        },
        _ => unreachable!(),
    }
}

#[test]
fn merging_stops_at_a_bad_file() {
    let files = [("main.xre", "include \"bad.txt\"; fn main() -> i64 { 1; }"), ("bad.txt", "")];
    assert_eq!(run_merge(&files, "main.xre").unwrap_err(), "Unsupported file extension: txt");
}

// ---------------------------------------------------------------- targets

#[test]
fn targets_and_their_drivers() {
    assert_eq!(Target::X86_64.name(), "x86_64");
    assert_eq!(Target::RiscV64.name(), "riscv64");
    assert_eq!(candidate_drivers(Target::X86_64), vec!["cc", "gcc", "clang"]);
    assert_eq!(candidate_drivers(Target::RiscV64)[0], "riscv64-linux-gnu-gcc");
    assert_eq!(candidate_drivers(Target::RiscV64).len(), 4);
    assert_eq!(install_hint(Target::RiscV64), "gcc-riscv64-linux-gnu binutils-riscv64-linux-gnu");
}

// ---------------------------------------------------------------- end to end

#[test]
fn source_to_assembly() {
    let (program, errs) = parse("fn main() -> i32 { let x: i32 = 40; x + 2; }");
    assert!(!errs);
    let mut c = SemanticChecker::new();
    c.check_program(&program);
    assert!(!c.has_errors(), "{:?}", c.get_errors());
    let mut ir = Lowering::new().lower_program(&program).expect("lowers");
    optimize_program(&mut ir);
    assert!(codegen_x86_64::program_compilable(&ir));
    let code = X86_64CodeGen::new().compile(&ir);
    assert!(code.starts_with(X86_START));
    assert!(code.contains("\n    .globl main\nmain:\n"));
    assert!(code.contains("$42"), "{}", code);
    assert!(codegen_riscv64::program_compilable(&ir));
    let rv = RiscV64CodeGen::new().compile(&ir);
    assert!(rv.contains("li s1, 42") || rv.contains(", 42\n"), "{}", rv);
}

#[test]
fn link_arguments_and_missing_driver_message() {
    assert_eq!(
        link_args(Target::X86_64, "a.s", "a"),
        vec!["a.s", "-o", "a", "-static", "-nostdlib", "-e", "_start", "-Wa,--noexecstack", "-no-pie"]
    );
    assert_eq!(link_args(Target::RiscV64, "a.s", "a").len(), 8);
    assert_eq!(
        missing_driver_message(Target::X86_64, "x.s"),
        "Nie znaleziono asemblera/linkera dla x86_64 (szukano: cc, gcc, clang).\nWygenerowany asembler zostawiłem w x.s - możesz go zasemblować ręcznie\npo zainstalowaniu odpowiedniego toolchaina, np.:\n  apt-get install gcc"
    );
}

#[test]
fn the_whitespace_class_is_unicode_white_space() {
    assert_eq!(kinds("\u{3000}a\u{85}").len(), kinds("a").len());
}
