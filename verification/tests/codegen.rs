use b_codegen::codegen::gas_arm_m3_none::{
    call_arg, function_is_supported, generate_function, generate_funcs, generate_program,
    load_arg_to_reg, program_supported, return_func, stk_off, CodegenError,
};
use b_codegen::ir::{align_bytes, Arg, AsmStmt, Binop, Compiler, Func, Loc, Op, OpWithLocation};
use b_codegen::text::push_decimal;

fn loc(line: i32) -> Loc {
    Loc { input_path: String::from("main.b"), line_number: line, line_offset: 1 }
}

fn op(opcode: Op) -> OpWithLocation {
    OpWithLocation { opcode, loc: loc(1) }
}

fn load(arg: Arg, reg: &str, stack_size: usize) -> String {
    let mut out = String::new();
    load_arg_to_reg(&arg, reg, &mut out, &loc(1), stack_size);
    out
}

fn function(name: &str, params: usize, autos: usize, body: Vec<OpWithLocation>) -> Func {
    Func { name: String::from(name), name_loc: loc(7), body, params_count: params, auto_vars_count: autos }
}

fn gen_function(params: usize, autos: usize, body: &[OpWithLocation]) -> (Result<(), CodegenError>, String) {
    let mut out = String::from("; ");
    let r = generate_function("f", &loc(7), params, autos, body, &mut out);
    (r, out)
}

const MAIN_RETURN_ZERO: &str = ".global main\n.type main, %function\n.thumb_func\nmain:\n    push {r7, lr}\n    sub sp, sp, #8\n    mov r7, sp\nmain.op_0:\n    mov x0, #0\n    add r7, r7, #8\n    mov sp, r7\n    pop {r7, pc}\nmain.op_1:\n    add r7, r7, #8\n    mov sp, r7\n    pop {r7, pc}\n    .size main, .-main\n";

#[test]
fn decimal_rendering() {
    for (n, text) in [(0u64, "0"), (7, "7"), (10, "10"), (4660, "4660"), (u64::MAX, "18446744073709551615")] {
        let mut out = String::from("#");
        push_decimal(&mut out, n);
        assert_eq!(out, format!("#{}", text));
    }
}

#[test]
fn align_bytes_rounds_up_to_multiple() {
    assert_eq!(align_bytes(0, 8), 0);
    assert_eq!(align_bytes(4, 8), 8);
    assert_eq!(align_bytes(8, 8), 8);
    assert_eq!(align_bytes(12, 8), 16);
    assert_eq!(align_bytes(17, 16), 32);
}

#[test]
fn stack_offsets_count_down_from_frame_top() {
    assert_eq!(stk_off(16, 1), 12);
    assert_eq!(stk_off(16, 2), 8);
    assert_eq!(stk_off(16, 4), 0);
    assert_eq!(stk_off(8, 2), 0);
}

#[test]
fn slots_of_distinct_variables_do_not_overlap() {
    let size = 24;
    for i in 1..=6usize {
        assert!(stk_off(size, i) + 4 <= size);
        for j in 1..=6usize {
            if i != j {
                let (a, b) = (stk_off(size, i), stk_off(size, j));
                assert!(a + 4 <= b || b + 4 <= a);
            }
        }
    }
}

#[test]
fn return_frees_frame() {
    let mut out = String::new();
    return_func(16, &mut out);
    assert_eq!(out, "    add r7, r7, #16\n    mov sp, r7\n    pop {r7, pc}\n");
}

#[test]
fn literal_forms() {
    assert_eq!(load(Arg::Literal(0), "r0", 8), "    mov r0, #0\n");
    assert_eq!(load(Arg::Literal(255), "r0", 8), "    mov r0, #255\n");
    assert_eq!(load(Arg::Literal(256), "r1", 8), "    movw r1, #256\n");
    assert_eq!(load(Arg::Literal(0xffff), "r1", 8), "    movw r1, #65535\n");
    assert_eq!(load(Arg::Literal(0x12345678), "r2", 8), "    movw r2, #22136\n    movt r2, #4660\n");
    assert_eq!(load(Arg::Literal(0x10000), "r2", 8), "    movw r2, #0\n    movt r2, #1\n");
}

#[test]
fn literal_is_truncated_to_32_bits() {
    assert_eq!(load(Arg::Literal(0x1_0000_0005), "r0", 8), "    mov r0, #5\n");
    assert_eq!(
        load(Arg::Literal(u64::MAX), "r0", 8),
        "    movw r0, #65535\n    movt r0, #65535\n"
    );
}

#[test]
fn literal_halves_recombine() {
    let value: u64 = 0xdead_beef;
    let text = load(Arg::Literal(value), "r3", 8);
    let lines: Vec<&str> = text.lines().collect();
    assert_eq!(lines.len(), 2);
    let lo: u64 = lines[0].rsplit('#').next().unwrap().parse().unwrap();
    let hi: u64 = lines[1].rsplit('#').next().unwrap().parse().unwrap();
    assert!(lo <= 0xffff && hi <= 0xffff);
    assert_eq!(hi * 0x10000 + lo, value);
}

#[test]
fn variable_operands() {
    assert_eq!(load(Arg::AutoVar(1), "r1", 8), "    ldr r1, [r7, #4]\n");
    assert_eq!(load(Arg::Deref(2), "r2", 8), "    ldr r2, [r7, #0]\n    ldr r2, [r2]\n");
    assert_eq!(load(Arg::RefAutoVar(1), "r0", 16), "    add r0, r7, 12\n");
}

#[test]
fn external_operands() {
    assert_eq!(load(Arg::External(String::from("x")), "r0", 8), "    adr r0, =x\n    ldr r0, [r0]\n");
    assert_eq!(load(Arg::RefExternal(String::from("buf")), "r3", 8), "    adr r3, =buf\n");
}

#[test]
fn calls() {
    let mut out = String::new();
    call_arg(&Arg::External(String::from("printf")), &loc(1), 8, &mut out);
    assert_eq!(out, "    bl printf\n");
    let mut out = String::new();
    call_arg(&Arg::RefExternal(String::from("putchar")), &loc(1), 8, &mut out);
    assert_eq!(out, "    bl putchar\n");
    let mut out = String::new();
    call_arg(&Arg::AutoVar(1), &loc(1), 8, &mut out);
    assert_eq!(out, "    ldr r4, [r7, #4]\n    blx r4\n");
}

#[test]
fn function_returning_zero() {
    let body = vec![op(Op::Return { arg: Some(Arg::Literal(0)) })];
    let mut out = String::new();
    let r = generate_function("main", &loc(1), 0, 1, &body, &mut out);
    assert!(r.is_ok());
    assert_eq!(out, MAIN_RETURN_ZERO);
}

#[test]
fn parameters_go_to_their_slots() {
    let (r, out) = gen_function(2, 3, &[]);
    assert!(r.is_ok());
    assert_eq!(
        out,
        "; .global f\n.type f, %function\n.thumb_func\nf:\n    push {r7, lr}\n    sub sp, sp, #16\n    mov r7, sp\n    str r0, [r7, #12]\n    str r1, [r7, #8]\nf.op_0:\n    add r7, r7, #16\n    mov sp, r7\n    pop {r7, pc}\n    .size f, .-f\n"
    );
}

fn body_of(params: usize, autos: usize, ops: Vec<Op>) -> String {
    let body: Vec<OpWithLocation> = ops.into_iter().map(op).collect();
    let (r, out) = gen_function(params, autos, &body);
    assert!(r.is_ok());
    let start = out.find("f.op_0:\n").unwrap() + "f.op_0:\n".len();
    let end = out.find(&format!("f.op_{}:\n", body.len())).unwrap();
    out[start..end].to_string()
}

#[test]
fn comparison_binop() {
    let text = body_of(0, 3, vec![Op::Binop { binop: Binop::Less, index: 3, lhs: Arg::AutoVar(1), rhs: Arg::Literal(2) }]);
    assert_eq!(
        text,
        "    ldr r0, [r7, #12]\n    mov r1, #2\n    cmp r0, r1\n    ite lt\n    movlt r0, #1\n    movge r0, #0\n    str r0, [r7, #4]\n"
    );
}

#[test]
fn each_comparison_sets_opposite_codes() {
    let cases = [
        (Binop::Less, "lt", "ge"),
        (Binop::Greater, "gt", "le"),
        (Binop::Equal, "eq", "ne"),
        (Binop::NotEqual, "ne", "eq"),
        (Binop::GreaterEqual, "ge", "lt"),
        (Binop::LessEqual, "le", "gt"),
    ];
    for (binop, on, off) in cases {
        let text = body_of(0, 1, vec![Op::Binop { binop, index: 1, lhs: Arg::Literal(1), rhs: Arg::Literal(2) }]);
        assert_eq!(
            text,
            format!("    mov r0, #1\n    mov r1, #2\n    cmp r0, r1\n    ite {on}\n    mov{on} r0, #1\n    mov{off} r0, #0\n    str r0, [r7, #4]\n")
        );
    }
}

#[test]
fn arithmetic_binops() {
    let cases = [
        (Binop::BitOr, "    orr r0, r0, r1\n"),
        (Binop::BitAnd, "    and r0, r0, r1\n"),
        (Binop::BitShl, "    lsl r0, r0, r1\n"),
        (Binop::BitShr, "    lsr r0, r0, r1\n"),
        (Binop::Plus, "    add r0, r0, r1\n"),
        (Binop::Minus, "    sub r0, r0, r1\n"),
        (Binop::Mod, "    sdiv r2, r0, r1\n    mls r0, r2, r1, r0\n"),
        (Binop::Div, "    sdiv r2, r0, r1\n"),
        (Binop::Mult, "    mul r0, r0, r1\n"),
    ];
    for (binop, line) in cases {
        let text = body_of(0, 2, vec![Op::Binop { binop, index: 2, lhs: Arg::AutoVar(1), rhs: Arg::AutoVar(2) }]);
        assert_eq!(text, format!("    ldr r0, [r7, #4]\n    ldr r1, [r7, #0]\n{line}    str r0, [r7, #0]\n"));
    }
}

#[test]
fn unary_operations() {
    assert_eq!(
        body_of(0, 2, vec![Op::Negate { result: 2, arg: Arg::AutoVar(1) }]),
        "    ldr r0, [r7, #4]\n    neg r0, r0\n    str r0, [r7, #0]\n"
    );
    assert_eq!(
        body_of(0, 2, vec![Op::UnaryNot { result: 1, arg: Arg::Literal(3) }]),
        "    mov r0, #3\n    clz r0, r0\n    lsr r0, r0, #5\n    str r0, [r7, #4]\n"
    );
}

#[test]
fn assignments_and_stores() {
    assert_eq!(
        body_of(0, 2, vec![Op::AutoAssign { index: 2, arg: Arg::Literal(9) }]),
        "    mov r0, #9\n    str r0, [r7, #0]\n"
    );
    assert_eq!(
        body_of(0, 2, vec![Op::ExternalAssign { name: String::from("g"), arg: Arg::AutoVar(2) }]),
        "    ldr r0, [r7, #0]\n    str r0, [r1]\n"
    );
    assert_eq!(
        body_of(0, 2, vec![Op::Store { index: 1, arg: Arg::Literal(300) }]),
        "    ldr r0, [r7, #4]\n    movw r1, #300\n    str r1, [r0]\n"
    );
}

#[test]
fn function_call_loads_arguments_in_order() {
    let call = Op::Funcall {
        result: 2,
        fun: Arg::External(String::from("f2")),
        args: vec![Arg::Literal(1), Arg::AutoVar(1), Arg::RefExternal(String::from("s")), Arg::Literal(70000)],
    };
    assert_eq!(
        body_of(0, 2, vec![call]),
        "    mov r0, #1\n    ldr r1, [r7, #4]\n    adr r2, =s\n    movw r3, #4464\n    movt r3, #1\n    bl f2\n    str r0, [r7, #0]\n"
    );
}

#[test]
fn labels_jumps_and_asm() {
    let ops = vec![
        Op::Label { label: 3 },
        Op::JmpLabel { label: 3 },
        Op::JmpIfNotLabel { label: 12, arg: Arg::AutoVar(1) },
        Op::Asm {
            stmts: vec![
                AsmStmt { line: String::from("nop"), loc: loc(2) },
                AsmStmt { line: String::from("bkpt #0"), loc: loc(3) },
            ],
        },
        Op::Return { arg: None },
    ];
    assert_eq!(
        body_of(0, 1, ops),
        "f.label_3:\nf.op_1:\n    b f.label_3\nf.op_2:\n    ldr r0, [r7, #4]\n    cmp r0, 0\n    beq f.label_12\nf.op_3:\n    nop\n    bkpt #0\nf.op_4:\n    add r7, r7, #8\n    mov sp, r7\n    pop {r7, pc}\n"
    );
}

#[test]
fn operation_labels_are_distinct() {
    let body: Vec<OpWithLocation> = (0..12).map(|_| op(Op::Label { label: 0 })).collect();
    let (r, out) = gen_function(0, 0, &body);
    assert!(r.is_ok());
    let labels: Vec<&str> = out.lines().filter(|l| l.starts_with("f.op_")).collect();
    assert_eq!(labels.len(), 13);
    for i in 0..labels.len() {
        for j in 0..labels.len() {
            if i != j {
                assert_ne!(labels[i], labels[j]);
            }
        }
    }
}

#[test]
fn too_many_parameters_is_refused() {
    let (r, out) = gen_function(5, 5, &[]);
    match r {
        Err(CodegenError::TooManyParams { loc, supported, provided }) => {
            assert_eq!((supported, provided), (4, 5));
            assert_eq!(loc.line_number, 7);
        }
        _ => panic!("expected TooManyParams"),
    }
    assert_eq!(out, "; ");
}

#[test]
fn too_many_call_arguments_is_refused() {
    let args: Vec<Arg> = (0..5).map(Arg::Literal).collect();
    let body = vec![
        op(Op::Return { arg: None }),
        OpWithLocation {
            opcode: Op::Funcall { result: 1, fun: Arg::External(String::from("g")), args },
            loc: loc(42),
        },
        OpWithLocation {
            opcode: Op::Funcall { result: 1, fun: Arg::External(String::from("h")), args: (0..6).map(Arg::Literal).collect() },
            loc: loc(43),
        },
    ];
    let (r, out) = gen_function(0, 1, &body);
    match r {
        Err(CodegenError::TooManyCallArgs { loc, supported, provided }) => {
            assert_eq!((supported, provided), (4, 5));
            assert_eq!(loc.line_number, 42);
        }
        _ => panic!("expected TooManyCallArgs"),
    }
    assert_eq!(out, "; ");
}

#[test]
fn program_text() {
    let c = Compiler {
        funcs: vec![function("main", 0, 1, vec![op(Op::Return { arg: Some(Arg::Literal(0)) })])],
    };
    assert!(program_supported(&c));
    let mut out = String::new();
    assert!(generate_program(&mut out, &c).is_ok());
    assert_eq!(
        out,
        format!(".syntax unified\n.cpu cortex-m3\n.fpu softvfp\n.thumb\n\n.text\n{}", MAIN_RETURN_ZERO)
    );
}

#[test]
fn empty_program() {
    let c = Compiler { funcs: vec![] };
    let mut out = String::new();
    assert!(generate_program(&mut out, &c).is_ok());
    assert_eq!(out, ".syntax unified\n.cpu cortex-m3\n.fpu softvfp\n.thumb\n\n.text\n");
}

#[test]
fn functions_translate_independently() {
    let a = function("a", 1, 1, vec![op(Op::Return { arg: Some(Arg::AutoVar(1)) })]);
    let b = function("b", 0, 2, vec![op(Op::AutoAssign { index: 2, arg: Arg::Literal(4) })]);
    let a2 = function("a", 1, 1, vec![op(Op::Return { arg: Some(Arg::AutoVar(1)) })]);
    let b2 = function("b", 0, 2, vec![op(Op::AutoAssign { index: 2, arg: Arg::Literal(4) })]);
    let mut together = String::new();
    assert!(generate_funcs(&mut together, &[a, b]).is_ok());
    let mut first = String::new();
    assert!(generate_funcs(&mut first, &[a2]).is_ok());
    let mut second = String::new();
    assert!(generate_funcs(&mut second, &[b2]).is_ok());
    assert_eq!(together, format!("{}{}", first, &second[".text\n".len()..]));
}

#[test]
fn program_error_leaves_output_alone() {
    let good = function("ok", 0, 0, vec![]);
    let bad = function("bad", 6, 6, vec![]);
    let c = Compiler { funcs: vec![good, bad] };
    assert!(program_supported(&c));
    let mut out = String::from("keep");
    match generate_program(&mut out, &c) {
        Err(CodegenError::TooManyParams { provided, .. }) => assert_eq!(provided, 6),
        _ => panic!("expected TooManyParams"),
    }
    assert_eq!(out, "keep");
}

#[test]
fn unsupported_inputs_are_detected() {
    assert!(!function_is_supported(0, 1, &[op(Op::Bogus)]));
    assert!(!function_is_supported(0, 1, &[op(Op::AutoAssign { index: 3, arg: Arg::Literal(0) })]));
    // The frame is rounded up to eight bytes, so a second slot exists.
    assert!(function_is_supported(0, 1, &[op(Op::AutoAssign { index: 2, arg: Arg::Literal(0) })]));
    assert!(!function_is_supported(0, 1, &[op(Op::AutoAssign { index: 0, arg: Arg::Literal(0) })]));
    assert!(!function_is_supported(0, 1, &[op(Op::Return { arg: Some(Arg::DataOffset(0)) })]));
    assert!(!function_is_supported(2, 1, &[]));
    assert!(function_is_supported(0, 1, &[op(Op::AutoAssign { index: 1, arg: Arg::Literal(0) })]));
    // Nothing after a call with too many arguments is reached.
    let args: Vec<Arg> = (0..5).map(Arg::Literal).collect();
    assert!(function_is_supported(
        0,
        1,
        &[op(Op::Funcall { result: 9, fun: Arg::Bogus, args }), op(Op::Bogus)]
    ));
    let c = Compiler { funcs: vec![function("f", 0, 0, vec![op(Op::Bogus)])] };
    assert!(!program_supported(&c));
}

#[test]
fn appending_operations_keeps_earlier_text() {
    let short = vec![op(Op::AutoAssign { index: 1, arg: Arg::Literal(1) })];
    let long = vec![
        op(Op::AutoAssign { index: 1, arg: Arg::Literal(1) }),
        op(Op::Negate { result: 1, arg: Arg::AutoVar(1) }),
    ];
    let (r1, out1) = gen_function(0, 1, &short);
    let (r2, out2) = gen_function(0, 1, &long);
    assert!(r1.is_ok() && r2.is_ok());
    let cut = out1.find("f.op_1:\n").unwrap();
    assert_eq!(&out1[..cut], &out2[..cut]);
    assert!(out2[cut..].starts_with("f.op_1:\n    ldr r0, [r7, #4]\n    neg r0, r0\n"));
}
