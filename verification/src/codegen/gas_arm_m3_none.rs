//! GNU assembler output for the ARM Cortex-M3 (Thumb-2, no operating system).
//!
//! Every function gets a frame below the frame pointer `r7`; automatic
//! variable `i` (counted from 1) lives at `r7 + stack_size - 4 * i`.

use vstd::prelude::*;

use crate::ir::{align_bytes, aligned, Arg, AsmStmt, Binop, Compiler, Func, Loc, LocView, Op, OpWithLocation};
use crate::text::{decimal, push_decimal};

verus! {

/// How many arguments and parameters travel in registers (`r0` to `r3`).
pub const REGISTER_COUNT: usize = 4;

// ---------------------------------------------------------------------------
// Frame layout
// ---------------------------------------------------------------------------

/// Automatic variable `idx` has a slot of four bytes in a frame of
/// `stack_size` bytes.
pub open spec fn slot_ok(stack_size: nat, idx: nat) -> bool {
    1 <= idx && 4 * idx <= stack_size
}

/// The offset from the frame pointer of the slot of automatic variable `idx`.
pub open spec fn slot_offset(stack_size: nat, idx: nat) -> nat {
    (stack_size - 4 * idx) as nat
}

/// The frame size of a function with `auto_vars_count` automatic variables:
/// four bytes each, rounded up to a multiple of eight.
pub open spec fn frame_size(auto_vars_count: nat) -> nat {
    aligned(4 * auto_vars_count, 8)
}

// ---------------------------------------------------------------------------
// The text of each construct
// ---------------------------------------------------------------------------

/// The name of argument register `i`.
pub open spec fn reg_name(i: nat) -> Seq<char> {
    if i == 0 {
        "r0"@
    } else if i == 1 {
        "r1"@
    } else if i == 2 {
        "r2"@
    } else {
        "r3"@
    }
}

/// A load or store (`mnemonic` is `"    ldr "` or `"    str "`) between `reg`
/// and the frame slot at `offset`.
pub open spec fn slot_line(mnemonic: Seq<char>, reg: Seq<char>, offset: nat) -> Seq<char> {
    mnemonic + reg + ", [r7, #"@ + decimal(offset) + "]\n"@
}

/// An instruction with a register and an immediate operand.
pub open spec fn imm_line(mnemonic: Seq<char>, reg: Seq<char>, value: nat) -> Seq<char> {
    mnemonic + reg + ", #"@ + decimal(value) + "\n"@
}

/// Takes the address of the external symbol `name` into `reg`.
pub open spec fn adr_line(reg: Seq<char>, name: Seq<char>) -> Seq<char> {
    "    adr "@ + reg + ", ="@ + name + "\n"@
}

/// Replaces `reg` by the word it points to.
pub open spec fn deref_line(reg: Seq<char>) -> Seq<char> {
    "    ldr "@ + reg + ", ["@ + reg + "]\n"@
}

/// Loads the 32-bit constant `value` into `reg`: `mov` for a byte, `movw`
/// for a halfword, else `movw` with the low and `movt` with the high halfword.
pub open spec fn literal_text(reg: Seq<char>, value: nat) -> Seq<char> {
    if value <= 0xff {
        imm_line("    mov "@, reg, value)
    } else if value <= 0xffff {
        imm_line("    movw "@, reg, value)
    } else {
        imm_line("    movw "@, reg, value % 0x10000) + imm_line("    movt "@, reg, value / 0x10000)
    }
}

/// `arg` can be loaded into a register in a frame of `stack_size` bytes.
pub open spec fn arg_ok(arg: Arg, stack_size: nat) -> bool {
    match arg {
        Arg::AutoVar(i) => slot_ok(stack_size, i as nat),
        Arg::Deref(i) => slot_ok(stack_size, i as nat),
        Arg::RefAutoVar(i) => slot_ok(stack_size, i as nat),
        Arg::RefExternal(_) => true,
        Arg::External(_) => true,
        Arg::Literal(_) => true,
        Arg::Bogus => false,
        Arg::DataOffset(_) => false,
    }
}

/// The text that loads `arg` into `reg`.
pub open spec fn load_arg_text(arg: Arg, reg: Seq<char>, stack_size: nat) -> Seq<char> {
    match arg {
        Arg::External(name) => adr_line(reg, name@) + deref_line(reg),
        Arg::Deref(i) => slot_line("    ldr "@, reg, slot_offset(stack_size, i as nat)) + deref_line(
            reg,
        ),
        Arg::RefAutoVar(i) => "    add "@ + reg + ", r7, "@ + decimal(
            slot_offset(stack_size, i as nat),
        ) + "\n"@,
        Arg::RefExternal(name) => adr_line(reg, name@),
        Arg::AutoVar(i) => slot_line("    ldr "@, reg, slot_offset(stack_size, i as nat)),
        Arg::Literal(v) => literal_text(reg, (v % 0x1_0000_0000) as nat),
        _ => Seq::empty(),
    }
}

/// `fun` can be called in a frame of `stack_size` bytes.
pub open spec fn call_ok(fun: Arg, stack_size: nat) -> bool {
    match fun {
        Arg::RefExternal(_) => true,
        Arg::External(_) => true,
        _ => arg_ok(fun, stack_size),
    }
}

/// The text that calls `fun`: directly by name, or through `r4`.
pub open spec fn call_arg_text(fun: Arg, stack_size: nat) -> Seq<char> {
    match fun {
        Arg::RefExternal(name) => "    bl "@ + name@ + "\n"@,
        Arg::External(name) => "    bl "@ + name@ + "\n"@,
        _ => load_arg_text(fun, "r4"@, stack_size) + "    blx r4\n"@,
    }
}

/// The text that frees the frame and returns.
pub open spec fn return_text(stack_size: nat) -> Seq<char> {
    "    add r7, r7, #"@ + decimal(stack_size) + "\n"@ + "    mov sp, r7\n"@ + "    pop {r7, pc}\n"@
}

/// The condition codes that a comparison sets `r0` to one on, and to zero on.
pub open spec fn condition_codes(binop: Binop) -> (Seq<char>, Seq<char>) {
    match binop {
        Binop::Less => ("lt"@, "ge"@),
        Binop::Greater => ("gt"@, "le"@),
        Binop::Equal => ("eq"@, "ne"@),
        Binop::NotEqual => ("ne"@, "eq"@),
        Binop::GreaterEqual => ("ge"@, "lt"@),
        _ => ("le"@, "gt"@),
    }
}

/// The comparison that sets `r0` to one if `cond` holds of `r0` and `r1`,
/// and to zero if `inverse` does.
pub open spec fn compare_text(cond: Seq<char>, inverse: Seq<char>) -> Seq<char> {
    "    cmp r0, r1\n"@ + "    ite "@ + cond + "\n"@ + "    mov"@ + cond + " r0, #1\n"@ + "    mov"@
        + inverse + " r0, #0\n"@
}

/// The text that combines `r0` and `r1` by `binop`.
pub open spec fn binop_text(binop: Binop) -> Seq<char> {
    match binop {
        Binop::BitOr => "    orr r0, r0, r1\n"@,
        Binop::BitAnd => "    and r0, r0, r1\n"@,
        Binop::BitShl => "    lsl r0, r0, r1\n"@,
        Binop::BitShr => "    lsr r0, r0, r1\n"@,
        Binop::Plus => "    add r0, r0, r1\n"@,
        Binop::Minus => "    sub r0, r0, r1\n"@,
        Binop::Mod => "    sdiv r2, r0, r1\n"@ + "    mls r0, r2, r1, r0\n"@,
        Binop::Div => "    sdiv r2, r0, r1\n"@,
        Binop::Mult => "    mul r0, r0, r1\n"@,
        _ => compare_text(condition_codes(binop).0, condition_codes(binop).1),
    }
}

/// The text that loads `args` into `r0`, `r1`, ... in order.
pub open spec fn args_text(args: Seq<Arg>, stack_size: nat) -> Seq<char>
    decreases args.len(),
{
    if args.len() == 0 {
        Seq::empty()
    } else {
        args_text(args.drop_last(), stack_size) + load_arg_text(
            args.last(),
            reg_name((args.len() - 1) as nat),
            stack_size,
        )
    }
}

/// The lines of inline assembly, each indented.
pub open spec fn asm_text(stmts: Seq<AsmStmt>) -> Seq<char>
    decreases stmts.len(),
{
    if stmts.len() == 0 {
        Seq::empty()
    } else {
        asm_text(stmts.drop_last()) + "    "@ + stmts.last().line@ + "\n"@
    }
}

/// The label of local label `label` of function `name`.
pub open spec fn label_name(name: Seq<char>, label: nat) -> Seq<char> {
    name + ".label_"@ + decimal(label)
}

/// A call with more arguments than there are argument registers.
pub open spec fn call_error(op: Op) -> bool {
    match op {
        Op::Funcall { args, .. } => args@.len() > REGISTER_COUNT,
        _ => false,
    }
}

/// `op` can be translated in a frame of `stack_size` bytes: each operand
/// that it reads or writes is there.
pub open spec fn op_ok(op: Op, stack_size: nat) -> bool {
    match op {
        Op::Bogus => false,
        Op::UnaryNot { result, arg } => arg_ok(arg, stack_size) && slot_ok(stack_size, result as nat),
        Op::Negate { result, arg } => arg_ok(arg, stack_size) && slot_ok(stack_size, result as nat),
        Op::Asm { .. } => true,
        Op::Binop { index, lhs, rhs, .. } => arg_ok(lhs, stack_size) && arg_ok(rhs, stack_size)
            && slot_ok(stack_size, index as nat),
        Op::AutoAssign { index, arg } => arg_ok(arg, stack_size) && slot_ok(
            stack_size,
            index as nat,
        ),
        Op::ExternalAssign { arg, .. } => arg_ok(arg, stack_size),
        Op::Store { index, arg } => arg_ok(arg, stack_size) && slot_ok(stack_size, index as nat),
        Op::Funcall { result, fun, args } => args@.len() <= REGISTER_COUNT ==> {
            &&& forall|k: int| 0 <= k < args@.len() ==> arg_ok(#[trigger] args@[k], stack_size)
            &&& call_ok(fun, stack_size)
            &&& slot_ok(stack_size, result as nat)
        },
        Op::Label { .. } => true,
        Op::JmpLabel { .. } => true,
        Op::JmpIfNotLabel { arg, .. } => arg_ok(arg, stack_size),
        Op::Return { arg } => arg matches Some(a) ==> arg_ok(a, stack_size),
    }
}

/// The text of `op` in function `name`. A returned value is loaded into
/// `x0`, a division leaves its quotient in `r2`, and an assignment to an
/// external stores through `r1` as it stands: this is the text the back end
/// emits for them.
pub open spec fn op_text(name: Seq<char>, op: Op, stack_size: nat) -> Seq<char> {
    match op {
        Op::Return { arg } => (match arg {
            Some(a) => load_arg_text(a, "x0"@, stack_size),
            None => Seq::empty(),
        }) + return_text(stack_size),
        Op::Negate { result, arg } => load_arg_text(arg, "r0"@, stack_size) + "    neg r0, r0\n"@
            + slot_line("    str "@, "r0"@, slot_offset(stack_size, result as nat)),
        Op::UnaryNot { result, arg } => load_arg_text(arg, "r0"@, stack_size)
            + "    clz r0, r0\n"@ + "    lsr r0, r0, #5\n"@ + slot_line(
            "    str "@,
            "r0"@,
            slot_offset(stack_size, result as nat),
        ),
        Op::Binop { binop, index, lhs, rhs } => load_arg_text(lhs, "r0"@, stack_size)
            + load_arg_text(rhs, "r1"@, stack_size) + binop_text(binop) + slot_line(
            "    str "@,
            "r0"@,
            slot_offset(stack_size, index as nat),
        ),
        Op::ExternalAssign { arg, .. } => load_arg_text(arg, "r0"@, stack_size)
            + "    str r0, [r1]\n"@,
        Op::AutoAssign { index, arg } => load_arg_text(arg, "r0"@, stack_size) + slot_line(
            "    str "@,
            "r0"@,
            slot_offset(stack_size, index as nat),
        ),
        Op::Store { index, arg } => slot_line(
            "    ldr "@,
            "r0"@,
            slot_offset(stack_size, index as nat),
        ) + load_arg_text(arg, "r1"@, stack_size) + "    str r1, [r0]\n"@,
        Op::Funcall { result, fun, args } => args_text(args@, stack_size) + call_arg_text(
            fun,
            stack_size,
        ) + slot_line("    str "@, "r0"@, slot_offset(stack_size, result as nat)),
        Op::Asm { stmts } => asm_text(stmts@),
        Op::Label { label } => label_name(name, label as nat) + ":\n"@,
        Op::JmpLabel { label } => "    b "@ + label_name(name, label as nat) + "\n"@,
        Op::JmpIfNotLabel { label, arg } => load_arg_text(arg, "r0"@, stack_size)
            + "    cmp r0, 0\n"@ + "    beq "@ + label_name(name, label as nat) + "\n"@,
        Op::Bogus => Seq::empty(),
    }
}

/// The label that marks operation `i` of function `name`.
pub open spec fn op_label(name: Seq<char>, i: nat) -> Seq<char> {
    name + ".op_"@ + decimal(i) + ":\n"@
}

/// The text of `ops`, each under its label.
pub open spec fn body_text(name: Seq<char>, ops: Seq<OpWithLocation>, stack_size: nat) -> Seq<
    char,
>
    decreases ops.len(),
{
    if ops.len() == 0 {
        Seq::empty()
    } else {
        body_text(name, ops.drop_last(), stack_size) + op_label(name, (ops.len() - 1) as nat)
            + op_text(name, ops.last().opcode, stack_size)
    }
}

/// The text that stores the first `n` parameters from their registers to
/// their slots.
pub open spec fn params_text(n: nat, stack_size: nat) -> Seq<char>
    decreases n,
{
    if n == 0 {
        Seq::empty()
    } else {
        params_text((n - 1) as nat, stack_size) + slot_line(
            "    str "@,
            reg_name((n - 1) as nat),
            slot_offset(stack_size, n),
        )
    }
}

/// The symbol directives, the label and the frame setup of function `name`.
pub open spec fn prologue_text(name: Seq<char>, stack_size: nat) -> Seq<char> {
    ".global "@ + name + "\n"@ + ".type "@ + name + ", %function\n"@ + ".thumb_func\n"@ + name
        + ":\n"@ + "    push {r7, lr}\n"@ + "    sub sp, sp, #"@ + decimal(stack_size) + "\n"@
        + "    mov r7, sp\n"@
}

/// The label after the last operation, the return, and the size directive.
pub open spec fn epilogue_text(name: Seq<char>, ops_count: nat, stack_size: nat) -> Seq<char> {
    op_label(name, ops_count) + return_text(stack_size) + "    .size "@ + name + ", .-"@ + name
        + "\n"@
}

/// The text of a whole function.
pub open spec fn function_text(
    name: Seq<char>,
    params_count: nat,
    auto_vars_count: nat,
    body: Seq<OpWithLocation>,
) -> Seq<char> {
    let stack_size = frame_size(auto_vars_count);
    prologue_text(name, stack_size) + params_text(params_count, stack_size) + body_text(
        name,
        body,
        stack_size,
    ) + epilogue_text(name, body.len(), stack_size)
}

// ---------------------------------------------------------------------------
// Errors: features that this back end does not have
// ---------------------------------------------------------------------------

/// A construct that this back end cannot translate.
pub enum CodegenError {
    /// A function with more parameters than there are argument registers.
    TooManyParams { loc: Loc, supported: usize, provided: usize },
    /// A call with more arguments than there are argument registers.
    TooManyCallArgs { loc: Loc, supported: usize, provided: usize },
}

/// The mathematical value of a [`CodegenError`].
pub enum CodegenErrorView {
    TooManyParams { loc: LocView, supported: nat, provided: nat },
    TooManyCallArgs { loc: LocView, supported: nat, provided: nat },
}

impl View for CodegenError {
    type V = CodegenErrorView;

    open spec fn view(&self) -> CodegenErrorView {
        match self {
            CodegenError::TooManyParams { loc, supported, provided } => {
                CodegenErrorView::TooManyParams {
                    loc: loc@,
                    supported: *supported as nat,
                    provided: *provided as nat,
                }
            },
            CodegenError::TooManyCallArgs { loc, supported, provided } => {
                CodegenErrorView::TooManyCallArgs {
                    loc: loc@,
                    supported: *supported as nat,
                    provided: *provided as nat,
                }
            },
        }
    }
}

/// The first call in `ops` with too many arguments, if any.
pub open spec fn body_error(ops: Seq<OpWithLocation>) -> Option<CodegenErrorView>
    decreases ops.len(),
{
    if ops.len() == 0 {
        None
    } else if call_error(ops[0].opcode) {
        Some(
            CodegenErrorView::TooManyCallArgs {
                loc: ops[0].loc@,
                supported: REGISTER_COUNT as nat,
                provided: match ops[0].opcode {
                    Op::Funcall { args, .. } => args@.len(),
                    _ => 0,
                },
            },
        )
    } else {
        body_error(ops.drop_first())
    }
}

/// What stops a function from being translated, if anything: too many
/// parameters, else the first call with too many arguments.
pub open spec fn function_error(name_loc: LocView, params_count: nat, body: Seq<OpWithLocation>) -> Option<
    CodegenErrorView,
> {
    if params_count > REGISTER_COUNT {
        Some(
            CodegenErrorView::TooManyParams {
                loc: name_loc,
                supported: REGISTER_COUNT as nat,
                provided: params_count,
            },
        )
    } else {
        body_error(body)
    }
}

/// No call among the first `i` operations has too many arguments.
pub open spec fn calls_ok_before(body: Seq<OpWithLocation>, i: int) -> bool {
    forall|j: int| 0 <= j < i ==> !call_error(#[trigger] body[j].opcode)
}

/// The inputs on which translating a function is defined: at least as many
/// automatic variables as parameters, a frame whose size fits a machine
/// word, and each operation that is reached (all those before the first
/// call with too many arguments, and that call itself) reads and writes only
/// what is there.
pub open spec fn function_supported(
    params_count: nat,
    auto_vars_count: nat,
    body: Seq<OpWithLocation>,
) -> bool {
    &&& params_count <= auto_vars_count
    &&& 4 * auto_vars_count <= usize::MAX
    &&& (4 * auto_vars_count) % 8 == 0 || 4 * auto_vars_count + 8 <= usize::MAX
    &&& params_count <= REGISTER_COUNT ==> forall|i: int|
        0 <= i < body.len() && calls_ok_before(body, i) ==> op_ok(
            #[trigger] body[i].opcode,
            frame_size(auto_vars_count),
        )
}

// ---------------------------------------------------------------------------
// Emitters
// ---------------------------------------------------------------------------

/// The offset from the frame pointer of the slot of automatic variable `idx`
/// (counted from 1) in a frame of `stack_size` bytes.
pub fn stk_off(stack_size: usize, idx: usize) -> (r: usize)
    requires
        slot_ok(stack_size as nat, idx as nat),
    ensures
        r == slot_offset(stack_size as nat, idx as nat),
        r + 4 * idx == stack_size,
{
    stack_size - idx * 4
}

/// The name of argument register `i`.
fn register(i: usize) -> (r: &'static str)
    requires
        i < REGISTER_COUNT,
    ensures
        r@ == reg_name(i as nat),
{
    if i == 0 {
        "r0"
    } else if i == 1 {
        "r1"
    } else if i == 2 {
        "r2"
    } else {
        "r3"
    }
}

/// Appends a load or store between `reg` and the frame slot at `offset`.
fn emit_slot_line(output: &mut String, mnemonic: &str, reg: &str, offset: usize)
    ensures
        final(output)@ == old(output)@ + slot_line(mnemonic@, reg@, offset as nat),
{
    output.append(mnemonic);
    output.append(reg);
    output.append(", [r7, #");
    push_decimal(output, offset as u64);
    output.append("]\n");
    assert(output@ =~= old(output)@ + slot_line(mnemonic@, reg@, offset as nat));
}

/// Appends an instruction with a register and an immediate operand.
fn emit_imm_line(output: &mut String, mnemonic: &str, reg: &str, value: u32)
    ensures
        final(output)@ == old(output)@ + imm_line(mnemonic@, reg@, value as nat),
{
    output.append(mnemonic);
    output.append(reg);
    output.append(", #");
    push_decimal(output, value as u64);
    output.append("\n");
    assert(output@ =~= old(output)@ + imm_line(mnemonic@, reg@, value as nat));
}

/// Appends the address load of the external symbol `name` into `reg`.
fn emit_adr_line(output: &mut String, reg: &str, name: &str)
    ensures
        final(output)@ == old(output)@ + adr_line(reg@, name@),
{
    output.append("    adr ");
    output.append(reg);
    output.append(", =");
    output.append(name);
    output.append("\n");
    assert(output@ =~= old(output)@ + adr_line(reg@, name@));
}

/// Appends the load of the word that `reg` points to.
fn emit_deref_line(output: &mut String, reg: &str)
    ensures
        final(output)@ == old(output)@ + deref_line(reg@),
{
    output.append("    ldr ");
    output.append(reg);
    output.append(", [");
    output.append(reg);
    output.append("]\n");
    assert(output@ =~= old(output)@ + deref_line(reg@));
}

/// Appends the load of the 32-bit truncation of `value` into `reg`.
fn emit_literal(output: &mut String, reg: &str, value: u64)
    ensures
        final(output)@ == old(output)@ + literal_text(reg@, (value % 0x1_0000_0000) as nat),
{
    assert(value & 0xffff_ffff == value % 0x1_0000_0000) by (bit_vector);
    assert(value & 0xffff_ffff <= 0xffff_ffff) by (bit_vector);
    let value: u32 = (value & 0xffff_ffff) as u32;
    if value <= 0xff {
        emit_imm_line(output, "    mov ", reg, value);
    } else if value <= 0xffff {
        emit_imm_line(output, "    movw ", reg, value);
    } else {
        assert(value & 0xffff == value % 0x10000) by (bit_vector);
        assert(value >> 16 == value / 0x10000) by (bit_vector);
        emit_imm_line(output, "    movw ", reg, value & 0xFFFF);
        emit_imm_line(output, "    movt ", reg, value >> 16);
        assert(output@ =~= old(output)@ + literal_text(reg@, value as nat));
    }
}

/// Appends the text that frees the frame of `stack_size` bytes and returns.
pub fn return_func(stack_size: usize, output: &mut String)
    ensures
        final(output)@ == old(output)@ + return_text(stack_size as nat),
{
    output.append("    add r7, r7, #");
    push_decimal(output, stack_size as u64);
    output.append("\n");
    output.append("    mov sp, r7\n");
    output.append("    pop {r7, pc}\n");
    assert(output@ =~= old(output)@ + return_text(stack_size as nat));
}

/// Appends the text that loads `arg` into `reg` in a frame of `stack_size` bytes.
pub fn load_arg_to_reg(arg: &Arg, reg: &str, output: &mut String, _loc: &Loc, stack_size: usize)
    requires
        arg_ok(*arg, stack_size as nat),
    ensures
        final(output)@ == old(output)@ + load_arg_text(*arg, reg@, stack_size as nat),
{
    match arg {
        Arg::External(name) => {
            emit_adr_line(output, reg, name.as_str());
            emit_deref_line(output, reg);
        },
        Arg::Deref(index) => {
            let offset = stk_off(stack_size, *index);
            emit_slot_line(output, "    ldr ", reg, offset);
            emit_deref_line(output, reg);
        },
        Arg::RefAutoVar(index) => {
            let offset = stk_off(stack_size, *index);
            output.append("    add ");
            output.append(reg);
            output.append(", r7, ");
            push_decimal(output, offset as u64);
            output.append("\n");
        },
        Arg::RefExternal(name) => {
            emit_adr_line(output, reg, name.as_str());
        },
        Arg::AutoVar(index) => {
            let offset = stk_off(stack_size, *index);
            emit_slot_line(output, "    ldr ", reg, offset);
        },
        Arg::Literal(value) => {
            emit_literal(output, reg, *value);
        },
        Arg::Bogus => {},
        Arg::DataOffset(_) => {},
    }
    assert(output@ =~= old(output)@ + load_arg_text(*arg, reg@, stack_size as nat));
}

/// Appends the text that calls `arg`: by name for an external symbol, else
/// through `r4`.
pub fn call_arg(arg: &Arg, loc: &Loc, stack_size: usize, output: &mut String)
    requires
        call_ok(*arg, stack_size as nat),
    ensures
        final(output)@ == old(output)@ + call_arg_text(*arg, stack_size as nat),
{
    match arg {
        Arg::RefExternal(name) => {
            output.append("    bl ");
            output.append(name.as_str());
            output.append("\n");
        },
        Arg::External(name) => {
            output.append("    bl ");
            output.append(name.as_str());
            output.append("\n");
        },
        _ => {
            load_arg_to_reg(arg, "r4", output, loc, stack_size);
            output.append("    blx r4\n");
        },
    }
    assert(output@ =~= old(output)@ + call_arg_text(*arg, stack_size as nat));
}

/// The condition codes of a comparison: the one it sets `r0` to one on,
/// and the one it sets `r0` to zero on.
fn comparison_codes(binop: &Binop) -> (r: (&'static str, &'static str))
    ensures
        r.0@ == condition_codes(*binop).0,
        r.1@ == condition_codes(*binop).1,
{
    match binop {
        Binop::Less => ("lt", "ge"),
        Binop::Greater => ("gt", "le"),
        Binop::Equal => ("eq", "ne"),
        Binop::NotEqual => ("ne", "eq"),
        Binop::GreaterEqual => ("ge", "lt"),
        _ => ("le", "gt"),
    }
}

/// Appends the text that combines `r0` and `r1` by `binop`.
fn emit_binop(binop: &Binop, output: &mut String)
    ensures
        final(output)@ == old(output)@ + binop_text(*binop),
{
    match binop {
        Binop::BitOr => output.append("    orr r0, r0, r1\n"),
        Binop::BitAnd => output.append("    and r0, r0, r1\n"),
        Binop::BitShl => output.append("    lsl r0, r0, r1\n"),
        Binop::BitShr => output.append("    lsr r0, r0, r1\n"),
        Binop::Plus => output.append("    add r0, r0, r1\n"),
        Binop::Minus => output.append("    sub r0, r0, r1\n"),
        Binop::Mod => {
            output.append("    sdiv r2, r0, r1\n");
            output.append("    mls r0, r2, r1, r0\n");
        },
        Binop::Div => output.append("    sdiv r2, r0, r1\n"),
        Binop::Mult => output.append("    mul r0, r0, r1\n"),
        _ => {
            let (cond, inverse) = comparison_codes(binop);
            output.append("    cmp r0, r1\n");
            output.append("    ite ");
            output.append(cond);
            output.append("\n");
            output.append("    mov");
            output.append(cond);
            output.append(" r0, #1\n");
            output.append("    mov");
            output.append(inverse);
            output.append(" r0, #0\n");
        },
    }
    assert(output@ =~= old(output)@ + binop_text(*binop));
}

/// Appends the label of local label `label` of function `name`.
fn emit_label_name(output: &mut String, name: &str, label: usize)
    ensures
        final(output)@ == old(output)@ + label_name(name@, label as nat),
{
    output.append(name);
    output.append(".label_");
    push_decimal(output, label as u64);
    assert(output@ =~= old(output)@ + label_name(name@, label as nat));
}

/// Appends the text that loads `args` into the argument registers.
fn emit_call_args(args: &Vec<Arg>, loc: &Loc, stack_size: usize, output: &mut String)
    requires
        args@.len() <= REGISTER_COUNT,
        forall|k: int| 0 <= k < args@.len() ==> arg_ok(#[trigger] args@[k], stack_size as nat),
    ensures
        final(output)@ == old(output)@ + args_text(args@, stack_size as nat),
{
    let mut i: usize = 0;
    while i < args.len()
        invariant
            i <= args@.len() <= REGISTER_COUNT,
            forall|k: int| 0 <= k < args@.len() ==> arg_ok(#[trigger] args@[k], stack_size as nat),
            output@ == old(output)@ + args_text(args@.take(i as int), stack_size as nat),
        decreases args@.len() - i,
    {
        let reg = register(i);
        load_arg_to_reg(&args[i], reg, output, loc, stack_size);
        assert(args@.take(i + 1).drop_last() =~= args@.take(i as int));
        i = i + 1;
        assert(output@ =~= old(output)@ + args_text(args@.take(i as int), stack_size as nat));
    }
    assert(args@.take(i as int) =~= args@);
}

/// Appends the lines of inline assembly, each indented.
fn emit_asm(stmts: &Vec<AsmStmt>, output: &mut String)
    ensures
        final(output)@ == old(output)@ + asm_text(stmts@),
{
    let mut i: usize = 0;
    while i < stmts.len()
        invariant
            i <= stmts@.len(),
            output@ == old(output)@ + asm_text(stmts@.take(i as int)),
        decreases stmts@.len() - i,
    {
        output.append("    ");
        output.append(stmts[i].line.as_str());
        output.append("\n");
        assert(stmts@.take(i + 1).drop_last() =~= stmts@.take(i as int));
        i = i + 1;
        assert(output@ =~= old(output)@ + asm_text(stmts@.take(i as int)));
    }
    assert(stmts@.take(i as int) =~= stmts@);
}

/// Appends the text of `op` of function `name`.
fn emit_op(name: &str, op: &OpWithLocation, stack_size: usize, output: &mut String)
    requires
        op_ok(op.opcode, stack_size as nat),
        !call_error(op.opcode),
    ensures
        final(output)@ == old(output)@ + op_text(name@, op.opcode, stack_size as nat),
{
    let loc = &op.loc;
    match &op.opcode {
        Op::Return { arg } => {
            if let Some(arg) = arg {
                load_arg_to_reg(arg, "x0", output, loc, stack_size);
            }
            return_func(stack_size, output);
        },
        Op::Negate { result, arg } => {
            load_arg_to_reg(arg, "r0", output, loc, stack_size);
            output.append("    neg r0, r0\n");
            let offset = stk_off(stack_size, *result);
            emit_slot_line(output, "    str ", "r0", offset);
        },
        Op::UnaryNot { result, arg } => {
            load_arg_to_reg(arg, "r0", output, loc, stack_size);
            output.append("    clz r0, r0\n");
            output.append("    lsr r0, r0, #5\n");
            let offset = stk_off(stack_size, *result);
            emit_slot_line(output, "    str ", "r0", offset);
        },
        Op::Binop { binop, index, lhs, rhs } => {
            load_arg_to_reg(lhs, "r0", output, loc, stack_size);
            load_arg_to_reg(rhs, "r1", output, loc, stack_size);
            emit_binop(binop, output);
            let offset = stk_off(stack_size, *index);
            emit_slot_line(output, "    str ", "r0", offset);
        },
        Op::ExternalAssign { name: _, arg } => {
            load_arg_to_reg(arg, "r0", output, loc, stack_size);
            output.append("    str r0, [r1]\n");
        },
        Op::AutoAssign { index, arg } => {
            load_arg_to_reg(arg, "r0", output, loc, stack_size);
            let offset = stk_off(stack_size, *index);
            emit_slot_line(output, "    str ", "r0", offset);
        },
        Op::Store { index, arg } => {
            let offset = stk_off(stack_size, *index);
            emit_slot_line(output, "    ldr ", "r0", offset);
            load_arg_to_reg(arg, "r1", output, loc, stack_size);
            output.append("    str r1, [r0]\n");
        },
        Op::Funcall { result, fun, args } => {
            emit_call_args(args, loc, stack_size, output);
            call_arg(fun, loc, stack_size, output);
            let offset = stk_off(stack_size, *result);
            emit_slot_line(output, "    str ", "r0", offset);
        },
        Op::Asm { stmts } => {
            emit_asm(stmts, output);
        },
        Op::Label { label } => {
            emit_label_name(output, name, *label);
            output.append(":\n");
        },
        Op::JmpLabel { label } => {
            output.append("    b ");
            emit_label_name(output, name, *label);
            output.append("\n");
        },
        Op::JmpIfNotLabel { label, arg } => {
            load_arg_to_reg(arg, "r0", output, loc, stack_size);
            output.append("    cmp r0, 0\n");
            output.append("    beq ");
            emit_label_name(output, name, *label);
            output.append("\n");
        },
        Op::Bogus => {},
    }
    assert(output@ =~= old(output)@ + op_text(name@, op.opcode, stack_size as nat));
}

/// The first call in `body` with too many arguments, if any.
fn find_body_error(body: &[OpWithLocation]) -> (r: Option<CodegenError>)
    ensures
        r is None <==> body_error(body@) is None,
        r matches Some(e) ==> body_error(body@) == Some(e@),
        r is None ==> forall|j: int| 0 <= j < body@.len() ==> !call_error(#[trigger] body@[j].opcode),
{
    let mut i: usize = 0;
    assert(body@.skip(0) =~= body@);
    while i < body.len()
        invariant
            i <= body@.len(),
            forall|j: int| 0 <= j < i ==> !call_error(#[trigger] body@[j].opcode),
            body_error(body@) == body_error(body@.skip(i as int)),
        decreases body@.len() - i,
    {
        assert(body@.skip(i as int)[0] == body@[i as int]);
        if let Op::Funcall { args, .. } = &body[i].opcode {
            if args.len() > REGISTER_COUNT {
                return Some(
                    CodegenError::TooManyCallArgs {
                        loc: body[i].loc.duplicate(),
                        supported: REGISTER_COUNT,
                        provided: args.len(),
                    },
                );
            }
        }
        assert(body@.skip(i as int).drop_first() =~= body@.skip(i + 1));
        i = i + 1;
    }
    assert(body@.skip(i as int) =~= Seq::<OpWithLocation>::empty());
    None
}

/// Appends the label that marks operation `i` of function `name`.
fn emit_op_label(output: &mut String, name: &str, i: usize)
    ensures
        final(output)@ == old(output)@ + op_label(name@, i as nat),
{
    output.append(name);
    output.append(".op_");
    push_decimal(output, i as u64);
    output.append(":\n");
    assert(output@ =~= old(output)@ + op_label(name@, i as nat));
}

/// Appends the symbol directives, the label and the frame setup of function `name`.
fn emit_prologue(name: &str, stack_size: usize, output: &mut String)
    ensures
        final(output)@ == old(output)@ + prologue_text(name@, stack_size as nat),
{
    output.append(".global ");
    output.append(name);
    output.append("\n");
    output.append(".type ");
    output.append(name);
    output.append(", %function\n");
    output.append(".thumb_func\n");
    output.append(name);
    output.append(":\n");
    output.append("    push {r7, lr}\n");
    output.append("    sub sp, sp, #");
    push_decimal(output, stack_size as u64);
    output.append("\n");
    output.append("    mov r7, sp\n");
    assert(output@ =~= old(output)@ + prologue_text(name@, stack_size as nat));
}

/// Appends the stores of the first `params_count` parameters from their
/// registers to their slots.
fn emit_params(params_count: usize, stack_size: usize, output: &mut String)
    requires
        params_count <= REGISTER_COUNT,
        4 * params_count <= stack_size,
    ensures
        final(output)@ == old(output)@ + params_text(params_count as nat, stack_size as nat),
{
    let mut i: usize = 0;
    while i < params_count
        invariant
            i <= params_count <= REGISTER_COUNT,
            4 * params_count <= stack_size,
            output@ == old(output)@ + params_text(i as nat, stack_size as nat),
        decreases params_count - i,
    {
        let reg = register(i);
        let offset = stk_off(stack_size, i + 1);
        emit_slot_line(output, "    str ", reg, offset);
        i = i + 1;
        assert(output@ =~= old(output)@ + params_text(i as nat, stack_size as nat));
    }
}

/// Appends the text of `body`, each operation under its label.
fn emit_body(name: &str, body: &[OpWithLocation], stack_size: usize, output: &mut String)
    requires
        forall|j: int| 0 <= j < body@.len() ==> !call_error(#[trigger] body@[j].opcode),
        forall|j: int|
            0 <= j < body@.len() && calls_ok_before(body@, j) ==> op_ok(
                #[trigger] body@[j].opcode,
                stack_size as nat,
            ),
    ensures
        final(output)@ == old(output)@ + body_text(name@, body@, stack_size as nat),
{
    let mut i: usize = 0;
    while i < body.len()
        invariant
            i <= body@.len(),
            forall|j: int| 0 <= j < body@.len() ==> !call_error(#[trigger] body@[j].opcode),
            forall|j: int|
                0 <= j < body@.len() && calls_ok_before(body@, j) ==> op_ok(
                    #[trigger] body@[j].opcode,
                    stack_size as nat,
                ),
            output@ == old(output)@ + body_text(name@, body@.take(i as int), stack_size as nat),
        decreases body@.len() - i,
    {
        assert(calls_ok_before(body@, i as int));
        emit_op_label(output, name, i);
        emit_op(name, &body[i], stack_size, output);
        assert(body@.take(i + 1).drop_last() =~= body@.take(i as int));
        i = i + 1;
        assert(output@ =~= old(output)@ + body_text(
            name@,
            body@.take(i as int),
            stack_size as nat,
        ));
    }
    assert(body@.take(i as int) =~= body@);
}

/// Appends the label after the last operation, the return and the size directive.
fn emit_epilogue(name: &str, ops_count: usize, stack_size: usize, output: &mut String)
    ensures
        final(output)@ == old(output)@ + epilogue_text(name@, ops_count as nat, stack_size as nat),
{
    emit_op_label(output, name, ops_count);
    return_func(stack_size, output);
    output.append("    .size ");
    output.append(name);
    output.append(", .-");
    output.append(name);
    output.append("\n");
    assert(output@ =~= old(output)@ + epilogue_text(name@, ops_count as nat, stack_size as nat));
}

/// What stops a function from being translated, if anything.
fn find_function_error(name_loc: &Loc, params_count: usize, body: &[OpWithLocation]) -> (r: Option<
    CodegenError,
>)
    ensures
        r is None <==> function_error(name_loc@, params_count as nat, body@) is None,
        r matches Some(e) ==> function_error(name_loc@, params_count as nat, body@) == Some(e@),
        r is None ==> forall|j: int| 0 <= j < body@.len() ==> !call_error(#[trigger] body@[j].opcode),
{
    if params_count > REGISTER_COUNT {
        Some(
            CodegenError::TooManyParams {
                loc: name_loc.duplicate(),
                supported: REGISTER_COUNT,
                provided: params_count,
            },
        )
    } else {
        find_body_error(body)
    }
}

/// Appends the text of function `name`, with `params_count` parameters,
/// `auto_vars_count` automatic variables (the parameters among them) and
/// the operations `body`. Where the function has a parameter or a call
/// has an argument more than there are argument registers, nothing is
/// appended and the first such construct is the error.
pub fn generate_function(
    name: &str,
    name_loc: &Loc,
    params_count: usize,
    auto_vars_count: usize,
    body: &[OpWithLocation],
    output: &mut String,
) -> (r: Result<(), CodegenError>)
    requires
        function_supported(params_count as nat, auto_vars_count as nat, body@),
    ensures
        match function_error(name_loc@, params_count as nat, body@) {
            Some(e) => r matches Err(err) && err@ == e && final(output)@ == old(output)@,
            None => r is Ok && final(output)@ == old(output)@ + function_text(
                name@,
                params_count as nat,
                auto_vars_count as nat,
                body@,
            ),
        },
{
    let stack_size = align_bytes(auto_vars_count * 4, 8);
    assert(stack_size == frame_size(auto_vars_count as nat));
    if let Some(e) = find_function_error(name_loc, params_count, body) {
        return Err(e);
    }
    emit_prologue(name, stack_size, output);
    emit_params(params_count, stack_size, output);
    emit_body(name, body, stack_size, output);
    emit_epilogue(name, body.len(), stack_size, output);
    assert(output@ =~= old(output)@ + function_text(
        name@,
        params_count as nat,
        auto_vars_count as nat,
        body@,
    ));
    Ok(())
}

// ---------------------------------------------------------------------------
// Whole translation units
// ---------------------------------------------------------------------------

/// What stops `f` from being translated, if anything.
pub open spec fn func_error(f: Func) -> Option<CodegenErrorView> {
    function_error(f.name_loc@, f.params_count as nat, f.body@)
}

/// The inputs on which translating `f` is defined.
#[verifier::opaque]
pub open spec fn func_supported(f: Func) -> bool {
    function_supported(f.params_count as nat, f.auto_vars_count as nat, f.body@)
}

/// The text of `f`.
#[verifier::opaque]
pub open spec fn func_text(f: Func) -> Seq<char> {
    function_text(f.name@, f.params_count as nat, f.auto_vars_count as nat, f.body@)
}

/// The error of the first function in `funcs` that cannot be translated, if any.
pub open spec fn funcs_error(funcs: Seq<Func>) -> Option<CodegenErrorView>
    decreases funcs.len(),
{
    if funcs.len() == 0 {
        None
    } else if func_error(funcs[0]) is Some {
        func_error(funcs[0])
    } else {
        funcs_error(funcs.drop_first())
    }
}

/// The texts of `funcs`, one after the other.
pub open spec fn funcs_text(funcs: Seq<Func>) -> Seq<char>
    decreases funcs.len(),
{
    if funcs.len() == 0 {
        Seq::empty()
    } else {
        funcs_text(funcs.drop_last()) + func_text(funcs.last())
    }
}

/// Each function that is reached (all those up to the first that cannot be
/// translated) is one on which translation is defined.
pub open spec fn funcs_supported(funcs: Seq<Func>) -> bool {
    forall|k: int|
        0 <= k < funcs.len() && (forall|j: int| 0 <= j < k ==> func_error(#[trigger] funcs[j]) is None)
            ==> func_supported(#[trigger] funcs[k])
}

/// The directives that open a translation unit.
pub open spec fn preamble_text() -> Seq<char> {
    ".syntax unified\n"@ + ".cpu cortex-m3\n"@ + ".fpu softvfp\n"@ + ".thumb\n\n"@
}

/// The text section with the texts of `funcs`.
pub open spec fn text_section(funcs: Seq<Func>) -> Seq<char> {
    ".text\n"@ + funcs_text(funcs)
}

/// The first function in `funcs` that cannot be translated, if any.
fn find_funcs_error(funcs: &[Func]) -> (r: Option<CodegenError>)
    ensures
        r is None <==> funcs_error(funcs@) is None,
        r matches Some(e) ==> funcs_error(funcs@) == Some(e@),
        r is None ==> forall|j: int| 0 <= j < funcs@.len() ==> func_error(#[trigger] funcs@[j]) is None,
{
    let mut i: usize = 0;
    assert(funcs@.skip(0) =~= funcs@);
    while i < funcs.len()
        invariant
            i <= funcs@.len(),
            forall|j: int| 0 <= j < i ==> func_error(#[trigger] funcs@[j]) is None,
            funcs_error(funcs@) == funcs_error(funcs@.skip(i as int)),
        decreases funcs@.len() - i,
    {
        assert(funcs@.skip(i as int)[0] == funcs@[i as int]);
        let f = &funcs[i];
        let e = find_function_error(&f.name_loc, f.params_count, f.body.as_slice());
        if e.is_some() {
            return e;
        }
        assert(funcs@.skip(i as int).drop_first() =~= funcs@.skip(i + 1));
        i = i + 1;
    }
    assert(funcs@.skip(i as int) =~= Seq::<Func>::empty());
    None
}

/// Appends the text section with all functions of `funcs`. Where one of
/// them cannot be translated, nothing is appended and the error of the
/// first such function is returned.
pub fn generate_funcs(output: &mut String, funcs: &[Func]) -> (r: Result<(), CodegenError>)
    requires
        funcs_supported(funcs@),
    ensures
        match funcs_error(funcs@) {
            Some(e) => r matches Err(err) && err@ == e && final(output)@ == old(output)@,
            None => r is Ok && final(output)@ == old(output)@ + text_section(funcs@),
        },
{
    if let Some(e) = find_funcs_error(funcs) {
        return Err(e);
    }
    output.append(".text\n");
    let ghost start = output@;
    let mut i: usize = 0;
    while i < funcs.len()
        invariant
            i <= funcs@.len(),
            funcs_supported(funcs@),
            forall|j: int| 0 <= j < funcs@.len() ==> func_error(#[trigger] funcs@[j]) is None,
            output@ == start + funcs_text(funcs@.take(i as int)),
        decreases funcs@.len() - i,
    {
        let f = &funcs[i];
        assert(func_error(funcs@[i as int]) is None);
        assert(function_supported(
            f.params_count as nat,
            f.auto_vars_count as nat,
            f.body@,
        )) by {
            reveal(func_supported);
        }
        let _ = generate_function(
            f.name.as_str(),
            &f.name_loc,
            f.params_count,
            f.auto_vars_count,
            f.body.as_slice(),
            output,
        );
        assert(funcs@.take(i + 1).drop_last() =~= funcs@.take(i as int));
        assert(func_text(funcs@[i as int]) == function_text(
            f.name@,
            f.params_count as nat,
            f.auto_vars_count as nat,
            f.body@,
        )) by {
            reveal(func_text);
        }
        i = i + 1;
        assert(output@ =~= start + funcs_text(funcs@.take(i as int)));
    }
    assert(funcs@.take(i as int) =~= funcs@);
    assert(output@ =~= old(output)@ + text_section(funcs@));
    Ok(())
}

/// Appends the whole assembly file of the translation unit `c`: the
/// directives that select Thumb-2 code for the Cortex-M3, then the text
/// section. Where a function cannot be translated, nothing is appended and
/// the error of the first such function is returned.
pub fn generate_program(output: &mut String, c: &Compiler) -> (r: Result<(), CodegenError>)
    requires
        funcs_supported(c.funcs@),
    ensures
        match funcs_error(c.funcs@) {
            Some(e) => r matches Err(err) && err@ == e && final(output)@ == old(output)@,
            None => r is Ok && final(output)@ == old(output)@ + preamble_text() + text_section(
                c.funcs@,
            ),
        },
{
    if let Some(e) = find_funcs_error(c.funcs.as_slice()) {
        return Err(e);
    }
    output.append(".syntax unified\n");
    output.append(".cpu cortex-m3\n");
    output.append(".fpu softvfp\n");
    output.append(".thumb\n\n");
    let ghost after_preamble = output@;
    assert(after_preamble =~= old(output)@ + preamble_text());
    let r = generate_funcs(output, c.funcs.as_slice());
    assert(output@ =~= old(output)@ + preamble_text() + text_section(c.funcs@));
    r
}

// ---------------------------------------------------------------------------
// Deciding the domain of translation
// ---------------------------------------------------------------------------

/// Whether automatic variable `idx` has a slot in a frame of `stack_size` bytes.
fn slot_is_ok(stack_size: usize, idx: usize) -> (r: bool)
    ensures
        r == slot_ok(stack_size as nat, idx as nat),
{
    idx >= 1 && idx <= stack_size / 4
}

/// Whether `arg` can be loaded in a frame of `stack_size` bytes.
fn arg_is_ok(arg: &Arg, stack_size: usize) -> (r: bool)
    ensures
        r == arg_ok(*arg, stack_size as nat),
{
    match arg {
        Arg::AutoVar(i) => slot_is_ok(stack_size, *i),
        Arg::Deref(i) => slot_is_ok(stack_size, *i),
        Arg::RefAutoVar(i) => slot_is_ok(stack_size, *i),
        Arg::RefExternal(_) => true,
        Arg::External(_) => true,
        Arg::Literal(_) => true,
        Arg::Bogus => false,
        Arg::DataOffset(_) => false,
    }
}

/// Whether `fun` can be called in a frame of `stack_size` bytes.
fn call_is_ok(fun: &Arg, stack_size: usize) -> (r: bool)
    ensures
        r == call_ok(*fun, stack_size as nat),
{
    match fun {
        Arg::RefExternal(_) => true,
        Arg::External(_) => true,
        _ => arg_is_ok(fun, stack_size),
    }
}

/// Whether `op` is a call with more arguments than there are argument registers.
fn is_call_error(op: &Op) -> (r: bool)
    ensures
        r == call_error(*op),
{
    match op {
        Op::Funcall { args, .. } => args.len() > REGISTER_COUNT,
        _ => false,
    }
}

/// Whether `op` can be translated in a frame of `stack_size` bytes.
#[verifier::loop_isolation(false)]
fn op_is_ok(op: &Op, stack_size: usize) -> (r: bool)
    ensures
        r == op_ok(*op, stack_size as nat),
{
    match op {
        Op::Bogus => false,
        Op::UnaryNot { result, arg } => arg_is_ok(arg, stack_size) && slot_is_ok(
            stack_size,
            *result,
        ),
        Op::Negate { result, arg } => arg_is_ok(arg, stack_size) && slot_is_ok(stack_size, *result),
        Op::Asm { .. } => true,
        Op::Binop { index, lhs, rhs, .. } => arg_is_ok(lhs, stack_size) && arg_is_ok(
            rhs,
            stack_size,
        ) && slot_is_ok(stack_size, *index),
        Op::AutoAssign { index, arg } => arg_is_ok(arg, stack_size) && slot_is_ok(
            stack_size,
            *index,
        ),
        Op::ExternalAssign { arg, .. } => arg_is_ok(arg, stack_size),
        Op::Store { index, arg } => arg_is_ok(arg, stack_size) && slot_is_ok(stack_size, *index),
        Op::Funcall { result, fun, args } => {
            if args.len() > REGISTER_COUNT {
                return true;
            }
            let mut k: usize = 0;
            while k < args.len()
                invariant
                    k <= args@.len(),
                    forall|j: int| 0 <= j < k ==> arg_ok(#[trigger] args@[j], stack_size as nat),
                decreases args@.len() - k,
            {
                if !arg_is_ok(&args[k], stack_size) {
                    assert(!arg_ok(args@[k as int], stack_size as nat));
                    return false;
                }
                k = k + 1;
            }
            call_is_ok(fun, stack_size) && slot_is_ok(stack_size, *result)
        },
        Op::Label { .. } => true,
        Op::JmpLabel { .. } => true,
        Op::JmpIfNotLabel { arg, .. } => arg_is_ok(arg, stack_size),
        Op::Return { arg } => match arg {
            Some(a) => arg_is_ok(a, stack_size),
            None => true,
        },
    }
}

/// Whether translating a function with `params_count` parameters,
/// `auto_vars_count` automatic variables and the operations `body` is defined.
#[verifier::loop_isolation(false)]
pub fn function_is_supported(params_count: usize, auto_vars_count: usize, body: &[OpWithLocation]) -> (r:
    bool)
    ensures
        r == function_supported(params_count as nat, auto_vars_count as nat, body@),
{
    if params_count > auto_vars_count || auto_vars_count > usize::MAX / 4 {
        return false;
    }
    let bytes = auto_vars_count * 4;
    if bytes % 8 != 0 && bytes > usize::MAX - 8 {
        return false;
    }
    if params_count > REGISTER_COUNT {
        return true;
    }
    let stack_size = align_bytes(bytes, 8);
    let ghost s = frame_size(auto_vars_count as nat);
    assert(stack_size == s);
    let mut i: usize = 0;
    while i < body.len()
        invariant
            i <= body@.len(),
            stack_size == s,
            forall|j: int| 0 <= j < i ==> op_ok(#[trigger] body@[j].opcode, s),
            calls_ok_before(body@, i as int),
        decreases body@.len() - i,
    {
        if !op_is_ok(&body[i].opcode, stack_size) {
            assert(calls_ok_before(body@, i as int) && !op_ok(body@[i as int].opcode, s));
            return false;
        }
        if is_call_error(&body[i].opcode) {
            assert forall|j: int|
                0 <= j < body@.len() && calls_ok_before(body@, j) implies op_ok(
                #[trigger] body@[j].opcode,
                s,
            ) by {
                if j > i {
                    assert(!call_error(body@[i as int].opcode));
                    assert(false);
                }
            }
            return true;
        }
        i = i + 1;
    }
    assert forall|j: int|
        0 <= j < body@.len() && calls_ok_before(body@, j) implies op_ok(
        #[trigger] body@[j].opcode,
        s,
    ) by {}
    true
}

/// Whether generating the translation unit `c` is defined: the condition
/// under which [`generate_program`] may be called.
pub fn program_supported(c: &Compiler) -> (r: bool)
    ensures
        r == funcs_supported(c.funcs@),
{
    let funcs = &c.funcs;
    let mut k: usize = 0;
    while k < funcs.len()
        invariant
            funcs@ == c.funcs@,
            k <= funcs@.len(),
            forall|j: int| 0 <= j < k ==> func_error(#[trigger] funcs@[j]) is None,
            forall|j: int| 0 <= j < k ==> func_supported(#[trigger] funcs@[j]),
        decreases funcs@.len() - k,
    {
        let f = &funcs[k];
        let supported = function_is_supported(f.params_count, f.auto_vars_count, f.body.as_slice());
        assert(supported == func_supported(funcs@[k as int])) by {
            reveal(func_supported);
        }
        if !supported {
            assert(forall|j: int| 0 <= j < k ==> func_error(#[trigger] funcs@[j]) is None);
            return false;
        }
        let error = find_function_error(&f.name_loc, f.params_count, f.body.as_slice());
        assert(error is None <==> func_error(funcs@[k as int]) is None);
        if error.is_some() {
            assert forall|m: int|
                0 <= m < funcs@.len() && (forall|j: int|
                    0 <= j < m ==> func_error(#[trigger] funcs@[j]) is None) implies func_supported(
                #[trigger] funcs@[m],
            ) by {
                if m > k {
                    assert(func_error(funcs@[k as int]) is None);
                    assert(false);
                }
            }
            return true;
        }
        k = k + 1;
    }
    true
}

} // verus!
