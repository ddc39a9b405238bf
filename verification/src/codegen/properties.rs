//! Properties of the generated assembly that hold across constructs and calls.

use vstd::prelude::*;

use crate::codegen::gas_arm_m3_none::{
    asm_text, binop_text, op_text, epilogue_text, prologue_text, return_text, args_text, call_arg_text, function_text, load_arg_text, params_text, reg_name, REGISTER_COUNT,
    body_text, frame_size, funcs_error, funcs_text, label_name, literal_text, imm_line, op_label, slot_ok,
    slot_offset, func_error, func_text,
};
use crate::ir::{lemma_aligned, Arg, AsmStmt, Func, Op, OpWithLocation};
use crate::text::{decimal, digit_char};

verus! {

/// The slots of two different automatic variables do not overlap, and each
/// lies within the frame.
pub proof fn lemma_slots_disjoint(stack_size: nat, i: nat, j: nat)
    requires
        slot_ok(stack_size, i),
        slot_ok(stack_size, j),
        i != j,
    ensures
        slot_offset(stack_size, i) + 4 <= slot_offset(stack_size, j) || slot_offset(stack_size, j)
            + 4 <= slot_offset(stack_size, i),
        slot_offset(stack_size, i) + 4 <= stack_size,
{
}

/// The frame of a function is a multiple of eight bytes, has room for all its
/// automatic variables, and wastes less than eight bytes.
pub proof fn lemma_frame_holds_auto_vars(auto_vars_count: nat)
    ensures
        frame_size(auto_vars_count) % 8 == 0,
        4 * auto_vars_count <= frame_size(auto_vars_count) < 4 * auto_vars_count + 8,
        forall|idx: nat|
            1 <= idx <= auto_vars_count ==> #[trigger] slot_ok(frame_size(auto_vars_count), idx),
{
    lemma_aligned(4 * auto_vars_count, 8);
}

/// A literal is loaded as its low 32 bits: in one `mov` when it fits a byte,
/// in one `movw` when it fits a halfword, and otherwise as a `movw` of the low
/// and a `movt` of the high halfword, which together make up the value.
pub proof fn lemma_literal_load(reg: Seq<char>, value: u64)
    ensures
        ({
            let w = (value % 0x1_0000_0000) as nat;
            &&& w <= 0xff ==> literal_text(reg, w) == imm_line("    mov "@, reg, w)
            &&& 0xff < w <= 0xffff ==> literal_text(reg, w) == imm_line("    movw "@, reg, w)
            &&& 0xffff < w ==> {
                &&& literal_text(reg, w) == imm_line("    movw "@, reg, w % 0x10000) + imm_line(
                    "    movt "@,
                    reg,
                    w / 0x10000,
                )
                &&& w % 0x10000 <= 0xffff
                &&& w / 0x10000 <= 0xffff
                &&& (w / 0x10000) * 0x10000 + w % 0x10000 == w
            }
        }),
{
}

/// A decimal rendering has at least one digit, and at least two for
/// numbers from ten on.
pub proof fn lemma_decimal_len(n: nat)
    ensures
        decimal(n).len() >= 1,
        n >= 10 ==> decimal(n).len() >= 2,
    decreases n,
{
    if n >= 10 {
        lemma_decimal_len(n / 10);
    }
}

/// Different numbers have different decimal renderings.
pub proof fn lemma_decimal_injective(a: nat, b: nat)
    requires
        decimal(a) == decimal(b),
    ensures
        a == b,
    decreases a,
{
    lemma_decimal_len(a);
    lemma_decimal_len(b);
    if a < 10 && b < 10 {
        assert(decimal(a)[0] == digit_char(a));
        assert(decimal(b)[0] == digit_char(b));
    } else if a >= 10 && b >= 10 {
        assert(decimal(a).last() == digit_char(a % 10));
        assert(decimal(b).last() == digit_char(b % 10));
        assert(decimal(a).drop_last() =~= decimal(a / 10));
        assert(decimal(b).drop_last() =~= decimal(b / 10));
        lemma_decimal_injective(a / 10, b / 10);
    }
}

/// Within a function, different operations get different labels.
pub proof fn lemma_op_labels_distinct(name: Seq<char>, i: nat, j: nat)
    requires
        i != j,
    ensures
        op_label(name, i) != op_label(name, j),
{
    reveal_strlit(".op_");
    reveal_strlit(":\n");
    if op_label(name, i) == op_label(name, j) {
        let start: int = name.len() + 4int;
        assert(".op_"@.len() == 4 && ":\n"@.len() == 2);
        assert(op_label(name, i).len() == start + decimal(i).len() + 2);
        assert(op_label(name, j).len() == start + decimal(j).len() + 2);
        assert(decimal(i) =~= op_label(name, i).subrange(start, start + decimal(i).len()));
        assert(decimal(j) =~= op_label(name, j).subrange(start, start + decimal(j).len()));
        lemma_decimal_injective(i, j);
    }
}

/// Within a function, different local labels get different names.
pub proof fn lemma_label_names_distinct(name: Seq<char>, a: nat, b: nat)
    requires
        a != b,
    ensures
        label_name(name, a) != label_name(name, b),
{
    reveal_strlit(".label_");
    if label_name(name, a) == label_name(name, b) {
        let start: int = name.len() + 7int;
        assert(".label_"@.len() == 7);
        assert(label_name(name, a).len() == start + decimal(a).len());
        assert(label_name(name, b).len() == start + decimal(b).len());
        assert(decimal(a) =~= label_name(name, a).subrange(start, start + decimal(a).len()));
        assert(decimal(b) =~= label_name(name, b).subrange(start, start + decimal(b).len()));
        lemma_decimal_injective(a, b);
    }
}

/// Translating two lists of functions one after the other gives the same
/// text as translating them together, and the first error of the whole is
/// that of the first list if it has one, else that of the second.
pub proof fn lemma_funcs_concat(a: Seq<Func>, b: Seq<Func>)
    ensures
        funcs_text(a + b) == funcs_text(a) + funcs_text(b),
        funcs_error(a + b) == if funcs_error(a) is Some {
            funcs_error(a)
        } else {
            funcs_error(b)
        },
    decreases a.len() + b.len(),
{
    if b.len() == 0 {
        assert(a + b =~= a);
    } else {
        assert((a + b).drop_last() =~= a + b.drop_last());
        lemma_funcs_concat(a, b.drop_last());
    }
    if a.len() == 0 {
        assert(a + b =~= b);
    } else {
        assert((a + b).drop_first() =~= a.drop_first() + b);
        lemma_funcs_concat(a.drop_first(), b);
    }
}

/// Appending operations to a function body leaves the text of the operations
/// already there unchanged: it is a prefix of the longer body's text.
pub proof fn lemma_body_text_extends(
    name: Seq<char>,
    ops: Seq<OpWithLocation>,
    more: Seq<OpWithLocation>,
    stack_size: nat,
)
    ensures
        body_text(name, ops, stack_size).len() <= body_text(name, ops + more, stack_size).len(),
        body_text(name, ops + more, stack_size).subrange(
            0,
            body_text(name, ops, stack_size).len() as int,
        ) == body_text(name, ops, stack_size),
    decreases more.len(),
{
    if more.len() == 0 {
        assert(ops + more =~= ops);
    } else {
        assert((ops + more).drop_last() =~= ops + more.drop_last());
        lemma_body_text_extends(name, ops, more.drop_last(), stack_size);
        let shorter = body_text(name, ops + more.drop_last(), stack_size);
        let longer = body_text(name, ops + more, stack_size);
        let n = body_text(name, ops, stack_size).len() as int;
        assert(longer.subrange(0, shorter.len() as int) =~= shorter);
        assert(longer.subrange(0, n) =~= shorter.subrange(0, n));
    }
}

/// Argument register `j` is named `r` followed by the digit `j`.
pub proof fn lemma_register_name(j: nat)
    requires
        j < REGISTER_COUNT,
    ensures
        reg_name(j) == seq!['r', digit_char(j)],
{
    reveal_strlit("r0");
    reveal_strlit("r1");
    reveal_strlit("r2");
    reveal_strlit("r3");
    assert(reg_name(j) =~= seq!['r', digit_char(j)]);
}

/// The arguments of a call go to the registers in order: argument `j` is
/// loaded into `rj`, right after the loads of the arguments before it, and
/// nothing else is loaded.
pub proof fn lemma_call_args_in_order(args: Seq<Arg>, stack_size: nat)
    requires
        args.len() <= REGISTER_COUNT,
    ensures
        args_text(Seq::empty(), stack_size) == Seq::<char>::empty(),
        args_text(args.take(args.len() as int), stack_size) == args_text(args, stack_size),
        forall|j: int|
            0 <= j < args.len() ==> #[trigger] args_text(args.take(j + 1), stack_size) == args_text(
                args.take(j),
                stack_size,
            ) + load_arg_text(args[j], seq!['r', digit_char(j as nat)], stack_size),
{
    assert(args.take(args.len() as int) =~= args);
    assert forall|j: int| 0 <= j < args.len() implies #[trigger] args_text(
        args.take(j + 1),
        stack_size,
    ) == args_text(args.take(j), stack_size) + load_arg_text(
        args[j],
        seq!['r', digit_char(j as nat)],
        stack_size,
    ) by {
        assert(args.take(j + 1).drop_last() =~= args.take(j));
        assert(args.take(j + 1).last() == args[j]);
        lemma_register_name(j as nat);
    }
}

/// A number rendered between the same text on both sides determines the number.
proof fn lemma_decimal_between(prefix: Seq<char>, a: nat, b: nat, suffix: Seq<char>)
    requires
        prefix + decimal(a) + suffix == prefix + decimal(b) + suffix,
    ensures
        a == b,
{
    let t = prefix + decimal(a) + suffix;
    let u = prefix + decimal(b) + suffix;
    assert(t.len() == u.len());
    let start = prefix.len() as int;
    assert(decimal(a) =~= t.subrange(start, start + decimal(a).len()));
    assert(decimal(b) =~= u.subrange(start, start + decimal(b).len()));
    lemma_decimal_injective(a, b);
}

/// Automatic variable `i` is at `r7 + stack_size - 4 * i`: taking its address
/// adds exactly that offset, reading it loads from exactly there, and
/// different variables give different addresses, loads and dereferences.
pub proof fn lemma_auto_var_access(i: usize, j: usize, reg: Seq<char>, stack_size: nat)
    requires
        slot_ok(stack_size, i as nat),
        slot_ok(stack_size, j as nat),
    ensures
        load_arg_text(Arg::RefAutoVar(i), reg, stack_size) == "    add "@ + reg + ", r7, "@ + decimal(
            (stack_size - 4 * i) as nat,
        ) + "\n"@,
        load_arg_text(Arg::AutoVar(i), reg, stack_size) == "    ldr "@ + reg + ", [r7, #"@ + decimal(
            (stack_size - 4 * i) as nat,
        ) + "]\n"@,
        i != j ==> load_arg_text(Arg::RefAutoVar(i), reg, stack_size) != load_arg_text(
            Arg::RefAutoVar(j),
            reg,
            stack_size,
        ),
        i != j ==> load_arg_text(Arg::AutoVar(i), reg, stack_size) != load_arg_text(
            Arg::AutoVar(j),
            reg,
            stack_size,
        ),
        i != j ==> load_arg_text(Arg::Deref(i), reg, stack_size) != load_arg_text(
            Arg::Deref(j),
            reg,
            stack_size,
        ),
{
    let oi = (stack_size - 4 * i) as nat;
    let oj = (stack_size - 4 * j) as nat;
    let deref = "    ldr "@ + reg + ", ["@ + reg + "]\n"@;
    if i != j {
        let p = "    add "@ + reg + ", r7, "@;
        if load_arg_text(Arg::RefAutoVar(i), reg, stack_size) == load_arg_text(
            Arg::RefAutoVar(j),
            reg,
            stack_size,
        ) {
            lemma_decimal_between(p, oi, oj, "\n"@);
        }
        let q = "    ldr "@ + reg + ", [r7, #"@;
        if load_arg_text(Arg::AutoVar(i), reg, stack_size) == load_arg_text(
            Arg::AutoVar(j),
            reg,
            stack_size,
        ) {
            lemma_decimal_between(q, oi, oj, "]\n"@);
        }
        if load_arg_text(Arg::Deref(i), reg, stack_size) == load_arg_text(
            Arg::Deref(j),
            reg,
            stack_size,
        ) {
            assert(load_arg_text(Arg::Deref(i), reg, stack_size) =~= q + decimal(oi) + ("]\n"@
                + deref));
            assert(load_arg_text(Arg::Deref(j), reg, stack_size) =~= q + decimal(oj) + ("]\n"@
                + deref));
            lemma_decimal_between(q, oi, oj, "]\n"@ + deref);
        }
    }
}

/// A callee that is not an external symbol is called through `r4`: the text
/// is the load of the callee into `r4` and `blx r4`; a callee held behind a
/// pointer in a variable is loaded from the variable's slot and then
/// dereferenced before the branch. An external symbol is called by name.
pub proof fn lemma_call_target(fun: Arg, i: usize, name: String, stack_size: nat)
    ensures
        !(fun is External) && !(fun is RefExternal) ==> call_arg_text(fun, stack_size)
            == load_arg_text(fun, "r4"@, stack_size) + "    blx r4\n"@,
        call_arg_text(Arg::Deref(i), stack_size) == "    ldr "@ + "r4"@ + ", [r7, #"@ + decimal(
            (stack_size - 4 * i) as nat,
        ) + "]\n"@ + ("    ldr "@ + "r4"@ + ", ["@ + "r4"@ + "]\n"@) + "    blx r4\n"@,
        call_arg_text(Arg::External(name), stack_size) == "    bl "@ + name@ + "\n"@,
        call_arg_text(Arg::RefExternal(name), stack_size) == "    bl "@ + name@ + "\n"@,
{
}

/// A function's text opens with its `.global` directive and closes with its
/// `.size` directive, whatever its body.
pub proof fn lemma_function_text_bounds(
    name: Seq<char>,
    params_count: nat,
    auto_vars_count: nat,
    body: Seq<OpWithLocation>,
)
    ensures
        ({
            let t = function_text(name, params_count, auto_vars_count, body);
            let head = ".global "@ + name + "\n"@;
            let tail = "    .size "@ + name + ", .-"@ + name + "\n"@;
            &&& head.len() + tail.len() <= t.len()
            &&& t.subrange(0, head.len() as int) == head
            &&& t.subrange(t.len() - tail.len(), t.len() as int) == tail
        }),
{
    let t = function_text(name, params_count, auto_vars_count, body);
    let head = ".global "@ + name + "\n"@;
    let tail = "    .size "@ + name + ", .-"@ + name + "\n"@;
    let s = frame_size(auto_vars_count);
    let pro = prologue_text(name, s);
    let x = ".type "@ + name + ", %function\n"@ + ".thumb_func\n"@ + name + ":\n"@
        + "    push {r7, lr}\n"@ + "    sub sp, sp, #"@ + decimal(s) + "\n"@ + "    mov r7, sp\n"@;
    assert(pro =~= head + x);
    let epi = epilogue_text(name, body.len(), s);
    let e = op_label(name, body.len()) + return_text(s);
    assert(epi =~= e + tail);
    let params = params_text(params_count, s);
    let bt = body_text(name, body, s);
    assert(t == pro + params + bt + epi);
    lemma_regroup(head, x, params, bt, e, tail);
    lemma_bracketed(head, x + params + bt + e, tail);
}

/// Regrouping a concatenation of six pieces around its first and last.
proof fn lemma_regroup(
    a: Seq<char>,
    b: Seq<char>,
    c: Seq<char>,
    d: Seq<char>,
    e: Seq<char>,
    f: Seq<char>,
)
    ensures
        (a + b) + c + d + (e + f) == a + (b + c + d + e) + f,
{
    assert((a + b) + c + d + (e + f) =~= a + (b + c + d + e) + f);
}

/// The first and the last piece of a three-piece concatenation.
proof fn lemma_bracketed(head: Seq<char>, mid: Seq<char>, tail: Seq<char>)
    ensures
        ({
            let t = head + mid + tail;
            &&& head.len() + tail.len() <= t.len()
            &&& t.subrange(0, head.len() as int) == head
            &&& t.subrange(t.len() - tail.len(), t.len() as int) == tail
        }),
{
    let t = head + mid + tail;
    assert(t.subrange(0, head.len() as int) =~= head);
    assert(t.subrange(t.len() - tail.len(), t.len() as int) =~= tail);
}

/// Every function of a list is emitted, in order, whatever its body: the text
/// of the first `j + 1` functions is that of the first `j` followed by that of
/// function `j`.
pub proof fn lemma_every_function_emitted(funcs: Seq<Func>)
    ensures
        funcs_text(Seq::empty()) == Seq::<char>::empty(),
        funcs_text(funcs.take(funcs.len() as int)) == funcs_text(funcs),
        forall|j: int|
            0 <= j < funcs.len() ==> #[trigger] funcs_text(funcs.take(j + 1)) == funcs_text(
                funcs.take(j),
            ) + function_text(
                funcs[j].name@,
                funcs[j].params_count as nat,
                funcs[j].auto_vars_count as nat,
                funcs[j].body@,
            ),
{
    assert(funcs.take(funcs.len() as int) =~= funcs);
    assert forall|j: int| 0 <= j < funcs.len() implies #[trigger] funcs_text(funcs.take(j + 1))
        == funcs_text(funcs.take(j)) + function_text(
        funcs[j].name@,
        funcs[j].params_count as nat,
        funcs[j].auto_vars_count as nat,
        funcs[j].body@,
    ) by {
        assert(funcs.take(j + 1).drop_last() =~= funcs.take(j));
        assert(funcs.take(j + 1).last() == funcs[j]);
        reveal(func_text);
    }
}

/// Each parameter `k` (counted from 0) is stored from register `rk` into the
/// slot of automatic variable `k + 1`, the slot that reading that variable
/// loads from; the stores come in order, one per parameter.
pub proof fn lemma_params_stored(reg: Seq<char>, stack_size: nat)
    ensures
        params_text(0, stack_size) == Seq::<char>::empty(),
        forall|k: nat|
            k < REGISTER_COUNT ==> #[trigger] params_text(k + 1, stack_size) == params_text(
                k,
                stack_size,
            ) + "    str "@ + seq!['r', digit_char(k)] + ", [r7, #"@ + decimal(
                (stack_size - 4 * (k + 1)) as nat,
            ) + "]\n"@,
        forall|k: usize|
            k < REGISTER_COUNT ==> #[trigger] load_arg_text(Arg::AutoVar((k + 1) as usize), reg, stack_size)
                == "    ldr "@ + reg + ", [r7, #"@ + decimal((stack_size - 4 * (k + 1)) as nat)
                + "]\n"@,
{
    assert forall|k: nat| k < REGISTER_COUNT implies #[trigger] params_text(k + 1, stack_size)
        == params_text(k, stack_size) + "    str "@ + seq!['r', digit_char(k)] + ", [r7, #"@
        + decimal((stack_size - 4 * (k + 1)) as nat) + "]\n"@ by {
        lemma_register_name(k);
        assert(((k + 1) as nat - 1) as nat == k);
    }
}

/// `t` begins with `prefix`.
pub open spec fn starts_with(t: Seq<char>, prefix: Seq<char>) -> bool {
    prefix.len() <= t.len() && t.subrange(0, prefix.len() as int) == prefix
}

/// `t` ends with `suffix`.
pub open spec fn ends_with(t: Seq<char>, suffix: Seq<char>) -> bool {
    suffix.len() <= t.len() && t.subrange(t.len() - suffix.len(), t.len() as int) == suffix
}

proof fn lemma_concat_starts_ends(a: Seq<char>, b: Seq<char>)
    ensures
        starts_with(a + b, a),
        ends_with(a + b, b),
{
    assert((a + b).subrange(0, a.len() as int) =~= a);
    assert((a + b).subrange((a + b).len() - b.len(), (a + b).len() as int) =~= b);
}

/// The store of `r0` into the slot of automatic variable `idx`.
pub open spec fn store_r0(stack_size: nat, idx: nat) -> Seq<char> {
    "    str "@ + "r0"@ + ", [r7, #"@ + decimal((stack_size - 4 * idx) as nat) + "]\n"@
}

/// An operation that computes a value ends by storing it, from `r0`, into
/// the slot of its result variable, at `r7 + stack_size - 4 * result`.
pub proof fn lemma_result_stored(name: Seq<char>, op: Op, stack_size: nat)
    ensures
        op matches Op::Negate { result, .. } ==> ends_with(
            op_text(name, op, stack_size),
            store_r0(stack_size, result as nat),
        ),
        op matches Op::UnaryNot { result, .. } ==> ends_with(
            op_text(name, op, stack_size),
            store_r0(stack_size, result as nat),
        ),
        op matches Op::Binop { index, .. } ==> ends_with(
            op_text(name, op, stack_size),
            store_r0(stack_size, index as nat),
        ),
        op matches Op::AutoAssign { index, .. } ==> ends_with(
            op_text(name, op, stack_size),
            store_r0(stack_size, index as nat),
        ),
        op matches Op::Funcall { result, .. } ==> ends_with(
            op_text(name, op, stack_size),
            store_r0(stack_size, result as nat),
        ),
{
    let t = op_text(name, op, stack_size);
    match op {
        Op::Negate { result, arg } => {
            let a = load_arg_text(arg, "r0"@, stack_size) + "    neg r0, r0\n"@;
            assert(t =~= a + store_r0(stack_size, result as nat));
            lemma_concat_starts_ends(a, store_r0(stack_size, result as nat));
        },
        Op::UnaryNot { result, arg } => {
            let a = load_arg_text(arg, "r0"@, stack_size) + "    clz r0, r0\n"@
                + "    lsr r0, r0, #5\n"@;
            assert(t =~= a + store_r0(stack_size, result as nat));
            lemma_concat_starts_ends(a, store_r0(stack_size, result as nat));
        },
        Op::Binop { binop, index, lhs, rhs } => {
            let a = load_arg_text(lhs, "r0"@, stack_size) + load_arg_text(rhs, "r1"@, stack_size)
                + binop_text(binop);
            assert(t =~= a + store_r0(stack_size, index as nat));
            lemma_concat_starts_ends(a, store_r0(stack_size, index as nat));
        },
        Op::AutoAssign { index, arg } => {
            let a = load_arg_text(arg, "r0"@, stack_size);
            assert(t =~= a + store_r0(stack_size, index as nat));
            lemma_concat_starts_ends(a, store_r0(stack_size, index as nat));
        },
        Op::Funcall { result, fun, args } => {
            let a = args_text(args@, stack_size) + call_arg_text(fun, stack_size);
            assert(t =~= a + store_r0(stack_size, result as nat));
            lemma_concat_starts_ends(a, store_r0(stack_size, result as nat));
        },
        _ => {},
    }
}

/// An operation first loads its operands: the single operand into `r0` (into
/// `x0` for a returned value), the two operands of a binary operator into
/// `r0` and `r1`, and a call's arguments into the argument registers, after
/// which the callee is called.
pub proof fn lemma_operands_loaded_first(name: Seq<char>, op: Op, stack_size: nat)
    ensures
        op matches Op::Negate { arg, .. } ==> starts_with(
            op_text(name, op, stack_size),
            load_arg_text(arg, "r0"@, stack_size),
        ),
        op matches Op::UnaryNot { arg, .. } ==> starts_with(
            op_text(name, op, stack_size),
            load_arg_text(arg, "r0"@, stack_size),
        ),
        op matches Op::AutoAssign { arg, .. } ==> starts_with(
            op_text(name, op, stack_size),
            load_arg_text(arg, "r0"@, stack_size),
        ),
        op matches Op::ExternalAssign { arg, .. } ==> starts_with(
            op_text(name, op, stack_size),
            load_arg_text(arg, "r0"@, stack_size),
        ),
        op matches Op::JmpIfNotLabel { arg, .. } ==> starts_with(
            op_text(name, op, stack_size),
            load_arg_text(arg, "r0"@, stack_size),
        ),
        op matches Op::Return { arg: Some(a) } ==> starts_with(
            op_text(name, op, stack_size),
            load_arg_text(a, "x0"@, stack_size),
        ),
        op matches Op::Binop { lhs, rhs, .. } ==> starts_with(
            op_text(name, op, stack_size),
            load_arg_text(lhs, "r0"@, stack_size) + load_arg_text(rhs, "r1"@, stack_size),
        ),
        op matches Op::Funcall { fun, args, .. } ==> starts_with(
            op_text(name, op, stack_size),
            args_text(args@, stack_size) + call_arg_text(fun, stack_size),
        ),
{
    let t = op_text(name, op, stack_size);
    match op {
        Op::Negate { result, arg } => {
            let a = load_arg_text(arg, "r0"@, stack_size);
            let b = "    neg r0, r0\n"@ + store_r0(stack_size, result as nat);
            assert(t =~= a + b);
            lemma_concat_starts_ends(a, b);
        },
        Op::UnaryNot { result, arg } => {
            let a = load_arg_text(arg, "r0"@, stack_size);
            let b = "    clz r0, r0\n"@ + "    lsr r0, r0, #5\n"@ + store_r0(stack_size, result as nat);
            assert(t =~= a + b);
            lemma_concat_starts_ends(a, b);
        },
        Op::AutoAssign { index, arg } => {
            let a = load_arg_text(arg, "r0"@, stack_size);
            let b = store_r0(stack_size, index as nat);
            assert(t =~= a + b);
            lemma_concat_starts_ends(a, b);
        },
        Op::ExternalAssign { arg, .. } => {
            let a = load_arg_text(arg, "r0"@, stack_size);
            lemma_concat_starts_ends(a, "    str r0, [r1]\n"@);
        },
        Op::JmpIfNotLabel { label, arg } => {
            let a = load_arg_text(arg, "r0"@, stack_size);
            let b = "    cmp r0, 0\n"@ + "    beq "@ + crate::codegen::gas_arm_m3_none::label_name(
                name,
                label as nat,
            ) + "\n"@;
            assert(t =~= a + b);
            lemma_concat_starts_ends(a, b);
        },
        Op::Return { arg } => {
            if let Some(x) = arg {
                lemma_concat_starts_ends(load_arg_text(x, "x0"@, stack_size), return_text(stack_size));
            }
        },
        Op::Binop { binop, index, lhs, rhs } => {
            let a = load_arg_text(lhs, "r0"@, stack_size) + load_arg_text(rhs, "r1"@, stack_size);
            let b = binop_text(binop) + store_r0(stack_size, index as nat);
            assert(t =~= a + b);
            lemma_concat_starts_ends(a, b);
        },
        Op::Funcall { result, fun, args } => {
            let a = args_text(args@, stack_size) + call_arg_text(fun, stack_size);
            let b = store_r0(stack_size, result as nat);
            assert(t =~= a + b);
            lemma_concat_starts_ends(a, b);
        },
        _ => {},
    }
}

/// The number that a string of decimal digits stands for, most significant
/// digit first.
pub open spec fn digits_value(digits: Seq<char>) -> int
    decreases digits.len(),
{
    if digits.len() == 0 {
        0
    } else {
        10 * digits_value(digits.drop_last()) + (digits.last() as int - '0' as int)
    }
}

/// The decimal rendering of `n` is made of the digits `0` to `9`, reads back
/// as `n`, and starts with `0` only when `n` is zero.
pub proof fn lemma_decimal_reads_back(n: nat)
    ensures
        forall|k: int| 0 <= k < decimal(n).len() ==> '0' <= #[trigger] decimal(n)[k] <= '9',
        digits_value(decimal(n)) == n,
        decimal(n)[0] == '0' ==> n == 0,
    decreases n,
{
    lemma_digit_char_value(n % 10);
    if n >= 10 {
        lemma_decimal_reads_back(n / 10);
        lemma_decimal_len(n / 10);
        assert(decimal(n).drop_last() =~= decimal(n / 10));
        assert(decimal(n)[0] == decimal(n / 10)[0]);
    } else {
        assert(decimal(n).drop_last() =~= Seq::<char>::empty());
        assert(digits_value(Seq::<char>::empty()) == 0);
    }
}

/// The digit for `d` is the character `d` places after `0`.
proof fn lemma_digit_char_value(d: nat)
    requires
        d < 10,
    ensures
        digit_char(d) as int - '0' as int == d,
        '0' <= digit_char(d) <= '9',
{
}

/// Local label `label` of function `name` is defined as `name.label_<label>:`,
/// and both jumps to it name exactly that symbol: the unconditional one with
/// `b`, the conditional one with `beq` after comparing its operand with zero.
pub proof fn lemma_jumps_reach_labels(name: Seq<char>, label: usize, arg: Arg, stack_size: nat)
    ensures
        ({
            let target = name + ".label_"@ + decimal(label as nat);
            &&& op_text(name, Op::Label { label }, stack_size) == target + ":\n"@
            &&& op_text(name, Op::JmpLabel { label }, stack_size) == "    b "@ + target + "\n"@
            &&& op_text(name, Op::JmpIfNotLabel { label, arg }, stack_size) == load_arg_text(
                arg,
                "r0"@,
                stack_size,
            ) + "    cmp r0, 0\n"@ + "    beq "@ + target + "\n"@
        }),
{
}

/// A store through a pointer loads the pointer from the slot of variable
/// `index` into `r0`, the value into `r1`, and stores `r1` at `r0`.
pub proof fn lemma_store_through_pointer(name: Seq<char>, index: usize, arg: Arg, stack_size: nat)
    ensures
        op_text(name, Op::Store { index, arg }, stack_size) == "    ldr "@ + "r0"@ + ", [r7, #"@
            + decimal((stack_size - 4 * index) as nat) + "]\n"@ + load_arg_text(
            arg,
            "r1"@,
            stack_size,
        ) + "    str r1, [r0]\n"@,
{
}

/// Inline assembly is copied line by line, in order, each line indented by
/// four spaces.
pub proof fn lemma_asm_lines_in_order(stmts: Seq<AsmStmt>)
    ensures
        asm_text(Seq::empty()) == Seq::<char>::empty(),
        asm_text(stmts.take(stmts.len() as int)) == asm_text(stmts),
        forall|j: int|
            0 <= j < stmts.len() ==> #[trigger] asm_text(stmts.take(j + 1)) == asm_text(
                stmts.take(j),
            ) + "    "@ + stmts[j].line@ + "\n"@,
{
    assert(stmts.take(stmts.len() as int) =~= stmts);
    assert forall|j: int| 0 <= j < stmts.len() implies #[trigger] asm_text(stmts.take(j + 1))
        == asm_text(stmts.take(j)) + "    "@ + stmts[j].line@ + "\n"@ by {
        assert(stmts.take(j + 1).drop_last() =~= stmts.take(j));
        assert(stmts.take(j + 1).last() == stmts[j]);
    }
}

/// The frame that a function's prologue reserves below the saved `r7` and
/// `lr` is exactly what every return gives back: the prologue ends by
/// lowering `sp` by the frame size and setting `r7` to it, and a return
/// (with or without a value) ends by raising `r7` by the same size, moving
/// it to `sp` and popping `r7` and `pc`.
pub proof fn lemma_frame_balanced(name: Seq<char>, arg: Option<Arg>, stack_size: nat)
    ensures
        starts_with(prologue_text(name, stack_size), ".global "@ + name + "\n"@),
        ends_with(
            prologue_text(name, stack_size),
            "    push {r7, lr}\n"@ + "    sub sp, sp, #"@ + decimal(stack_size) + "\n"@
                + "    mov r7, sp\n"@,
        ),
        ends_with(
            op_text(name, Op::Return { arg }, stack_size),
            "    add r7, r7, #"@ + decimal(stack_size) + "\n"@ + "    mov sp, r7\n"@
                + "    pop {r7, pc}\n"@,
        ),
{
    let pro = prologue_text(name, stack_size);
    let head = ".global "@ + name + "\n"@;
    let mid = ".type "@ + name + ", %function\n"@ + ".thumb_func\n"@ + name + ":\n"@;
    let tail = "    push {r7, lr}\n"@ + "    sub sp, sp, #"@ + decimal(stack_size) + "\n"@
        + "    mov r7, sp\n"@;
    assert(pro =~= head + (mid + tail));
    lemma_concat_starts_ends(head, mid + tail);
    assert(pro =~= (head + mid) + tail);
    lemma_concat_starts_ends(head + mid, tail);
    let ret = "    add r7, r7, #"@ + decimal(stack_size) + "\n"@ + "    mov sp, r7\n"@
        + "    pop {r7, pc}\n"@;
    let load = match arg {
        Some(a) => load_arg_text(a, "x0"@, stack_size),
        None => Seq::empty(),
    };
    assert(op_text(name, Op::Return { arg }, stack_size) =~= load + ret);
    lemma_concat_starts_ends(load, ret);
}

} // verus!
