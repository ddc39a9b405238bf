//! The intermediate representation that the code generator reads.

use vstd::prelude::*;

verus! {

/// A position in a source file.
pub struct Loc {
    pub input_path: String,
    pub line_number: i32,
    pub line_offset: i32,
}

/// The mathematical value of a [`Loc`].
pub struct LocView {
    pub input_path: Seq<char>,
    pub line_number: i32,
    pub line_offset: i32,
}

impl View for Loc {
    type V = LocView;

    open spec fn view(&self) -> LocView {
        LocView {
            input_path: self.input_path@,
            line_number: self.line_number,
            line_offset: self.line_offset,
        }
    }
}

impl Loc {
    /// A copy of this location.
    pub fn duplicate(&self) -> (r: Loc)
        ensures
            r@ == self@,
    {
        Loc {
            input_path: self.input_path.clone(),
            line_number: self.line_number,
            line_offset: self.line_offset,
        }
    }
}

/// An operand of an operation. Automatic variables are numbered from 1.
pub enum Arg {
    Bogus,
    AutoVar(usize),
    Deref(usize),
    RefAutoVar(usize),
    RefExternal(String),
    External(String),
    Literal(u64),
    DataOffset(usize),
}

/// A binary operator.
pub enum Binop {
    BitOr,
    BitAnd,
    BitShl,
    BitShr,
    Plus,
    Minus,
    Mod,
    Div,
    Mult,
    Less,
    Greater,
    Equal,
    NotEqual,
    GreaterEqual,
    LessEqual,
}

/// One line of inline assembly.
pub struct AsmStmt {
    pub line: String,
    pub loc: Loc,
}

/// An operation of a function body.
#[allow(inconsistent_fields)]
pub enum Op {
    Bogus,
    UnaryNot { result: usize, arg: Arg },
    Negate { result: usize, arg: Arg },
    Asm { stmts: Vec<AsmStmt> },
    Binop { binop: Binop, index: usize, lhs: Arg, rhs: Arg },
    AutoAssign { index: usize, arg: Arg },
    ExternalAssign { name: String, arg: Arg },
    Store { index: usize, arg: Arg },
    Funcall { result: usize, fun: Arg, args: Vec<Arg> },
    Label { label: usize },
    JmpLabel { label: usize },
    JmpIfNotLabel { label: usize, arg: Arg },
    Return { arg: Option<Arg> },
}

/// An operation together with where it comes from.
pub struct OpWithLocation {
    pub opcode: Op,
    pub loc: Loc,
}

/// A function definition.
pub struct Func {
    pub name: String,
    pub name_loc: Loc,
    pub body: Vec<OpWithLocation>,
    pub params_count: usize,
    pub auto_vars_count: usize,
}

/// What the compiler has gathered of a translation unit that code generation reads.
pub struct Compiler {
    pub funcs: Vec<Func>,
}

/// The least multiple of `alignment` that is at least `bytes`.
pub open spec fn aligned(bytes: nat, alignment: nat) -> nat
    recommends
        alignment > 0,
{
    if bytes % alignment == 0 {
        bytes
    } else {
        (bytes + alignment - bytes % alignment) as nat
    }
}

/// `aligned` is the least multiple of `alignment` that is at least `bytes`.
pub proof fn lemma_aligned(bytes: nat, alignment: nat)
    requires
        alignment > 0,
    ensures
        aligned(bytes, alignment) % alignment == 0,
        bytes <= aligned(bytes, alignment) < bytes + alignment,
        forall|m: nat| #[trigger] (m % alignment) == 0 && bytes <= m ==> aligned(bytes, alignment) <= m,
{
    let (b, a) = (bytes as int, alignment as int);
    vstd::arithmetic::div_mod::lemma_fundamental_div_mod(b, a);
    if b % a != 0 {
        assert(b + a - b % a == (b / a + 1) * a) by (nonlinear_arith)
            requires
                b == a * (b / a) + b % a,
        ;
        vstd::arithmetic::div_mod::lemma_mod_multiples_basic(b / a + 1, a);
    }
    assert forall|m: nat| #[trigger] (m % alignment) == 0 && bytes <= m implies aligned(bytes, alignment) <= m by {
        let mi = m as int;
        vstd::arithmetic::div_mod::lemma_fundamental_div_mod(mi, a);
        if b % a != 0 {
            // m is a multiple of a above b, so it is at least the next one
            assert(mi == a * (mi / a));
            assert(b == a * (b / a) + b % a);
            assert(mi / a > b / a) by (nonlinear_arith)
                requires
                    mi == a * (mi / a),
                    b == a * (b / a) + b % a,
                    0 < b % a < a,
                    b <= mi,
                    a > 0,
            ;
            assert(a * (mi / a) >= a * (b / a + 1)) by (nonlinear_arith)
                requires
                    mi / a >= b / a + 1,
                    a > 0,
            ;
        }
    }
}

/// Rounds `bytes` up to a multiple of `alignment`.
pub fn align_bytes(bytes: usize, alignment: usize) -> (r: usize)
    requires
        alignment > 0,
        bytes % alignment == 0 || bytes + alignment <= usize::MAX,
    ensures
        r == aligned(bytes as nat, alignment as nat),
{
    proof {
        lemma_aligned(bytes as nat, alignment as nat);
    }
    let rem = bytes % alignment;
    if rem > 0 {
        bytes + alignment - rem
    } else {
        bytes
    }
}

} // verus!
