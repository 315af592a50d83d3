//! The intermediate representation that the interpreter walks.
//!
//! A front-end parser (outside this crate) turns shader source text into a
//! [`Module`]: entry points, each with a stage tag, a name and a function
//! whose body is a statement tree over an expression arena.  Expressions are
//! referenced by stable handles - indices into the arena - and an expression's
//! operands always come earlier in the arena than the expression itself, which
//! is what [`fn_wf`] states and what grounds the evaluator's recursion.

use vstd::prelude::*;

verus! {

/// The kind of a scalar: how its bytes are to be interpreted.
#[derive(Clone, Copy, Debug, PartialEq, Eq, Structural)]
pub enum ScalarKind {
    /// Two's-complement signed integer.
    Sint,
    /// Unsigned integer.
    Uint,
    /// Binary floating point, in its bit-pattern encoding.
    Float,
    /// Boolean stored as one byte, `0` or `1`.
    Bool,
}

/// The lane count of a vector type: fixed-length tuples of two, three or
/// four homogeneous scalars.
#[derive(Clone, Copy, Debug, PartialEq, Eq, Structural)]
pub enum VectorSize {
    /// Two lanes.
    Bi,
    /// Three lanes.
    Tri,
    /// Four lanes.
    Quad,
}

impl VectorSize {
    /// How many lanes this size stands for.
    pub open spec fn spec_lanes(self) -> nat {
        match self {
            VectorSize::Bi => 2,
            VectorSize::Tri => 3,
            VectorSize::Quad => 4,
        }
    }

    /// Executable lane count.
    pub fn lanes(&self) -> (n: usize)
        ensures
            n == self.spec_lanes(),
    {
        match self {
            VectorSize::Bi => 2,
            VectorSize::Tri => 3,
            VectorSize::Quad => 4,
        }
    }
}

/// Describes the shape of a value without owning any data: a scalar of some
/// kind and byte width, or a fixed-length vector of homogeneous scalars laid
/// out contiguously with no padding.
#[derive(Clone, Copy, Debug, PartialEq, Eq, Structural)]
pub enum TypeDesc {
    /// A single scalar; `width` is the byte width of its encoding.
    Scalar { kind: ScalarKind, width: u8 },
    /// `size` scalars of the given kind and width; lane `i` occupies bytes
    /// `[i * width, (i + 1) * width)`.
    Vector { size: VectorSize, kind: ScalarKind, width: u8 },
}

impl TypeDesc {
    /// The total byte length that a buffer of this type must have: the
    /// width for a scalar, lane count times width for a vector.
    pub open spec fn spec_size(self) -> nat {
        match self {
            TypeDesc::Scalar { kind, width } => width as nat,
            TypeDesc::Vector { size, kind, width } => size.spec_lanes() * width as nat,
        }
    }

    /// Executable byte length; never overflows since a vector has at most
    /// four lanes of at most 255 bytes.
    pub fn byte_size(&self) -> (n: usize)
        ensures
            n == self.spec_size(),
    {
        match self {
            TypeDesc::Scalar { kind, width } => *width as usize,
            TypeDesc::Vector { size, kind, width } => size.lanes() * (*width as usize),
        }
    }
}

/// The scalar kind/width combinations this interpreter evaluates: 32-bit
/// signed and unsigned integers, 32- and 64-bit floats, and bool-as-byte.
/// Operating on any other combination fails with an explicit
/// `Unimplemented` error rather than silently producing a wrong value.
pub open spec fn supported_scalar(kind: ScalarKind, width: u8) -> bool {
    match kind {
        ScalarKind::Sint => width == 4,
        ScalarKind::Uint => width == 4,
        ScalarKind::Float => width == 4 || width == 8,
        ScalarKind::Bool => width == 1,
    }
}

/// Executable check for [`supported_scalar`].
pub fn is_supported_scalar(kind: &ScalarKind, width: u8) -> (b: bool)
    ensures
        b == supported_scalar(*kind, width),
{
    match kind {
        ScalarKind::Sint => width == 4,
        ScalarKind::Uint => width == 4,
        ScalarKind::Float => width == 4 || width == 8,
        ScalarKind::Bool => width == 1,
    }
}

/// A binary operator as it appears in the IR.  Which operators are defined
/// for which scalar kind is decided at evaluation time; an operator outside
/// a kind's set fails with `UnsupportedOperator`.
#[derive(Clone, Copy, Debug, PartialEq, Eq, Structural)]
pub enum BinOp {
    Add,
    Subtract,
    Multiply,
    Divide,
    Modulo,
    Equal,
    NotEqual,
    Less,
    LessEqual,
    Greater,
    GreaterEqual,
    And,
    ExclusiveOr,
    InclusiveOr,
    LogicalAnd,
    LogicalOr,
    ShiftLeft,
    ShiftRight,
}

/// A literal expression.  Floating-point literals carry their bit pattern,
/// so that the whole IR is made of plain values.
#[derive(Clone, Copy, Debug, PartialEq, Eq, Structural)]
pub enum Literal {
    /// A boolean, encoded as one byte `0` or `1`.
    Bool(bool),
    /// A 32-bit signed integer.
    I32(i32),
    /// A 32-bit unsigned integer.
    U32(u32),
    /// The bit pattern of a 32-bit float.
    F32Bits(u32),
    /// The bit pattern of a 64-bit float.
    F64Bits(u64),
}

/// An expression node.  Handles (`usize`) index the owning function's
/// expression arena.
#[derive(Debug)]
pub enum Expr {
    /// Constructs a value directly from the literal's canonical descriptor
    /// and encoding.
    Literal(Literal),
    /// References the entry point's argument with the given index; resolved
    /// by name through the active scope.
    FunctionArgument(u32),
    /// Evaluates each component in order and concatenates their encodings
    /// into a buffer typed `ty`.
    Compose { ty: TypeDesc, components: Vec<usize> },
    /// Evaluates `left` then `right` and combines them lane by lane.
    Binary { op: BinOp, left: usize, right: usize },
    /// Any expression kind this interpreter does not cover; evaluating it
    /// fails with `Unimplemented`.
    Other,
}

/// A statement node.
#[derive(Debug)]
pub enum Stmt {
    /// Marks the listed expressions as computed: evaluates each in order and
    /// discards the results (errors still propagate).
    Emit { exprs: Vec<usize> },
    /// Runs the nested statements in a fresh scope that inherits the
    /// enclosing bindings, and yields the last nested statement's value.
    Block { body: Vec<Stmt> },
    /// Evaluates the expression, if any, and yields it as this statement's
    /// value.
    Return { value: Option<usize> },
    /// Any statement kind this interpreter does not cover; executing it
    /// fails with `Unimplemented`.
    Other,
}

/// A declared entry-point argument: an optional name and its type.
#[derive(Debug)]
pub struct Argument {
    pub name: Option<String>,
    pub ty: TypeDesc,
}

/// A function: its declared arguments, its expression arena and its body.
#[derive(Debug)]
pub struct Function {
    pub arguments: Vec<Argument>,
    pub expressions: Vec<Expr>,
    pub body: Vec<Stmt>,
}

/// The pipeline stage an entry point is tagged with.
#[derive(Clone, Copy, Debug, PartialEq, Eq, Structural)]
pub enum ShaderStage {
    Vertex,
    Fragment,
    Compute,
}

/// A function the interpreter can run directly, tagged with its stage.
#[derive(Debug)]
pub struct EntryPoint {
    pub name: String,
    pub stage: ShaderStage,
    pub function: Function,
}

/// A parsed shader module: read-only during interpretation.
#[derive(Debug)]
pub struct Module {
    pub entry_points: Vec<EntryPoint>,
}

/// Well-formedness of the expression stored at arena index `i`: its operand
/// handles come strictly earlier in the arena, and an argument reference is
/// in range.  This is the convention the front-end's arenas guarantee, and
/// it grounds the evaluator's termination.
pub open spec fn expr_wf(f: Function, i: int) -> bool {
    match f.expressions@[i] {
        Expr::Literal(_) => true,
        Expr::FunctionArgument(a) => a < f.arguments@.len(),
        Expr::Compose { ty, components } => forall|j: int|
            0 <= j < components@.len() ==> (#[trigger] components@[j]) < i,
        Expr::Binary { op, left, right } => left < i && right < i,
        Expr::Other => true,
    }
}

/// Well-formedness of a statement with respect to an arena of `n_exprs`
/// expressions: every referenced handle is in range.
pub open spec fn stmt_wf(s: Stmt, n_exprs: nat) -> bool
    decreases s,
{
    match s {
        Stmt::Emit { exprs } => forall|j: int|
            0 <= j < exprs@.len() ==> (#[trigger] exprs@[j]) < n_exprs,
        Stmt::Block { body } => forall|j: int|
            0 <= j < body@.len() ==> stmt_wf(#[trigger] body@[j], n_exprs),
        Stmt::Return { value } => match value {
            Some(e) => e < n_exprs,
            None => true,
        },
        Stmt::Other => true,
    }
}

/// Well-formedness of a function's expression arena: every entry's
/// operands come earlier.
pub open spec fn exprs_wf(f: Function) -> bool {
    forall|i: int| 0 <= i < f.expressions@.len() ==> #[trigger] expr_wf(f, i)
}

/// Well-formedness of a function's body: every statement references only
/// handles the arena has.
pub open spec fn body_wf(f: Function) -> bool {
    forall|j: int| 0 <= j < f.body@.len() ==> stmt_wf(#[trigger] f.body@[j], f.expressions@.len())
}

/// Well-formedness of a whole function: every arena entry and every
/// statement is well-formed.
pub open spec fn fn_wf(f: Function) -> bool {
    exprs_wf(f) && body_wf(f)
}

/// Well-formedness of a module: every entry point's function is
/// well-formed.
pub open spec fn module_wf(m: Module) -> bool {
    forall|k: int| 0 <= k < m.entry_points@.len() ==> fn_wf((#[trigger] m.entry_points@[k]).function)
}

/// Executable check of [`stmt_wf`].
pub fn stmt_wf_check(st: &Stmt, n_exprs: usize) -> (b: bool)
    ensures
        b == stmt_wf(*st, n_exprs as nat),
    decreases *st,
{
    match st {
        Stmt::Emit { exprs } => {
            let n = exprs.len();
            let mut j: usize = 0;
            while j < n
                invariant
                    j <= n,
                    n == exprs@.len(),
                    *st == (Stmt::Emit { exprs: *exprs }),
                    forall|k: int| 0 <= k < j ==> (#[trigger] exprs@[k]) < n_exprs,
                decreases n - j,
            {
                if exprs[j] >= n_exprs {
                    proof {
                        if stmt_wf(*st, n_exprs as nat) {
                            assert((*st)->Emit_exprs == *exprs);
                            assert((*st)->Emit_exprs@[j as int] < n_exprs as nat);
                            assert(exprs@[j as int] < n_exprs as nat);
                        }
                    }
                    return false;
                }
                j = j + 1;
            }
            true
        },
        Stmt::Block { body } => {
            let n = body.len();
            let mut j: usize = 0;
            while j < n
                invariant
                    j <= n,
                    n == body@.len(),
                    *st == (Stmt::Block { body: *body }),
                    forall|k: int| 0 <= k < j ==> stmt_wf(#[trigger] body@[k], n_exprs as nat),
                decreases n - j,
            {
                proof {
                    let stv = *st;
                    assert(decreases_to!(stv => stv->Block_body@[j as int]));
                    assert(stv->Block_body@[j as int] == body@[j as int]);
                }
                if !stmt_wf_check(&body[j], n_exprs) {
                    proof {
                        if stmt_wf(*st, n_exprs as nat) {
                            assert(stmt_wf(body@[j as int], n_exprs as nat));
                        }
                    }
                    return false;
                }
                j = j + 1;
            }
            true
        },
        Stmt::Return { value } => match value {
            Some(h) => *h < n_exprs,
            None => true,
        },
        Stmt::Other => true,
    }
}

/// Executable check of [`expr_wf`] for the expression at index `i`.
fn expr_wf_check(f: &Function, i: usize) -> (b: bool)
    requires
        i < f.expressions@.len(),
    ensures
        b == expr_wf(*f, i as int),
{
    match &f.expressions[i] {
        Expr::Literal(_) => true,
        Expr::FunctionArgument(a) => (*a as usize) < f.arguments.len(),
        Expr::Compose { ty, components } => {
            let n = components.len();
            let mut j: usize = 0;
            while j < n
                invariant
                    j <= n,
                    n == components@.len(),
                    i < f.expressions@.len(),
                    f.expressions@[i as int] == (Expr::Compose {
                        ty: *ty,
                        components: *components,
                    }),
                    forall|k: int| 0 <= k < j ==> (#[trigger] components@[k]) < i as int,
                decreases n - j,
            {
                if components[j] >= i {
                    proof {
                        if expr_wf(*f, i as int) {
                            assert(f.expressions@[i as int]->Compose_components == *components);
                            assert(f.expressions@[i as int]->Compose_components@[j as int]
                                < i as int);
                            assert(components@[j as int] < i as int);
                        }
                    }
                    return false;
                }
                j = j + 1;
            }
            true
        },
        Expr::Binary { op, left, right } => *left < i && *right < i,
        Expr::Other => true,
    }
}

/// Executable check of [`fn_wf`].
pub fn fn_wf_check(f: &Function) -> (b: bool)
    ensures
        b == fn_wf(*f),
{
    let n = f.expressions.len();
    let mut i: usize = 0;
    while i < n
        invariant
            i <= n,
            n == f.expressions@.len(),
            forall|k: int| 0 <= k < i ==> #[trigger] expr_wf(*f, k),
        decreases n - i,
    {
        if !expr_wf_check(f, i) {
            proof {
                if exprs_wf(*f) {
                    assert(expr_wf(*f, i as int));
                }
            }
            return false;
        }
        i = i + 1;
    }
    let m = f.body.len();
    let mut j: usize = 0;
    while j < m
        invariant
            j <= m,
            m == f.body@.len(),
            exprs_wf(*f),
            n == f.expressions@.len(),
            forall|k: int| 0 <= k < j ==> stmt_wf(#[trigger] f.body@[k], f.expressions@.len()),
        decreases m - j,
    {
        if !stmt_wf_check(&f.body[j], n) {
            proof {
                if body_wf(*f) {
                    assert(stmt_wf(f.body@[j as int], f.expressions@.len()));
                }
            }
            return false;
        }
        j = j + 1;
    }
    true
}

/// Executable check of [`module_wf`]: whether every entry point's
/// function is well-formed, so that the interpreter may run it.
pub fn module_wf_check(m: &Module) -> (b: bool)
    ensures
        b == module_wf(*m),
{
    let n = m.entry_points.len();
    let mut k: usize = 0;
    while k < n
        invariant
            k <= n,
            n == m.entry_points@.len(),
            forall|j: int| 0 <= j < k ==> fn_wf((#[trigger] m.entry_points@[j]).function),
        decreases n - k,
    {
        if !fn_wf_check(&m.entry_points[k].function) {
            proof {
                if module_wf(*m) {
                    assert(fn_wf(m.entry_points@[k as int].function));
                }
            }
            return false;
        }
        k = k + 1;
    }
    true
}

} // verus!
