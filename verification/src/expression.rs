//! What evaluating an expression may yield.
//!
//! The evaluator is a pure recursive walk over expression handles; this
//! module states its meaning.  An evaluation is recorded by an
//! [`ExprTrace`]: the tree of results the walk produced, one node per
//! visited expression.  [`expr_trace_ok`] checks a trace against the IR -
//! everywhere except float lanes it pins each result to a single value or
//! error, and a float lane is pinned to the injected host's contract - and
//! [`expr_rel`] relates a handle to a result by asking for such a trace.
//! The checks mirror evaluation order: left before right, components in
//! order, the first failure deciding the outcome.

use vstd::prelude::*;

use crate::binary::binary_rel;
use crate::error::{Error, NodeKind};
use crate::host::{HostReq, HostResp};
use crate::ir::{BinOp, Expr, Function, Literal, ScalarKind, TypeDesc};
use crate::scope::{scope_find, ScopeRep};
use crate::value::{PodValue, Value, ValueRep};

verus! {

/// The value a literal expression constructs: its canonical descriptor and
/// encoding.
pub open spec fn spec_lit_value(lit: Literal) -> ValueRep {
    match lit {
        Literal::Bool(b) => ValueRep {
            ty: TypeDesc::Scalar { kind: ScalarKind::Bool, width: 1 },
            data: PodValue::U8(
                if b {
                    1u8
                } else {
                    0u8
                },
            ).spec_encode(),
        },
        Literal::I32(v) => ValueRep {
            ty: TypeDesc::Scalar { kind: ScalarKind::Sint, width: 4 },
            data: PodValue::I32(v).spec_encode(),
        },
        Literal::U32(v) => ValueRep {
            ty: TypeDesc::Scalar { kind: ScalarKind::Uint, width: 4 },
            data: PodValue::U32(v).spec_encode(),
        },
        Literal::F32Bits(b) => ValueRep {
            ty: TypeDesc::Scalar { kind: ScalarKind::Float, width: 4 },
            data: PodValue::F32Bits(b).spec_encode(),
        },
        Literal::F64Bits(b) => ValueRep {
            ty: TypeDesc::Scalar { kind: ScalarKind::Float, width: 8 },
            data: PodValue::F64Bits(b).spec_encode(),
        },
    }
}

/// Executable construction of a literal's value.
pub fn literal_value(lit: &Literal) -> (out: Value)
    ensures
        out@ == spec_lit_value(*lit),
{
    match lit {
        Literal::Bool(b) => Value::from_pod(
            TypeDesc::Scalar { kind: ScalarKind::Bool, width: 1 },
            PodValue::U8(
                if *b {
                    1
                } else {
                    0
                },
            ),
        ),
        Literal::I32(v) => Value::from_pod(
            TypeDesc::Scalar { kind: ScalarKind::Sint, width: 4 },
            PodValue::I32(*v),
        ),
        Literal::U32(v) => Value::from_pod(
            TypeDesc::Scalar { kind: ScalarKind::Uint, width: 4 },
            PodValue::U32(*v),
        ),
        Literal::F32Bits(b) => Value::from_pod(
            TypeDesc::Scalar { kind: ScalarKind::Float, width: 4 },
            PodValue::F32Bits(*b),
        ),
        Literal::F64Bits(b) => Value::from_pod(
            TypeDesc::Scalar { kind: ScalarKind::Float, width: 8 },
            PodValue::F64Bits(*b),
        ),
    }
}

/// What resolving an argument reference yields: the argument must carry a
/// name, a scope must be active, and the name must be bound in it.
pub open spec fn spec_arg_expr(f: &Function, a: u32, s: Option<ScopeRep>) -> Result<
    ValueRep,
    Error,
>
    recommends
        a < f.arguments@.len(),
{
    match f.arguments@[a as int].name {
        None => Err(Error::UnnamedArgument),
        Some(name) => match s {
            None => Err(Error::MissingScope),
            Some(sc) => match scope_find(sc, name@) {
                Some(v) => Ok(v),
                None => Err(Error::UnboundVariable),
            },
        },
    }
}

/// The record of one expression evaluation: the results the walk produced,
/// one node per visited expression.  A composite node lists the traces of
/// the children that were visited, in order; a run stops at its first
/// failing child.
pub enum ExprTrace {
    /// A node with no sub-evaluations: a literal, an argument reference,
    /// or an unsupported kind.
    Leaf { res: Result<ValueRep, Error> },
    /// A compose node: one trace per evaluated component.
    Compose { parts: Seq<ExprTrace>, res: Result<ValueRep, Error> },
    /// A binary node: the left operand's trace, and the right's if the
    /// left succeeded.
    Binary { parts: Seq<ExprTrace>, res: Result<ValueRep, Error> },
}

/// The result a trace's root node produced.
pub open spec fn trace_res(t: ExprTrace) -> Result<ValueRep, Error> {
    match t {
        ExprTrace::Leaf { res } => res,
        ExprTrace::Compose { parts, res } => res,
        ExprTrace::Binary { parts, res } => res,
    }
}

/// The root results of a list of traces.
pub open spec fn trace_results(parts: Seq<ExprTrace>) -> Seq<Result<ValueRep, Error>> {
    Seq::new(parts.len(), |j: int| trace_res(parts[j]))
}

/// The concatenated encodings of a list of successful results.
pub open spec fn concat_datas(results: Seq<Result<ValueRep, Error>>) -> Seq<u8>
    decreases results.len(),
{
    if results.len() == 0 {
        Seq::<u8>::empty()
    } else {
        concat_datas(results.drop_last()) + match results.last() {
            Ok(v) => v.data,
            Err(_) => Seq::<u8>::empty(),
        }
    }
}

/// What a component run amounts to: its final error, or the concatenation
/// of all the component encodings.
pub open spec fn compose_outcome(results: Seq<Result<ValueRep, Error>>) -> Result<Seq<u8>, Error> {
    if results.len() > 0 && results.last() is Err {
        Err(results.last()->Err_0)
    } else {
        Ok(concat_datas(results))
    }
}

/// The value a compose node yields from its component results: the byte
/// concatenation, typed `ty`, which it must fill exactly.
pub open spec fn compose_finish(ty: TypeDesc, results: Seq<Result<ValueRep, Error>>) -> Result<
    ValueRep,
    Error,
> {
    match compose_outcome(results) {
        Err(e) => Err(e),
        Ok(bytes) => if bytes.len() == ty.spec_size() {
            Ok(ValueRep { ty, data: bytes })
        } else {
            Err(Error::SizeMismatch(bytes.len() as usize, ty.spec_size() as usize))
        },
    }
}

/// Whether a list of child traces records a left-to-right run over
/// `n_comps` handles that stops at its first failure: every trace before
/// the last succeeded, and the run is shorter than the handle list only
/// when it ended in an error.
pub open spec fn parts_shape_ok(n_comps: nat, parts: Seq<ExprTrace>) -> bool {
    &&& parts.len() <= n_comps
    &&& (forall|j: int| 0 <= j < parts.len() - 1 ==> trace_res(#[trigger] parts[j]) is Ok)
    &&& (parts.len() < n_comps ==> parts.len() > 0 && trace_res(parts.last()) is Err)
}

/// Checks a trace against the expression stored at arena index `i`.
pub open spec fn expr_trace_ok<F: Fn(HostReq) -> HostResp>(
    host: F,
    f: &Function,
    i: int,
    s: Option<ScopeRep>,
    t: ExprTrace,
) -> bool
    decreases t, 1int,
{
    if !(0 <= i < f.expressions@.len()) {
        false
    } else {
        match f.expressions@[i] {
            Expr::Literal(lit) => t == (ExprTrace::Leaf {
                res: Ok::<ValueRep, Error>(spec_lit_value(lit)),
            }),
            Expr::FunctionArgument(a) => a < f.arguments@.len() && t == (ExprTrace::Leaf {
                res: spec_arg_expr(f, a, s),
            }),
            Expr::Compose { ty, components } => match t {
                ExprTrace::Compose { parts, res } => {
                    &&& parts_shape_ok(components@.len(), parts)
                    &&& (forall|j: int|
                        0 <= j < parts.len() ==> expr_trace_ok(
                            host,
                            f,
                            components@[j] as int,
                            s,
                            #[trigger] parts[j],
                        ))
                    &&& res == compose_finish(ty, trace_results(parts))
                },
                _ => false,
            },
            Expr::Binary { op, left, right } => binary_trace_ok(host, f, op, left, right, s, t),
            Expr::Other => t == (ExprTrace::Leaf {
                res: Err::<ValueRep, Error>(Error::Unimplemented(NodeKind::Expression)),
            }),
        }
    }
}

/// Checks a trace against a binary-operator node: the left operand is
/// evaluated first, then the right, the first failure deciding the
/// outcome; two successes combine through [`binary_rel`].
pub open spec fn binary_trace_ok<F: Fn(HostReq) -> HostResp>(
    host: F,
    f: &Function,
    op: BinOp,
    left: usize,
    right: usize,
    s: Option<ScopeRep>,
    t: ExprTrace,
) -> bool
    decreases t, 0int,
{
    match t {
        ExprTrace::Binary { parts, res } => {
            &&& 1 <= parts.len() <= 2
            &&& expr_trace_ok(host, f, left as int, s, parts[0])
            &&& match trace_res(parts[0]) {
                Err(e) => parts.len() == 1 && res == Err::<ValueRep, Error>(e),
                Ok(lv) => {
                    &&& parts.len() == 2
                    &&& expr_trace_ok(host, f, right as int, s, parts[1])
                    &&& match trace_res(parts[1]) {
                        Err(e) => res == Err::<ValueRep, Error>(e),
                        Ok(rv) => binary_rel(host, op, lv, rv, res),
                    }
                },
            }
        },
        _ => false,
    }
}

/// Relates one expression handle to a result it may evaluate to, under the
/// given active scope: some evaluation trace checks out and ends in that
/// result.
pub open spec fn expr_rel<F: Fn(HostReq) -> HostResp>(
    host: F,
    f: &Function,
    i: int,
    s: Option<ScopeRep>,
    res: Result<ValueRep, Error>,
) -> bool {
    exists|t: ExprTrace| #[trigger] expr_trace_ok(host, f, i, s, t) && trace_res(t) == res
}

/// Relates a binary-operator node to a result it may evaluate to.
pub open spec fn binary_expr_rel<F: Fn(HostReq) -> HostResp>(
    host: F,
    f: &Function,
    op: BinOp,
    left: usize,
    right: usize,
    s: Option<ScopeRep>,
    res: Result<ValueRep, Error>,
) -> bool {
    exists|t: ExprTrace|
        #[trigger] binary_trace_ok(host, f, op, left, right, s, t) && trace_res(t) == res
}

} // verus!
