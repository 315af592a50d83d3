//! What executing a statement may yield.
//!
//! The statement executor walks the tree, threading the active scope and a
//! "last value" slot: a list of statements yields whatever its last
//! executed statement yielded, and the first failure aborts the walk.  A
//! block runs its children in a fresh scope that inherits the enclosing
//! bindings and is discarded on exit, error or not.  As with expressions,
//! an execution is recorded by a trace - [`StmtTrace`] - checked against
//! the IR by [`stmt_trace_ok`].

use vstd::prelude::*;

use crate::error::{Error, NodeKind};
use crate::expression::{
    compose_outcome, expr_trace_ok, parts_shape_ok, trace_res, trace_results, ExprTrace,
};
use crate::host::{HostReq, HostResp};
use crate::interpreter::spec_pushed;
use crate::ir::{Function, Stmt};
use crate::scope::ScopeRep;
use crate::value::{Value, ValueRep};

verus! {

/// The scope a block's children run under: a copy of the bindings visible
/// outside the block, with nothing added.
pub open spec fn spec_block_scope(s: Option<ScopeRep>) -> Option<ScopeRep> {
    Some(spec_pushed(s, Seq::<(Seq<char>, ValueRep)>::empty()))
}

/// The record of one statement execution: one node per executed
/// statement, with the traces of the expressions or nested statements it
/// ran, in order.
#[allow(inconsistent_fields)]
pub enum StmtTrace {
    /// A statement with no sub-evaluations: a bare return, or an
    /// unsupported kind.
    Simple { res: Result<Option<ValueRep>, Error> },
    /// A return with a value: the returned expression's trace.
    Return { parts: Seq<ExprTrace>, res: Result<Option<ValueRep>, Error> },
    /// An emit: one trace per evaluated expression.
    Emit { parts: Seq<ExprTrace>, res: Result<Option<ValueRep>, Error> },
    /// A block: one trace per executed nested statement.
    Block { parts: Seq<StmtTrace>, res: Result<Option<ValueRep>, Error> },
}

/// The result a statement trace's root produced.
pub open spec fn stmt_trace_res(t: StmtTrace) -> Result<Option<ValueRep>, Error> {
    match t {
        StmtTrace::Simple { res } => res,
        StmtTrace::Return { parts, res } => res,
        StmtTrace::Emit { parts, res } => res,
        StmtTrace::Block { parts, res } => res,
    }
}

/// The root results of a list of statement traces.
pub open spec fn stmt_trace_results(parts: Seq<StmtTrace>) -> Seq<
    Result<Option<ValueRep>, Error>,
> {
    Seq::new(parts.len(), |j: int| stmt_trace_res(parts[j]))
}

/// Whether a list of statement traces records a run that stops at its
/// first failure.
pub open spec fn stmt_parts_shape_ok(n_stmts: nat, parts: Seq<StmtTrace>) -> bool {
    &&& parts.len() <= n_stmts
    &&& (forall|j: int| 0 <= j < parts.len() - 1 ==> stmt_trace_res(#[trigger] parts[j]) is Ok)
    &&& (parts.len() < n_stmts ==> parts.len() > 0 && stmt_trace_res(parts.last()) is Err)
}

/// What a run of statement results amounts to: the final error if the run
/// ended in one, else the last statement's value - `None` for an empty
/// run.  A success earlier in the run is discarded: only the last
/// executed statement's value survives.
pub open spec fn stmts_outcome(results: Seq<Result<Option<ValueRep>, Error>>) -> Result<
    Option<ValueRep>,
    Error,
> {
    if results.len() == 0 {
        Ok(None)
    } else if results.last() is Err {
        Err(results.last()->Err_0)
    } else {
        Ok(results.last()->Ok_0)
    }
}

/// Checks a trace against one statement.
pub open spec fn stmt_trace_ok<F: Fn(HostReq) -> HostResp>(
    host: F,
    f: &Function,
    st: Stmt,
    s: Option<ScopeRep>,
    t: StmtTrace,
) -> bool
    decreases t,
{
    match st {
        Stmt::Emit { exprs } => match t {
            StmtTrace::Emit { parts, res } => {
                &&& parts_shape_ok(exprs@.len(), parts)
                &&& (forall|j: int|
                    0 <= j < parts.len() ==> expr_trace_ok(
                        host,
                        f,
                        exprs@[j] as int,
                        s,
                        #[trigger] parts[j],
                    ))
                &&& res == (match compose_outcome(trace_results(parts)) {
                    Err(e) => Err::<Option<ValueRep>, Error>(e),
                    Ok(_) => Ok::<Option<ValueRep>, Error>(None),
                })
            },
            _ => false,
        },
        Stmt::Block { body } => match t {
            StmtTrace::Block { parts, res } => {
                &&& stmt_parts_shape_ok(body@.len(), parts)
                &&& (forall|j: int|
                    0 <= j < parts.len() ==> stmt_trace_ok(
                        host,
                        f,
                        body@[j],
                        spec_block_scope(s),
                        #[trigger] parts[j],
                    ))
                &&& res == stmts_outcome(stmt_trace_results(parts))
            },
            _ => false,
        },
        Stmt::Return { value } => match value {
            None => t == (StmtTrace::Simple { res: Ok::<Option<ValueRep>, Error>(None) }),
            Some(h) => match t {
                StmtTrace::Return { parts, res } => {
                    &&& parts.len() == 1
                    &&& expr_trace_ok(host, f, h as int, s, parts[0])
                    &&& res == (match trace_res(parts[0]) {
                        Err(e) => Err::<Option<ValueRep>, Error>(e),
                        Ok(v) => Ok::<Option<ValueRep>, Error>(Some(v)),
                    })
                },
                _ => false,
            },
        },
        Stmt::Other => t == (StmtTrace::Simple {
            res: Err::<Option<ValueRep>, Error>(Error::Unimplemented(NodeKind::Statement)),
        }),
    }
}

/// Relates one statement to a result it may execute to, under the given
/// active scope: some execution trace checks out and ends in that result.
pub open spec fn stmt_rel<F: Fn(HostReq) -> HostResp>(
    host: F,
    f: &Function,
    st: Stmt,
    s: Option<ScopeRep>,
    res: Result<Option<ValueRep>, Error>,
) -> bool {
    exists|t: StmtTrace| #[trigger] stmt_trace_ok(host, f, st, s, t) && stmt_trace_res(t) == res
}

/// Whether a list of statement traces records a run over the given
/// statements, each checked in order under the same scope.
pub open spec fn stmts_seq_ok<F: Fn(HostReq) -> HostResp>(
    host: F,
    f: &Function,
    sts: Seq<Stmt>,
    s: Option<ScopeRep>,
    parts: Seq<StmtTrace>,
) -> bool {
    &&& stmt_parts_shape_ok(sts.len(), parts)
    &&& (forall|j: int|
        0 <= j < parts.len() ==> stmt_trace_ok(host, f, sts[j], s, #[trigger] parts[j]))
}

/// Relates a list of statements, run in order under one scope, to the
/// result the run may yield.
pub open spec fn stmts_rel<F: Fn(HostReq) -> HostResp>(
    host: F,
    f: &Function,
    sts: Seq<Stmt>,
    s: Option<ScopeRep>,
    res: Result<Option<ValueRep>, Error>,
) -> bool {
    exists|parts: Seq<StmtTrace>|
        #[trigger] stmts_seq_ok(host, f, sts, s, parts) && res == stmts_outcome(
            stmt_trace_results(parts),
        )
}

/// The model of an optional returned value.
pub open spec fn spec_opt_value(o: Option<Value>) -> Option<ValueRep> {
    match o {
        Some(v) => Some(v@),
        None => None,
    }
}

/// The model of a statement's returned value/error pair.
pub open spec fn spec_stmt_result(r: Result<Option<Value>, Error>) -> Result<
    Option<ValueRep>,
    Error,
> {
    match r {
        Ok(o) => Ok(spec_opt_value(o)),
        Err(e) => Err(e),
    }
}

} // verus!
