//! The interpreter instance: the requested shader stage, a verbosity
//! knob, and the stack of scopes owned by the evaluation in progress.
//!
//! Execution is single-threaded and non-reentrant: one `run` call owns the
//! scope stack exclusively from start to finish.

use vstd::bytes::{u32_to_le_bytes, u64_to_le_bytes};
use vstd::prelude::*;

use crate::binary::{binary_values, spec_value_result};
use crate::error::{Error, NodeKind};
use crate::expression::{
    binary_expr_rel, binary_trace_ok, compose_outcome, concat_datas, expr_rel, expr_trace_ok,
    literal_value, parts_shape_ok, spec_arg_expr, trace_res, trace_results, ExprTrace,
};
use crate::host::{host_ok, host_parse, resp_parsed, spec_resp_parsed, HostReq, HostResp};
use crate::ir::{
    body_wf, expr_wf, exprs_wf, fn_wf, is_supported_scalar, module_wf, stmt_wf, supported_scalar,
    Argument, BinOp, Expr, Function, Module, ScalarKind, ShaderStage, Stmt, TypeDesc,
};
use crate::lanes::spec_bits_lane;
use crate::scope::{pairs_rep, scope_apply, scope_set, Scope, ScopeRep};
use crate::statement::{
    spec_block_scope, spec_opt_value, spec_stmt_result, stmt_parts_shape_ok, stmt_rel,
    stmt_trace_ok, stmt_trace_res, stmt_trace_results, stmts_outcome, stmts_rel, stmts_seq_ok,
    StmtTrace,
};
use crate::text::{
    lines_rep, parse_bool, parse_i32, parse_u32, spec_parse_bool, spec_parse_i32, spec_parse_u32,
    spec_split_commas, spec_trim, spec_udec, split_commas, trim_str, u32_dec,
};
use crate::value::{encode_pod, PodValue, Value, ValueRep};

verus! {

/// The mathematical model of an interpreter: its stage, verbosity and the
/// models of its scopes, bottom first.
pub struct InterpRep {
    pub stage: ShaderStage,
    pub verbosity: u8,
    pub scopes: Seq<ScopeRep>,
}

/// The scope that lookups read: the top of the stack, if any.
pub open spec fn spec_top(scopes: Seq<ScopeRep>) -> Option<ScopeRep> {
    if scopes.len() == 0 {
        None
    } else {
        Some(scopes.last())
    }
}

/// The scope that a push creates: a copy of the visible bindings with the
/// new bindings applied on top (new bindings win on a name collision).
pub open spec fn spec_pushed(top: Option<ScopeRep>, adds: Seq<(Seq<char>, ValueRep)>) -> ScopeRep {
    scope_apply(
        match top {
            Some(t) => t,
            None => Seq::empty(),
        },
        adds,
    )
}

/// A tree-walking interpreter for one shader stage.
pub struct Interpreter {
    shader_stage: ShaderStage,
    verbosity: u8,
    scopes: Vec<Scope>,
}

impl View for Interpreter {
    type V = InterpRep;

    closed spec fn view(&self) -> InterpRep {
        InterpRep {
            stage: self.shader_stage,
            verbosity: self.verbosity,
            scopes: Seq::new(self.scopes@.len(), |i: int| self.scopes@[i]@),
        }
    }
}

impl Interpreter {
    /// A fresh interpreter for the given stage, with no scope active.
    pub fn new(shader_stage: ShaderStage, verbosity: u8) -> (out: Self)
        ensures
            out@.stage == shader_stage,
            out@.verbosity == verbosity,
            out@.scopes == Seq::<ScopeRep>::empty(),
    {
        let out = Interpreter { shader_stage, verbosity, scopes: Vec::new() };
        proof {
            assert(out@.scopes =~= Seq::<ScopeRep>::empty());
        }
        out
    }

    /// The scope that lookups currently read, if one is active.
    pub fn current_scope(&self) -> (out: Option<&Scope>)
        ensures
            match out {
                Some(s) => spec_top(self@.scopes) == Some(s@),
                None => spec_top(self@.scopes) is None,
            },
    {
        if self.scopes.len() == 0 {
            None
        } else {
            Some(&self.scopes[self.scopes.len() - 1])
        }
    }

    /// Pushes a new scope: a copy of the bindings visible in the current
    /// top scope, with `add_values` bound on top of them in order (later
    /// entries win on a name collision).
    pub fn push_scope(&mut self, add_values: Vec<(String, Value)>)
        ensures
            final(self)@.scopes == old(self)@.scopes.push(
                spec_pushed(spec_top(old(self)@.scopes), pairs_rep(add_values@)),
            ),
            final(self)@.stage == old(self)@.stage,
            final(self)@.verbosity == old(self)@.verbosity,
    {
        let ghost adds = pairs_rep(add_values@);
        let mut base: Scope = if self.scopes.len() == 0 {
            Scope::new()
        } else {
            self.scopes[self.scopes.len() - 1].duplicate()
        };
        let n = add_values.len();
        let mut k: usize = 0;
        let ghost base0 = base@;
        proof {
            assert(adds.skip(0) =~= adds);
        }
        while k < n
            invariant
                k <= n,
                n == add_values@.len(),
                adds == pairs_rep(add_values@),
                adds.len() == n,
                scope_apply(base0, adds) == scope_apply(base@, adds.skip(k as int)),
            decreases n - k,
        {
            let name = add_values[k].0.clone();
            let value = add_values[k].1.clone();
            let ghost before = base@;
            base.set_binding(name, value);
            proof {
                assert(adds.skip(k as int).drop_first() =~= adds.skip(k as int + 1));
                assert(adds.skip(k as int)[0] == adds[k as int]);
                assert(base@ == scope_set(before, adds[k as int].0, adds[k as int].1));
            }
            k = k + 1;
        }
        proof {
            assert(adds.skip(n as int) =~= Seq::<(Seq<char>, crate::value::ValueRep)>::empty());
            assert(scope_apply(base@, adds.skip(n as int)) == base@);
        }
        self.scopes.push(base);
        proof {
            assert(self@.scopes =~= old(self)@.scopes.push(
                spec_pushed(spec_top(old(self)@.scopes), adds),
            ));
        }
    }

    /// Evaluates the expression stored at handle `expr` of `func`'s arena,
    /// under the scope that is currently visible.
    pub fn expression<F: Fn(HostReq) -> HostResp>(
        &self,
        func: &Function,
        host: &F,
        expr: usize,
    ) -> (out: Result<Value, Error>)
        requires
            exprs_wf(*func),
            expr < func.expressions@.len(),
            host_ok(*host),
        ensures
            expr_rel(*host, func, expr as int, spec_top(self@.scopes), spec_value_result(out)),
        decreases expr, 0int,
    {
        let ghost s = spec_top(self@.scopes);
        proof {
            assert(expr_wf(*func, expr as int));
        }
        match &func.expressions[expr] {
            Expr::Literal(lit) => {
                let v = literal_value(lit);
                proof {
                    let t = (ExprTrace::Leaf { res: Ok::<ValueRep, Error>(v@) });
                    assert(expr_trace_ok(*host, func, expr as int, s, t));
                }
                Ok(v)
            },
            Expr::FunctionArgument(a) => {
                let arg = &func.arguments[*a as usize];
                let out: Result<Value, Error> = match &arg.name {
                    None => Err(Error::UnnamedArgument),
                    Some(name) => {
                        if self.scopes.len() == 0 {
                            Err(Error::MissingScope)
                        } else {
                            let sc = &self.scopes[self.scopes.len() - 1];
                            proof {
                                assert(spec_top(self@.scopes) == Some(sc@));
                            }
                            match sc.lookup(name) {
                                Some(v) => Ok(v),
                                None => Err(Error::UnboundVariable),
                            }
                        }
                    },
                };
                proof {
                    let t = (ExprTrace::Leaf { res: spec_value_result(out) });
                    assert(spec_value_result(out) == spec_arg_expr(func, *a, s));
                    assert(expr_trace_ok(*host, func, expr as int, s, t));
                }
                out
            },
            Expr::Compose { ty, components } => {
                let ghost comps = components@;
                proof {
                    assert(func.expressions@[expr as int] == (Expr::Compose {
                        ty: *ty,
                        components: *components,
                    }));
                    assert(forall|k: int|
                        0 <= k < comps.len() ==> (#[trigger] comps[k]) < expr as int);
                }
                let n = components.len();
                let mut data: Vec<u8> = Vec::new();
                let ghost mut parts: Seq<ExprTrace> = Seq::empty();
                let mut j: usize = 0;
                while j < n
                    invariant
                        exprs_wf(*func),
                        expr < func.expressions@.len(),
                        host_ok(*host),
                        expr_wf(*func, expr as int),
                        s == spec_top(self@.scopes),
                        comps == components@,
                        forall|k: int| 0 <= k < comps.len() ==> (#[trigger] comps[k]) < expr as int,
                        func.expressions@[expr as int] == (Expr::Compose {
                            ty: *ty,
                            components: *components,
                        }),
                        n == comps.len(),
                        j <= n,
                        parts.len() == j,
                        forall|k: int|
                            0 <= k < j ==> expr_trace_ok(
                                *host,
                                func,
                                comps[k] as int,
                                s,
                                #[trigger] parts[k],
                            ),
                        forall|k: int| 0 <= k < j ==> trace_res(#[trigger] parts[k]) is Ok,
                        concat_datas(trace_results(parts)) == data@,
                    decreases n - j,
                {
                    let c = components[j];
                    match self.expression(func, host, c) {
                        Ok(v) => {
                            let ghost ct = choose|t: ExprTrace|
                                #[trigger] expr_trace_ok(*host, func, c as int, s, t) && trace_res(
                                    t,
                                ) == spec_value_result(Ok(v));
                            let ghost prev = parts;
                            proof {
                                parts = parts.push(ct);
                                assert(trace_results(parts).drop_last() =~= trace_results(prev));
                                assert(concat_datas(trace_results(parts)) == data@ + v@.data);
                            }
                            let mut vd = v.data;
                            data.append(&mut vd);
                        },
                        Err(e) => {
                            let ghost ct = choose|t: ExprTrace|
                                #[trigger] expr_trace_ok(*host, func, c as int, s, t) && trace_res(
                                    t,
                                ) == spec_value_result(Err::<Value, Error>(e));
                            let ghost prev = parts;
                            proof {
                                parts = parts.push(ct);
                                assert(trace_results(parts).drop_last() =~= trace_results(prev));
                                assert forall|k: int|
                                    0 <= k < parts.len() implies expr_trace_ok(
                                    *host,
                                    func,
                                    comps[k] as int,
                                    s,
                                    #[trigger] parts[k],
                                ) by {
                                    if k < j {
                                        assert(parts[k] == prev[k]);
                                    } else {
                                        assert(parts[k] == ct);
                                    }
                                }
                                assert(trace_res(parts.last()) == Err::<ValueRep, Error>(e));
                                assert(parts_shape_ok(comps.len(), parts));
                                assert(compose_outcome(trace_results(parts)) == Err::<
                                    Seq<u8>,
                                    Error,
                                >(e));
                                let t = (ExprTrace::Compose {
                                    parts,
                                    res: Err::<ValueRep, Error>(e),
                                });
                                assert(expr_trace_ok(*host, func, expr as int, s, t));
                            }
                            return Err(e);
                        },
                    }
                    j = j + 1;
                }
                proof {
                    assert(parts_shape_ok(comps.len(), parts));
                    assert(compose_outcome(trace_results(parts)) == Ok::<Seq<u8>, Error>(data@));
                }
                if data.len() == ty.byte_size() {
                    let out = Value::from_data(*ty, data);
                    proof {
                        let t = (ExprTrace::Compose { parts, res: Ok::<ValueRep, Error>(out@) });
                        assert(expr_trace_ok(*host, func, expr as int, s, t));
                    }
                    Ok(out)
                } else {
                    let found = data.len();
                    let declared = ty.byte_size();
                    proof {
                        let t = (ExprTrace::Compose {
                            parts,
                            res: Err::<ValueRep, Error>(Error::SizeMismatch(found, declared)),
                        });
                        assert(expr_trace_ok(*host, func, expr as int, s, t));
                    }
                    Err(Error::SizeMismatch(found, declared))
                }
            },
            Expr::Binary { op, left, right } => {
                let out = self.binary(func, host, *op, *left, *right);
                proof {
                    let t = choose|t: ExprTrace|
                        #[trigger] binary_trace_ok(
                            *host,
                            func,
                            *op,
                            *left,
                            *right,
                            s,
                            t,
                        ) && trace_res(t) == spec_value_result(out);
                    assert(expr_trace_ok(*host, func, expr as int, s, t));
                }
                out
            },
            Expr::Other => {
                proof {
                    let t = (ExprTrace::Leaf {
                        res: Err::<ValueRep, Error>(Error::Unimplemented(NodeKind::Expression)),
                    });
                    assert(expr_trace_ok(*host, func, expr as int, s, t));
                }
                Err(Error::Unimplemented(NodeKind::Expression))
            },
        }
    }

    /// Evaluates a binary-operator node: the left operand fully, then the
    /// right, then the lane-by-lane combination.
    pub fn binary<F: Fn(HostReq) -> HostResp>(
        &self,
        func: &Function,
        host: &F,
        op: BinOp,
        left: usize,
        right: usize,
    ) -> (out: Result<Value, Error>)
        requires
            exprs_wf(*func),
            left < func.expressions@.len(),
            right < func.expressions@.len(),
            host_ok(*host),
        ensures
            binary_expr_rel(
                *host,
                func,
                op,
                left,
                right,
                spec_top(self@.scopes),
                spec_value_result(out),
            ),
        decreases vstd::math::max(left as int, right as int), 1int,
    {
        let ghost s = spec_top(self@.scopes);
        let l = match self.expression(func, host, left) {
            Ok(v) => v,
            Err(e) => {
                proof {
                    let lt = choose|t: ExprTrace|
                        #[trigger] expr_trace_ok(*host, func, left as int, s, t) && trace_res(t)
                            == spec_value_result(Err::<Value, Error>(e));
                    let t = (ExprTrace::Binary {
                        parts: seq![lt],
                        res: Err::<ValueRep, Error>(e),
                    });
                    assert(binary_trace_ok(*host, func, op, left, right, s, t));
                }
                return Err(e);
            },
        };
        let ghost lt = choose|t: ExprTrace|
            #[trigger] expr_trace_ok(*host, func, left as int, s, t) && trace_res(t)
                == spec_value_result(Ok(l));
        let r = match self.expression(func, host, right) {
            Ok(v) => v,
            Err(e) => {
                proof {
                    let rt = choose|t: ExprTrace|
                        #[trigger] expr_trace_ok(*host, func, right as int, s, t) && trace_res(t)
                            == spec_value_result(Err::<Value, Error>(e));
                    let t = (ExprTrace::Binary {
                        parts: seq![lt, rt],
                        res: Err::<ValueRep, Error>(e),
                    });
                    assert(binary_trace_ok(*host, func, op, left, right, s, t));
                }
                return Err(e);
            },
        };
        let out = binary_values(&op, &l, &r, host);
        proof {
            let rt = choose|t: ExprTrace|
                #[trigger] expr_trace_ok(*host, func, right as int, s, t) && trace_res(t)
                    == spec_value_result(Ok(r));
            let t = (ExprTrace::Binary { parts: seq![lt, rt], res: spec_value_result(out) });
            assert(binary_trace_ok(*host, func, op, left, right, s, t));
        }
        out
    }


    /// Executes one statement under the current scope, yielding the value
    /// it produced (if any) and leaving the scope stack exactly as it
    /// found it - also on an error exit.
    pub fn statement<F: Fn(HostReq) -> HostResp>(
        &mut self,
        func: &Function,
        host: &F,
        stmt: &Stmt,
    ) -> (out: Result<Option<Value>, Error>)
        requires
            exprs_wf(*func),
            stmt_wf(*stmt, func.expressions@.len()),
            host_ok(*host),
        ensures
            final(self)@ == old(self)@,
            stmt_rel(*host, func, *stmt, spec_top(old(self)@.scopes), spec_stmt_result(out)),
        decreases *stmt,
    {
        let ghost s = spec_top(self@.scopes);
        match stmt {
            Stmt::Emit { exprs } => {
                let ghost hs = exprs@;
                proof {
                    assert(forall|k: int|
                        0 <= k < hs.len() ==> (#[trigger] hs[k]) < func.expressions@.len());
                }
                let n = exprs.len();
                let ghost mut parts: Seq<ExprTrace> = Seq::empty();
                let mut j: usize = 0;
                while j < n
                    invariant
                        exprs_wf(*func),
                        host_ok(*host),
                        self@ == old(self)@,
                        s == spec_top(self@.scopes),
                        hs == exprs@,
                        *stmt == (Stmt::Emit { exprs: *exprs }),
                        forall|k: int|
                            0 <= k < hs.len() ==> (#[trigger] hs[k]) < func.expressions@.len(),
                        n == hs.len(),
                        j <= n,
                        parts.len() == j,
                        forall|k: int|
                            0 <= k < j ==> expr_trace_ok(
                                *host,
                                func,
                                hs[k] as int,
                                s,
                                #[trigger] parts[k],
                            ),
                        forall|k: int| 0 <= k < j ==> trace_res(#[trigger] parts[k]) is Ok,
                    decreases n - j,
                {
                    let c = exprs[j];
                    match self.expression(func, host, c) {
                        Ok(v) => {
                            let ghost ct = choose|t: ExprTrace|
                                #[trigger] expr_trace_ok(*host, func, c as int, s, t) && trace_res(
                                    t,
                                ) == spec_value_result(Ok(v));
                            proof {
                                parts = parts.push(ct);
                            }
                        },
                        Err(e) => {
                            let ghost ct = choose|t: ExprTrace|
                                #[trigger] expr_trace_ok(*host, func, c as int, s, t) && trace_res(
                                    t,
                                ) == spec_value_result(Err::<Value, Error>(e));
                            let ghost prev = parts;
                            proof {
                                parts = parts.push(ct);
                                assert forall|k: int|
                                    0 <= k < parts.len() implies expr_trace_ok(
                                    *host,
                                    func,
                                    hs[k] as int,
                                    s,
                                    #[trigger] parts[k],
                                ) by {
                                    if k < j {
                                        assert(parts[k] == prev[k]);
                                    } else {
                                        assert(parts[k] == ct);
                                    }
                                }
                                assert(parts_shape_ok(hs.len(), parts));
                                assert(compose_outcome(trace_results(parts)) == Err::<
                                    Seq<u8>,
                                    Error,
                                >(e));
                                let t = (StmtTrace::Emit {
                                    parts,
                                    res: Err::<Option<ValueRep>, Error>(e),
                                });
                                assert(stmt_trace_ok(*host, func, *stmt, s, t));
                            }
                            return Err(e);
                        },
                    }
                    j = j + 1;
                }
                proof {
                    assert(parts_shape_ok(hs.len(), parts));
                    assert(compose_outcome(trace_results(parts)) is Ok);
                    let t = (StmtTrace::Emit {
                        parts,
                        res: Ok::<Option<ValueRep>, Error>(None),
                    });
                    assert(stmt_trace_ok(*host, func, *stmt, s, t));
                }
                Ok(None)
            },
            Stmt::Block { body } => {
                proof {
                    assert(forall|k: int|
                        0 <= k < body@.len() ==> stmt_wf(
                            #[trigger] body@[k],
                            func.expressions@.len(),
                        ));
                }
                self.push_scope(Vec::new());
                let ghost snap = self@.scopes;
                let ghost inner = spec_top(self@.scopes);
                proof {
                    assert(pairs_rep(Seq::<(String, Value)>::empty()) =~= Seq::<
                        (Seq<char>, ValueRep),
                    >::empty());
                    assert(inner == spec_block_scope(s));
                    assert(snap.drop_last() =~= old(self)@.scopes);
                }
                let n = body.len();
                let mut value: Option<Value> = None;
                let ghost mut parts: Seq<StmtTrace> = Seq::empty();
                let mut j: usize = 0;
                while j < n
                    invariant
                        exprs_wf(*func),
                        host_ok(*host),
                        forall|k: int|
                            0 <= k < body@.len() ==> stmt_wf(
                                #[trigger] body@[k],
                                func.expressions@.len(),
                            ),
                        n == body@.len(),
                        j <= n,
                        *stmt == (Stmt::Block { body: *body }),
                        s == spec_top(old(self)@.scopes),
                        self@.scopes == snap,
                        self@.stage == old(self)@.stage,
                        self@.verbosity == old(self)@.verbosity,
                        snap.len() > 0,
                        snap.drop_last() == old(self)@.scopes,
                        inner == spec_top(snap),
                        inner == spec_block_scope(s),
                        parts.len() == j,
                        forall|k: int|
                            0 <= k < j ==> stmt_trace_ok(
                                *host,
                                func,
                                body@[k],
                                inner,
                                #[trigger] parts[k],
                            ),
                        forall|k: int| 0 <= k < j ==> stmt_trace_res(#[trigger] parts[k]) is Ok,
                        stmts_outcome(stmt_trace_results(parts)) == Ok::<
                            Option<ValueRep>,
                            Error,
                        >(spec_opt_value(value)),
                    decreases n - j,
                {
                    proof {
                        let stv = *stmt;
                        assert(decreases_to!(stv => stv->Block_body@[j as int]));
                        assert(stv->Block_body@[j as int] == body@[j as int]);
                    }
                    match self.statement(func, host, &body[j]) {
                        Ok(v) => {
                            let ghost ct = choose|t: StmtTrace|
                                #[trigger] stmt_trace_ok(
                                    *host,
                                    func,
                                    body@[j as int],
                                    inner,
                                    t,
                                ) && stmt_trace_res(t) == spec_stmt_result(
                                    Ok::<Option<Value>, Error>(v),
                                );
                            proof {
                                parts = parts.push(ct);
                            }
                            value = v;
                        },
                        Err(e) => {
                            let ghost ct = choose|t: StmtTrace|
                                #[trigger] stmt_trace_ok(
                                    *host,
                                    func,
                                    body@[j as int],
                                    inner,
                                    t,
                                ) && stmt_trace_res(t) == spec_stmt_result(
                                    Err::<Option<Value>, Error>(e),
                                );
                            let ghost prev = parts;
                            proof {
                                parts = parts.push(ct);
                                assert forall|k: int|
                                    0 <= k < parts.len() implies stmt_trace_ok(
                                    *host,
                                    func,
                                    body@[k],
                                    inner,
                                    #[trigger] parts[k],
                                ) by {
                                    if k < j {
                                        assert(parts[k] == prev[k]);
                                    } else {
                                        assert(parts[k] == ct);
                                    }
                                }
                                assert(stmt_parts_shape_ok(body@.len(), parts));
                                assert(stmts_outcome(stmt_trace_results(parts)) == Err::<
                                    Option<ValueRep>,
                                    Error,
                                >(e));
                                let t = (StmtTrace::Block {
                                    parts,
                                    res: Err::<Option<ValueRep>, Error>(e),
                                });
                                assert(stmt_trace_ok(*host, func, *stmt, s, t));
                            }
                            let _popped = self.pop_scope();
                            proof {
                                assert(self@.scopes =~= old(self)@.scopes);
                            }
                            return Err(e);
                        },
                    }
                    j = j + 1;
                }
                proof {
                    assert(stmt_parts_shape_ok(body@.len(), parts));
                    let t = (StmtTrace::Block {
                        parts,
                        res: Ok::<Option<ValueRep>, Error>(spec_opt_value(value)),
                    });
                    assert(stmt_trace_ok(*host, func, *stmt, s, t));
                }
                let _popped = self.pop_scope();
                proof {
                    assert(self@.scopes =~= old(self)@.scopes);
                }
                Ok(value)
            },
            Stmt::Return { value } => match value {
                None => {
                    proof {
                        let t = (StmtTrace::Simple {
                            res: Ok::<Option<ValueRep>, Error>(None),
                        });
                        assert(stmt_trace_ok(*host, func, *stmt, s, t));
                    }
                    Ok(None)
                },
                Some(h) => {
                    proof {
                        assert((*h) < func.expressions@.len());
                    }
                    match self.expression(func, host, *h) {
                        Ok(v) => {
                            proof {
                                let ct = choose|t: ExprTrace|
                                    #[trigger] expr_trace_ok(
                                        *host,
                                        func,
                                        *h as int,
                                        s,
                                        t,
                                    ) && trace_res(t) == spec_value_result(Ok(v));
                                let t = (StmtTrace::Return {
                                    parts: seq![ct],
                                    res: Ok::<Option<ValueRep>, Error>(Some(v@)),
                                });
                                assert(stmt_trace_ok(*host, func, *stmt, s, t));
                            }
                            Ok(Some(v))
                        },
                        Err(e) => {
                            proof {
                                let ct = choose|t: ExprTrace|
                                    #[trigger] expr_trace_ok(
                                        *host,
                                        func,
                                        *h as int,
                                        s,
                                        t,
                                    ) && trace_res(t) == spec_value_result(
                                        Err::<Value, Error>(e),
                                    );
                                let t = (StmtTrace::Return {
                                    parts: seq![ct],
                                    res: Err::<Option<ValueRep>, Error>(e),
                                });
                                assert(stmt_trace_ok(*host, func, *stmt, s, t));
                            }
                            Err(e)
                        },
                    }
                },
            },
            Stmt::Other => {
                proof {
                    let t = (StmtTrace::Simple {
                        res: Err::<Option<ValueRep>, Error>(
                            Error::Unimplemented(NodeKind::Statement),
                        ),
                    });
                    assert(stmt_trace_ok(*host, func, *stmt, s, t));
                }
                Err(Error::Unimplemented(NodeKind::Statement))
            },
        }
    }

    /// Runs the entry point of this interpreter's stage: selects it,
    /// binds the caller-supplied argument lines into the initial scope,
    /// executes the body, and returns the final value, if any.  The scope
    /// stack is left exactly as it was found.
    pub fn run<F: Fn(HostReq) -> HostResp>(
        &mut self,
        module: &Module,
        inputs: &Vec<String>,
        host: &F,
    ) -> (out: Result<Option<Value>, Error>)
        requires
            module_wf(*module),
            host_ok(*host),
        ensures
            final(self)@ == old(self)@,
            run_rel(
                *host,
                module,
                old(self)@.stage,
                lines_rep(inputs@),
                old(self)@.scopes,
                spec_stmt_result(out),
            ),
    {
        let ghost pre = self@.scopes;
        let ghost st = self@.stage;
        let ep = match select_entry_point(module, self.shader_stage) {
            Ok(ep) => ep,
            Err(e) => {
                return Err(e);
            },
        };
        let ghost k = choose|k: int|
            #[trigger] spec_select(module, st) == Some(k) && *ep == module.entry_points@[k];
        let func = &ep.function;
        proof {
            lemma_select_in_range(module, st, 0);
            assert(0 <= k < module.entry_points@.len());
            assert(fn_wf(*func));
        }
        let bindings = match bind_arguments(func, inputs, host) {
            Ok(b) => b,
            Err(e) => {
                proof {
                    let bres: Result<Seq<(Seq<char>, ValueRep)>, Error> = Err(e);
                    assert(bind_rel(
                        *host,
                        module.entry_points@[k].function.arguments@,
                        lines_rep(inputs@),
                        bres,
                    ));
                    assert(entry_run_rel(
                        *host,
                        module,
                        k,
                        lines_rep(inputs@),
                        pre,
                        spec_stmt_result(Err::<Option<Value>, Error>(e)),
                    ));
                }
                return Err(e);
            },
        };
        let ghost gbindings = pairs_rep(bindings@);
        proof {
            assert(bind_rel(
                *host,
                module.entry_points@[k].function.arguments@,
                lines_rep(inputs@),
                Ok::<Seq<(Seq<char>, ValueRep)>, Error>(gbindings),
            ));
        }
        self.push_scope(bindings);
        let ghost snap = self@.scopes;
        let ghost inner = spec_top(snap);
        proof {
            assert(inner == Some(spec_pushed(spec_top(pre), gbindings)));
            assert(snap.drop_last() =~= pre);
        }
        let body = &func.body;
        let bn = body.len();
        let mut value: Option<Value> = None;
        let ghost mut parts: Seq<StmtTrace> = Seq::empty();
        let mut j: usize = 0;
        while j < bn
            invariant
                exprs_wf(*func),
                body_wf(*func),
                host_ok(*host),
                *func == module.entry_points@[k].function,
                body == &func.body,
                bn == func.body@.len(),
                j <= bn,
                self@.scopes == snap,
                self@.stage == old(self)@.stage,
                self@.verbosity == old(self)@.verbosity,
                snap.len() > 0,
                snap.drop_last() == pre,
                pre == old(self)@.scopes,
                st == old(self)@.stage,
                inner == spec_top(snap),
                inner == Some(spec_pushed(spec_top(pre), gbindings)),
                spec_select(module, st) == Some(k),
                *ep == module.entry_points@[k],
                bind_rel(
                    *host,
                    module.entry_points@[k].function.arguments@,
                    lines_rep(inputs@),
                    Ok::<Seq<(Seq<char>, ValueRep)>, Error>(gbindings),
                ),
                parts.len() == j,
                forall|m: int|
                    0 <= m < j ==> stmt_trace_ok(
                        *host,
                        func,
                        func.body@[m],
                        inner,
                        #[trigger] parts[m],
                    ),
                forall|m: int| 0 <= m < j ==> stmt_trace_res(#[trigger] parts[m]) is Ok,
                stmts_outcome(stmt_trace_results(parts)) == Ok::<Option<ValueRep>, Error>(
                    spec_opt_value(value),
                ),
            decreases bn - j,
        {
            proof {
                assert(stmt_wf(func.body@[j as int], func.expressions@.len()));
            }
            match self.statement(func, host, &body[j]) {
                Ok(v) => {
                    let ghost ct = choose|t: StmtTrace|
                        #[trigger] stmt_trace_ok(
                            *host,
                            func,
                            func.body@[j as int],
                            inner,
                            t,
                        ) && stmt_trace_res(t) == spec_stmt_result(
                            Ok::<Option<Value>, Error>(v),
                        );
                    proof {
                        parts = parts.push(ct);
                    }
                    value = v;
                },
                Err(e) => {
                    let ghost ct = choose|t: StmtTrace|
                        #[trigger] stmt_trace_ok(
                            *host,
                            func,
                            func.body@[j as int],
                            inner,
                            t,
                        ) && stmt_trace_res(t) == spec_stmt_result(
                            Err::<Option<Value>, Error>(e),
                        );
                    let ghost prev = parts;
                    proof {
                        parts = parts.push(ct);
                        assert forall|m: int|
                            0 <= m < parts.len() implies stmt_trace_ok(
                            *host,
                            func,
                            func.body@[m],
                            inner,
                            #[trigger] parts[m],
                        ) by {
                            if m < j {
                                assert(parts[m] == prev[m]);
                            } else {
                                assert(parts[m] == ct);
                            }
                        }
                        assert(stmt_parts_shape_ok(func.body@.len(), parts));
                        assert(stmts_seq_ok(
                            *host,
                            func,
                            func.body@,
                            inner,
                            parts,
                        ));
                        assert(stmts_outcome(stmt_trace_results(parts)) == Err::<
                            Option<ValueRep>,
                            Error,
                        >(e));
                        assert(stmts_rel(
                            *host,
                            func,
                            func.body@,
                            inner,
                            spec_stmt_result(Err::<Option<Value>, Error>(e)),
                        ));
                        assert(body_run_rel(
                            *host,
                            module,
                            k,
                            gbindings,
                            pre,
                            spec_stmt_result(Err::<Option<Value>, Error>(e)),
                        ));
                        assert(entry_run_rel(
                            *host,
                            module,
                            k,
                            lines_rep(inputs@),
                            pre,
                            spec_stmt_result(Err::<Option<Value>, Error>(e)),
                        ));
                    }
                    let _popped = self.pop_scope();
                    proof {
                        assert(self@.scopes =~= old(self)@.scopes);
                    }
                    return Err(e);
                },
            }
            j = j + 1;
        }
        proof {
            assert(stmt_parts_shape_ok(func.body@.len(), parts));
            assert(stmts_seq_ok(*host, func, func.body@, inner, parts));
            assert(stmts_rel(
                *host,
                func,
                func.body@,
                inner,
                spec_stmt_result(Ok::<Option<Value>, Error>(value)),
            ));
            assert(body_run_rel(
                *host,
                module,
                k,
                gbindings,
                pre,
                spec_stmt_result(Ok::<Option<Value>, Error>(value)),
            ));
            assert(entry_run_rel(
                *host,
                module,
                k,
                lines_rep(inputs@),
                pre,
                spec_stmt_result(Ok::<Option<Value>, Error>(value)),
            ));
        }
        let _popped = self.pop_scope();
        proof {
            assert(self@.scopes =~= old(self)@.scopes);
        }
        Ok(value)
    }

    /// Removes and returns the top scope; `None` (and no change) when the
    /// stack is empty, which callers must treat as a logic error.
    pub fn pop_scope(&mut self) -> (out: Option<Scope>)
        ensures
            final(self)@.stage == old(self)@.stage,
            final(self)@.verbosity == old(self)@.verbosity,
            match out {
                Some(s) => old(self)@.scopes.len() > 0 && s@ == old(self)@.scopes.last()
                    && final(self)@.scopes == old(self)@.scopes.drop_last(),
                None => old(self)@.scopes.len() == 0 && final(self)@.scopes == old(self)@.scopes,
            },
    {
        let out = self.scopes.pop();
        proof {
            if old(self).scopes@.len() > 0 {
                assert(self@.scopes =~= old(self)@.scopes.drop_last());
            } else {
                assert(self@.scopes =~= old(self)@.scopes);
            }
        }
        out
    }
}

/// The text name of a scalar kind.
pub open spec fn spec_kind_text(kind: ScalarKind) -> Seq<char> {
    match kind {
        ScalarKind::Sint => seq!['S', 'i', 'n', 't'],
        ScalarKind::Uint => seq!['U', 'i', 'n', 't'],
        ScalarKind::Float => seq!['F', 'l', 'o', 'a', 't'],
        ScalarKind::Bool => seq!['B', 'o', 'o', 'l'],
    }
}

/// The text name of a type descriptor: the kind and its bit width, and
/// `vecN<...>` around it for vectors.
pub open spec fn spec_type_text(ty: TypeDesc) -> Seq<char> {
    match ty {
        TypeDesc::Scalar { kind, width } => spec_kind_text(kind) + spec_udec(width as nat * 8),
        TypeDesc::Vector { size, kind, width } => seq!['v', 'e', 'c'] + spec_udec(
            size.spec_lanes(),
        ) + seq!['<'] + spec_kind_text(kind) + spec_udec(width as nat * 8) + seq!['>'],
    }
}

/// The text name of a scalar kind.
fn kind_text(kind: &ScalarKind) -> (out: &'static str)
    ensures
        out@ == spec_kind_text(*kind),
{
    let out: &'static str = match kind {
        ScalarKind::Sint => "Sint",
        ScalarKind::Uint => "Uint",
        ScalarKind::Float => "Float",
        ScalarKind::Bool => "Bool",
    };
    proof {
        reveal_strlit("Sint");
        reveal_strlit("Uint");
        reveal_strlit("Float");
        reveal_strlit("Bool");
        assert(out@ =~= spec_kind_text(*kind));
    }
    out
}

/// Renders a type descriptor's name, for prompts and diagnostics.
pub fn type_text(ty: &TypeDesc) -> (out: String)
    ensures
        out@ == spec_type_text(*ty),
{
    match ty {
        TypeDesc::Scalar { kind, width } => {
            let mut s = kind_text(kind).to_owned();
            let bits = u32_dec((*width as u32) * 8);
            s.append(bits.as_str());
            proof {
                assert(s@ =~= spec_type_text(*ty));
            }
            s
        },
        TypeDesc::Vector { size, kind, width } => {
            let mut s = "vec".to_owned();
            let lanes = u32_dec(size.lanes() as u32);
            s.append(lanes.as_str());
            s.append("<");
            s.append(kind_text(kind));
            let bits = u32_dec((*width as u32) * 8);
            s.append(bits.as_str());
            s.append(">");
            proof {
                reveal_strlit("vec");
                reveal_strlit("<");
                reveal_strlit(">");
                assert(s@ =~= spec_type_text(*ty));
            }
            s
        },
    }
}

/// What parsing one scalar token may produce: the token parsed per the
/// scalar kind and width, encoded as one lane.  Floats are parsed by the
/// injected host.
pub open spec fn token_lane_rel<F: Fn(HostReq) -> HostResp>(
    host: F,
    kind: ScalarKind,
    width: u8,
    tok: Seq<char>,
    out: Result<Seq<u8>, Error>,
) -> bool {
    if !supported_scalar(kind, width) {
        out == Err::<Seq<u8>, Error>(Error::Unimplemented(NodeKind::Shape))
    } else {
        match kind {
            ScalarKind::Sint => out == (match spec_parse_i32(tok) {
                Some(v) => Ok::<Seq<u8>, Error>(PodValue::I32(v).spec_encode()),
                None => Err::<Seq<u8>, Error>(Error::ArgumentParseFailure),
            }),
            ScalarKind::Uint => out == (match spec_parse_u32(tok) {
                Some(v) => Ok::<Seq<u8>, Error>(PodValue::U32(v).spec_encode()),
                None => Err::<Seq<u8>, Error>(Error::ArgumentParseFailure),
            }),
            ScalarKind::Bool => out == (match spec_parse_bool(tok) {
                Some(b) => Ok::<Seq<u8>, Error>(
                    PodValue::U8(
                        if b {
                            1u8
                        } else {
                            0u8
                        },
                    ).spec_encode(),
                ),
                None => Err::<Seq<u8>, Error>(Error::ArgumentParseFailure),
            }),
            ScalarKind::Float => exists|p: Option<u64>|
                #[trigger] host_parse(host, width, tok, p) && out == (match p {
                    Some(bits) => Ok::<Seq<u8>, Error>(spec_bits_lane(width, bits)),
                    None => Err::<Seq<u8>, Error>(Error::ArgumentParseFailure),
                }),
        }
    }
}

/// The model of a returned lane/error pair.
pub open spec fn spec_bytes_result(out: Result<Vec<u8>, Error>) -> Result<Seq<u8>, Error> {
    match out {
        Ok(v) => Ok(v@),
        Err(e) => Err(e),
    }
}

/// Parses one scalar token into its lane encoding.
fn parse_lane<F: Fn(HostReq) -> HostResp>(
    host: &F,
    kind: &ScalarKind,
    width: u8,
    tok: &str,
) -> (out: Result<Vec<u8>, Error>)
    requires
        host_ok(*host),
    ensures
        token_lane_rel(*host, *kind, width, tok@, spec_bytes_result(out)),
{
    if !is_supported_scalar(kind, width) {
        return Err(Error::Unimplemented(NodeKind::Shape));
    }
    match kind {
        ScalarKind::Sint => match parse_i32(tok) {
            Some(v) => Ok(encode_pod(&PodValue::I32(v))),
            None => Err(Error::ArgumentParseFailure),
        },
        ScalarKind::Uint => match parse_u32(tok) {
            Some(v) => Ok(encode_pod(&PodValue::U32(v))),
            None => Err(Error::ArgumentParseFailure),
        },
        ScalarKind::Bool => match parse_bool(tok) {
            Some(b) => Ok(
                encode_pod(
                    &PodValue::U8(
                        if b {
                            1
                        } else {
                            0
                        },
                    ),
                ),
            ),
            None => Err(Error::ArgumentParseFailure),
        },
        ScalarKind::Float => {
            let text = tok.to_owned();
            let ghost gtext = text;
            let resp = host(HostReq::Parse { width, text });
            let ghost gresp = resp;
            let p = resp_parsed(resp);
            proof {
                assert(call_ensures(
                    *host,
                    (HostReq::Parse { width, text: gtext },),
                    gresp,
                ));
                assert(host_parse(*host, width, tok@, spec_resp_parsed(gresp)));
            }
            match p {
                Some(bits) => if width == 4 {
                    Ok(u32_to_le_bytes(#[verifier::truncate] (bits as u32)))
                } else {
                    Ok(u64_to_le_bytes(bits))
                },
                None => Err(Error::ArgumentParseFailure),
            }
        },
    }
}

/// The concatenation of a list of successful lane encodings.
pub open spec fn concat_lanes(outs: Seq<Result<Seq<u8>, Error>>) -> Seq<u8>
    decreases outs.len(),
{
    if outs.len() == 0 {
        Seq::<u8>::empty()
    } else {
        concat_lanes(outs.drop_last()) + match outs.last() {
            Ok(b) => b,
            Err(_) => Seq::<u8>::empty(),
        }
    }
}

/// What a lane run amounts to: its final error, or the concatenation.
pub open spec fn lanes_outcome(outs: Seq<Result<Seq<u8>, Error>>) -> Result<Seq<u8>, Error> {
    if outs.len() > 0 && outs.last() is Err {
        Err(outs.last()->Err_0)
    } else {
        Ok(concat_lanes(outs))
    }
}

/// One admissible parse per token of a prefix of the token list, each
/// token trimmed first; the prefix is proper only when it ends in an
/// error.
pub open spec fn vec_tokens_ok<F: Fn(HostReq) -> HostResp>(
    host: F,
    kind: ScalarKind,
    width: u8,
    toks: Seq<Seq<char>>,
    outs: Seq<Result<Seq<u8>, Error>>,
) -> bool {
    &&& outs.len() <= toks.len()
    &&& (forall|j: int|
        0 <= j < outs.len() ==> token_lane_rel(
            host,
            kind,
            width,
            spec_trim(toks[j]),
            #[trigger] outs[j],
        ))
    &&& (forall|j: int| 0 <= j < outs.len() - 1 ==> (#[trigger] outs[j]) is Ok)
    &&& (outs.len() < toks.len() ==> outs.len() > 0 && outs.last() is Err)
}

/// What parsing one argument line may produce under its declared type:
/// a single parsed token for a scalar; for a vector, the line split on
/// commas - the token count must equal the lane count - and each token
/// parsed as one lane.
pub open spec fn arg_value_rel<F: Fn(HostReq) -> HostResp>(
    host: F,
    ty: TypeDesc,
    line: Seq<char>,
    out: Result<ValueRep, Error>,
) -> bool {
    match ty {
        TypeDesc::Scalar { kind, width } => scalar_arg_rel(host, ty, kind, width, line, out),
        TypeDesc::Vector { size, kind, width } => vector_arg_rel(
            host,
            ty,
            size.spec_lanes(),
            kind,
            width,
            line,
            out,
        ),
    }
}

/// [`arg_value_rel`] for a scalar argument: the trimmed line is the one
/// token.
pub open spec fn scalar_arg_rel<F: Fn(HostReq) -> HostResp>(
    host: F,
    ty: TypeDesc,
    kind: ScalarKind,
    width: u8,
    line: Seq<char>,
    out: Result<ValueRep, Error>,
) -> bool {
    exists|b: Result<Seq<u8>, Error>|
        #[trigger] token_lane_rel(host, kind, width, spec_trim(line), b) && (match b {
            Err(e) => out == Err::<ValueRep, Error>(e),
            Ok(bytes) => out == Ok::<ValueRep, Error>(ValueRep { ty, data: bytes }),
        })
}

/// [`arg_value_rel`] for a vector argument: comma-separated tokens, one
/// per lane.
pub open spec fn vector_arg_rel<F: Fn(HostReq) -> HostResp>(
    host: F,
    ty: TypeDesc,
    lanes: nat,
    kind: ScalarKind,
    width: u8,
    line: Seq<char>,
    out: Result<ValueRep, Error>,
) -> bool {
    if spec_split_commas(spec_trim(line)).len() != lanes {
        out == Err::<ValueRep, Error>(
            Error::ArgumentSizeMismatch(
                spec_split_commas(spec_trim(line)).len() as usize,
                lanes as usize,
            ),
        )
    } else {
        exists|outs: Seq<Result<Seq<u8>, Error>>|
            #[trigger] vec_tokens_ok(host, kind, width, spec_split_commas(spec_trim(line)), outs)
                && (match lanes_outcome(outs) {
                Err(e) => out == Err::<ValueRep, Error>(e),
                Ok(data) => out == Ok::<ValueRep, Error>(ValueRep { ty, data }),
            })
    }
}

/// Parses one argument line into a value of the declared type.
pub fn parse_arg_value<F: Fn(HostReq) -> HostResp>(
    host: &F,
    ty: &TypeDesc,
    line: &str,
) -> (out: Result<Value, Error>)
    requires
        host_ok(*host),
    ensures
        arg_value_rel(*host, *ty, line@, spec_value_result(out)),
{
    let trimmed = trim_str(line);
    match ty {
        TypeDesc::Scalar { kind, width } => match parse_lane(host, kind, *width, trimmed.as_str()) {
            Ok(bytes) => {
                proof {
                    assert(token_lane_rel(
                        *host,
                        *kind,
                        *width,
                        spec_trim(line@),
                        Ok(bytes@),
                    ));
                }
                let out = Value::from_data(*ty, bytes);
                proof {
                    assert(scalar_arg_rel(*host, *ty, *kind, *width, line@, Ok(out@)));
                }
                Ok(out)
            },
            Err(e) => {
                proof {
                    assert(token_lane_rel(
                        *host,
                        *kind,
                        *width,
                        spec_trim(line@),
                        Err::<Seq<u8>, Error>(e),
                    ));
                    assert(scalar_arg_rel(
                        *host,
                        *ty,
                        *kind,
                        *width,
                        line@,
                        Err::<ValueRep, Error>(e),
                    ));
                }
                Err(e)
            },
        },
        TypeDesc::Vector { size, kind, width } => {
            let toks = split_commas(trimmed.as_str());
            let ghost gtoks = spec_split_commas(spec_trim(line@));
            proof {
                assert(lines_rep(toks@) == gtoks);
            }
            let lanes = size.lanes();
            if toks.len() != lanes {
                proof {
                    assert(vector_arg_rel(
                        *host,
                        *ty,
                        size.spec_lanes(),
                        *kind,
                        *width,
                        line@,
                        Err::<ValueRep, Error>(
                            Error::ArgumentSizeMismatch(toks.len(), lanes),
                        ),
                    ));
                }
                return Err(Error::ArgumentSizeMismatch(toks.len(), lanes));
            }
            let mut data: Vec<u8> = Vec::new();
            let ghost mut outs: Seq<Result<Seq<u8>, Error>> = Seq::empty();
            let mut i: usize = 0;
            while i < lanes
                invariant
                    host_ok(*host),
                    *ty == (TypeDesc::Vector { size: *size, kind: *kind, width: *width }),
                    lanes == size.spec_lanes(),
                    gtoks == spec_split_commas(spec_trim(line@)),
                    lines_rep(toks@) == gtoks,
                    toks@.len() == lanes,
                    gtoks.len() == lanes,
                    i <= lanes,
                    outs.len() == i,
                    forall|j: int|
                        0 <= j < i ==> token_lane_rel(
                            *host,
                            *kind,
                            *width,
                            spec_trim(gtoks[j]),
                            #[trigger] outs[j],
                        ),
                    forall|j: int| 0 <= j < i ==> (#[trigger] outs[j]) is Ok,
                    concat_lanes(outs) == data@,
                decreases lanes - i,
            {
                let tok = trim_str(toks[i].as_str());
                proof {
                    assert(toks@[i as int]@ == gtoks[i as int]);
                }
                match parse_lane(host, kind, *width, tok.as_str()) {
                    Ok(bytes) => {
                        let ghost prev = outs;
                        proof {
                            outs = outs.push(Ok(bytes@));
                            assert(outs.drop_last() =~= prev);
                            assert(concat_lanes(outs) == data@ + bytes@);
                        }
                        let mut b = bytes;
                        data.append(&mut b);
                    },
                    Err(e) => {
                        let ghost prev = outs;
                        proof {
                            outs = outs.push(Err(e));
                            assert forall|j: int|
                                0 <= j < outs.len() implies token_lane_rel(
                                *host,
                                *kind,
                                *width,
                                spec_trim(gtoks[j]),
                                #[trigger] outs[j],
                            ) by {
                                if j < i {
                                    assert(outs[j] == prev[j]);
                                } else {
                                    assert(outs[j] == Err::<Seq<u8>, Error>(e));
                                }
                            }
                            assert(vec_tokens_ok(*host, *kind, *width, gtoks, outs));
                            assert(lanes_outcome(outs) == Err::<Seq<u8>, Error>(e));
                            assert(vector_arg_rel(
                                *host,
                                *ty,
                                size.spec_lanes(),
                                *kind,
                                *width,
                                line@,
                                Err::<ValueRep, Error>(e),
                            ));
                        }
                        return Err(e);
                    },
                }
                i = i + 1;
            }
            let out = Value::from_data(*ty, data);
            proof {
                assert(vec_tokens_ok(*host, *kind, *width, gtoks, outs));
                assert(lanes_outcome(outs) == Ok::<Seq<u8>, Error>(data@));
                assert(vector_arg_rel(
                    *host,
                    *ty,
                    size.spec_lanes(),
                    *kind,
                    *width,
                    line@,
                    Ok(out@),
                ));
            }
            Ok(out)
        },
    }
}

/// What binding one declared argument may produce: the argument must
/// carry a name, an input line must be there for it, and the line must
/// parse under the declared type; the binding pairs the name with the
/// parsed value.
pub open spec fn bind_one_rel<F: Fn(HostReq) -> HostResp>(
    host: F,
    arg: Argument,
    lines: Seq<Seq<char>>,
    j: int,
    out: Result<(Seq<char>, ValueRep), Error>,
) -> bool {
    match arg.name {
        None => out == Err::<(Seq<char>, ValueRep), Error>(Error::UnnamedArgument),
        Some(name) => if j >= lines.len() {
            out == Err::<(Seq<char>, ValueRep), Error>(Error::ArgumentParseFailure)
        } else {
            exists|v: Result<ValueRep, Error>|
                #[trigger] arg_value_rel(host, arg.ty, lines[j], v) && (match v {
                    Err(e) => out == Err::<(Seq<char>, ValueRep), Error>(e),
                    Ok(vr) => out == Ok::<(Seq<char>, ValueRep), Error>((name@, vr)),
                })
        },
    }
}

/// One admissible binding per declared argument of a prefix of the
/// argument list; the prefix is proper only when it ends in an error.
pub open spec fn bind_outs_ok<F: Fn(HostReq) -> HostResp>(
    host: F,
    args: Seq<Argument>,
    lines: Seq<Seq<char>>,
    outs: Seq<Result<(Seq<char>, ValueRep), Error>>,
) -> bool {
    &&& outs.len() <= args.len()
    &&& (forall|j: int|
        0 <= j < outs.len() ==> bind_one_rel(host, args[j], lines, j, #[trigger] outs[j]))
    &&& (forall|j: int| 0 <= j < outs.len() - 1 ==> (#[trigger] outs[j]) is Ok)
    &&& (outs.len() < args.len() ==> outs.len() > 0 && outs.last() is Err)
}

/// What a binding run amounts to: its final error, or the bindings in
/// declaration order.
pub open spec fn bind_outcome(outs: Seq<Result<(Seq<char>, ValueRep), Error>>) -> Result<
    Seq<(Seq<char>, ValueRep)>,
    Error,
> {
    if outs.len() > 0 && outs.last() is Err {
        Err(outs.last()->Err_0)
    } else {
        Ok(Seq::new(outs.len(), |j: int| outs[j]->Ok_0))
    }
}

/// Relates the declared arguments and the input lines to the scope
/// bindings (or the failure) they may produce.
pub open spec fn bind_rel<F: Fn(HostReq) -> HostResp>(
    host: F,
    args: Seq<Argument>,
    lines: Seq<Seq<char>>,
    res: Result<Seq<(Seq<char>, ValueRep)>, Error>,
) -> bool {
    exists|outs: Seq<Result<(Seq<char>, ValueRep), Error>>|
        #[trigger] bind_outs_ok(host, args, lines, outs) && res == bind_outcome(outs)
}

/// The model of a returned binding list.
pub open spec fn spec_bind_result(out: Result<Vec<(String, Value)>, Error>) -> Result<
    Seq<(Seq<char>, ValueRep)>,
    Error,
> {
    match out {
        Ok(v) => Ok(pairs_rep(v@)),
        Err(e) => Err(e),
    }
}

/// Binds the caller-supplied input lines to an entry point's declared
/// arguments, one line per argument in declaration order.
pub fn bind_arguments<F: Fn(HostReq) -> HostResp>(
    func: &Function,
    inputs: &Vec<String>,
    host: &F,
) -> (out: Result<Vec<(String, Value)>, Error>)
    requires
        host_ok(*host),
    ensures
        bind_rel(*host, func.arguments@, lines_rep(inputs@), spec_bind_result(out)),
{
    let ghost lines = lines_rep(inputs@);
    let n = func.arguments.len();
    let mut bound: Vec<(String, Value)> = Vec::new();
    let ghost mut outs: Seq<Result<(Seq<char>, ValueRep), Error>> = Seq::empty();
    let mut j: usize = 0;
    while j < n
        invariant
            host_ok(*host),
            lines == lines_rep(inputs@),
            n == func.arguments@.len(),
            j <= n,
            outs.len() == j,
            bound@.len() == j,
            forall|k: int|
                0 <= k < j ==> bind_one_rel(
                    *host,
                    func.arguments@[k],
                    lines,
                    k,
                    #[trigger] outs[k],
                ),
            forall|k: int| 0 <= k < j ==> (#[trigger] outs[k]) is Ok,
            forall|k: int|
                0 <= k < j ==> (#[trigger] pairs_rep(bound@)[k]) == outs[k]->Ok_0,
        decreases n - j,
    {
        let arg = &func.arguments[j];
        match &arg.name {
            None => {
                let ghost prev = outs;
                proof {
                    outs = outs.push(Err(Error::UnnamedArgument));
                    assert forall|k: int|
                        0 <= k < outs.len() implies bind_one_rel(
                        *host,
                        func.arguments@[k],
                        lines,
                        k,
                        #[trigger] outs[k],
                    ) by {
                        if k < j {
                            assert(outs[k] == prev[k]);
                        } else {
                            assert(outs[k] == Err::<(Seq<char>, ValueRep), Error>(
                                Error::UnnamedArgument,
                            ));
                        }
                    }
                    assert(bind_outs_ok(*host, func.arguments@, lines, outs));
                    assert(bind_outcome(outs) == Err::<Seq<(Seq<char>, ValueRep)>, Error>(
                        Error::UnnamedArgument,
                    ));
                }
                return Err(Error::UnnamedArgument);
            },
            Some(name) => {
                if j >= inputs.len() {
                    let ghost prev = outs;
                    proof {
                        outs = outs.push(Err(Error::ArgumentParseFailure));
                        assert forall|k: int|
                            0 <= k < outs.len() implies bind_one_rel(
                            *host,
                            func.arguments@[k],
                            lines,
                            k,
                            #[trigger] outs[k],
                        ) by {
                            if k < j {
                                assert(outs[k] == prev[k]);
                            } else {
                                assert(outs[k] == Err::<(Seq<char>, ValueRep), Error>(
                                    Error::ArgumentParseFailure,
                                ));
                            }
                        }
                        assert(bind_outs_ok(*host, func.arguments@, lines, outs));
                        assert(bind_outcome(outs) == Err::<
                            Seq<(Seq<char>, ValueRep)>,
                            Error,
                        >(Error::ArgumentParseFailure));
                    }
                    return Err(Error::ArgumentParseFailure);
                }
                match parse_arg_value(host, &arg.ty, inputs[j].as_str()) {
                    Ok(v) => {
                        let ghost prev = outs;
                        proof {
                            outs = outs.push(Ok((name@, v@)));
                            assert(lines[j as int] == inputs@[j as int]@);
                            assert(arg_value_rel(
                                *host,
                                arg.ty,
                                lines[j as int],
                                Ok(v@),
                            ));
                        }
                        let ghost prev_bound = bound@;
                        bound.push((name.clone(), v));
                        proof {
                            assert forall|k: int|
                                0 <= k < j + 1 implies (#[trigger] pairs_rep(bound@)[k])
                                == outs[k]->Ok_0 by {
                                if k < j {
                                    assert(outs[k] == prev[k]);
                                    assert(bound@[k] == prev_bound[k]);
                                    assert(pairs_rep(bound@)[k] == pairs_rep(prev_bound)[k]);
                                } else {
                                    assert(bound@[k].0@ == name@);
                                    assert(bound@[k].1@ == v@);
                                }
                            }
                            assert forall|k: int|
                                0 <= k < j + 1 implies bind_one_rel(
                                *host,
                                func.arguments@[k],
                                lines,
                                k,
                                #[trigger] outs[k],
                            ) by {
                                if k < j {
                                    assert(outs[k] == prev[k]);
                                } else {
                                    assert(outs[k] == Ok::<(Seq<char>, ValueRep), Error>(
                                        (name@, v@),
                                    ));
                                }
                            }
                        }
                        j = j + 1;
                    },
                    Err(e) => {
                        let ghost prev = outs;
                        proof {
                            outs = outs.push(Err(e));
                            assert(lines[j as int] == inputs@[j as int]@);
                            assert(arg_value_rel(
                                *host,
                                arg.ty,
                                lines[j as int],
                                Err::<ValueRep, Error>(e),
                            ));
                            assert forall|k: int|
                                0 <= k < outs.len() implies bind_one_rel(
                                *host,
                                func.arguments@[k],
                                lines,
                                k,
                                #[trigger] outs[k],
                            ) by {
                                if k < j {
                                    assert(outs[k] == prev[k]);
                                } else {
                                    assert(outs[k] == Err::<(Seq<char>, ValueRep), Error>(e));
                                }
                            }
                            assert(bind_outs_ok(*host, func.arguments@, lines, outs));
                            assert(bind_outcome(outs) == Err::<
                                Seq<(Seq<char>, ValueRep)>,
                                Error,
                            >(e));
                        }
                        return Err(e);
                    },
                }
            },
        }
    }
    proof {
        assert(bind_outs_ok(*host, func.arguments@, lines, outs));
        assert(bind_outcome(outs) is Ok);
        assert(bind_outcome(outs)->Ok_0 =~= pairs_rep(bound@));
    }
    Ok(bound)
}

/// The first entry point at or after position `i` whose stage matches.
pub open spec fn spec_select_from(m: &Module, stage: ShaderStage, i: int) -> Option<int>
    decreases m.entry_points@.len() - i,
{
    if i < 0 || i >= m.entry_points@.len() {
        None
    } else if m.entry_points@[i].stage == stage {
        Some(i)
    } else {
        spec_select_from(m, stage, i + 1)
    }
}

/// The first entry point whose stage matches, if any.
pub open spec fn spec_select(m: &Module, stage: ShaderStage) -> Option<int> {
    spec_select_from(m, stage, 0)
}

/// A successful selection lands on an in-range entry point of the
/// requested stage.
pub proof fn lemma_select_in_range(m: &Module, stage: ShaderStage, i: int)
    requires
        0 <= i,
        spec_select_from(m, stage, i) is Some,
    ensures
        i <= spec_select_from(m, stage, i)->Some_0 < m.entry_points@.len(),
        m.entry_points@[spec_select_from(m, stage, i)->Some_0].stage == stage,
    decreases m.entry_points@.len() - i,
{
    if i < m.entry_points@.len() && m.entry_points@[i].stage != stage {
        lemma_select_in_range(m, stage, i + 1);
    }
}

/// Finds the first entry point whose stage tag equals the requested
/// stage; fails with `NoEntryPoint` when none matches.
pub fn select_entry_point<'a>(module: &'a Module, stage: ShaderStage) -> (out: Result<
    &'a crate::ir::EntryPoint,
    Error,
>)
    ensures
        match out {
            Ok(ep) => exists|k: int|
                #[trigger] spec_select(module, stage) == Some(k) && *ep
                    == module.entry_points@[k],
            Err(e) => e == Error::NoEntryPoint && spec_select(module, stage) is None,
        },
{
    let n = module.entry_points.len();
    let mut k: usize = 0;
    let mut found = false;
    while !found && k < n
        invariant
            n == module.entry_points@.len(),
            k <= n,
            spec_select(module, stage) == spec_select_from(module, stage, k as int),
            found ==> k < n && module.entry_points@[k as int].stage == stage,
        decreases n - k, (if found { 0int } else { 1int }),
    {
        if module.entry_points[k].stage == stage {
            found = true;
        } else {
            k = k + 1;
        }
    }
    if found {
        proof {
            assert(spec_select(module, stage) == Some(k as int));
        }
        Ok(&module.entry_points[k])
    } else {
        Err(Error::NoEntryPoint)
    }
}

/// Relates running the body of entry point `k` under freshly bound
/// arguments to the result it may yield.
pub open spec fn body_run_rel<F: Fn(HostReq) -> HostResp>(
    host: F,
    m: &Module,
    k: int,
    bindings: Seq<(Seq<char>, ValueRep)>,
    pre: Seq<ScopeRep>,
    res: Result<Option<ValueRep>, Error>,
) -> bool {
    stmts_rel(
        host,
        &m.entry_points@[k].function,
        m.entry_points@[k].function.body@,
        Some(spec_pushed(spec_top(pre), bindings)),
        res,
    )
}

/// Relates running entry point `k`: its arguments bound from the input
/// lines, then its body executed in the initial scope.
pub open spec fn entry_run_rel<F: Fn(HostReq) -> HostResp>(
    host: F,
    m: &Module,
    k: int,
    lines: Seq<Seq<char>>,
    pre: Seq<ScopeRep>,
    res: Result<Option<ValueRep>, Error>,
) -> bool {
    exists|bres: Result<Seq<(Seq<char>, ValueRep)>, Error>|
        #[trigger] bind_rel(host, m.entry_points@[k].function.arguments@, lines, bres) && (
        match bres {
            Err(e) => res == Err::<Option<ValueRep>, Error>(e),
            Ok(bindings) => body_run_rel(host, m, k, bindings, pre, res),
        })
}

/// What one full run may yield: the first entry point of the requested
/// stage is selected, its arguments bound, its body executed; the final
/// value (if any) is returned.
pub open spec fn run_rel<F: Fn(HostReq) -> HostResp>(
    host: F,
    m: &Module,
    stage: ShaderStage,
    lines: Seq<Seq<char>>,
    pre: Seq<ScopeRep>,
    res: Result<Option<ValueRep>, Error>,
) -> bool {
    match spec_select(m, stage) {
        None => res == Err::<Option<ValueRep>, Error>(Error::NoEntryPoint),
        Some(k) => entry_run_rel(host, m, k, lines, pre, res),
    }
}

} // verus!
