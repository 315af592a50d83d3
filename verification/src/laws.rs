//! Laws the interpreter obeys, stated and proved once for all inputs.
//!
//! Each proof function here is part of the library's statement of intent:
//! rendering inverts encoding for every integer and bool value, composing
//! scalar encodings preserves every lane, a binary operation classifies
//! its mismatches exactly, and scope shadowing never leaks between an
//! inner and an outer scope.

use vstd::prelude::*;

use crate::binary::binary_rel;
use crate::error::{Error, TypeMismatchKind};
use crate::host::{HostReq, HostResp};
use crate::ir::{ScalarKind, TypeDesc};
use crate::expression::{
    compose_outcome, concat_datas, expr_rel, expr_trace_ok, spec_lit_value, trace_res,
    trace_results, ExprTrace,
};
use crate::ir::{BinOp, Function, VectorSize};
use crate::lanes::lane_of;
use crate::scope::{
    scope_apply, scope_find, scope_find_from, scope_index_from, scope_set, ScopeRep,
};
use crate::text::{spec_idec, spec_udec};
use crate::value::{decode_encode, display_rel, lane_text_rel, PodValue, ValueRep};

verus! {

/// Rendering inverts encoding for 32-bit signed integers: displaying the
/// value built from `v` can only produce the decimal text of `v`.
pub proof fn lemma_render_round_trip_i32<F: Fn(HostReq) -> HostResp>(
    host: F,
    v: i32,
    res: Result<Seq<char>, Error>,
)
    requires
        display_rel(
            host,
            ValueRep {
                ty: TypeDesc::Scalar { kind: ScalarKind::Sint, width: 4 },
                data: PodValue::I32(v).spec_encode(),
            },
            res,
        ),
    ensures
        res == Ok::<Seq<char>, Error>(spec_idec(v as int)),
{
    let rep = ValueRep {
        ty: TypeDesc::Scalar { kind: ScalarKind::Sint, width: 4 },
        data: PodValue::I32(v).spec_encode(),
    };
    PodValue::I32(v).encode_len();
    let t = choose|t: Seq<char>|
        lane_text_rel(host, ScalarKind::Sint, 4, rep.data, t) && res == Ok::<Seq<char>, Error>(t);
    decode_encode(PodValue::I32(v));
}

/// Rendering inverts encoding for 32-bit unsigned integers.
pub proof fn lemma_render_round_trip_u32<F: Fn(HostReq) -> HostResp>(
    host: F,
    v: u32,
    res: Result<Seq<char>, Error>,
)
    requires
        display_rel(
            host,
            ValueRep {
                ty: TypeDesc::Scalar { kind: ScalarKind::Uint, width: 4 },
                data: PodValue::U32(v).spec_encode(),
            },
            res,
        ),
    ensures
        res == Ok::<Seq<char>, Error>(spec_udec(v as nat)),
{
    let rep = ValueRep {
        ty: TypeDesc::Scalar { kind: ScalarKind::Uint, width: 4 },
        data: PodValue::U32(v).spec_encode(),
    };
    PodValue::U32(v).encode_len();
    let t = choose|t: Seq<char>|
        lane_text_rel(host, ScalarKind::Uint, 4, rep.data, t) && res == Ok::<Seq<char>, Error>(t);
    decode_encode(PodValue::U32(v));
}

/// Rendering inverts encoding for bools: the byte `1` renders as `1`, the
/// byte `0` as `0`.
pub proof fn lemma_render_round_trip_bool<F: Fn(HostReq) -> HostResp>(
    host: F,
    b: bool,
    res: Result<Seq<char>, Error>,
)
    requires
        display_rel(
            host,
            ValueRep {
                ty: TypeDesc::Scalar { kind: ScalarKind::Bool, width: 1 },
                data: PodValue::U8(
                    if b {
                        1u8
                    } else {
                        0u8
                    },
                ).spec_encode(),
            },
            res,
        ),
    ensures
        res == Ok::<Seq<char>, Error>(
            seq![
                if b {
                    '1'
                } else {
                    '0'
                },
            ],
        ),
{
    let byte: u8 = if b {
        1u8
    } else {
        0u8
    };
    let rep = ValueRep {
        ty: TypeDesc::Scalar { kind: ScalarKind::Bool, width: 1 },
        data: PodValue::U8(byte).spec_encode(),
    };
    let t = choose|t: Seq<char>|
        lane_text_rel(host, ScalarKind::Bool, 1, rep.data, t) && res == Ok::<Seq<char>, Error>(t);
    assert(rep.data[0] == byte);
    assert(spec_udec(byte as nat) =~= seq![
        if b {
            '1'
        } else {
            '0'
        },
    ]);
}

/// A binary operation on operands whose buffers differ in length can only
/// fail with `SizeMismatch`.
pub proof fn lemma_binary_size_mismatch<F: Fn(HostReq) -> HostResp>(
    host: F,
    op: BinOp,
    l: ValueRep,
    r: ValueRep,
    res: Result<ValueRep, Error>,
)
    requires
        l.data.len() != r.data.len(),
        binary_rel(host, op, l, r, res),
    ensures
        res == Err::<ValueRep, Error>(
            Error::SizeMismatch(l.data.len() as usize, r.data.len() as usize),
        ),
{
}

/// Whether two descriptors agree exactly in shape, kind and width.
pub open spec fn types_match(a: TypeDesc, b: TypeDesc) -> bool {
    match (a, b) {
        (TypeDesc::Scalar { kind: ak, width: aw }, TypeDesc::Scalar { kind: bk, width: bw }) => ak
            == bk && aw == bw,
        (
            TypeDesc::Vector { size: asz, kind: ak, width: aw },
            TypeDesc::Vector { size: bsz, kind: bk, width: bw },
        ) => asz == bsz && ak == bk && aw == bw,
        _ => false,
    }
}

/// A binary operation on operands of equal buffer length whose
/// descriptors disagree in shape, kind or width can only fail with
/// `TypeMismatch`.
pub proof fn lemma_binary_type_mismatch<F: Fn(HostReq) -> HostResp>(
    host: F,
    op: BinOp,
    l: ValueRep,
    r: ValueRep,
    res: Result<ValueRep, Error>,
)
    requires
        l.data.len() == r.data.len(),
        !types_match(l.ty, r.ty),
        binary_rel(host, op, l, r, res),
    ensures
        res == Err::<ValueRep, Error>(
            Error::TypeMismatch(TypeMismatchKind::Operands(l.ty, r.ty)),
        ),
{
}

/// The value the last binding of `name` in a binding list carries, if
/// any - a later binding wins over an earlier one of the same name.
pub open spec fn adds_lookup(adds: Seq<(Seq<char>, ValueRep)>, name: Seq<char>) -> Option<
    ValueRep,
>
    decreases adds.len(),
{
    if adds.len() == 0 {
        None
    } else {
        match adds_lookup(adds.drop_first(), name) {
            Some(v) => Some(v),
            None => if adds[0].0 == name {
                Some(adds[0].1)
            } else {
                None
            },
        }
    }
}

/// The position [`scope_index_from`] returns holds the name, and nothing
/// before it does.
proof fn lemma_index_props(s: ScopeRep, n: Seq<char>, k: int)
    requires
        0 <= k,
    ensures
        match scope_index_from(s, n, k) {
            Some(i) => k <= i < s.len() && s[i].0 == n && (forall|m: int|
                k <= m < i ==> (#[trigger] s[m]).0 != n),
            None => forall|m: int| k <= m < s.len() ==> (#[trigger] s[m]).0 != n,
        },
    decreases s.len() - k,
{
    if k < s.len() && s[k].0 != n {
        lemma_index_props(s, n, k + 1);
    }
}

/// Lookups of an unrelated name pass over an updated slot.
proof fn lemma_find_update_other(
    s: ScopeRep,
    i: int,
    pair: (Seq<char>, ValueRep),
    name: Seq<char>,
    k: int,
)
    requires
        0 <= i < s.len(),
        pair.0 != name,
        s[i].0 != name,
        0 <= k,
    ensures
        scope_find_from(s.update(i, pair), name, k) == scope_find_from(s, name, k),
    decreases s.len() - k,
{
    if k < s.len() {
        lemma_find_update_other(s, i, pair, name, k + 1);
    }
}

/// A lookup of the updated name lands on the updated slot when nothing
/// before it holds the name.
proof fn lemma_find_update_hit(s: ScopeRep, i: int, n: Seq<char>, v: ValueRep, k: int)
    requires
        0 <= k <= i < s.len(),
        forall|m: int| k <= m < i ==> (#[trigger] s[m]).0 != n,
    ensures
        scope_find_from(s.update(i, (n, v)), n, k) == Some(v),
    decreases i - k,
{
    if k < i {
        lemma_find_update_hit(s, i, n, v, k + 1);
    }
}

/// A lookup of an appended name lands on the appended slot when nothing
/// in the scope holds the name.
proof fn lemma_find_push_none(s: ScopeRep, n: Seq<char>, v: ValueRep, k: int)
    requires
        0 <= k <= s.len(),
        forall|m: int| k <= m < s.len() ==> (#[trigger] s[m]).0 != n,
    ensures
        scope_find_from(s.push((n, v)), n, k) == Some(v),
    decreases s.len() - k,
{
    if k < s.len() {
        lemma_find_push_none(s, n, v, k + 1);
    }
}

/// Lookups of an unrelated name pass over an appended slot.
proof fn lemma_find_push_other(
    s: ScopeRep,
    pair: (Seq<char>, ValueRep),
    name: Seq<char>,
    k: int,
)
    requires
        pair.0 != name,
        0 <= k,
    ensures
        scope_find_from(s.push(pair), name, k) == scope_find_from(s, name, k),
    decreases s.len() + 1 - k,
{
    if k < s.len() + 1 {
        lemma_find_push_other(s, pair, name, k + 1);
    }
}

/// Binding one name changes lookups of that name to the new value and no
/// other lookup at all.
pub proof fn lemma_scope_find_set(s: ScopeRep, n: Seq<char>, v: ValueRep, name: Seq<char>)
    ensures
        scope_find(scope_set(s, n, v), name) == (if name == n {
            Some(v)
        } else {
            scope_find(s, name)
        }),
{
    lemma_index_props(s, n, 0);
    match scope_index_from(s, n, 0) {
        Some(i) => {
            if name == n {
                lemma_find_update_hit(s, i, n, v, 0);
            } else {
                lemma_find_update_other(s, i, (n, v), name, 0);
            }
        },
        None => {
            if name == n {
                lemma_find_push_none(s, n, v, 0);
            } else {
                lemma_find_push_other(s, (n, v), name, 0);
            }
        },
    }
}

/// Scope shadowing: in the scope a push creates, a name bound by the
/// pushed bindings resolves to its (last) bound value, and every other
/// name resolves exactly as in the enclosing scope.  The enclosing
/// scope's own copy is never touched, so popping the pushed scope leaves
/// it exactly as it was (see [`lemma_push_pop_restores`]).
pub proof fn lemma_scope_shadowing(
    outer: ScopeRep,
    adds: Seq<(Seq<char>, ValueRep)>,
    name: Seq<char>,
)
    ensures
        scope_find(scope_apply(outer, adds), name) == (match adds_lookup(adds, name) {
            Some(v) => Some(v),
            None => scope_find(outer, name),
        }),
    decreases adds.len(),
{
    if adds.len() > 0 {
        lemma_scope_find_set(outer, adds[0].0, adds[0].1, name);
        lemma_scope_shadowing(scope_set(outer, adds[0].0, adds[0].1), adds.drop_first(), name);
    }
}

/// Popping the scope that a push created leaves the stack - and with it
/// the outer scope's own bindings - exactly as they were.
pub proof fn lemma_push_pop_restores(scopes: Seq<ScopeRep>, top: ScopeRep)
    ensures
        scopes.push(top).drop_last() == scopes,
        scopes.push(top).last() == top,
{
    assert(scopes.push(top).drop_last() =~= scopes);
}

/// All-successful uniform-width results concatenate to a buffer of the
/// combined length.
proof fn lemma_concat_uniform_len(results: Seq<Result<ValueRep, Error>>, w: nat)
    requires
        forall|k: int|
            0 <= k < results.len() ==> (#[trigger] results[k]) is Ok && results[k]->Ok_0.data.len()
                == w,
    ensures
        concat_datas(results).len() == results.len() * w,
    decreases results.len(),
{
    if results.len() == 0 {
    } else {
        lemma_concat_uniform_len(results.drop_last(), w);
        assert(results.last() == results[results.len() - 1]);
        assert((results.len() - 1) * w + w == results.len() as int * w) by (nonlinear_arith);
    }
}

/// Reading lane `j` out of a concatenation of uniform-width encodings
/// gives back encoding `j`.
proof fn lemma_concat_lane(results: Seq<Result<ValueRep, Error>>, w: nat, j: int)
    requires
        w > 0,
        forall|k: int|
            0 <= k < results.len() ==> (#[trigger] results[k]) is Ok && results[k]->Ok_0.data.len()
                == w,
        0 <= j < results.len(),
    ensures
        lane_of(concat_datas(results), j, w) == results[j]->Ok_0.data,
    decreases results.len(),
{
    let n = results.len() as int;
    lemma_concat_uniform_len(results, w);
    lemma_concat_uniform_len(results.drop_last(), w);
    assert(results.last() == results[n - 1]);
    if j == n - 1 {
        assert(0 <= j * w && j * w + w == (j + 1) * w) by (nonlinear_arith)
            requires
                0 <= j,
                w > 0,
        ;
        assert(lane_of(concat_datas(results), j, w) =~= results[j]->Ok_0.data);
    } else {
        lemma_concat_lane(results.drop_last(), w, j);
        assert((j + 1) * w <= (n - 1) * w) by (nonlinear_arith)
            requires
                0 <= j < n - 1,
                w > 0,
        ;
        assert(0 <= j * w && j * w + w == (j + 1) * w) by (nonlinear_arith)
            requires
                0 <= j,
                w > 0,
        ;
        assert(lane_of(concat_datas(results), j, w) =~= lane_of(
            concat_datas(results.drop_last()),
            j,
            w,
        ));
    }
}

/// Composing scalar literals preserves every lane: when a compose node's
/// components are all literal expressions whose encodings have the
/// vector's lane width, evaluation can only succeed, and lane `j` of the
/// result is exactly literal `j`'s encoding.
pub proof fn lemma_compose_literal_lanes<F: Fn(HostReq) -> HostResp>(
    host: F,
    f: &Function,
    i: int,
    s: Option<ScopeRep>,
    res: Result<ValueRep, Error>,
    size: VectorSize,
    kind: ScalarKind,
    width: u8,
    comps: Seq<usize>,
    j: int,
)
    requires
        0 <= i < f.expressions@.len(),
        f.expressions@[i] is Compose,
        f.expressions@[i]->Compose_ty == (TypeDesc::Vector { size, kind, width }),
        f.expressions@[i]->Compose_components@ == comps,
        comps.len() == size.spec_lanes(),
        width > 0,
        forall|k: int|
            0 <= k < comps.len() ==> (#[trigger] f.expressions@[comps[k] as int]) is Literal,
        forall|k: int|
            0 <= k < comps.len() ==> spec_lit_value(
                (#[trigger] f.expressions@[comps[k] as int])->Literal_0,
            ).data.len() == width as nat,
        expr_rel(host, f, i, s, res),
        0 <= j < comps.len(),
    ensures
        res is Ok,
        res->Ok_0.ty == (TypeDesc::Vector { size, kind, width }),
        lane_of(res->Ok_0.data, j, width as nat)
            == spec_lit_value(
            f.expressions@[comps[j] as int]->Literal_0,
        ).data,
{
    let t = choose|t: ExprTrace|
        #[trigger] expr_trace_ok(host, f, i, s, t)
            && trace_res(t) == res;
    match t {
        ExprTrace::Compose { parts, res: tres } => {
            assert forall|k: int| 0 <= k < parts.len() implies (#[trigger] trace_results(
                parts,
            )[k]) is Ok && trace_results(parts)[k]->Ok_0.data.len()
                == width as nat && trace_results(parts)[k]->Ok_0
                == spec_lit_value(
                f.expressions@[comps[k] as int]->Literal_0,
            ) by {
                assert(expr_trace_ok(host, f, comps[k] as int, s, parts[k]));
                assert(f.expressions@[comps[k] as int] is Literal);
            }
            assert(parts.len() == comps.len()) by {
                if parts.len() < comps.len() {
                    assert(trace_res(parts.last()) is Err);
                    assert(parts.last() == parts[parts.len() - 1]);
                    assert(trace_results(parts)[parts.len() - 1] is Ok);
                }
            }
            let results = trace_results(parts);
            lemma_concat_uniform_len(results, width as nat);
            assert(compose_outcome(results) == Ok::<Seq<u8>, Error>(
                concat_datas(results),
            )) by {
                if results.len() > 0 {
                    assert(results.last() == results[results.len() - 1]);
                }
            }
            assert(comps.len() as int * width as int == size.spec_lanes() * width as nat);
            lemma_concat_lane(results, width as nat, j);
        },
        _ => {
            assert(false);
        },
    }
}

} // verus!
