//! Binary operations on whole values: exact width/kind matching, then a
//! lane-by-lane application of the operator.
//!
//! The operands must agree in buffer length, then in descriptor shape, kind
//! and width; the scalar shape must be one the interpreter supports and the
//! operator one that is defined for the kind.  Integer and bool lanes are
//! computed here and pinned exactly by [`spec_int_lanes`]; float lanes are
//! referred to the injected host, and the result is pinned to the host's
//! contract through [`float_lane_ok`].

use vstd::prelude::*;

use crate::error::{Error, NodeKind, TypeMismatchKind};
use crate::host::{host_bin, host_ok, resp_bits, HostReq, HostResp};
use crate::ir::{BinOp, ScalarKind, TypeDesc};
use crate::lanes::{
    is_op_supported, lane_of, op_supported, pod_op, spec_bits_lane, spec_lane_bits, spec_pod_op,
};
use crate::ir::{is_supported_scalar, supported_scalar};
use crate::value::{encode_pod, spec_decode, PodKind, PodValue, Value, ValueRep};

verus! {

/// The native shape of one lane of a supported scalar.
pub open spec fn spec_pod_shape(kind: ScalarKind, width: u8) -> PodKind
    recommends
        supported_scalar(kind, width),
{
    match kind {
        ScalarKind::Sint => PodKind::I32,
        ScalarKind::Uint => PodKind::U32,
        ScalarKind::Float => if width == 4 {
            PodKind::F32
        } else {
            PodKind::F64
        },
        ScalarKind::Bool => PodKind::U8,
    }
}

/// Executable form of [`spec_pod_shape`].
pub fn pod_shape(kind: &ScalarKind, width: u8) -> (out: PodKind)
    ensures
        out == spec_pod_shape(*kind, width),
{
    match kind {
        ScalarKind::Sint => PodKind::I32,
        ScalarKind::Uint => PodKind::U32,
        ScalarKind::Float => if width == 4 {
            PodKind::F32
        } else {
            PodKind::F64
        },
        ScalarKind::Bool => PodKind::U8,
    }
}

/// The up-front checks of a binary operation, in the order they are made:
/// equal buffer lengths, then matching descriptors (same shape, kind and
/// width), then a supported scalar shape, then an operator defined for the
/// kind, then buffers of the length the descriptor implies.  On success:
/// the common kind, lane width and lane count.
pub open spec fn binary_shape(op: BinOp, l: ValueRep, r: ValueRep) -> Result<
    (ScalarKind, u8, nat),
    Error,
> {
    if l.data.len() != r.data.len() {
        Err(Error::SizeMismatch(l.data.len() as usize, r.data.len() as usize))
    } else {
        match (l.ty, r.ty) {
            (
                TypeDesc::Scalar { kind: lk, width: lw },
                TypeDesc::Scalar { kind: rk, width: rw },
            ) => {
                if lk != rk || lw != rw {
                    Err(Error::TypeMismatch(TypeMismatchKind::Operands(l.ty, r.ty)))
                } else if !supported_scalar(lk, lw) {
                    Err(Error::Unimplemented(NodeKind::Shape))
                } else if !op_supported(lk, op) {
                    Err(Error::UnsupportedOperator(op))
                } else if l.data.len() != lw as nat {
                    Err(
                        Error::TypeMismatch(
                            TypeMismatchKind::Buffer {
                                len: l.data.len() as usize,
                                size: lw as usize,
                            },
                        ),
                    )
                } else {
                    Ok((lk, lw, 1))
                }
            },
            (
                TypeDesc::Vector { size: ls, kind: lk, width: lw },
                TypeDesc::Vector { size: rs, kind: rk, width: rw },
            ) => {
                if ls != rs || lk != rk || lw != rw {
                    Err(Error::TypeMismatch(TypeMismatchKind::Operands(l.ty, r.ty)))
                } else if !supported_scalar(lk, lw) {
                    Err(Error::Unimplemented(NodeKind::Shape))
                } else if !op_supported(lk, op) {
                    Err(Error::UnsupportedOperator(op))
                } else if l.data.len() != ls.spec_lanes() * lw as nat {
                    Err(Error::OutOfRange)
                } else {
                    Ok((lk, lw, ls.spec_lanes()))
                }
            },
            _ => Err(Error::TypeMismatch(TypeMismatchKind::Operands(l.ty, r.ty))),
        }
    }
}

/// The operator applied to the decoded lane `j` of each operand buffer.
pub open spec fn spec_lane_op(
    op: BinOp,
    kind: ScalarKind,
    width: u8,
    j: int,
    la: Seq<u8>,
    lb: Seq<u8>,
) -> Result<PodValue, Error> {
    spec_pod_op(
        op,
        spec_decode(spec_pod_shape(kind, width), lane_of(la, j, width as nat)),
        spec_decode(spec_pod_shape(kind, width), lane_of(lb, j, width as nat)),
    )
}

/// The concatenated encodings of the integer or bool lanes `i..n`, or the
/// first lane error.
pub open spec fn spec_int_lanes(
    op: BinOp,
    kind: ScalarKind,
    width: u8,
    i: nat,
    n: nat,
    la: Seq<u8>,
    lb: Seq<u8>,
) -> Result<Seq<u8>, Error>
    decreases n - i,
{
    if i >= n {
        Ok(Seq::<u8>::empty())
    } else {
        match spec_lane_op(op, kind, width, i as int, la, lb) {
            Err(e) => Err(e),
            Ok(v) => match spec_int_lanes(op, kind, width, (i + 1) as nat, n, la, lb) {
                Err(e) => Err(e),
                Ok(rest) => Ok(v.spec_encode() + rest),
            },
        }
    }
}

/// A float lane of the result is an encoding of some bit pattern the
/// host's contract admits for the two operand lanes.
pub open spec fn float_lane_ok<F: Fn(HostReq) -> HostResp>(
    host: F,
    op: BinOp,
    width: u8,
    la: Seq<u8>,
    lb: Seq<u8>,
    out: Seq<u8>,
) -> bool {
    exists|bits: u64|
        #[trigger] host_bin(
            host,
            op,
            width,
            spec_lane_bits(width, la),
            spec_lane_bits(width, lb),
            bits,
        ) && out == spec_bits_lane(width, bits)
}

/// What a binary operation may return: the unique error or integer/bool
/// result [`binary_shape`] and [`spec_int_lanes`] dictate, or, for float
/// operands, a buffer of the operands' length whose every lane the host's
/// contract admits.
pub open spec fn binary_rel<F: Fn(HostReq) -> HostResp>(
    host: F,
    op: BinOp,
    l: ValueRep,
    r: ValueRep,
    res: Result<ValueRep, Error>,
) -> bool {
    match binary_shape(op, l, r) {
        Err(e) => res == Err::<ValueRep, Error>(e),
        Ok((kind, width, n)) => if kind == ScalarKind::Float {
            match res {
                Ok(v) => {
                    &&& v.ty == l.ty
                    &&& v.data.len() == l.data.len()
                    &&& forall|j: int|
                        0 <= j < n ==> float_lane_ok(
                            host,
                            op,
                            width,
                            lane_of(l.data, j, width as nat),
                            lane_of(r.data, j, width as nat),
                            #[trigger] lane_of(v.data, j, width as nat),
                        )
                },
                Err(_) => false,
            }
        } else {
            match spec_int_lanes(op, kind, width, 0, n, l.data, r.data) {
                Ok(data) => res == Ok::<ValueRep, Error>(ValueRep { ty: l.ty, data }),
                Err(e) => res == Err::<ValueRep, Error>(e),
            }
        },
    }
}

/// The view of a returned value/error pair.
pub open spec fn spec_value_result(res: Result<Value, Error>) -> Result<ValueRep, Error> {
    match res {
        Ok(v) => Ok(v@),
        Err(e) => Err(e),
    }
}

/// For a supported scalar the lane shape's width is the descriptor width.
pub proof fn lemma_pod_shape_size(kind: ScalarKind, width: u8)
    requires
        supported_scalar(kind, width),
    ensures
        spec_pod_shape(kind, width).spec_size() == width as nat,
{
}

/// A successful integer/bool lane operation yields a lane of the operand
/// shape, hence of the operand width.
proof fn lemma_lane_op_shape(op: BinOp, kind: ScalarKind, width: u8, j: int, la: Seq<u8>, lb: Seq<u8>)
    requires
        supported_scalar(kind, width),
        spec_lane_op(op, kind, width, j, la, lb) is Ok,
    ensures
        spec_lane_op(op, kind, width, j, la, lb)->Ok_0.spec_kind() == spec_pod_shape(kind, width),
        spec_lane_op(op, kind, width, j, la, lb)->Ok_0.spec_encode().len() == width as nat,
{
    let a = spec_decode(spec_pod_shape(kind, width), lane_of(la, j, width as nat));
    let b = spec_decode(spec_pod_shape(kind, width), lane_of(lb, j, width as nat));
    let v = spec_lane_op(op, kind, width, j, la, lb).unwrap();
    assert(v.spec_kind() == spec_pod_shape(kind, width));
    v.encode_len();
}

/// Extends a run of successful lanes by one more.
proof fn lemma_int_lanes_snoc(
    op: BinOp,
    kind: ScalarKind,
    width: u8,
    s: nat,
    i: nat,
    la: Seq<u8>,
    lb: Seq<u8>,
)
    requires
        s <= i,
        spec_int_lanes(op, kind, width, s, i, la, lb) is Ok,
        spec_lane_op(op, kind, width, i as int, la, lb) is Ok,
    ensures
        spec_int_lanes(op, kind, width, s, (i + 1) as nat, la, lb) == Ok::<Seq<u8>, Error>(
            spec_int_lanes(op, kind, width, s, i, la, lb).unwrap() + spec_lane_op(
                op,
                kind,
                width,
                i as int,
                la,
                lb,
            )->Ok_0.spec_encode(),
        ),
    decreases i - s,
{
    let v = spec_lane_op(op, kind, width, i as int, la, lb).unwrap();
    if s == i {
        assert(spec_int_lanes(op, kind, width, (i + 1) as nat, (i + 1) as nat, la, lb) == Ok::<
            Seq<u8>,
            Error,
        >(Seq::<u8>::empty()));
        assert(v.spec_encode() + Seq::<u8>::empty() =~= Seq::<u8>::empty() + v.spec_encode());
    } else {
        let u = spec_lane_op(op, kind, width, s as int, la, lb).unwrap();
        lemma_int_lanes_snoc(op, kind, width, (s + 1) as nat, i, la, lb);
        let rest = spec_int_lanes(op, kind, width, (s + 1) as nat, i, la, lb).unwrap();
        assert(u.spec_encode() + (rest + v.spec_encode()) =~= (u.spec_encode() + rest)
            + v.spec_encode());
    }
}

/// A failing lane after a run of successful ones decides the whole result.
proof fn lemma_int_lanes_err(
    op: BinOp,
    kind: ScalarKind,
    width: u8,
    s: nat,
    i: nat,
    n: nat,
    la: Seq<u8>,
    lb: Seq<u8>,
)
    requires
        s <= i < n,
        spec_int_lanes(op, kind, width, s, i, la, lb) is Ok,
        spec_lane_op(op, kind, width, i as int, la, lb) is Err,
    ensures
        spec_int_lanes(op, kind, width, s, n, la, lb) == Err::<Seq<u8>, Error>(
            spec_lane_op(op, kind, width, i as int, la, lb)->Err_0,
        ),
    decreases i - s,
{
    if s == i {
    } else {
        lemma_int_lanes_err(op, kind, width, (s + 1) as nat, i, n, la, lb);
    }
}

/// Applies a binary operator to two whole values, lane by lane, consulting
/// `host` for float lanes.  The result is a fresh value tagged with the
/// left operand's descriptor.
pub fn binary_values<F: Fn(HostReq) -> HostResp>(
    op: &BinOp,
    left: &Value,
    right: &Value,
    host: &F,
) -> (out: Result<Value, Error>)
    requires
        host_ok(*host),
    ensures
        binary_rel(*host, *op, left@, right@, spec_value_result(out)),
{
    if left.data.len() != right.data.len() {
        return Err(Error::SizeMismatch(left.data.len(), right.data.len()));
    }
    let (kind, width, lanes): (ScalarKind, u8, usize) = match (left.ty, right.ty) {
        (TypeDesc::Scalar { kind: lk, width: lw }, TypeDesc::Scalar { kind: rk, width: rw }) => {
            if lk != rk || lw != rw {
                return Err(Error::TypeMismatch(TypeMismatchKind::Operands(left.ty, right.ty)));
            }
            if !is_supported_scalar(&lk, lw) {
                return Err(Error::Unimplemented(NodeKind::Shape));
            }
            if !is_op_supported(&lk, op) {
                return Err(Error::UnsupportedOperator(*op));
            }
            if left.data.len() != lw as usize {
                return Err(
                    Error::TypeMismatch(
                        TypeMismatchKind::Buffer { len: left.data.len(), size: lw as usize },
                    ),
                );
            }
            (lk, lw, 1)
        },
        (
            TypeDesc::Vector { size: ls, kind: lk, width: lw },
            TypeDesc::Vector { size: rs, kind: rk, width: rw },
        ) => {
            if ls != rs || lk != rk || lw != rw {
                return Err(Error::TypeMismatch(TypeMismatchKind::Operands(left.ty, right.ty)));
            }
            if !is_supported_scalar(&lk, lw) {
                return Err(Error::Unimplemented(NodeKind::Shape));
            }
            if !is_op_supported(&lk, op) {
                return Err(Error::UnsupportedOperator(*op));
            }
            if left.data.len() != ls.lanes() * (lw as usize) {
                return Err(Error::OutOfRange);
            }
            (lk, lw, ls.lanes())
        },
        _ => {
            return Err(Error::TypeMismatch(TypeMismatchKind::Operands(left.ty, right.ty)));
        },
    };
    let w = width as usize;
    let pk = pod_shape(&kind, width);
    proof {
        lemma_pod_shape_size(kind, width);
    }
    let is_float = match kind {
        ScalarKind::Float => true,
        _ => false,
    };
    let ghost lrep = left@;
    let ghost rrep = right@;
    proof {
        assert(binary_shape(*op, lrep, rrep) == Ok::<(ScalarKind, u8, nat), Error>(
            (kind, width, lanes as nat),
        ));
    }
    let mut data: Vec<u8> = Vec::new();
    let mut i: usize = 0;
    while i < lanes
        invariant
            host_ok(*host),
            0 <= i <= lanes,
            binary_shape(*op, lrep, rrep) == Ok::<(ScalarKind, u8, nat), Error>(
                (kind, width, lanes as nat),
            ),
            w == width as nat,
            w >= 1,
            pk == spec_pod_shape(kind, width),
            pk.spec_size() == w,
            supported_scalar(kind, width),
            lanes * w == lrep.data.len(),
            lrep.data.len() == left@.data.len(),
            lrep == left@,
            rrep == right@,
            lrep.data.len() == rrep.data.len(),
            lrep.data.len() <= usize::MAX,
            data@.len() == i * w,
            is_float == (kind == ScalarKind::Float),
            !is_float ==> spec_int_lanes(*op, kind, width, 0, i as nat, lrep.data, rrep.data)
                == Ok::<Seq<u8>, Error>(data@),
            is_float ==> forall|j: int|
                0 <= j < i ==> float_lane_ok(
                    *host,
                    *op,
                    width,
                    lane_of(lrep.data, j, width as nat),
                    lane_of(rrep.data, j, width as nat),
                    #[trigger] lane_of(data@, j, width as nat),
                ),
        decreases lanes - i,
    {
        proof {
            assert((i + 1) * w <= lanes * w) by (nonlinear_arith)
                requires
                    i < lanes,
                    w >= 1,
            ;
            assert(i * w + w == (i + 1) * w) by (nonlinear_arith);
        }
        let off = i * w;
        let a = match left.try_get_offset(pk, off) {
            Ok(v) => v,
            Err(e) => {
                return Err(e);
            },
        };
        let b = match right.try_get_offset(pk, off) {
            Ok(v) => v,
            Err(e) => {
                return Err(e);
            },
        };
        proof {
            assert(lrep.data.subrange(off as int, off + w) == lane_of(
                lrep.data,
                i as int,
                width as nat,
            ));
            assert(rrep.data.subrange(off as int, off + w) == lane_of(
                rrep.data,
                i as int,
                width as nat,
            ));
        }
        let ghost la = lane_of(lrep.data, i as int, width as nat);
        let ghost lb = lane_of(rrep.data, i as int, width as nat);
        let c: PodValue = if is_float {
            let abits = pod_bits(&a);
            let bbits = pod_bits(&b);
            let resp = host(HostReq::Bin { op: *op, width, a: abits, b: bbits });
            let ghost gresp = resp;
            let bits = resp_bits(resp);
            let c = if width == 4 {
                PodValue::F32Bits(#[verifier::truncate] (bits as u32))
            } else {
                PodValue::F64Bits(bits)
            };
            proof {
                c.encode_len();
                assert(c.spec_encode().len() == w);
                assert(abits == spec_lane_bits(width, la));
                assert(bbits == spec_lane_bits(width, lb));
                assert(call_ensures(
                    *host,
                    (HostReq::Bin { op: *op, width, a: abits, b: bbits },),
                    gresp,
                ));
                assert(host_bin(*host, *op, width, abits, bbits, bits));
                assert(c.spec_encode() == spec_bits_lane(width, bits));
                assert(float_lane_ok(*host, *op, width, la, lb, c.spec_encode()));
            }
            c
        } else {
            match pod_op(op, &a, &b) {
                Ok(v) => v,
                Err(e) => {
                    proof {
                        lemma_int_lanes_err(
                            *op,
                            kind,
                            width,
                            0,
                            i as nat,
                            lanes as nat,
                            lrep.data,
                            rrep.data,
                        );
                    }
                    return Err(e);
                },
            }
        };
        proof {
            if !is_float {
                lemma_lane_op_shape(*op, kind, width, i as int, lrep.data, rrep.data);
                lemma_int_lanes_snoc(*op, kind, width, 0, i as nat, lrep.data, rrep.data);
            }
        }
        let mut enc = encode_pod(&c);
        let ghost old_data = data@;
        data.append(&mut enc);
        proof {
            if is_float {
                assert forall|j: int| 0 <= j < i + 1 implies float_lane_ok(
                    *host,
                    *op,
                    width,
                    lane_of(lrep.data, j, width as nat),
                    lane_of(rrep.data, j, width as nat),
                    #[trigger] lane_of(data@, j, width as nat),
                ) by {
                    if j < i {
                        assert(0 <= j * w && (j + 1) * w <= i * w) by (nonlinear_arith)
                            requires
                                0 <= j < i,
                                w >= 1,
                        ;
                        assert(j * w + w == (j + 1) * w) by (nonlinear_arith);
                        assert(lane_of(data@, j, width as nat) =~= lane_of(
                            old_data,
                            j,
                            width as nat,
                        ));
                    } else {
                        c.encode_len();
                        assert(lane_of(data@, j, width as nat) =~= c.spec_encode());
                        assert(float_lane_ok(*host, *op, width, la, lb, c.spec_encode()));
                    }
                }
            } else {
                assert(data@ =~= old_data + c.spec_encode());
            }
        }
        i = i + 1;
    }
    proof {
        assert(data@.len() == lanes * w);
    }
    let out = Value::from_data(left.ty, data);
    proof {
        if is_float {
            assert forall|j: int| 0 <= j < lanes implies float_lane_ok(
                *host,
                *op,
                width,
                lane_of(lrep.data, j, width as nat),
                lane_of(rrep.data, j, width as nat),
                #[trigger] lane_of(out@.data, j, width as nat),
            ) by {}
        }
    }
    Ok(out)
}

/// The bit pattern carried by a float lane value; any other shape is read
/// as zero.
pub open spec fn spec_pod_bits(v: PodValue) -> u64 {
    match v {
        PodValue::F32Bits(b) => b as u64,
        PodValue::F64Bits(b) => b,
        _ => 0,
    }
}

/// Executable form of [`spec_pod_bits`].
pub fn pod_bits(v: &PodValue) -> (out: u64)
    ensures
        out == spec_pod_bits(*v),
{
    match v {
        PodValue::F32Bits(b) => *b as u64,
        PodValue::F64Bits(b) => *b,
        _ => 0,
    }
}

} // verus!
