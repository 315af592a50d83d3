//! The typed value representation: a type descriptor paired with an owned
//! byte buffer.
//!
//! The buffer carries no type information of its own - the descriptor does -
//! and every read or write re-checks that the buffer length matches the size
//! the access implies, not just at construction.

use vstd::bytes::*;
use vstd::prelude::*;
use vstd::slice::slice_subrange;

use crate::binary::{lemma_pod_shape_size, pod_shape, spec_pod_shape};
use crate::error::{Error, NodeKind, TypeMismatchKind};
use crate::host::{host_ok, host_render, resp_text, HostReq, HostResp};
use crate::ir::{is_supported_scalar, supported_scalar, ScalarKind, TypeDesc};
use crate::lanes::{lane_of, spec_lane_bits};
use crate::text::{i32_dec, spec_idec, spec_udec, u32_dec};

verus! {

/// The fixed-width native shapes a buffer can be reinterpreted as.
#[derive(Clone, Copy, Debug, PartialEq, Eq, Structural)]
pub enum PodKind {
    /// One byte.
    U8,
    /// 32-bit signed integer, little endian.
    I32,
    /// 32-bit unsigned integer, little endian.
    U32,
    /// 32-bit float, stored as the little-endian bytes of its bit pattern.
    F32,
    /// 64-bit float, stored as the little-endian bytes of its bit pattern.
    F64,
}

impl PodKind {
    /// The byte width of this shape.
    pub open spec fn spec_size(self) -> nat {
        match self {
            PodKind::U8 => 1,
            PodKind::I32 => 4,
            PodKind::U32 => 4,
            PodKind::F32 => 4,
            PodKind::F64 => 8,
        }
    }

    /// Executable byte width.
    pub fn size(&self) -> (n: usize)
        ensures
            n == self.spec_size(),
    {
        match self {
            PodKind::U8 => 1,
            PodKind::I32 => 4,
            PodKind::U32 => 4,
            PodKind::F32 => 4,
            PodKind::F64 => 8,
        }
    }
}

/// A plain fixed-width value together with its shape.  Floats are carried
/// as their bit patterns, so that the whole model is made of plain values.
#[derive(Clone, Copy, Debug, PartialEq, Eq, Structural)]
pub enum PodValue {
    U8(u8),
    I32(i32),
    U32(u32),
    F32Bits(u32),
    F64Bits(u64),
}

impl PodValue {
    /// The shape of this value.
    pub open spec fn spec_kind(self) -> PodKind {
        match self {
            PodValue::U8(_) => PodKind::U8,
            PodValue::I32(_) => PodKind::I32,
            PodValue::U32(_) => PodKind::U32,
            PodValue::F32Bits(_) => PodKind::F32,
            PodValue::F64Bits(_) => PodKind::F64,
        }
    }

    /// The little-endian byte encoding of this value.
    pub open spec fn spec_encode(self) -> Seq<u8> {
        match self {
            PodValue::U8(b) => seq![b],
            PodValue::I32(v) => spec_u32_to_le_bytes(v as u32),
            PodValue::U32(v) => spec_u32_to_le_bytes(v),
            PodValue::F32Bits(b) => spec_u32_to_le_bytes(b),
            PodValue::F64Bits(b) => spec_u64_to_le_bytes(b),
        }
    }

    /// Executable shape lookup.
    pub fn kind(&self) -> (k: PodKind)
        ensures
            k == self.spec_kind(),
    {
        match self {
            PodValue::U8(_) => PodKind::U8,
            PodValue::I32(_) => PodKind::I32,
            PodValue::U32(_) => PodKind::U32,
            PodValue::F32Bits(_) => PodKind::F32,
            PodValue::F64Bits(_) => PodKind::F64,
        }
    }

    /// The encoding always has exactly the width of the value's shape.
    pub proof fn encode_len(self)
        ensures
            self.spec_encode().len() == self.spec_kind().spec_size(),
    {
        match self {
            PodValue::U8(_) => {},
            PodValue::I32(v) => lemma_auto_spec_u32_to_from_le_bytes(),
            PodValue::U32(v) => lemma_auto_spec_u32_to_from_le_bytes(),
            PodValue::F32Bits(b) => lemma_auto_spec_u32_to_from_le_bytes(),
            PodValue::F64Bits(b) => lemma_auto_spec_u64_to_from_le_bytes(),
        }
    }
}

/// Reading a byte sequence of the right length as the given shape.
pub open spec fn spec_decode(kind: PodKind, bytes: Seq<u8>) -> PodValue
    recommends
        bytes.len() == kind.spec_size(),
{
    match kind {
        PodKind::U8 => PodValue::U8(bytes[0]),
        PodKind::I32 => PodValue::I32(spec_u32_from_le_bytes(bytes) as i32),
        PodKind::U32 => PodValue::U32(spec_u32_from_le_bytes(bytes)),
        PodKind::F32 => PodValue::F32Bits(spec_u32_from_le_bytes(bytes)),
        PodKind::F64 => PodValue::F64Bits(spec_u64_from_le_bytes(bytes)),
    }
}

/// Decoding inverts encoding: reading a value's own encoding at its own
/// shape gives the value back.
pub proof fn decode_encode(v: PodValue)
    ensures
        spec_decode(v.spec_kind(), v.spec_encode()) == v,
{
    lemma_auto_spec_u32_to_from_le_bytes();
    lemma_auto_spec_u64_to_from_le_bytes();
    match v {
        PodValue::U8(b) => {
            assert(v.spec_encode()[0] == b);
        },
        PodValue::I32(x) => {
            assert(spec_u32_to_le_bytes(x as u32).len() == 4);
            assert((x as u32) as i32 == x) by (bit_vector);
        },
        PodValue::U32(x) => {
            assert(spec_u32_to_le_bytes(x).len() == 4);
        },
        PodValue::F32Bits(x) => {
            assert(spec_u32_to_le_bytes(x).len() == 4);
        },
        PodValue::F64Bits(x) => {
            assert(spec_u64_to_le_bytes(x).len() == 8);
        },
    }
}

/// Executable encoding of a [`PodValue`] into a fresh buffer.
pub fn encode_pod(value: &PodValue) -> (out: Vec<u8>)
    ensures
        out@ == value.spec_encode(),
{
    match value {
        PodValue::U8(b) => {
            let mut v: Vec<u8> = Vec::new();
            v.push(*b);
            proof {
                assert(v@ =~= seq![*b]);
            }
            v
        },
        PodValue::I32(v) => u32_to_le_bytes(*v as u32),
        PodValue::U32(v) => u32_to_le_bytes(*v),
        PodValue::F32Bits(b) => u32_to_le_bytes(*b),
        PodValue::F64Bits(b) => u64_to_le_bytes(*b),
    }
}

/// Executable decoding of a byte slice, which must have exactly the
/// shape's width.
pub fn decode_pod(kind: &PodKind, bytes: &[u8]) -> (out: PodValue)
    requires
        bytes@.len() == kind.spec_size(),
    ensures
        out == spec_decode(*kind, bytes@),
{
    match kind {
        PodKind::U8 => PodValue::U8(*vstd::slice::slice_index_get(bytes, 0)),
        PodKind::I32 => PodValue::I32(u32_from_le_bytes(bytes) as i32),
        PodKind::U32 => PodValue::U32(u32_from_le_bytes(bytes)),
        PodKind::F32 => PodValue::F32Bits(u32_from_le_bytes(bytes)),
        PodKind::F64 => PodValue::F64Bits(u64_from_le_bytes(bytes)),
    }
}

/// The mathematical model of a [`Value`]: its descriptor and the sequence
/// of bytes in its buffer.
pub struct ValueRep {
    pub ty: TypeDesc,
    pub data: Seq<u8>,
}


/// A typed value: a type descriptor and an owned byte buffer.  The buffer
/// length is validated against the descriptor lazily, on reads and writes,
/// not at construction.
#[derive(Debug)]
pub struct Value {
    pub ty: TypeDesc,
    pub data: Vec<u8>,
}

impl View for Value {
    type V = ValueRep;

    open spec fn view(&self) -> ValueRep {
        ValueRep { ty: self.ty, data: self.data@ }
    }
}

impl Clone for Value {
    /// Cloning preserves the descriptor and the buffer contents.
    fn clone(&self) -> (out: Self)
        ensures
            out@ == self@,
    {
        let mut data: Vec<u8> = Vec::new();
        let mut i: usize = 0;
        while i < self.data.len()
            invariant
                i <= self.data@.len(),
                data@ == self.data@.subrange(0, i as int),
            decreases self.data@.len() - i,
        {
            data.push(self.data[i]);
            i = i + 1;
        }
        proof {
            assert(data@ =~= self.data@);
        }
        Value { ty: self.ty, data }
    }
}

impl Value {
    /// Wraps a caller-provided buffer without validating its length against
    /// the descriptor; reads and writes validate lazily.
    pub fn from_data(ty: TypeDesc, data: Vec<u8>) -> (out: Self)
        ensures
            out@ == (ValueRep { ty, data: data@ }),
    {
        Value { ty, data }
    }

    /// Encodes a fixed-width native value into a fresh buffer; the buffer
    /// length is exactly the encoded size of `value`.
    pub fn from_pod(ty: TypeDesc, value: PodValue) -> (out: Self)
        ensures
            out@ == (ValueRep { ty, data: value.spec_encode() }),
            out@.data.len() == value.spec_kind().spec_size(),
    {
        proof {
            value.encode_len();
        }
        Value { ty, data: encode_pod(&value) }
    }

    /// What [`Value::try_get`] returns: the whole buffer reinterpreted at
    /// the given shape, or `TypeMismatch` when the buffer length is not the
    /// shape's width.
    pub open spec fn spec_get(self_rep: ValueRep, kind: PodKind) -> Result<PodValue, Error> {
        if self_rep.data.len() == kind.spec_size() {
            Ok(spec_decode(kind, self_rep.data))
        } else {
            Err(
                Error::TypeMismatch(
                    TypeMismatchKind::Buffer {
                        len: self_rep.data.len() as usize,
                        size: kind.spec_size() as usize,
                    },
                ),
            )
        }
    }

    /// Reinterprets the whole buffer as the given shape.
    pub fn try_get(&self, kind: PodKind) -> (out: Result<PodValue, Error>)
        ensures
            out == Self::spec_get(self@, kind),
    {
        if self.data.len() == kind.size() {
            Ok(decode_pod(&kind, self.data.as_slice()))
        } else {
            Err(
                Error::TypeMismatch(
                    TypeMismatchKind::Buffer { len: self.data.len(), size: kind.size() },
                ),
            )
        }
    }

    /// What [`Value::try_get_offset`] returns: the bytes at
    /// `[offset, offset + width)` reinterpreted at the given shape, or
    /// `OutOfRange` when that range does not fit in the buffer.
    pub open spec fn spec_get_offset(self_rep: ValueRep, kind: PodKind, offset: int) -> Result<
        PodValue,
        Error,
    > {
        if offset + kind.spec_size() <= self_rep.data.len() {
            Ok(spec_decode(kind, self_rep.data.subrange(offset, offset + kind.spec_size())))
        } else {
            Err(Error::OutOfRange)
        }
    }

    /// Reinterprets the sub-range starting at `offset` as the given shape.
    pub fn try_get_offset(&self, kind: PodKind, offset: usize) -> (out: Result<PodValue, Error>)
        ensures
            out == Self::spec_get_offset(self@, kind, offset as int),
    {
        let size = kind.size();
        if offset <= self.data.len() && size <= self.data.len() - offset {
            let bytes = slice_subrange(self.data.as_slice(), offset, offset + size);
            Ok(decode_pod(&kind, bytes))
        } else {
            Err(Error::OutOfRange)
        }
    }

    /// What [`Value::try_get_mut`] leaves in the buffer: the encoding of
    /// `value` when its width equals the buffer length, the old contents
    /// otherwise.
    pub open spec fn spec_put(self_rep: ValueRep, value: PodValue) -> Result<ValueRep, Error> {
        if self_rep.data.len() == value.spec_kind().spec_size() {
            Ok(ValueRep { ty: self_rep.ty, data: value.spec_encode() })
        } else {
            Err(
                Error::TypeMismatch(
                    TypeMismatchKind::Buffer {
                        len: self_rep.data.len() as usize,
                        size: value.spec_kind().spec_size() as usize,
                    },
                ),
            )
        }
    }

    /// Overwrites the whole buffer with the encoding of `value`; fails with
    /// `TypeMismatch`, leaving the buffer unchanged, when the buffer length
    /// is not the width of `value`.
    pub fn try_get_mut(&mut self, value: PodValue) -> (out: Result<(), Error>)
        ensures
            match Self::spec_put(old(self)@, value) {
                Ok(rep) => out == Ok::<(), Error>(()) && final(self)@ == rep,
                Err(e) => out == Err::<(), Error>(e) && final(self)@ == old(self)@,
            },
    {
        proof {
            value.encode_len();
        }
        let size = value.kind().size();
        if self.data.len() == size {
            self.data = encode_pod(&value);
            Ok(())
        } else {
            Err(Error::TypeMismatch(TypeMismatchKind::Buffer { len: self.data.len(), size }))
        }
    }

    /// What [`Value::try_get_offset_mut`] leaves in the buffer: the old
    /// contents with `[offset, offset + width)` replaced by the encoding of
    /// `value`, or `OutOfRange` when that range does not fit.
    pub open spec fn spec_put_offset(self_rep: ValueRep, offset: int, value: PodValue) -> Result<
        ValueRep,
        Error,
    > {
        if offset + value.spec_kind().spec_size() <= self_rep.data.len() {
            Ok(
                ValueRep {
                    ty: self_rep.ty,
                    data: self_rep.data.subrange(0, offset) + value.spec_encode()
                        + self_rep.data.subrange(
                        offset + value.spec_kind().spec_size(),
                        self_rep.data.len() as int,
                    ),
                },
            )
        } else {
            Err(Error::OutOfRange)
        }
    }

    /// Overwrites the sub-range starting at `offset` with the encoding of
    /// `value`; fails with `OutOfRange`, leaving the buffer unchanged, when
    /// the range does not fit.
    pub fn try_get_offset_mut(&mut self, offset: usize, value: PodValue) -> (out: Result<
        (),
        Error,
    >)
        ensures
            match Self::spec_put_offset(old(self)@, offset as int, value) {
                Ok(rep) => out == Ok::<(), Error>(()) && final(self)@ == rep,
                Err(e) => out == Err::<(), Error>(e) && final(self)@ == old(self)@,
            },
    {
        proof {
            value.encode_len();
        }
        let size = value.kind().size();
        if offset <= self.data.len() && size <= self.data.len() - offset {
            let enc = encode_pod(&value);
            let mut i: usize = 0;
            while i < size
                invariant
                    i <= size,
                    size == enc@.len(),
                    offset + size <= self.data@.len(),
                    self.data@.len() <= usize::MAX,
                    self.ty == old(self).ty,
                    self.data@.len() == old(self)@.data.len(),
                    forall|k: int|
                        0 <= k < self.data@.len() && !(offset <= k < offset + i)
                            ==> self.data@[k] == old(self)@.data[k],
                    forall|k: int|
                        offset <= k < offset + i ==> self.data@[k] == enc@[k - offset],
                decreases size - i,
            {
                let b = enc[i];
                self.data[offset + i] = b;
                i = i + 1;
            }
            proof {
                let rep = Self::spec_put_offset(old(self)@, offset as int, value).unwrap();
                assert(self@.data =~= rep.data);
            }
            Ok(())
        } else {
            Err(Error::OutOfRange)
        }
    }

}

/// The text of one scalar lane: decimal for integers and for the bool
/// byte, the host's rendering for a float.
pub open spec fn lane_text_rel<F: Fn(HostReq) -> HostResp>(
    host: F,
    kind: ScalarKind,
    width: u8,
    lane: Seq<u8>,
    out: Seq<char>,
) -> bool
    recommends
        supported_scalar(kind, width),
        lane.len() == width,
{
    match kind {
        ScalarKind::Sint => out == spec_idec((spec_u32_from_le_bytes(lane) as i32) as int),
        ScalarKind::Uint => out == spec_udec(spec_u32_from_le_bytes(lane) as nat),
        ScalarKind::Bool => out == spec_udec(lane[0] as nat),
        ScalarKind::Float => host_render(host, width, spec_lane_bits(width, lane), out),
    }
}

/// Lane texts joined with a comma and a space.
pub open spec fn spec_join(parts: Seq<Seq<char>>) -> Seq<char>
    decreases parts.len(),
{
    if parts.len() == 0 {
        Seq::<char>::empty()
    } else if parts.len() == 1 {
        parts[0]
    } else {
        spec_join(parts.drop_last()) + seq![',', ' '] + parts.last()
    }
}

/// One admissible text per lane of a vector's buffer.
pub open spec fn vec_parts_ok<F: Fn(HostReq) -> HostResp>(
    host: F,
    kind: ScalarKind,
    width: u8,
    lanes: nat,
    data: Seq<u8>,
    parts: Seq<Seq<char>>,
) -> bool {
    &&& parts.len() == lanes
    &&& (forall|j: int|
        0 <= j < parts.len() ==> lane_text_rel(
            host,
            kind,
            width,
            lane_of(data, j, width as nat),
            #[trigger] parts[j],
        ))
}

/// What rendering a value may produce: driven by the descriptor - decimal
/// for integers, `0`/`1` (as the byte's decimal) for bools, the host's
/// text for floats, and a comma-joined bracketed lane list for vectors.
/// Fails when the descriptor's scalar shape is not supported or the
/// buffer does not hold what the descriptor implies.
pub open spec fn display_rel<F: Fn(HostReq) -> HostResp>(
    host: F,
    v: ValueRep,
    res: Result<Seq<char>, Error>,
) -> bool {
    match v.ty {
        TypeDesc::Scalar { kind, width } => if !supported_scalar(kind, width) {
            res == Err::<Seq<char>, Error>(Error::Unimplemented(NodeKind::Shape))
        } else if v.data.len() != width as nat {
            res == Err::<Seq<char>, Error>(
                Error::TypeMismatch(
                    TypeMismatchKind::Buffer {
                        len: v.data.len() as usize,
                        size: width as usize,
                    },
                ),
            )
        } else {
            exists|t: Seq<char>|
                #[trigger] lane_text_rel(host, kind, width, v.data, t) && res == Ok::<
                    Seq<char>,
                    Error,
                >(t)
        },
        TypeDesc::Vector { size, kind, width } => if !supported_scalar(kind, width) {
            res == Err::<Seq<char>, Error>(Error::Unimplemented(NodeKind::Shape))
        } else if v.data.len() != size.spec_lanes() * width as nat {
            res == Err::<Seq<char>, Error>(
                Error::TypeMismatch(
                    TypeMismatchKind::Buffer {
                        len: v.data.len() as usize,
                        size: (size.spec_lanes() * width as nat) as usize,
                    },
                ),
            )
        } else {
            exists|parts: Seq<Seq<char>>|
                #[trigger] vec_parts_ok(host, kind, width, size.spec_lanes(), v.data, parts)
                    && res == Ok::<Seq<char>, Error>(
                    seq!['['] + spec_join(parts) + seq![']'],
                )
        },
    }
}

/// The model of a returned text/error pair.
pub open spec fn spec_str_result(res: Result<String, Error>) -> Result<Seq<char>, Error> {
    match res {
        Ok(t) => Ok(t@),
        Err(e) => Err(e),
    }
}

/// Renders one decoded lane as text, consulting the host for floats.
fn pod_text<F: Fn(HostReq) -> HostResp>(
    host: &F,
    kind: &ScalarKind,
    width: u8,
    lane: Ghost<Seq<u8>>,
    pod: &PodValue,
) -> (out: String)
    requires
        host_ok(*host),
        supported_scalar(*kind, width),
        lane@.len() == width,
        *pod == spec_decode(spec_pod_shape(*kind, width), lane@),
    ensures
        lane_text_rel(*host, *kind, width, lane@, out@),
{
    match pod {
        PodValue::I32(v) => i32_dec(*v),
        PodValue::U32(v) => u32_dec(*v),
        PodValue::U8(b) => u32_dec(*b as u32),
        PodValue::F32Bits(b) => {
            let resp = host(HostReq::Render { width, bits: *b as u64 });
            let ghost gresp = resp;
            let out = resp_text(resp);
            proof {
                assert(call_ensures(
                    *host,
                    (HostReq::Render { width, bits: spec_lane_bits(width, lane@) },),
                    gresp,
                ));
                assert(host_render(*host, width, spec_lane_bits(width, lane@), out@));
            }
            out
        },
        PodValue::F64Bits(b) => {
            let resp = host(HostReq::Render { width, bits: *b });
            let ghost gresp = resp;
            let out = resp_text(resp);
            proof {
                assert(call_ensures(
                    *host,
                    (HostReq::Render { width, bits: spec_lane_bits(width, lane@) },),
                    gresp,
                ));
                assert(host_render(*host, width, spec_lane_bits(width, lane@), out@));
            }
            out
        },
    }
}

impl Value {
    /// Renders this value as human-readable text, driven by its
    /// descriptor; floats are formatted by the injected host.
    pub fn try_display<F: Fn(HostReq) -> HostResp>(&self, host: &F) -> (out: Result<String, Error>)
        requires
            host_ok(*host),
        ensures
            display_rel(*host, self@, spec_str_result(out)),
    {
        match self.ty {
            TypeDesc::Scalar { kind, width } => {
                if !is_supported_scalar(&kind, width) {
                    return Err(Error::Unimplemented(NodeKind::Shape));
                }
                let pk = pod_shape(&kind, width);
                proof {
                    lemma_pod_shape_size(kind, width);
                }
                if self.data.len() != width as usize {
                    return Err(
                        Error::TypeMismatch(
                            TypeMismatchKind::Buffer {
                                len: self.data.len(),
                                size: width as usize,
                            },
                        ),
                    );
                }
                let pod = match self.try_get(pk) {
                    Ok(p) => p,
                    Err(e) => {
                        return Err(e);
                    },
                };
                let text = pod_text(host, &kind, width, Ghost(self.data@), &pod);
                Ok(text)
            },
            TypeDesc::Vector { size, kind, width } => {
                if !is_supported_scalar(&kind, width) {
                    return Err(Error::Unimplemented(NodeKind::Shape));
                }
                let pk = pod_shape(&kind, width);
                proof {
                    lemma_pod_shape_size(kind, width);
                }
                let lanes = size.lanes();
                let w = width as usize;
                if self.data.len() != lanes * w {
                    return Err(
                        Error::TypeMismatch(
                            TypeMismatchKind::Buffer { len: self.data.len(), size: lanes * w },
                        ),
                    );
                }
                let mut text = "[".to_owned();
                let ghost mut parts: Seq<Seq<char>> = Seq::empty();
                proof {
                    reveal_strlit("[");
                    assert(text@ =~= seq!['[']);
                }
                let mut i: usize = 0;
                while i < lanes
                    invariant
                        host_ok(*host),
                        supported_scalar(kind, width),
                        pk == spec_pod_shape(kind, width),
                        pk.spec_size() == width as nat,
                        w == width as nat,
                        w >= 1,
                        i <= lanes,
                        lanes * w <= self.data@.len(),
                        self.data@.len() <= usize::MAX,
                        parts.len() == i,
                        forall|j: int|
                            0 <= j < i ==> lane_text_rel(
                                *host,
                                kind,
                                width,
                                lane_of(self.data@, j, width as nat),
                                #[trigger] parts[j],
                            ),
                        text@ == seq!['['] + spec_join(parts),
                    decreases lanes - i,
                {
                    proof {
                        assert((i + 1) * w <= lanes * w) by (nonlinear_arith)
                            requires
                                i < lanes,
                                w >= 1,
                        ;
                        assert(i * w + w == (i + 1) * w) by (nonlinear_arith);
                    }
                    let off = i * w;
                    let pod = match self.try_get_offset(pk, off) {
                        Ok(p) => p,
                        Err(e) => {
                            return Err(e);
                        },
                    };
                    let ghost lane = self.data@.subrange(off as int, off + w);
                    proof {
                        assert(lane == lane_of(self.data@, i as int, width as nat));
                    }
                    let t = pod_text(host, &kind, width, Ghost(lane), &pod);
                    if i > 0 {
                        text.append(", ");
                        proof {
                            reveal_strlit(", ");
                        }
                    }
                    text.append(t.as_str());
                    let ghost prev = parts;
                    proof {
                        parts = parts.push(t@);
                        assert(parts.drop_last() =~= prev);
                        if prev.len() == 0 {
                            assert(text@ =~= seq!['['] + spec_join(parts));
                        } else {
                            assert(text@ =~= seq!['['] + spec_join(parts));
                        }
                    }
                    i = i + 1;
                }
                text.append("]");
                proof {
                    reveal_strlit("]");
                    assert(text@ =~= seq!['['] + spec_join(parts) + seq![']']);
                    assert(vec_parts_ok(*host, kind, width, size.spec_lanes(), self.data@, parts));
                }
                Ok(text)
            },
        }
    }
}

} // verus!
