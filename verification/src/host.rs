//! The injected floating-point host.
//!
//! Floating-point arithmetic, formatting and parsing cannot be carried out
//! (or specified) inside this verified library, so the interpreter takes
//! them as an injected capability: a caller-supplied function from plain
//! requests to plain responses, every payload an integer bit pattern or a
//! string.  The evaluator decides *when* to consult the host and how the
//! reply is woven into a value - all of which is verified - while the reply
//! itself is pinned only to the host's own contract, through
//! `call_ensures`.  A host that answers a request with the wrong response
//! variant is read as a fixed default, so the interpreter's behaviour stays
//! a function of the host's answers.

use vstd::prelude::*;

use crate::ir::BinOp;

verus! {

/// A request to the floating-point host.  `width` is the byte width of the
/// float encoding (4 or 8); bit patterns travel in the low bits of a `u64`.
#[derive(Debug)]
pub enum HostReq {
    /// Apply the binary operator to two float lanes given as bit patterns;
    /// expected to answer [`HostResp::Bits`].
    Bin { op: BinOp, width: u8, a: u64, b: u64 },
    /// Format one float value given as a bit pattern; expected to answer
    /// [`HostResp::Text`].
    Render { width: u8, bits: u64 },
    /// Parse one float value from text; expected to answer
    /// [`HostResp::Parsed`], `None` when the text does not parse.
    Parse { width: u8, text: String },
}

/// A response from the floating-point host.
#[derive(Debug)]
pub enum HostResp {
    /// A result bit pattern, in the low bits.
    Bits(u64),
    /// A piece of rendered text.
    Text(String),
    /// A parsed bit pattern, or `None` on a parse failure.
    Parsed(Option<u64>),
}

/// The bit pattern a response stands for; a response of another variant is
/// read as zero.
pub open spec fn spec_resp_bits(resp: HostResp) -> u64 {
    match resp {
        HostResp::Bits(b) => b,
        _ => 0,
    }
}

/// The text a response stands for; a response of another variant is read
/// as empty.
pub open spec fn spec_resp_text(resp: HostResp) -> Seq<char> {
    match resp {
        HostResp::Text(t) => t@,
        _ => Seq::<char>::empty(),
    }
}

/// The parse result a response stands for; a response of another variant
/// is read as a parse failure.
pub open spec fn spec_resp_parsed(resp: HostResp) -> Option<u64> {
    match resp {
        HostResp::Parsed(p) => p,
        _ => None,
    }
}

/// Executable reading of a response as a bit pattern.
pub fn resp_bits(resp: HostResp) -> (out: u64)
    ensures
        out == spec_resp_bits(resp),
{
    match resp {
        HostResp::Bits(b) => b,
        _ => 0,
    }
}

/// Executable reading of a response as text.
pub fn resp_text(resp: HostResp) -> (out: String)
    ensures
        out@ == spec_resp_text(resp),
{
    match resp {
        HostResp::Text(t) => t,
        _ => String::new(),
    }
}

/// Executable reading of a response as a parse result.
pub fn resp_parsed(resp: HostResp) -> (out: Option<u64>)
    ensures
        out == spec_resp_parsed(resp),
{
    match resp {
        HostResp::Parsed(p) => p,
        _ => None,
    }
}

/// The host must accept every request; every function that consults the
/// host requires this of it.
pub open spec fn host_ok<F: Fn(HostReq) -> HostResp>(host: F) -> bool {
    forall|req: HostReq| #[trigger] call_requires(host, (req,))
}

/// `out` is the bit pattern of some answer the host's contract admits for
/// the given binary request.
pub open spec fn host_bin<F: Fn(HostReq) -> HostResp>(
    host: F,
    op: BinOp,
    width: u8,
    a: u64,
    b: u64,
    out: u64,
) -> bool {
    exists|resp: HostResp|
        #[trigger] call_ensures(host, (HostReq::Bin { op, width, a, b },), resp) && out
            == spec_resp_bits(resp)
}

/// `out` is the text of some answer the host's contract admits for the
/// given render request.
pub open spec fn host_render<F: Fn(HostReq) -> HostResp>(
    host: F,
    width: u8,
    bits: u64,
    out: Seq<char>,
) -> bool {
    exists|resp: HostResp|
        #[trigger] call_ensures(host, (HostReq::Render { width, bits },), resp) && out
            == spec_resp_text(resp)
}

/// `out` is the parse result of some answer the host's contract admits for
/// the given parse request.
pub open spec fn host_parse<F: Fn(HostReq) -> HostResp>(
    host: F,
    width: u8,
    text: Seq<char>,
    out: Option<u64>,
) -> bool {
    exists|resp: HostResp, t: String|
        t@ == text && #[trigger] call_ensures(host, (HostReq::Parse { width, text: t },), resp)
            && out == spec_resp_parsed(resp)
}

} // verus!
