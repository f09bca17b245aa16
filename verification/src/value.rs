//! The mathematical model of a protocol value and of its form on the wire.
//!
//! Everything here is specification: the executable types of this library
//! state their contracts over [`Value`] and over the functions below.

use crate::text::{eq_ignore_case, int_text, nat_text, parse_i64_spec, parse_u128_spec, CR, LF};
use vstd::prelude::*;
use vstd::string::StringSliceAdditionalSpecFns;

verus! {

/// A protocol value: what a [`crate::resp::Resp`] denotes.
pub enum Value {
    String(Seq<u8>),
    Error(Seq<u8>),
    Integer(i64),
    BulkString(Seq<u8>),
    NilBulk,
    Array(Seq<Value>),
    NilArray,
}

/// How a conditional write is restricted.
#[derive(Debug, Copy, Clone, PartialEq, Eq, Structural)]
pub enum SetMode {
    Nx,
    Xx,
    Gt,
    Lt,
}

/// The line terminator.
pub open spec fn crlf() -> Seq<u8> {
    seq![CR, LF]
}

/// No byte of `s` is a CR or an LF.
pub open spec fn no_break(s: Seq<u8>) -> bool {
    forall|i: int| 0 <= i < s.len() ==> s[i] != CR && s[i] != LF
}

/// The frame of the absent bulk string, `$-1` and the terminator.
pub open spec fn nil_bulk_frame() -> Seq<u8> {
    seq!['$' as u8, '-' as u8, '1' as u8, CR, LF]
}

/// The frame of the absent array, `*-1` and the terminator.
pub open spec fn nil_array_frame() -> Seq<u8> {
    seq!['*' as u8, '-' as u8, '1' as u8, CR, LF]
}

/// The frames of `vs`, one after the other.
pub open spec fn encode_all(vs: Seq<Value>) -> Seq<u8>
    decreases vs, 0nat,
{
    if vs.len() == 0 {
        Seq::empty()
    } else {
        encode_all(vs.drop_last()) + vs.last().encode()
    }
}

impl Value {
    /// The frame that carries this value.
    pub open spec fn encode(self) -> Seq<u8>
        decreases self, 1nat,
    {
        match self {
            Value::String(b) => seq!['+' as u8] + b + crlf(),
            Value::Error(b) => seq!['-' as u8] + b + crlf(),
            Value::Integer(i) => seq![':' as u8] + int_text(i as int) + crlf(),
            Value::BulkString(b) => seq!['$' as u8] + nat_text(b.len()) + crlf() + b + crlf(),
            Value::NilBulk => nil_bulk_frame(),
            Value::Array(a) => seq!['*' as u8] + nat_text(a.len()) + crlf() + encode_all(a),
            Value::NilArray => nil_array_frame(),
        }
    }

    /// The value can be told from its frame: a simple string or an error holds
    /// no CR and no LF, and every length fits the machine's word. Children of
    /// an array are held to the same.
    pub open spec fn wire_safe(self) -> bool
        decreases self,
    {
        match self {
            Value::String(b) => no_break(b),
            Value::Error(b) => no_break(b),
            Value::BulkString(b) => b.len() <= usize::MAX,
            Value::Array(a) => a.len() <= usize::MAX && forall|i: int|
                0 <= i < a.len() ==> (#[trigger] a[i]).wire_safe(),
            _ => true,
        }
    }

    /// The bytes that stand for the value where a name or an argument is
    /// wanted: the payload of a string, the decimal text of an integer, `-1`
    /// for either nil, and for an array the frames of its children.
    pub open spec fn as_bytes(self) -> Seq<u8> {
        match self {
            Value::String(b) => b,
            Value::Error(b) => b,
            Value::Integer(i) => int_text(i as int),
            Value::BulkString(b) => b,
            Value::NilBulk => seq!['-' as u8, '1' as u8],
            Value::Array(a) => encode_all(a),
            Value::NilArray => seq!['-' as u8, '1' as u8],
        }
    }

    /// The value read as a signed 64-bit number.
    pub open spec fn to_i64(self) -> Option<i64> {
        match self {
            Value::String(b) => parse_i64_spec(b),
            Value::Error(b) => parse_i64_spec(b),
            Value::Integer(i) => Some(i),
            Value::BulkString(b) => parse_i64_spec(b),
            _ => None,
        }
    }

    /// The value read as an unsigned 128-bit number. An integer is taken as
    /// its two's complement, so a negative one becomes large.
    pub open spec fn to_u128(self) -> Option<u128> {
        match self {
            Value::String(b) => parse_u128_spec(b),
            Value::Error(b) => parse_u128_spec(b),
            Value::Integer(i) => Some(i as u128),
            Value::BulkString(b) => parse_u128_spec(b),
            _ => None,
        }
    }

    /// The value read as a write restriction.
    pub open spec fn to_set_mode(self) -> Option<SetMode> {
        match self {
            Value::String(b) => set_mode_of(b),
            Value::BulkString(b) => set_mode_of(b),
            _ => None,
        }
    }
}

/// `NX`, `XX`, `GT` or `LT`, in either case.
pub open spec fn set_mode_of(b: Seq<u8>) -> Option<SetMode> {
    if eq_ignore_case(b, "NX".spec_bytes()) {
        Some(SetMode::Nx)
    } else if eq_ignore_case(b, "XX".spec_bytes()) {
        Some(SetMode::Xx)
    } else if eq_ignore_case(b, "GT".spec_bytes()) {
        Some(SetMode::Gt)
    } else if eq_ignore_case(b, "LT".spec_bytes()) {
        Some(SetMode::Lt)
    } else {
        None
    }
}

/// The frames of a sequence with one more value are the frames of the
/// sequence and then the frame of the value.
pub proof fn lemma_encode_all_push(vs: Seq<Value>, v: Value)
    ensures
        encode_all(vs.push(v)) == encode_all(vs) + v.encode(),
{
    assert(vs.push(v).drop_last() =~= vs);
}

/// The frames of two sequences joined are the frames of the first and then
/// the frames of the second.
pub proof fn lemma_encode_all_concat(a: Seq<Value>, b: Seq<Value>)
    ensures
        encode_all(a + b) == encode_all(a) + encode_all(b),
    decreases b.len(),
{
    if b.len() == 0 {
        assert(a + b =~= a);
        assert(encode_all(a) + encode_all(b) =~= encode_all(a));
    } else {
        assert((a + b).drop_last() =~= a + b.drop_last());
        lemma_encode_all_concat(a, b.drop_last());
        assert(encode_all(a + b) =~= encode_all(a) + encode_all(b));
    }
}

/// The frames of a sequence are the first frame and then the frames of the
/// rest.
pub proof fn lemma_encode_all_first(vs: Seq<Value>)
    requires
        vs.len() > 0,
    ensures
        encode_all(vs) == vs[0].encode() + encode_all(vs.skip(1)),
{
    let head = seq![vs[0]];
    assert(head + vs.skip(1) =~= vs);
    lemma_encode_all_concat(head, vs.skip(1));
    assert(head.drop_last() =~= Seq::<Value>::empty());
    assert(encode_all(head.drop_last()) =~= Seq::<u8>::empty());
    assert(head.last() == vs[0]);
    assert(encode_all(head) =~= vs[0].encode());
}

} // verus!
