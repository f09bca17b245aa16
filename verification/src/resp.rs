//! Protocol values as the program holds them, with the conversions that the
//! command layer asks of them.
//!
//! A [`Resp`] denotes a [`Value`]; its payload bytes live in `bytes` buffers.
//! Two values are equal when they denote the same `Value`.

use crate::buffer::{buf_as_slice, buf_bytes, buf_clone, buf_from_slice};
use crate::text::{
    bytes_eq, eq_ignore_ascii_case, parse_i64, parse_u128, push_bytes, push_crlf, push_int,
    push_nat,
};
use crate::value::{
    encode_all, lemma_encode_all_push, nil_array_frame, nil_bulk_frame, SetMode, Value,
};
use bytes::BytesMut;
use vstd::prelude::*;
use vstd::string::StringSliceAdditionalSpecFns;

verus! {

/// One protocol value.
#[derive(Debug, Hash)]
pub enum Resp {
    String(BytesMut),
    Error(BytesMut),
    Integer(i64),
    BulkString(BytesMut),
    NilBulk,
    Array(RespArray),
    NilArray,
}

/// An array of protocol values. It is made by a [`RespArrayBuilder`] and does
/// not change afterwards.
#[derive(Debug, Hash)]
pub struct RespArray {
    items: Vec<Resp>,
}

/// Collects the children of an array.
#[derive(Debug)]
pub struct RespArrayBuilder {
    array: RespArray,
}

/// Hands out the children of an array, first to last.
#[derive(Debug)]
pub struct RespArrayIterator {
    array: RespArray,
    pos: usize,
}

/// Why a run of bytes is not a frame.
#[derive(Debug, Clone, Copy, PartialEq, Eq, Structural)]
pub enum RespParseError {
    /// The bytes end before the frame does.
    NotEnoughBytes,
    /// No frame starts with these bytes, however they go on.
    IncorrectFormat,
}

impl View for Resp {
    type V = Value;

    open spec fn view(&self) -> Value
        decreases self,
    {
        match self {
            Resp::String(b) => Value::String(buf_bytes(*b)),
            Resp::Error(b) => Value::Error(buf_bytes(*b)),
            Resp::Integer(i) => Value::Integer(*i),
            Resp::BulkString(b) => Value::BulkString(buf_bytes(*b)),
            Resp::NilBulk => Value::NilBulk,
            Resp::Array(a) => Value::Array(a@),
            Resp::NilArray => Value::NilArray,
        }
    }
}

impl View for RespArray {
    type V = Seq<Value>;

    closed spec fn view(&self) -> Seq<Value>
        decreases self,
    {
        Seq::new(
            self.items@.len(),
            |i: int|
                if 0 <= i < self.items@.len() {
                    self.items@[i]@
                } else {
                    Value::NilBulk
                },
        )
    }
}

impl View for RespArrayBuilder {
    type V = Seq<Value>;

    closed spec fn view(&self) -> Seq<Value> {
        self.array@
    }
}

impl View for RespArrayIterator {
    type V = Seq<Value>;

    /// The children still to come.
    closed spec fn view(&self) -> Seq<Value> {
        if self.pos <= self.array@.len() {
            self.array@.skip(self.pos as int)
        } else {
            Seq::empty()
        }
    }
}

impl RespParseError {
    /// The error in words.
    pub fn to_string(&self) -> (s: String)
        ensures
            s@ == (match *self {
                RespParseError::NotEnoughBytes => "No enough bytes"@,
                RespParseError::IncorrectFormat => "Incorrect format"@,
            }),
    {
        match self {
            RespParseError::NotEnoughBytes => "No enough bytes".to_owned(),
            RespParseError::IncorrectFormat => "Incorrect format".to_owned(),
        }
    }
}

impl RespArray {
    proof fn lemma_view(self)
        ensures
            self@.len() == self.items@.len(),
            forall|i: int|
                0 <= i < self.items@.len() ==> self@[i] == (#[trigger] self.items@[i])@,
    {
        let s = Seq::new(
            self.items@.len(),
            |i: int|
                if 0 <= i < self.items@.len() {
                    self.items@[i]@
                } else {
                    Value::NilBulk
                },
        );
        assert(self@ == s);
    }

    /// The frames of the children, one after the other.
    pub fn as_bytes(&self) -> (out: Vec<u8>)
        ensures
            out@ == encode_all(self@),
    {
        let mut out: Vec<u8> = Vec::new();
        self.write_items(&mut out);
        assert(out@ =~= encode_all(self@));
        out
    }

    /// The number of children.
    pub fn len(&self) -> (n: usize)
        ensures
            n == self@.len(),
    {
        proof {
            self.lemma_view();
        }
        self.items.len()
    }

    /// An iterator over copies of the children.
    pub fn iter(&self) -> (it: RespArrayIterator)
        ensures
            it@ == self@,
    {
        let it = RespArrayIterator { array: self.clone(), pos: 0 };
        assert(it@ =~= self@);
        it
    }

    /// A copy of the child at `index`, if there is one.
    pub fn get(&self, index: usize) -> (r: Option<Resp>)
        ensures
            match r {
                Some(v) => index < self@.len() && v@ == self@[index as int],
                None => index >= self@.len(),
            },
    {
        proof {
            self.lemma_view();
        }
        if index < self.items.len() {
            Some(self.items[index].clone())
        } else {
            None
        }
    }

    /// The child at `index`, if there is one.
    pub fn at(&self, index: usize) -> (r: Option<&Resp>)
        ensures
            match r {
                Some(v) => index < self@.len() && v@ == self@[index as int],
                None => index >= self@.len(),
            },
    {
        proof {
            self.lemma_view();
        }
        if index < self.items.len() {
            Some(&self.items[index])
        } else {
            None
        }
    }

    /// Appends the frame of every child to `writer`.
    fn write_items(&self, writer: &mut Vec<u8>)
        ensures
            final(writer)@ == old(writer)@ + encode_all(self@),
        decreases self, 0nat,
    {
        proof {
            self.lemma_view();
        }
        let mut i: usize = 0;
        assert(self@.take(0) =~= Seq::<Value>::empty());
        assert(writer@ =~= old(writer)@ + encode_all(self@.take(0)));
        while i < self.items.len()
            invariant
                i <= self.items.len(),
                self@.len() == self.items@.len(),
                forall|j: int|
                    0 <= j < self.items@.len() ==> self@[j] == (#[trigger] self.items@[j])@,
                writer@ == old(writer)@ + encode_all(self@.take(i as int)),
            decreases self.items.len() - i,
        {
            let ghost before = writer@;
            let _ = self.items[i].write_to_writer(writer);
            proof {
                assert(self@.take(i + 1) =~= self@.take(i as int).push(self@[i as int]));
                lemma_encode_all_push(self@.take(i as int), self@[i as int]);
                assert(writer@ =~= old(writer)@ + encode_all(self@.take(i + 1)));
            }
            i += 1;
        }
        assert(self@.take(i as int) =~= self@);
    }
}

impl Default for RespArray {
    fn default() -> (a: RespArray)
        ensures
            a@ == Seq::<Value>::empty(),
    {
        let a = RespArray { items: Vec::new() };
        proof {
            a.lemma_view();
            assert(a@ =~= Seq::<Value>::empty());
        }
        a
    }
}

impl Clone for RespArray {
    fn clone(&self) -> (r: RespArray)
        ensures
            r@ == self@,
        decreases self,
    {
        let mut items: Vec<Resp> = Vec::new();
        let mut i: usize = 0;
        while i < self.items.len()
            invariant
                i <= self.items.len(),
                items@.len() == i,
                forall|j: int| 0 <= j < i ==> items@[j]@ == self.items@[j]@,
            decreases self.items.len() - i,
        {
            let c = self.items[i].clone();
            items.push(c);
            i += 1;
        }
        let r = RespArray { items };
        proof {
            r.lemma_view();
            self.lemma_view();
            assert(r@ =~= self@);
        }
        r
    }
}

impl PartialEq for RespArray {
    fn eq(&self, other: &RespArray) -> (r: bool)
        decreases self,
    {
        proof {
            self.lemma_view();
            other.lemma_view();
        }
        if self.items.len() != other.items.len() {
            return false;
        }
        let mut i: usize = 0;
        while i < self.items.len()
            invariant
                self.items.len() == other.items.len(),
                i <= self.items.len(),
                self@.len() == self.items@.len(),
                other@.len() == other.items@.len(),
                forall|j: int|
                    0 <= j < self.items@.len() ==> self@[j] == (#[trigger] self.items@[j])@,
                forall|j: int|
                    0 <= j < other.items@.len() ==> other@[j] == (#[trigger] other.items@[j])@,
                forall|j: int| 0 <= j < i ==> self.items@[j]@ == other.items@[j]@,
            decreases self.items.len() - i,
        {
            if !self.items[i].eq(&other.items[i]) {
                assert(self@[i as int] != other@[i as int]);
                return false;
            }
            i += 1;
        }
        assert(self@ =~= other@);
        true
    }
}

impl vstd::std_specs::cmp::PartialEqSpecImpl for RespArray {
    open spec fn obeys_eq_spec() -> bool {
        true
    }

    open spec fn eq_spec(&self, other: &RespArray) -> bool {
        self@ == other@
    }
}

impl Eq for RespArray {

}

impl RespArrayBuilder {
    /// Appends one child.
    pub fn push_resp(&mut self, resp: Resp)
        ensures
            final(self)@ == old(self)@.push(resp@),
    {
        proof {
            self.array.lemma_view();
        }
        self.array.items.push(resp);
        proof {
            self.array.lemma_view();
            assert(self@ =~= old(self)@.push(resp@));
        }
    }

    /// The array of the children pushed so far, in the order of the pushes.
    pub fn build(self) -> (a: RespArray)
        ensures
            a@ == self@,
    {
        self.array
    }
}

impl Default for RespArrayBuilder {
    fn default() -> (b: RespArrayBuilder)
        ensures
            b@ == Seq::<Value>::empty(),
    {
        RespArrayBuilder { array: RespArray::default() }
    }
}

impl RespArrayIterator {
    /// A copy of the next child, or `None` once all were handed out.
    pub fn next(&mut self) -> (r: Option<Resp>)
        ensures
            match r {
                Some(v) => old(self)@.len() > 0 && v@ == old(self)@[0] && final(self)@ == old(
                    self,
                )@.skip(1),
                None => old(self)@.len() == 0 && final(self)@ == old(self)@,
            },
    {
        match self.array.get(self.pos) {
            Some(v) => {
                proof {
                    self.array.lemma_view();
                    assert(self.array.items@.len() == self.array.items.len());
                }
                self.pos = self.pos + 1;
                assert(self@ =~= old(self)@.skip(1));
                Some(v)
            },
            None => None,
        }
    }
}

impl Resp {
    /// An error whose text is `input`.
    pub fn res_from_str(input: &str) -> (r: Resp)
        ensures
            r@ == Value::Error(input.spec_bytes()),
    {
        Resp::Error(buf_from_slice(input.as_bytes()))
    }

    /// An error whose text is `input`.
    pub fn res_from_static_str(input: &'static str) -> (r: Resp)
        ensures
            r@ == Value::Error(input.spec_bytes()),
    {
        Resp::Error(buf_from_slice(input.as_bytes()))
    }

    /// An error whose text is `input`.
    pub fn res_from_bytes(input: &[u8]) -> (r: Resp)
        ensures
            r@ == Value::Error(input@),
    {
        Resp::Error(buf_from_slice(input))
    }

    /// A bulk string holding the bytes of `input`.
    pub fn rbs_from_str(input: &str) -> (r: Resp)
        ensures
            r@ == Value::BulkString(input.spec_bytes()),
    {
        Resp::BulkString(buf_from_slice(input.as_bytes()))
    }

    /// A bulk string holding the bytes of `input`.
    pub fn rbs_from_static_str(input: &'static str) -> (r: Resp)
        ensures
            r@ == Value::BulkString(input.spec_bytes()),
    {
        Resp::BulkString(buf_from_slice(input.as_bytes()))
    }

    /// A bulk string holding `input`.
    pub fn rbs_from_bytes(input: &[u8]) -> (r: Resp)
        ensures
            r@ == Value::BulkString(input@),
    {
        Resp::BulkString(buf_from_slice(input))
    }

    /// A bulk string holding `input`.
    pub fn rbs_from_static_bytes(input: &'static [u8]) -> (r: Resp)
        ensures
            r@ == Value::BulkString(input@),
    {
        Resp::BulkString(buf_from_slice(input))
    }

    /// A simple string holding `input`.
    pub fn rss_from_static_bytes(input: &'static [u8]) -> (r: Resp)
        ensures
            r@ == Value::String(input@),
    {
        Resp::String(buf_from_slice(input))
    }

    /// The integer `input`.
    pub fn ri_from_u64(input: i64) -> (r: Resp)
        ensures
            r@ == Value::Integer(input),
    {
        Resp::Integer(input)
    }

    /// Appends the frame of the value to `writer`. Writing to memory does not
    /// fail, so the result is always `Ok`.
    pub fn write_to_writer(&self, writer: &mut Vec<u8>) -> (r: Result<(), RespParseError>)
        ensures
            r is Ok,
            final(writer)@ == old(writer)@ + self@.encode(),
        decreases self, 1nat,
    {
        match self {
            Resp::String(s) => {
                writer.push(43);
                push_bytes(writer, buf_as_slice(s));
                push_crlf(writer);
                assert(writer@ =~= old(writer)@ + self@.encode());
            },
            Resp::Error(s) => {
                writer.push(45);
                push_bytes(writer, buf_as_slice(s));
                push_crlf(writer);
                assert(writer@ =~= old(writer)@ + self@.encode());
            },
            Resp::Integer(i) => {
                writer.push(58);
                push_int(writer, *i);
                push_crlf(writer);
                assert(writer@ =~= old(writer)@ + self@.encode());
            },
            Resp::BulkString(s) => {
                let payload = buf_as_slice(s);
                writer.push(36);
                push_nat(writer, payload.len() as u128);
                push_crlf(writer);
                push_bytes(writer, payload);
                push_crlf(writer);
                assert(writer@ =~= old(writer)@ + self@.encode());
            },
            Resp::NilBulk => {
                writer.push(36);
                writer.push(45);
                writer.push(49);
                push_crlf(writer);
                assert(writer@ =~= old(writer)@ + nil_bulk_frame());
            },
            Resp::Array(a) => {
                writer.push(42);
                push_nat(writer, a.len() as u128);
                push_crlf(writer);
                a.write_items(writer);
                assert(writer@ =~= old(writer)@ + self@.encode());
            },
            Resp::NilArray => {
                writer.push(42);
                writer.push(45);
                writer.push(49);
                push_crlf(writer);
                assert(writer@ =~= old(writer)@ + nil_array_frame());
            },
        }
        Ok(())
    }

    /// The bytes that stand for the value where a command reads a name or an
    /// argument.
    pub fn as_bytes(&self) -> (out: Vec<u8>)
        ensures
            out@ == self@.as_bytes(),
    {
        let mut out: Vec<u8> = Vec::new();
        match self {
            Resp::String(b) => {
                push_bytes(&mut out, buf_as_slice(b));
            },
            Resp::Error(b) => {
                push_bytes(&mut out, buf_as_slice(b));
            },
            Resp::Integer(i) => {
                push_int(&mut out, *i);
            },
            Resp::BulkString(b) => {
                push_bytes(&mut out, buf_as_slice(b));
            },
            Resp::NilBulk => {
                out.push(45);
                out.push(49);
            },
            Resp::Array(a) => {
                a.write_items(&mut out);
            },
            Resp::NilArray => {
                out.push(45);
                out.push(49);
            },
        }
        assert(out@ =~= self@.as_bytes());
        out
    }

    /// The length of the value's frame in bytes.
    pub fn resp_len(&self) -> (n: usize)
        ensures
            n == self@.encode().len(),
    {
        let mut out: Vec<u8> = Vec::new();
        let _ = self.write_to_writer(&mut out);
        assert(out@ =~= self@.encode());
        out.len()
    }

    /// The value as a signed 64-bit number, where it is one.
    pub fn to_u64(&self) -> (r: Option<i64>)
        ensures
            r == self@.to_i64(),
    {
        match self {
            Resp::String(s) => parse_i64(buf_as_slice(s)),
            Resp::Error(s) => parse_i64(buf_as_slice(s)),
            Resp::Integer(s) => Some(*s),
            Resp::BulkString(s) => parse_i64(buf_as_slice(s)),
            _ => None,
        }
    }

    /// The empty text, whatever the value.
    pub fn to_str(&self) -> (s: String)
        ensures
            s@ == Seq::<char>::empty(),
    {
        String::new()
    }

    /// The value as an unsigned 128-bit number, where it is one.
    pub fn to_u128(&self) -> (r: Option<u128>)
        ensures
            r == self@.to_u128(),
    {
        match self {
            Resp::String(s) => parse_u128(buf_as_slice(s)),
            Resp::Error(s) => parse_u128(buf_as_slice(s)),
            Resp::Integer(s) => Some(
                #[verifier::truncate]
                (*s as u128),
            ),
            Resp::BulkString(s) => parse_u128(buf_as_slice(s)),
            _ => None,
        }
    }

    /// The value as a write restriction, where it names one.
    pub fn to_set_mode(&self) -> (r: Option<SetMode>)
        ensures
            r == self@.to_set_mode(),
    {
        match self {
            Resp::String(b) => set_mode_from_bytes(buf_as_slice(b)),
            Resp::BulkString(b) => set_mode_from_bytes(buf_as_slice(b)),
            _ => None,
        }
    }
}

fn set_mode_from_bytes(b: &[u8]) -> (r: Option<SetMode>)
    ensures
        r == crate::value::set_mode_of(b@),
{
    if eq_ignore_ascii_case(b, "NX".as_bytes()) {
        Some(SetMode::Nx)
    } else if eq_ignore_ascii_case(b, "XX".as_bytes()) {
        Some(SetMode::Xx)
    } else if eq_ignore_ascii_case(b, "GT".as_bytes()) {
        Some(SetMode::Gt)
    } else if eq_ignore_ascii_case(b, "LT".as_bytes()) {
        Some(SetMode::Lt)
    } else {
        None
    }
}

impl Clone for Resp {
    fn clone(&self) -> (r: Resp)
        ensures
            r@ == self@,
        decreases self,
    {
        match self {
            Resp::String(b) => Resp::String(buf_clone(b)),
            Resp::Error(b) => Resp::Error(buf_clone(b)),
            Resp::Integer(i) => Resp::Integer(*i),
            Resp::BulkString(b) => Resp::BulkString(buf_clone(b)),
            Resp::NilBulk => Resp::NilBulk,
            Resp::Array(a) => Resp::Array(a.clone()),
            Resp::NilArray => Resp::NilArray,
        }
    }
}

impl PartialEq for Resp {
    fn eq(&self, other: &Resp) -> (r: bool)
        decreases self,
    {
        match (self, other) {
            (Resp::String(a), Resp::String(b)) => bytes_eq(buf_as_slice(a), buf_as_slice(b)),
            (Resp::Error(a), Resp::Error(b)) => bytes_eq(buf_as_slice(a), buf_as_slice(b)),
            (Resp::Integer(a), Resp::Integer(b)) => *a == *b,
            (Resp::BulkString(a), Resp::BulkString(b)) => bytes_eq(
                buf_as_slice(a),
                buf_as_slice(b),
            ),
            (Resp::NilBulk, Resp::NilBulk) => true,
            (Resp::Array(a), Resp::Array(b)) => a.eq(b),
            (Resp::NilArray, Resp::NilArray) => true,
            _ => false,
        }
    }
}

impl vstd::std_specs::cmp::PartialEqSpecImpl for Resp {
    open spec fn obeys_eq_spec() -> bool {
        true
    }

    open spec fn eq_spec(&self, other: &Resp) -> bool {
        self@ == other@
    }
}

impl Eq for Resp {

}

} // verus!
