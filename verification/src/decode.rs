//! Decoding: the value that a frame carries.
//!
//! [`value_of`] reads the first frame of a byte string, as measured by
//! [`frame_len`], and nothing beyond it. The payload of a string is taken
//! byte for byte. A frame that measures well can still carry no value: an
//! integer frame whose text is no 64-bit number.

use crate::buffer::buf_from_slice;
use crate::frame::{
    after, array_len, bulk_len, frame_len, frames_len, get_ra_length, get_rbs_length,
    get_resp_length, get_rss_length, is_minus_one, line_len, minus_one, parse_everything_until_crlf,
    parse_everything_until_index, };
use crate::resp::{Resp, RespArrayBuilder, RespParseError};
use crate::text::{parse_i64, parse_i64_spec, parse_usize, parse_usize_spec};
use crate::value::Value;
use vstd::prelude::*;
use vstd::slice::slice_subrange;

verus! {

/// The value of a bulk string after its marker.
pub open spec fn bulk_value(s: Seq<u8>) -> Option<Value> {
    match (bulk_len(s), line_len(s)) {
        (Ok(total), Ok(h)) => {
            if s.take(h - 2) == minus_one() {
                Some(Value::NilBulk)
            } else {
                Some(Value::BulkString(s.subrange(h as int, total - 2)))
            }
        },
        _ => None,
    }
}

/// The value of an array after its marker.
pub open spec fn array_value(s: Seq<u8>) -> Option<Value>
    decreases s.len(), 2nat, 0nat,
{
    match line_len(s) {
        Err(_) => None,
        Ok(h) => {
            let head = s.take(h - 2);
            if head == minus_one() {
                Some(Value::NilArray)
            } else {
                match parse_usize_spec(head) {
                    None => None,
                    Some(n) => match values_of(after(s, h), n as nat) {
                        Some(vs) => Some(Value::Array(vs)),
                        None => None,
                    },
                }
            }
        },
    }
}

/// The values of `count` frames in a row.
pub open spec fn values_of(s: Seq<u8>, count: nat) -> Option<Seq<Value>>
    decreases s.len(), 1nat, count,
{
    if count == 0 {
        Some(Seq::empty())
    } else {
        match (frame_len(s), value_of(s)) {
            (Ok(k), Some(v)) => match values_of(after(s, k), (count - 1) as nat) {
                Some(rest) => Some(seq![v] + rest),
                None => None,
            },
            _ => None,
        }
    }
}

/// The value of the frame that starts `s`.
pub open spec fn value_of(s: Seq<u8>) -> Option<Value>
    decreases s.len(), 0nat, 0nat,
{
    if s.len() == 0 {
        None
    } else {
        match frame_len(s) {
            Err(_) => None,
            Ok(n) => {
                if s[0] == '+' as u8 {
                    Some(Value::String(s.subrange(1, n - 2)))
                } else if s[0] == '-' as u8 {
                    Some(Value::Error(s.subrange(1, n - 2)))
                } else if s[0] == ':' as u8 {
                    match parse_i64_spec(s.subrange(1, n - 2)) {
                        Some(i) => Some(Value::Integer(i)),
                        None => None,
                    }
                } else if s[0] == '$' as u8 {
                    bulk_value(after(s, 1))
                } else if s[0] == '*' as u8 {
                    array_value(after(s, 1))
                } else {
                    Some(Value::String(s.subrange(0, n - 2)))
                }
            },
        }
    }
}

/// What reading a value gives: the value, or the reason why the bytes do not
/// measure as `len` says, or `IncorrectFormat` where they measure well and
/// carry no value.
pub open spec fn read(len: Result<nat, RespParseError>, value: Option<Value>) -> Result<
    Value,
    RespParseError,
> {
    match len {
        Err(e) => Err(e),
        Ok(_) => match value {
            Some(v) => Ok(v),
            None => Err(RespParseError::IncorrectFormat),
        },
    }
}

/// What decoding `s` gives, where `s` is to be one frame and no more: the
/// frame's value; the framing error of `s`; or `IncorrectFormat` where bytes
/// follow the frame or the frame carries no value.
pub open spec fn decode(s: Seq<u8>) -> Result<Value, RespParseError> {
    match frame_len(s) {
        Err(e) => Err(e),
        Ok(n) => if n != s.len() {
            Err(RespParseError::IncorrectFormat)
        } else {
            read(frame_len(s), value_of(s))
        },
    }
}

/// `r` is the outcome `m`, as an executable value.
pub open spec fn decoded(r: Result<Resp, RespParseError>, m: Result<Value, RespParseError>) -> bool {
    match r {
        Ok(v) => m == Ok::<Value, RespParseError>(v@),
        Err(e) => m == Err::<Value, RespParseError>(e),
    }
}

/// Decodes `input`, which is to hold one frame and nothing else.
pub fn cast_bytes_to_resp(input: &[u8]) -> (r: Result<Resp, RespParseError>)
    ensures
        decoded(r, decode(input@)),
{
    match get_resp_length(input) {
        Err(e) => Err(e),
        Ok(n) => {
            if n != input.len() {
                Err(RespParseError::IncorrectFormat)
            } else {
                match value_in(input) {
                    Some(v) => Ok(v),
                    None => Err(RespParseError::IncorrectFormat),
                }
            }
        },
    }
}

/// Decodes the bulk string that starts `input`, which begins after the
/// marker.
pub fn cast_bytes_to_rbs(input: &[u8]) -> (r: Result<Resp, RespParseError>)
    ensures
        decoded(r, read(bulk_len(input@), bulk_value(input@))),
{
    match get_rbs_length(input) {
        Err(e) => Err(e),
        Ok(_) => Ok(bulk_in(input)),
    }
}

/// Decodes the array that starts `input`, which begins after the marker.
pub fn cast_bytes_to_ra(input: &[u8]) -> (r: Result<Resp, RespParseError>)
    ensures
        decoded(r, read(array_len(input@), array_value(input@))),
{
    match get_ra_length(input) {
        Err(e) => Err(e),
        Ok(_) => match array_in(input) {
            Some(v) => Ok(v),
            None => Err(RespParseError::IncorrectFormat),
        },
    }
}

/// The value of the frame that starts `input`.
fn value_in(input: &[u8]) -> (r: Option<Resp>)
    requires
        frame_len(input@) is Ok,
    ensures
        match r {
            Some(v) => value_of(input@) == Some(v@),
            None => value_of(input@) is None,
        },
    decreases input@.len(), 0nat,
{
    if input.len() == 0 {
        return None;
    }
    let marker_byte = input[0];
    let payload = slice_subrange(input, 1, input.len());
    assert(payload@ =~= after(input@, 1));
    if marker_byte == 43 || marker_byte == 45 || marker_byte == 58 {
        match get_rss_length(payload) {
            Ok(h) => {
                let body = slice_subrange(payload, 0, h - 2);
                assert(body@ =~= input@.subrange(1, h + 1 - 2));
                if marker_byte == 43 {
                    Some(Resp::String(buf_from_slice(body)))
                } else if marker_byte == 45 {
                    Some(Resp::Error(buf_from_slice(body)))
                } else {
                    match parse_i64(body) {
                        Some(i) => Some(Resp::Integer(i)),
                        None => None,
                    }
                }
            },
            Err(_) => None,
        }
    } else if marker_byte == 36 {
        Some(bulk_in(payload))
    } else if marker_byte == 42 {
        array_in(payload)
    } else {
        match get_rss_length(input) {
            Ok(h) => {
                let body = slice_subrange(input, 0, h - 2);
                Some(Resp::String(buf_from_slice(body)))
            },
            Err(_) => None,
        }
    }
}

/// The value of the bulk string that starts `input`.
fn bulk_in(input: &[u8]) -> (r: Resp)
    requires
        bulk_len(input@) is Ok,
    ensures
        bulk_value(input@) == Some(r@),
{
    proof {
        reveal(bulk_len);
    }
    match parse_everything_until_crlf(input) {
        Ok((size_bytes, leftover)) => {
            if is_minus_one(size_bytes) {
                Resp::NilBulk
            } else {
                match parse_usize(size_bytes) {
                    Some(size) => match parse_everything_until_index(leftover, size) {
                        Ok((payload, _)) => {
                            assert(payload@ =~= input@.subrange(
                                size_bytes@.len() as int + 2,
                                size_bytes@.len() as int + 2 + size,
                            ));
                            Resp::BulkString(buf_from_slice(payload))
                        },
                        Err(_) => Resp::NilBulk,
                    },
                    None => Resp::NilBulk,
                }
            }
        },
        Err(_) => Resp::NilBulk,
    }
}

/// The value of the array that starts `input`.
fn array_in(input: &[u8]) -> (r: Option<Resp>)
    requires
        array_len(input@) is Ok,
    ensures
        match r {
            Some(v) => array_value(input@) == Some(v@),
            None => array_value(input@) is None,
        },
    decreases input@.len(), 1nat,
{
    let (size_bytes, leftover) = match parse_everything_until_crlf(input) {
        Ok(p) => p,
        Err(_) => {
            return None;
        },
    };
    if is_minus_one(size_bytes) {
        return Some(Resp::NilArray);
    }
    let size = match parse_usize(size_bytes) {
        Some(size) => size,
        None => {
            return None;
        },
    };
    let ghost body = leftover@;
    let mut builder = RespArrayBuilder::default();
    let mut left = leftover;
    let mut done: usize = 0;
    assert(Seq::<Value>::empty() + Seq::<Value>::empty() =~= Seq::<Value>::empty());
    while done < size
        invariant
            done <= size,
            body.len() < input@.len(),
            left@.len() <= body.len(),
            frames_len(left@, (size - done) as nat) is Ok,
            array_value(input@) == (match values_of(body, size as nat) {
                Some(vs) => Some(Value::Array(vs)),
                None => None,
            }),
            values_of(body, size as nat) == (match values_of(left@, (size - done) as nat) {
                Some(rest) => Some(builder@ + rest),
                None => None,
            }),
        decreases size - done,
    {
        let length = match get_resp_length(left) {
            Ok(length) => length,
            Err(_) => {
                return None;
            },
        };
        let item = match value_in(left) {
            Some(item) => item,
            None => {
                return None;
            },
        };
        let ghost prev = left@;
        let ghost before = builder@;
        let ghost v = item@;
        builder.push_resp(item);
        left = slice_subrange(left, length, left.len());
        proof {
            assert(left@ =~= after(prev, length as nat));
            match values_of(left@, (size - done - 1) as nat) {
                Some(rest) => {
                    assert(before + (seq![v] + rest) =~= before.push(v) + rest);
                },
                None => {},
            }
        }
        done += 1;
    }
    proof {
        assert(builder@ + Seq::<Value>::empty() =~= builder@);
    }
    Some(Resp::Array(builder.build()))
}

} // verus!
