//! What holds of framing, decoding and encoding together.
//!
//! A frame is told by its own bytes: what follows it changes neither its
//! length nor its value, and any proper start of it reads as unfinished,
//! never as wrong. Encoding and then decoding gives the value back, for one
//! value and for any number of values sent one after the other.

use crate::decode::{array_value, bulk_value, decode, value_of, values_of};
use crate::frame::{
    after, array_len, bulk_len, frame_len, frames_len, lemma_line_len, lemma_line_none, line_at,
    line_len, minus_one, payload_len, };
use crate::resp::RespParseError;
use crate::text::{
    all_digits, int_text, is_digit, lemma_int_text_no_break, lemma_nat_text, lemma_parse_int_text,
    lemma_parse_nat_text, nat_text, parse_usize_spec, CR, LF,
};
use crate::value::{crlf, encode_all, lemma_encode_all_first, no_break, Value};
use vstd::prelude::*;

verus! {

/// `s` and `t` have the same first `n` bytes.
pub open spec fn agree(s: Seq<u8>, t: Seq<u8>, n: nat) -> bool {
    &&& n <= s.len()
    &&& n <= t.len()
    &&& forall|i: int| 0 <= i < n ==> s[i] == t[i]
}

/// Every value of `vs` can be told from its frame.
pub open spec fn all_wire_safe(vs: Seq<Value>) -> bool {
    forall|i: int| 0 <= i < vs.len() ==> (#[trigger] vs[i]).wire_safe()
}

proof fn lemma_agree_after(s: Seq<u8>, t: Seq<u8>, n: nat, a: nat)
    requires
        agree(s, t, n),
        a <= n,
    ensures
        agree(after(s, a), after(t, a), (n - a) as nat),
{
    assert forall|i: int| 0 <= i < n - a implies after(s, a)[i] == after(t, a)[i] by {
        assert(after(s, a)[i] == s[i + a]);
        assert(after(t, a)[i] == t[i + a]);
    }
}

proof fn lemma_agree_take(s: Seq<u8>, t: Seq<u8>, n: nat, a: int)
    requires
        agree(s, t, n),
        0 <= a <= n,
    ensures
        s.take(a) == t.take(a),
{
    assert(s.take(a) =~= t.take(a));
}

proof fn lemma_agree_subrange(s: Seq<u8>, t: Seq<u8>, n: nat, a: int, b: int)
    requires
        agree(s, t, n),
        0 <= a <= b <= n,
    ensures
        s.subrange(a, b) == t.subrange(a, b),
{
    assert(s.subrange(a, b) =~= t.subrange(a, b));
}

/// A measured line is a line.
pub proof fn lemma_line_ok(s: Seq<u8>, h: nat)
    requires
        line_len(s) == Ok::<nat, RespParseError>(h),
    ensures
        line_at(s, h - 2),
        2 <= h <= s.len(),
{
    reveal(line_len);
}

proof fn lemma_line_extend(s: Seq<u8>, t: Seq<u8>, h: nat)
    requires
        line_len(s) == Ok::<nat, RespParseError>(h),
        agree(s, t, h),
    ensures
        line_len(t) == Ok::<nat, RespParseError>(h),
{
    lemma_line_ok(s, h);
    let n = h - 2;
    assert forall|i: int| 0 <= i < t.take(n).len() implies t.take(n)[i] != CR && t.take(n)[i]
        != LF by {
        assert(s.take(n)[i] == s[i]);
    }
    lemma_line_len(t, n);
}

proof fn lemma_line_truncate(s: Seq<u8>, h: nat, k: int)
    requires
        line_len(s) == Ok::<nat, RespParseError>(h),
        0 <= k < h,
    ensures
        line_len(s.take(k)) == Err::<nat, RespParseError>(RespParseError::NotEnoughBytes),
{
    lemma_line_ok(s, h);
    let n = h - 2;
    let t = s.take(k);
    assert forall|m: int| !line_at(t, m) by {
        if line_at(t, m) {
            assert(t[m] == s[m]);
            assert(s.take(n)[m] == s[m]);
        }
    }
    assert forall|j: int| 0 <= j < t.len() implies t[j] != LF && (t[j] == CR ==> j == t.len()
        - 1) by {
        if j < n {
            assert(s.take(n)[j] == s[j]);
        }
    }
    lemma_line_none(t);
}

/// A measured bulk string lies within the bytes.
pub proof fn lemma_bulk_ok(s: Seq<u8>, total: nat)
    requires
        bulk_len(s) == Ok::<nat, RespParseError>(total),
    ensures
        2 <= total <= s.len(),
{
    reveal(bulk_len);
    let h = line_len(s)->Ok_0;
    lemma_line_ok(s, h);
}

proof fn lemma_bulk_extend(s: Seq<u8>, t: Seq<u8>, total: nat)
    requires
        bulk_len(s) == Ok::<nat, RespParseError>(total),
        agree(s, t, total),
    ensures
        bulk_len(t) == Ok::<nat, RespParseError>(total),
        bulk_value(t) == bulk_value(s),
{
    reveal(bulk_len);
    let h = line_len(s)->Ok_0;
    lemma_line_ok(s, h);
    lemma_line_extend(s, t, h);
    lemma_agree_take(s, t, total, h - 2);
    if s.take(h - 2) != minus_one() {
        let n = parse_usize_spec(s.take(h - 2))->Some_0 as nat;
        lemma_agree_after(s, t, total, h);
        assert(after(s, h)[n as int] == after(t, h)[n as int]);
        assert(after(s, h)[n as int + 1] == after(t, h)[n as int + 1]);
        lemma_agree_subrange(s, t, total, h as int, total - 2);
    }
}

proof fn lemma_bulk_truncate(s: Seq<u8>, total: nat, k: int)
    requires
        bulk_len(s) == Ok::<nat, RespParseError>(total),
        0 <= k < total,
    ensures
        bulk_len(s.take(k)) == Err::<nat, RespParseError>(RespParseError::NotEnoughBytes),
{
    reveal(bulk_len);
    let h = line_len(s)->Ok_0;
    let t = s.take(k);
    lemma_line_ok(s, h);
    if k < h {
        lemma_line_truncate(s, h, k);
    } else {
        assert(agree(s, t, h));
        lemma_line_extend(s, t, h);
        lemma_agree_take(s, t, h, h - 2);
        let n = parse_usize_spec(s.take(h - 2))->Some_0 as nat;
        assert(after(t, h).len() == k - h);
        if k - h > n {
            assert(after(t, h)[n as int] == t[h as int + n]);
            assert(after(s, h)[n as int] == s[h as int + n]);
        }
    }
}

/// A measured frame lies within the bytes.
pub proof fn lemma_frame_ok(s: Seq<u8>, n: nat)
    requires
        frame_len(s) == Ok::<nat, RespParseError>(n),
    ensures
        2 <= n <= s.len(),
    decreases s.len(), 0nat, 0nat,
{
    let rest = after(s, 1);
    if s[0] == '+' as u8 || s[0] == '-' as u8 || s[0] == ':' as u8 {
        lemma_line_ok(rest, (n - 1) as nat);
    } else if s[0] == '$' as u8 {
        lemma_bulk_ok(rest, (n - 1) as nat);
    } else if s[0] == '*' as u8 {
        lemma_array_ok(rest, (n - 1) as nat);
    } else {
        lemma_line_ok(s, n);
    }
}

/// A measured array lies within the bytes.
pub proof fn lemma_array_ok(s: Seq<u8>, total: nat)
    requires
        array_len(s) == Ok::<nat, RespParseError>(total),
    ensures
        2 <= total <= s.len(),
    decreases s.len(), 2nat, 0nat,
{
    let h = line_len(s)->Ok_0;
    lemma_line_ok(s, h);
    if s.take(h - 2) != minus_one() {
        let n = parse_usize_spec(s.take(h - 2))->Some_0 as nat;
        lemma_frames_ok(after(s, h), n, (total - h) as nat);
    }
}

/// A measured run of frames lies within the bytes.
pub proof fn lemma_frames_ok(s: Seq<u8>, count: nat, total: nat)
    requires
        frames_len(s, count) == Ok::<nat, RespParseError>(total),
    ensures
        total <= s.len(),
        count > 0 ==> total >= 2,
    decreases s.len(), 1nat, count,
{
    if count > 0 {
        let k = frame_len(s)->Ok_0;
        lemma_frame_ok(s, k);
        lemma_frames_ok(after(s, k), (count - 1) as nat, (total - k) as nat);
    }
}

/// What follows a frame changes neither its length nor its value.
pub proof fn lemma_frame_extend(s: Seq<u8>, t: Seq<u8>, n: nat)
    requires
        frame_len(s) == Ok::<nat, RespParseError>(n),
        agree(s, t, n),
    ensures
        frame_len(t) == Ok::<nat, RespParseError>(n),
        value_of(t) == value_of(s),
    decreases s.len(), 0nat, 0nat,
{
    lemma_frame_ok(s, n);
    let m = (n - 1) as nat;
    lemma_agree_after(s, t, n, 1);
    assert(s[0] == t[0]);
    if s[0] == '+' as u8 || s[0] == '-' as u8 || s[0] == ':' as u8 {
        lemma_line_ok(after(s, 1), m);
        lemma_line_extend(after(s, 1), after(t, 1), m);
        lemma_agree_subrange(s, t, n, 1, n - 2);
    } else if s[0] == '$' as u8 {
        lemma_bulk_extend(after(s, 1), after(t, 1), m);
    } else if s[0] == '*' as u8 {
        lemma_array_extend(after(s, 1), after(t, 1), m);
    } else {
        lemma_line_extend(s, t, n);
        lemma_agree_subrange(s, t, n, 0, n - 2);
    }
}

/// What follows an array changes neither its length nor its value.
pub proof fn lemma_array_extend(s: Seq<u8>, t: Seq<u8>, total: nat)
    requires
        array_len(s) == Ok::<nat, RespParseError>(total),
        agree(s, t, total),
    ensures
        array_len(t) == Ok::<nat, RespParseError>(total),
        array_value(t) == array_value(s),
    decreases s.len(), 2nat, 0nat,
{
    let h = line_len(s)->Ok_0;
    lemma_line_ok(s, h);
    lemma_array_ok(s, total);
    assert(agree(s, t, h));
    lemma_line_extend(s, t, h);
    lemma_agree_take(s, t, total, h - 2);
    if s.take(h - 2) != minus_one() {
        let n = parse_usize_spec(s.take(h - 2))->Some_0 as nat;
        lemma_agree_after(s, t, total, h);
        lemma_frames_extend(after(s, h), after(t, h), n, (total - h) as nat);
    }
}

/// What follows a run of frames changes neither its length nor its values.
pub proof fn lemma_frames_extend(s: Seq<u8>, t: Seq<u8>, count: nat, total: nat)
    requires
        frames_len(s, count) == Ok::<nat, RespParseError>(total),
        agree(s, t, total),
    ensures
        frames_len(t, count) == Ok::<nat, RespParseError>(total),
        values_of(t, count) == values_of(s, count),
    decreases s.len(), 1nat, count,
{
    if count > 0 {
        let k = frame_len(s)->Ok_0;
        lemma_frame_ok(s, k);
        lemma_frames_ok(after(s, k), (count - 1) as nat, (total - k) as nat);
        assert(agree(s, t, k));
        lemma_frame_extend(s, t, k);
        lemma_agree_after(s, t, total, k);
        lemma_frames_extend(after(s, k), after(t, k), (count - 1) as nat, (total - k) as nat);
    }
}

/// A proper start of a frame reads as unfinished.
pub proof fn lemma_frame_truncate(s: Seq<u8>, n: nat, k: int)
    requires
        frame_len(s) == Ok::<nat, RespParseError>(n),
        0 <= k < n,
    ensures
        frame_len(s.take(k)) == Err::<nat, RespParseError>(RespParseError::NotEnoughBytes),
    decreases s.len(), 0nat, 0nat,
{
    lemma_frame_ok(s, n);
    let t = s.take(k);
    if k > 0 {
        assert(t[0] == s[0]);
        assert(after(t, 1) =~= after(s, 1).take(k - 1));
        let m = (n - 1) as nat;
        if s[0] == '+' as u8 || s[0] == '-' as u8 || s[0] == ':' as u8 {
            lemma_line_truncate(after(s, 1), m, k - 1);
        } else if s[0] == '$' as u8 {
            lemma_bulk_truncate(after(s, 1), m, k - 1);
        } else if s[0] == '*' as u8 {
            lemma_array_truncate(after(s, 1), m, k - 1);
        } else {
            lemma_line_truncate(s, n, k);
        }
    }
}

/// A proper start of an array reads as unfinished.
pub proof fn lemma_array_truncate(s: Seq<u8>, total: nat, k: int)
    requires
        array_len(s) == Ok::<nat, RespParseError>(total),
        0 <= k < total,
    ensures
        array_len(s.take(k)) == Err::<nat, RespParseError>(RespParseError::NotEnoughBytes),
    decreases s.len(), 2nat, 0nat,
{
    let h = line_len(s)->Ok_0;
    let t = s.take(k);
    lemma_line_ok(s, h);
    lemma_array_ok(s, total);
    if k < h {
        lemma_line_truncate(s, h, k);
    } else {
        assert(agree(s, t, h));
        lemma_line_extend(s, t, h);
        lemma_agree_take(s, t, h, h - 2);
        let n = parse_usize_spec(s.take(h - 2))->Some_0 as nat;
        assert(after(t, h) =~= after(s, h).take(k - h));
        lemma_frames_truncate(after(s, h), n, (total - h) as nat, k - h);
    }
}

/// A proper start of a run of frames reads as unfinished.
pub proof fn lemma_frames_truncate(s: Seq<u8>, count: nat, total: nat, k: int)
    requires
        frames_len(s, count) == Ok::<nat, RespParseError>(total),
        0 <= k < total,
    ensures
        frames_len(s.take(k), count) == Err::<nat, RespParseError>(
            RespParseError::NotEnoughBytes,
        ),
    decreases s.len(), 1nat, count,
{
    let t = s.take(k);
    let f = frame_len(s)->Ok_0;
    lemma_frame_ok(s, f);
    lemma_frames_ok(after(s, f), (count - 1) as nat, (total - f) as nat);
    if k < f {
        lemma_frame_truncate(s, f, k);
    } else {
        assert(agree(s, t, f));
        lemma_frame_extend(s, t, f);
        assert(after(t, f) =~= after(s, f).take(k - f));
        lemma_frames_truncate(after(s, f), (count - 1) as nat, (total - f) as nat, k - f);
    }
}

/// Cutting a frame short never makes it wrong: where `b` starts with a frame
/// of `n` bytes, the first `k` bytes of `b` read as unfinished for `k < n`,
/// and as the same frame from `n` on.
pub proof fn law_truncation(b: Seq<u8>, n: nat, k: int)
    requires
        frame_len(b) == Ok::<nat, RespParseError>(n),
        0 <= k <= b.len(),
    ensures
        k < n ==> frame_len(b.take(k)) == Err::<nat, RespParseError>(
            RespParseError::NotEnoughBytes,
        ),
        k >= n ==> frame_len(b.take(k)) == Ok::<nat, RespParseError>(n),
        frame_len(b.take(k)) != Err::<nat, RespParseError>(RespParseError::IncorrectFormat),
{
    lemma_frame_ok(b, n);
    if k < n {
        lemma_frame_truncate(b, n, k);
    } else {
        assert(agree(b, b.take(k), n));
        lemma_frame_extend(b, b.take(k), n);
    }
}

/// Framing is monotone: where `b` starts with a frame of `n` bytes, any
/// start of `b` of at most `n` bytes reads as unfinished or as a frame of at
/// most `n` bytes.
pub proof fn law_frame_len_monotone(b: Seq<u8>, n: nat, k: int)
    requires
        frame_len(b) == Ok::<nat, RespParseError>(n),
        0 <= k <= n,
    ensures
        match frame_len(b.take(k)) {
            Ok(m) => m <= n,
            Err(e) => e == RespParseError::NotEnoughBytes,
        },
{
    lemma_frame_ok(b, n);
    law_truncation(b, n, k);
}

proof fn lemma_digits_line(digits: Seq<u8>, rest: Seq<u8>)
    requires
        all_digits(digits),
    ensures
        line_len(digits + crlf() + rest) == Ok::<nat, RespParseError>(digits.len() + 2),
        (digits + crlf() + rest).take(digits.len() as int) == digits,
        after(digits + crlf() + rest, digits.len() + 2) == rest,
{
    let s = digits + crlf() + rest;
    let n = digits.len() as int;
    assert(s.take(n) =~= digits);
    assert forall|i: int| 0 <= i < digits.len() implies digits[i] != CR && digits[i] != LF by {
        assert(is_digit(digits[i]));
    }
    assert(s[n] == CR);
    assert(s[n + 1] == LF);
    lemma_line_len(s, n);
    assert(after(s, (n + 2) as nat) =~= rest);
}

proof fn lemma_plain_line(body: Seq<u8>, rest: Seq<u8>)
    requires
        no_break(body),
    ensures
        line_len(body + crlf() + rest) == Ok::<nat, RespParseError>(body.len() + 2),
{
    let s = body + crlf() + rest;
    let n = body.len() as int;
    assert(s.take(n) =~= body);
    assert(s[n] == CR);
    assert(s[n + 1] == LF);
    lemma_line_len(s, n);
}

proof fn lemma_read_string(v: Value, tail: Seq<u8>)
    requires
        v.wire_safe(),
        v is String || v is Error,
    ensures
        frame_len(v.encode() + tail) == Ok::<nat, RespParseError>(v.encode().len()),
        value_of(v.encode() + tail) == Some(v),
{
    let s = v.encode() + tail;
    let n = v.encode().len();
    let b = match v {
        Value::String(b) => b,
        Value::Error(b) => b,
        _ => Seq::empty(),
    };
    assert(after(s, 1) =~= b + crlf() + tail);
    lemma_plain_line(b, tail);
    assert(s.subrange(1, n - 2) =~= b);
}

proof fn lemma_read_integer(i: i64, tail: Seq<u8>)
    ensures
        frame_len(Value::Integer(i).encode() + tail) == Ok::<nat, RespParseError>(
            Value::Integer(i).encode().len(),
        ),
        value_of(Value::Integer(i).encode() + tail) == Some(Value::Integer(i)),
{
    let v = Value::Integer(i);
    let s = v.encode() + tail;
    let n = v.encode().len();
    let text = int_text(i as int);
    assert(after(s, 1) =~= text + crlf() + tail);
    lemma_int_text_no_break(i as int);
    lemma_plain_line(text, tail);
    assert(s.subrange(1, n - 2) =~= text);
    lemma_parse_int_text(i as int);
}

#[verifier::rlimit(40)]
proof fn lemma_read_bulk(b: Seq<u8>, tail: Seq<u8>)
    requires
        b.len() <= usize::MAX,
    ensures
        frame_len(Value::BulkString(b).encode() + tail) == Ok::<nat, RespParseError>(
            Value::BulkString(b).encode().len(),
        ),
        value_of(Value::BulkString(b).encode() + tail) == Some(Value::BulkString(b)),
{
    let v = Value::BulkString(b);
    let s = v.encode() + tail;
    let digits = nat_text(b.len());
    let rest = b + crlf() + tail;
    let r = after(s, 1);
    assert(r =~= digits + crlf() + rest);
    lemma_nat_text(b.len());
    lemma_parse_nat_text(b.len());
    lemma_digits_line(digits, rest);
    let h = digits.len() + 2;
    assert(is_digit(digits[0]));
    assert(digits != minus_one()) by {
        assert(minus_one()[0] == '-' as u8);
    }
    assert(rest[b.len() as int] == CR);
    assert(rest[b.len() as int + 1] == LF);
    assert(payload_len(rest, b.len()) == Ok::<nat, RespParseError>(b.len() + 2));
    assert(bulk_len(r) == Ok::<nat, RespParseError>(h + b.len() + 2)) by {
        reveal(bulk_len);
    }
    assert(r.subrange(h as int, h as int + b.len()) =~= b);
}

proof fn lemma_nil_line(tail: Seq<u8>)
    ensures
        line_len(minus_one() + crlf() + tail) == Ok::<nat, RespParseError>(4),
        (minus_one() + crlf() + tail).take(2) == minus_one(),
{
    let r = minus_one() + crlf() + tail;
    assert(r.take(2) =~= minus_one());
    assert(no_break(minus_one()));
    lemma_plain_line(minus_one(), tail);
}

proof fn lemma_read_nil_bulk(tail: Seq<u8>)
    ensures
        frame_len(Value::NilBulk.encode() + tail) == Ok::<nat, RespParseError>(
            Value::NilBulk.encode().len(),
        ),
        value_of(Value::NilBulk.encode() + tail) == Some(Value::NilBulk),
{
    let s = Value::NilBulk.encode() + tail;
    let r = after(s, 1);
    assert(r =~= minus_one() + crlf() + tail);
    lemma_nil_line(tail);
    assert(bulk_len(r) == Ok::<nat, RespParseError>(4)) by {
        reveal(bulk_len);
    }
}

proof fn lemma_read_nil_array(tail: Seq<u8>)
    ensures
        frame_len(Value::NilArray.encode() + tail) == Ok::<nat, RespParseError>(
            Value::NilArray.encode().len(),
        ),
        value_of(Value::NilArray.encode() + tail) == Some(Value::NilArray),
{
    let s = Value::NilArray.encode() + tail;
    let r = after(s, 1);
    assert(r =~= minus_one() + crlf() + tail);
    lemma_nil_line(tail);
}

/// The frame of an array whose children read back, whatever follows it,
/// measures as its own length and carries the array.
proof fn lemma_read_array(a: Seq<Value>, tail: Seq<u8>)
    requires
        a.len() <= usize::MAX,
        frames_len(encode_all(a) + tail, a.len()) == Ok::<nat, RespParseError>(
            encode_all(a).len(),
        ),
        values_of(encode_all(a) + tail, a.len()) == Some(a),
    ensures
        frame_len(Value::Array(a).encode() + tail) == Ok::<nat, RespParseError>(
            Value::Array(a).encode().len(),
        ),
        value_of(Value::Array(a).encode() + tail) == Some(Value::Array(a)),
{
    let v = Value::Array(a);
    let s = v.encode() + tail;
    let digits = nat_text(a.len());
    let rest = encode_all(a) + tail;
    let r = after(s, 1);
    assert(r =~= digits + crlf() + rest);
    lemma_nat_text(a.len());
    lemma_parse_nat_text(a.len());
    lemma_digits_line(digits, rest);
    assert(is_digit(digits[0]));
    assert(digits != minus_one()) by {
        assert(minus_one()[0] == '-' as u8);
    }
}

/// The frame of a value, whatever follows it, measures as its own length and
/// carries the value.
pub proof fn lemma_encode_then_read(v: Value, tail: Seq<u8>)
    requires
        v.wire_safe(),
    ensures
        frame_len(v.encode() + tail) == Ok::<nat, RespParseError>(v.encode().len()),
        value_of(v.encode() + tail) == Some(v),
    decreases v, 1nat,
{
    match v {
        Value::String(b) => {
            lemma_read_string(v, tail);
        },
        Value::Error(b) => {
            lemma_read_string(v, tail);
        },
        Value::Integer(i) => {
            lemma_read_integer(i, tail);
        },
        Value::BulkString(b) => {
            lemma_read_bulk(b, tail);
        },
        Value::NilBulk => {
            lemma_read_nil_bulk(tail);
        },
        Value::Array(a) => {
            lemma_encode_all_then_read(a, tail);
            lemma_read_array(a, tail);
        },
        Value::NilArray => {
            lemma_read_nil_array(tail);
        },
    }
}

/// The frames of a run of values, whatever follows them, measure as their
/// own length and carry the values in order.
pub proof fn lemma_encode_all_then_read(vs: Seq<Value>, tail: Seq<u8>)
    requires
        all_wire_safe(vs),
    ensures
        frames_len(encode_all(vs) + tail, vs.len()) == Ok::<nat, RespParseError>(
            encode_all(vs).len(),
        ),
        values_of(encode_all(vs) + tail, vs.len()) == Some(vs),
    decreases vs, 0nat,
{
    if vs.len() == 0 {
        assert(encode_all(vs) =~= Seq::<u8>::empty());
        assert(vs =~= Seq::<Value>::empty());
    } else {
        let first = vs[0];
        let others = vs.skip(1);
        lemma_encode_all_first(vs);
        let s = encode_all(vs) + tail;
        let next = encode_all(others) + tail;
        assert(s =~= first.encode() + next);
        lemma_encode_then_read(first, next);
        let k = first.encode().len();
        assert(after(s, k) =~= next);
        assert forall|i: int| 0 <= i < others.len() implies (#[trigger] others[i]).wire_safe() by {
            assert(others[i] == vs[i + 1]);
        }
        lemma_encode_all_then_read(others, tail);
        assert(seq![first] + others =~= vs);
    }
}

/// Decoding the frame of a value gives the value back.
pub proof fn law_decode_encode(v: Value)
    requires
        v.wire_safe(),
    ensures
        decode(v.encode()) == Ok::<Value, RespParseError>(v),
{
    lemma_encode_then_read(v, Seq::empty());
    assert(v.encode() + Seq::<u8>::empty() =~= v.encode());
}

/// Values sent one after the other come out in order, and no byte is left
/// over: at every position of the stream the next frame is the frame of the
/// next value, and after the last frame the stream is empty.
pub proof fn law_stream(vs: Seq<Value>, i: int)
    requires
        all_wire_safe(vs),
        0 <= i <= vs.len(),
    ensures
        frames_len(encode_all(vs), vs.len()) == Ok::<nat, RespParseError>(encode_all(vs).len()),
        values_of(encode_all(vs), vs.len()) == Some(vs),
        i < vs.len() ==> {
            &&& frame_len(encode_all(vs.skip(i))) == Ok::<nat, RespParseError>(
                vs[i].encode().len(),
            )
            &&& value_of(encode_all(vs.skip(i))) == Some(vs[i])
            &&& after(encode_all(vs.skip(i)), vs[i].encode().len()) == encode_all(vs.skip(i + 1))
        },
        i == vs.len() ==> encode_all(vs.skip(i)).len() == 0,
{
    lemma_encode_all_then_read(vs, Seq::empty());
    assert(encode_all(vs) + Seq::<u8>::empty() =~= encode_all(vs));
    let here = vs.skip(i);
    if i < vs.len() {
        lemma_encode_all_first(here);
        assert(here[0] == vs[i]);
        assert(here.skip(1) =~= vs.skip(i + 1));
        let next = encode_all(vs.skip(i + 1));
        lemma_encode_then_read(vs[i], next);
        assert(after(vs[i].encode() + next, vs[i].encode().len()) =~= next);
    } else {
        assert(here =~= Seq::<Value>::empty());
    }
}

} // verus!
