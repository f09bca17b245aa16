//! Framing: how many bytes the first frame of a byte string takes.
//!
//! A frame starts with a marker byte. `+`, `-` and `:` are followed by one
//! line; `$` by a line holding a length, that many bytes and a terminator;
//! `*` by a line holding a count and that many frames. Any other first byte
//! starts a bare line. A line ends with CR LF and holds no other CR or LF.
//!
//! Each measurement answers with the length, or says that the bytes end too
//! soon ([`RespParseError::NotEnoughBytes`]), or that no continuation can
//! make them a frame ([`RespParseError::IncorrectFormat`]).

use crate::resp::RespParseError;
use crate::text::{parse_usize, parse_usize_spec, CR, LF};
use crate::value::no_break;
use vstd::prelude::*;
use vstd::slice::slice_subrange;

verus! {

/// What follows the first `k` bytes of `s`.
pub open spec fn after(s: Seq<u8>, k: nat) -> Seq<u8> {
    if k <= s.len() {
        s.skip(k as int)
    } else {
        Seq::empty()
    }
}

/// A line of `n` bytes starts `s`: `n` bytes without CR or LF, then CR LF.
pub open spec fn line_at(s: Seq<u8>, n: int) -> bool {
    &&& 0 <= n
    &&& n + 2 <= s.len()
    &&& no_break(s.take(n))
    &&& s[n] == CR
    &&& s[n + 1] == LF
}

/// `s` may still become a line: it holds no LF, and a CR only as its last
/// byte.
pub open spec fn line_pending(s: Seq<u8>) -> bool {
    forall|i: int| 0 <= i < s.len() ==> s[i] != LF && (s[i] == CR ==> i == s.len() - 1)
}

/// The length of the line that starts `s`, terminator included.
#[verifier::opaque]
pub open spec fn line_len(s: Seq<u8>) -> Result<nat, RespParseError> {
    if exists|n: int| line_at(s, n) {
        Ok(((choose|n: int| line_at(s, n)) + 2) as nat)
    } else if line_pending(s) {
        Err(RespParseError::NotEnoughBytes)
    } else {
        Err(RespParseError::IncorrectFormat)
    }
}

/// The length of a payload of `n` bytes with its terminator, where `s`
/// starts with one.
pub open spec fn payload_len(s: Seq<u8>, n: nat) -> Result<nat, RespParseError> {
    if s.len() <= n {
        Err(RespParseError::NotEnoughBytes)
    } else if s[n as int] != CR {
        Err(RespParseError::IncorrectFormat)
    } else if s.len() == n + 1 {
        Err(RespParseError::NotEnoughBytes)
    } else if s[n as int + 1] != LF {
        Err(RespParseError::IncorrectFormat)
    } else {
        Ok(n + 2)
    }
}

/// The text `-1`, which marks an absent bulk string or array.
pub open spec fn minus_one() -> Seq<u8> {
    seq!['-' as u8, '1' as u8]
}

/// `r`, with `k` added to a length.
pub open spec fn plus(r: Result<nat, RespParseError>, k: nat) -> Result<nat, RespParseError> {
    match r {
        Ok(n) => Ok(n + k),
        Err(e) => Err(e),
    }
}

/// The length of a bulk string after its marker: the length line, then
/// either nothing (for `-1`) or the payload and its terminator.
#[verifier::opaque]
pub open spec fn bulk_len(s: Seq<u8>) -> Result<nat, RespParseError> {
    match line_len(s) {
        Err(e) => Err(e),
        Ok(h) => {
            let head = s.take(h - 2);
            if head == minus_one() {
                Ok(h)
            } else {
                match parse_usize_spec(head) {
                    None => Err(RespParseError::IncorrectFormat),
                    Some(n) => plus(payload_len(after(s, h), n as nat), h),
                }
            }
        },
    }
}

/// The length of an array after its marker: the count line, then either
/// nothing (for `-1`) or that many frames.
pub open spec fn array_len(s: Seq<u8>) -> Result<nat, RespParseError>
    decreases s.len(), 2nat, 0nat,
{
    match line_len(s) {
        Err(e) => Err(e),
        Ok(h) => {
            let head = s.take(h - 2);
            if head == minus_one() {
                Ok(h)
            } else {
                match parse_usize_spec(head) {
                    None => Err(RespParseError::IncorrectFormat),
                    Some(n) => plus(frames_len(after(s, h), n as nat), h),
                }
            }
        },
    }
}

/// The length of `count` frames in a row.
pub open spec fn frames_len(s: Seq<u8>, count: nat) -> Result<nat, RespParseError>
    decreases s.len(), 1nat, count,
{
    if count == 0 {
        Ok(0)
    } else {
        match frame_len(s) {
            Err(e) => Err(e),
            Ok(k) => plus(frames_len(after(s, k), (count - 1) as nat), k),
        }
    }
}

/// The length of the frame that starts `s`.
pub open spec fn frame_len(s: Seq<u8>) -> Result<nat, RespParseError>
    decreases s.len(), 0nat, 0nat,
{
    if s.len() == 0 {
        Err(RespParseError::NotEnoughBytes)
    } else if s[0] == '+' as u8 || s[0] == '-' as u8 || s[0] == ':' as u8 {
        plus(line_len(after(s, 1)), 1)
    } else if s[0] == '$' as u8 {
        plus(bulk_len(after(s, 1)), 1)
    } else if s[0] == '*' as u8 {
        plus(array_len(after(s, 1)), 1)
    } else {
        line_len(s)
    }
}

/// `r` is the measurement `m`, as a machine number.
pub open spec fn measured(r: Result<usize, RespParseError>, m: Result<nat, RespParseError>) -> bool {
    match r {
        Ok(n) => m == Ok::<nat, RespParseError>(n as nat),
        Err(e) => m == Err::<nat, RespParseError>(e),
    }
}

/// Where no line starts `s`, the bytes either may still become one or
/// cannot.
pub proof fn lemma_line_none(s: Seq<u8>)
    requires
        forall|n: int| !line_at(s, n),
    ensures
        line_len(s) == (if line_pending(s) {
            Err::<nat, RespParseError>(RespParseError::NotEnoughBytes)
        } else {
            Err::<nat, RespParseError>(RespParseError::IncorrectFormat)
        }),
{
    reveal(line_len);
}

/// A line has one end only.
pub proof fn lemma_line_unique(s: Seq<u8>, n: int, m: int)
    requires
        line_at(s, n),
        line_at(s, m),
    ensures
        n == m,
{
    if n < m {
        assert(s.take(m)[n] == CR);
    }
    if m < n {
        assert(s.take(n)[m] == CR);
    }
}

/// Where a line of `n` bytes starts `s`, the line's length is `n + 2`.
pub proof fn lemma_line_len(s: Seq<u8>, n: int)
    requires
        line_at(s, n),
    ensures
        line_len(s) == Ok::<nat, RespParseError>((n + 2) as nat),
{
    reveal(line_len);
    let c = choose|k: int| line_at(s, k);
    lemma_line_unique(s, n, c);
}

/// Splits `input` at its first line end: the line without its terminator,
/// and what follows the terminator.
pub fn parse_everything_until_crlf(input: &[u8]) -> (r: Result<(&[u8], &[u8]), RespParseError>)
    ensures
        match r {
            Ok((before, rest)) => {
                &&& line_len(input@) == Ok::<nat, RespParseError>(before@.len() + 2)
                &&& before@ == input@.take(before@.len() as int)
                &&& rest@ == after(input@, before@.len() + 2)
                &&& before@.len() + 2 + rest@.len() == input@.len() <= usize::MAX
            },
            Err(e) => line_len(input@) == Err::<nat, RespParseError>(e),
        },
{
    let ghost s = input@;
    let mut i: usize = 0;
    while i < input.len()
        invariant
            i <= input.len(),
            s == input@,
            no_break(s.take(i as int)),
        decreases input.len() - i,
    {
        let b = input[i];
        if b == LF {
            proof {
                assert forall|n: int| !line_at(s, n) by {
                    if line_at(s, n) {
                        if n < i {
                            assert(s.take(i as int)[n] == CR);
                        } else if n > i {
                            assert(s.take(n)[i as int] == LF);
                        }
                    }
                }
                lemma_line_none(s);
            }
            return Err(RespParseError::IncorrectFormat);
        }
        if b == CR {
            if i + 1 == input.len() {
                proof {
                    assert forall|n: int| !line_at(s, n) by {
                        if line_at(s, n) {
                            assert(s.take(i as int)[n] == CR);
                        }
                    }
                lemma_line_none(s);
                    assert forall|j: int| 0 <= j < s.len() implies s[j] != LF && (s[j] == CR ==> j
                        == s.len() - 1) by {
                        if j < i {
                            assert(s.take(i as int)[j] == s[j]);
                        }
                    }
                }
                return Err(RespParseError::NotEnoughBytes);
            }
            if input[i + 1] == LF {
                proof {
                    lemma_line_len(s, i as int);
                }
                let before = slice_subrange(input, 0, i);
                let rest = slice_subrange(input, i + 2, input.len());
                assert(before@ =~= s.take(i as int));
                assert(rest@ =~= after(s, (i + 2) as nat));
                return Ok((before, rest));
            }
            proof {
                assert forall|n: int| !line_at(s, n) by {
                    if line_at(s, n) {
                        if n < i {
                            assert(s.take(i as int)[n] == CR);
                        } else if n > i {
                            assert(s.take(n)[i as int] == CR);
                        }
                    }
                }
                lemma_line_none(s);
            }
            return Err(RespParseError::IncorrectFormat);
        }
        proof {
            let t = s.take(i + 1);
            assert forall|j: int| 0 <= j < t.len() implies t[j] != CR && t[j] != LF by {
                if j < i {
                    assert(s.take(i as int)[j] == s[j]);
                }
            }
        }
        i += 1;
    }
    proof {
        assert(s.take(i as int) =~= s);
        assert forall|n: int| !line_at(s, n) by {
            if line_at(s, n) {
                assert(s[n] == CR);
            }
        }
                lemma_line_none(s);
    }
    Err(RespParseError::NotEnoughBytes)
}

/// Splits `input` at `index`, where a terminator must stand: the bytes
/// before the terminator, and what follows it.
pub fn parse_everything_until_index(input: &[u8], index: usize) -> (r: Result<
    (&[u8], &[u8]),
    RespParseError,
>)
    ensures
        match r {
            Ok((before, rest)) => {
                &&& payload_len(input@, index as nat) == Ok::<nat, RespParseError>(
                    (index + 2) as nat,
                )
                &&& before@ == input@.take(index as int)
                &&& rest@ == after(input@, (index + 2) as nat)
                &&& index + 2 <= input@.len() <= usize::MAX
            },
            Err(e) => payload_len(input@, index as nat) == Err::<nat, RespParseError>(e),
        },
{
    if input.len() <= index {
        Err(RespParseError::NotEnoughBytes)
    } else if input[index] != CR {
        Err(RespParseError::IncorrectFormat)
    } else if input.len() == index + 1 {
        Err(RespParseError::NotEnoughBytes)
    } else if input[index + 1] != LF {
        Err(RespParseError::IncorrectFormat)
    } else {
        let before = slice_subrange(input, 0, index);
        let rest = slice_subrange(input, index + 2, input.len());
        assert(before@ =~= input@.take(index as int));
        assert(rest@ =~= after(input@, (index + 2) as nat));
        Ok((before, rest))
    }
}

/// Whether `s` is the text `-1`.
pub fn is_minus_one(s: &[u8]) -> (r: bool)
    ensures
        r == (s@ == minus_one()),
{
    let r = s.len() == 2 && s[0] == 45 && s[1] == 49;
    proof {
        if r {
            assert(s@ =~= minus_one());
        } else if s@ == minus_one() {
            assert(minus_one().len() == 2);
            assert(minus_one()[0] == 45);
            assert(minus_one()[1] == 49);
        }
    }
    r
}

/// The length of a simple string after its marker.
pub fn get_rss_length(input: &[u8]) -> (r: Result<usize, RespParseError>)
    ensures
        measured(r, line_len(input@)),
        r matches Ok(n) ==> 2 <= n <= input@.len(),
{
    match parse_everything_until_crlf(input) {
        Ok((before, _)) => Ok(before.len() + 2),
        Err(e) => Err(e),
    }
}

/// The length of an error after its marker.
pub fn get_res_length(input: &[u8]) -> (r: Result<usize, RespParseError>)
    ensures
        measured(r, line_len(input@)),
        r matches Ok(n) ==> 2 <= n <= input@.len(),
{
    match parse_everything_until_crlf(input) {
        Ok((before, _)) => Ok(before.len() + 2),
        Err(e) => Err(e),
    }
}

/// The length of an integer after its marker.
pub fn get_ri_length(input: &[u8]) -> (r: Result<usize, RespParseError>)
    ensures
        measured(r, line_len(input@)),
        r matches Ok(n) ==> 2 <= n <= input@.len(),
{
    match parse_everything_until_crlf(input) {
        Ok((before, _)) => Ok(before.len() + 2),
        Err(e) => Err(e),
    }
}

/// The length of a bulk string after its marker.
pub fn get_rbs_length(input: &[u8]) -> (r: Result<usize, RespParseError>)
    ensures
        measured(r, bulk_len(input@)),
        r matches Ok(n) ==> 2 <= n <= input@.len(),
{
    let (size_bytes, leftover) = match parse_everything_until_crlf(input) {
        Ok(p) => p,
        Err(e) => {
            proof {
                reveal(bulk_len);
            }
            return Err(e);
        },
    };
    let count: usize = size_bytes.len() + 2;
    proof {
        reveal(bulk_len);
    }
    if is_minus_one(size_bytes) {
        Ok(count)
    } else {
        match parse_usize(size_bytes) {
            None => Err(RespParseError::IncorrectFormat),
            Some(size) => match parse_everything_until_index(leftover, size) {
                Ok(_) => Ok(count + size + 2),
                Err(e) => Err(e),
            },
        }
    }
}

/// The length of an array after its marker.
pub fn get_ra_length(input: &[u8]) -> (r: Result<usize, RespParseError>)
    ensures
        measured(r, array_len(input@)),
        r matches Ok(n) ==> 2 <= n <= input@.len(),
    decreases input@.len(), 1nat,
{
    let (size_bytes, leftover) = match parse_everything_until_crlf(input) {
        Ok(p) => p,
        Err(e) => {
            return Err(e);
        },
    };
    let mut count: usize = size_bytes.len() + 2;
    if is_minus_one(size_bytes) {
        Ok(count)
    } else {
        let size = match parse_usize(size_bytes) {
            Some(size) => size,
            None => {
                return Err(RespParseError::IncorrectFormat);
            },
        };
        let ghost h = count as nat;
        let ghost body = leftover@;
        let mut left = leftover;
        let mut done: usize = 0;
        assert(after(body, 0) =~= body);
        while done < size
            invariant
                done <= size,
                h + body.len() == input@.len() <= usize::MAX,
                h <= count <= input@.len(),
                array_len(input@) == plus(frames_len(body, size as nat), h),
                left@ == after(body, (count - h) as nat),
                frames_len(body, size as nat) == plus(
                    frames_len(left@, (size - done) as nat),
                    (count - h) as nat,
                ),
            decreases size - done,
        {
            let ghost prev = left@;
            let length = match get_resp_length(left) {
                Ok(length) => length,
                Err(e) => {
                    return Err(e);
                },
            };
            left = slice_subrange(left, length, left.len());
            proof {
                assert(left@ =~= after(prev, length as nat));
                assert(left@ =~= after(body, (count + length - h) as nat));
            }
            count += length;
            done += 1;
        }
        Ok(count)
    }
}

/// The length of the first frame of `input`, marker and terminator included.
pub fn get_resp_length(input: &[u8]) -> (r: Result<usize, RespParseError>)
    ensures
        measured(r, frame_len(input@)),
        r matches Ok(n) ==> 2 <= n <= input@.len(),
    decreases input@.len(), 0nat,
{
    if input.len() == 0 {
        Err(RespParseError::NotEnoughBytes)
    } else {
        let marker_byte = input[0];
        let payload_bytes = slice_subrange(input, 1, input.len());
        assert(payload_bytes@ =~= after(input@, 1));
        let measured = if marker_byte == 43 {
            get_rss_length(payload_bytes)
        } else if marker_byte == 58 {
            get_ri_length(payload_bytes)
        } else if marker_byte == 36 {
            get_rbs_length(payload_bytes)
        } else if marker_byte == 42 {
            get_ra_length(payload_bytes)
        } else if marker_byte == 45 {
            get_res_length(payload_bytes)
        } else {
            return get_rss_length(input);
        };
        match measured {
            Ok(n) => Ok(n + 1),
            Err(e) => Err(e),
        }
    }
}

} // verus!
