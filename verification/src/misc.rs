//! What the command layer shares: its errors and their replies, the
//! modifiers of the expiring commands, and the clock.

pub use crate::db::Db;
use crate::resp::Resp;
pub use crate::server::Server;
use crate::text::{
    all_digits, digits_value, eq_ignore_ascii_case, eq_ignore_case, is_digit, parse_u128,
    push_bytes,
};
pub use crate::value::SetMode;
use crate::value::Value;
use std::time::SystemTime;
use vstd::prelude::*;
use vstd::slice::slice_subrange;
use vstd::string::StringSliceAdditionalSpecFns;
use vstd::utf8::{encode_utf8, valid_utf8};

verus! {

/// Why a command was not carried out.
#[derive(Debug, Clone)]
pub enum CommandError {
    /// The command named here was given the wrong number of arguments.
    NotEnoughArgs(&'static str),
    /// The command named here is not offered.
    NotImplemented(String),
    SyntaxError,
    NotInteger,
    InvalidArgument,
}

/// What a [`CommandError`] denotes.
pub enum ErrorKind {
    NotEnoughArgs(Seq<char>),
    NotImplemented(Seq<char>),
    SyntaxError,
    NotInteger,
    InvalidArgument,
}

/// What a command gives back.
pub type CommandResult = Result<Resp, CommandError>;

/// How a read may change the expiry of the key it reads.
#[derive(Debug, Copy, Clone, PartialEq, Eq, Structural)]
pub enum SetExpireMode {
    /// Expire so many seconds from now.
    Ex(u128),
    /// Expire so many milliseconds from now.
    Px(u128),
    /// Expire at this time, in seconds since the epoch.
    Exat(u128),
    /// Expire at this time, in milliseconds since the epoch.
    Pxat(u128),
    /// Do not expire.
    Persist,
}

impl View for CommandError {
    type V = ErrorKind;

    open spec fn view(&self) -> ErrorKind {
        match self {
            CommandError::NotEnoughArgs(name) => ErrorKind::NotEnoughArgs(name@),
            CommandError::NotImplemented(name) => ErrorKind::NotImplemented(name@),
            CommandError::SyntaxError => ErrorKind::SyntaxError,
            CommandError::NotInteger => ErrorKind::NotInteger,
            CommandError::InvalidArgument => ErrorKind::InvalidArgument,
        }
    }
}

impl ErrorKind {
    /// The text of the error reply.
    pub open spec fn text(self) -> Seq<u8> {
        match self {
            ErrorKind::NotEnoughArgs(name) => "ERR wrong number of arguments for '".spec_bytes()
                + encode_utf8(name) + "' command".spec_bytes(),
            ErrorKind::NotImplemented(name) => "ERR command '".spec_bytes() + encode_utf8(name)
                + "' is not yet implemented".spec_bytes(),
            ErrorKind::SyntaxError => "ERR syntax error".spec_bytes(),
            ErrorKind::NotInteger => "ERR value is not an integer or out of range".spec_bytes(),
            ErrorKind::InvalidArgument => "ERR invalid argument".spec_bytes(),
        }
    }
}

/// What a command's result denotes.
pub open spec fn reply_of(r: CommandResult) -> Result<Value, ErrorKind> {
    match r {
        Ok(v) => Ok(v@),
        Err(e) => Err(e@),
    }
}

/// What is sent for a command's result: the value, or an error value with
/// the error's text.
pub open spec fn reply_value(r: Result<Value, ErrorKind>) -> Value {
    match r {
        Ok(v) => v,
        Err(e) => Value::Error(e.text()),
    }
}

impl CommandError {
    /// The error reply.
    pub fn to_resp(&self) -> (r: Resp)
        ensures
            r@ == Value::Error(self@.text()),
    {
        let mut text: Vec<u8> = Vec::new();
        match self {
            CommandError::NotEnoughArgs(name) => {
                push_bytes(&mut text, "ERR wrong number of arguments for '".as_bytes());
                push_bytes(&mut text, name.as_bytes());
                push_bytes(&mut text, "' command".as_bytes());
            },
            CommandError::NotImplemented(name) => {
                push_bytes(&mut text, "ERR command '".as_bytes());
                push_bytes(&mut text, name.as_str().as_bytes());
                push_bytes(&mut text, "' is not yet implemented".as_bytes());
            },
            CommandError::SyntaxError => {
                push_bytes(&mut text, "ERR syntax error".as_bytes());
            },
            CommandError::NotInteger => {
                push_bytes(&mut text, "ERR value is not an integer or out of range".as_bytes());
            },
            CommandError::InvalidArgument => {
                push_bytes(&mut text, "ERR invalid argument".as_bytes());
            },
        }
        assert(text@ =~= self@.text());
        Resp::res_from_bytes(text.as_slice())
    }
}

/// What is sent for a command's result.
pub fn reply_to(result: CommandResult) -> (r: Resp)
    ensures
        r@ == reply_value(reply_of(result)),
{
    match result {
        Ok(v) => v,
        Err(e) => e.to_resp(),
    }
}

/// `std::str::from_utf8`, with the text copied into a `String`: the text
/// that `bytes` spell, where they are UTF-8, and `None` where they are not.
#[verifier::external_body]
pub(crate) fn utf8_text(bytes: &[u8]) -> (r: Option<String>)
    ensures
        match r {
            Some(s) => valid_utf8(bytes@) && encode_utf8(s@) == bytes@,
            None => !valid_utf8(bytes@),
        },
{
    match std::str::from_utf8(bytes) {
        Ok(s) => Some(s.to_owned()),
        Err(_) => None,
    }
}

/// `SystemTime::elapsed` on the epoch: the milliseconds since then on the
/// wall clock, or `None` where the clock stands before the epoch. Nothing is
/// known of the number: two readings may differ either way.
#[verifier::external_body]
fn epoch_elapsed_ms() -> (r: Option<u128>) {
    match SystemTime::UNIX_EPOCH.elapsed() {
        Ok(d) => Some(d.as_millis()),
        Err(_) => None,
    }
}

/// The time on the wall clock, in milliseconds since the epoch; 0 where the
/// clock stands before the epoch.
pub fn get_current_ms() -> (ms: u128) {
    clock_reading_ms(epoch_elapsed_ms())
}

/// The time that a reading of the clock stands for: the reading itself, and
/// 0 where the clock stood before the epoch and gave none.
pub fn clock_reading_ms(reading: Option<u128>) -> (ms: u128)
    ensures
        ms == (match reading {
            Some(t) => t,
            None => 0u128,
        }),
{
    match reading {
        Some(t) => t,
        None => 0,
    }
}

/// The first `n` bytes of `s` are its leading digits.
pub open spec fn is_digit_run(s: Seq<u8>, n: int) -> bool {
    &&& 0 <= n <= s.len()
    &&& all_digits(s.take(n))
    &&& n < s.len() ==> !is_digit(s[n])
}

/// The number that the leading digits of `s` denote; `None` where `s` starts
/// with no digit or the number does not fit 128 bits. What follows the
/// digits is not looked at.
pub open spec fn leading_number(s: Seq<u8>) -> Option<u128> {
    let n = choose|n: int| is_digit_run(s, n);
    if n > 0 && digits_value(s.take(n)) <= u128::MAX {
        Some(digits_value(s.take(n)) as u128)
    } else {
        None
    }
}

/// The modifier that `left` names, with the number that `right` starts
/// with: `EX`, `PX`, `EXAT` and `PXAT` take the number, `PERSIST` takes
/// none. Names are read in either case.
pub open spec fn expire_mode_of(left: Seq<u8>, right: Seq<u8>) -> Option<SetExpireMode> {
    if eq_ignore_case(left, "EX".spec_bytes()) {
        match leading_number(right) {
            Some(n) => Some(SetExpireMode::Ex(n)),
            None => None,
        }
    } else if eq_ignore_case(left, "PX".spec_bytes()) {
        match leading_number(right) {
            Some(n) => Some(SetExpireMode::Px(n)),
            None => None,
        }
    } else if eq_ignore_case(left, "EXAT".spec_bytes()) {
        match leading_number(right) {
            Some(n) => Some(SetExpireMode::Exat(n)),
            None => None,
        }
    } else if eq_ignore_case(left, "PXAT".spec_bytes()) {
        match leading_number(right) {
            Some(n) => Some(SetExpireMode::Pxat(n)),
            None => None,
        }
    } else if eq_ignore_case(left, "PERSIST".spec_bytes()) {
        Some(SetExpireMode::Persist)
    } else {
        None
    }
}

/// The leading digits of a byte string end in one place only.
pub proof fn lemma_digit_run_unique(s: Seq<u8>, n: int, m: int)
    requires
        is_digit_run(s, n),
        is_digit_run(s, m),
    ensures
        n == m,
{
    if n < m {
        assert(s.take(m)[n] == s[n]);
    }
    if m < n {
        assert(s.take(n)[m] == s[m]);
    }
}

/// Reads the number that `s` starts with.
pub fn parse_leading_number(s: &[u8]) -> (r: Option<u128>)
    ensures
        r == leading_number(s@),
{
    let mut i: usize = 0;
    while i < s.len() && s[i] >= 48 && s[i] <= 57
        invariant
            i <= s.len(),
            all_digits(s@.take(i as int)),
        decreases s.len() - i,
    {
        proof {
            let t = s@.take(i + 1);
            assert forall|j: int| 0 <= j < t.len() implies is_digit(#[trigger] t[j]) by {
                if j < i {
                    assert(s@.take(i as int)[j] == s@[j]);
                }
            }
        }
        i += 1;
    }
    proof {
        assert(is_digit_run(s@, i as int));
        let c = choose|n: int| is_digit_run(s@, n);
        lemma_digit_run_unique(s@, i as int, c);
    }
    let digits = slice_subrange(s, 0, i);
    assert(digits@ =~= s@.take(i as int));
    proof {
        if i > 0 {
            assert(is_digit(digits@[0]));
        }
    }
    parse_u128(digits)
}

impl SetExpireMode {
    /// Reads a modifier from its name and its argument.
    pub fn parse_set_expire_mode(left: &[u8], right: &[u8]) -> (r: Result<
        SetExpireMode,
        CommandError,
    >)
        ensures
            match r {
                Ok(mode) => expire_mode_of(left@, right@) == Some(mode),
                Err(e) => expire_mode_of(left@, right@) is None && e@ == ErrorKind::SyntaxError,
            },
    {
        if eq_ignore_ascii_case(left, "EX".as_bytes()) {
            match parse_leading_number(right) {
                Some(value) => Ok(SetExpireMode::Ex(value)),
                None => Err(CommandError::SyntaxError),
            }
        } else if eq_ignore_ascii_case(left, "PX".as_bytes()) {
            match parse_leading_number(right) {
                Some(value) => Ok(SetExpireMode::Px(value)),
                None => Err(CommandError::SyntaxError),
            }
        } else if eq_ignore_ascii_case(left, "EXAT".as_bytes()) {
            match parse_leading_number(right) {
                Some(value) => Ok(SetExpireMode::Exat(value)),
                None => Err(CommandError::SyntaxError),
            }
        } else if eq_ignore_ascii_case(left, "PXAT".as_bytes()) {
            match parse_leading_number(right) {
                Some(value) => Ok(SetExpireMode::Pxat(value)),
                None => Err(CommandError::SyntaxError),
            }
        } else if eq_ignore_ascii_case(left, "PERSIST".as_bytes()) {
            Ok(SetExpireMode::Persist)
        } else {
            Err(CommandError::SyntaxError)
        }
    }
}

} // verus!
