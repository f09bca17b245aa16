//! What each command does, as a function from the state of the server, the
//! command and the time to the new state and the reply.
//!
//! A command is an array; its first child names it, in either case. The
//! connection that sends it has a current database, which most commands act
//! on. Everything here is specification: the handlers of
//! [`crate::client::Client`] are proved to do what these functions say.

use crate::db::DbState;
use crate::misc::{expire_mode_of, ErrorKind, SetExpireMode};
use crate::server::ServerState;
use crate::text::eq_ignore_case;
use crate::value::{SetMode, Value};
use vstd::prelude::*;
use vstd::string::StringSliceAdditionalSpecFns;
use vstd::utf8::{decode_utf8, valid_utf8};

verus! {

/// What a command acts on: the server, and the current database of the
/// connection.
#[verifier::ext_equal]
pub struct World {
    pub server: ServerState,
    pub db_id: u64,
}

/// What a command leaves behind: the world after it, and the reply.
#[verifier::ext_equal]
pub struct Outcome {
    pub world: World,
    pub reply: Result<Value, ErrorKind>,
}

/// What a read does to the expiry of the key it reads.
#[derive(Debug, Copy, Clone, PartialEq, Eq, Structural)]
pub enum ExpiryChange {
    /// The expiry stays as it is.
    Keep,
    /// The key expires at this time, in milliseconds since the epoch.
    At(u128),
    /// The key does not expire.
    Never,
}

impl World {
    /// The current database.
    pub open spec fn db(self) -> DbState {
        self.server.dbs[self.db_id]
    }

    /// The world with `db` as the current database.
    pub open spec fn with_db(self, db: DbState) -> World {
        World { server: self.server.with_db(self.db_id, db), db_id: self.db_id }
    }

    /// The world unchanged, and the reply `v`.
    pub open spec fn reply(self, v: Value) -> Outcome {
        Outcome { world: self, reply: Ok(v) }
    }

    /// The world unchanged, and the error `e`.
    pub open spec fn fail(self, e: ErrorKind) -> Outcome {
        Outcome { world: self, reply: Err(e) }
    }
}

/// The bulk string with the bytes of `s`.
pub open spec fn bulk(s: &str) -> Value {
    Value::BulkString(s.spec_bytes())
}

/// `v` spells the word `s`, in either case.
pub open spec fn named(v: Value, s: &str) -> bool {
    eq_ignore_case(v.as_bytes(), s.spec_bytes())
}

/// The time at which a key expires that is given `seconds` from `now`;
/// `None` where `seconds` is no number or the time does not fit 128 bits.
pub open spec fn expire_time(seconds: Value, now: u128) -> Option<u128> {
    match seconds.to_u128() {
        Some(s) => if now + 1000 * s <= u128::MAX {
            Some((now + 1000 * s) as u128)
        } else {
            None
        },
        None => None,
    }
}

/// Whether a key's expiry is to be set to `when`, under the restriction
/// `mode`: `NX` asks that the key has no expiry, `XX` that it has one, `GT`
/// that it has none, `LT` that it has a later one.
pub open spec fn should_set(db: DbState, k: Value, mode: Option<SetMode>, when: u128) -> bool {
    match mode {
        None => true,
        Some(SetMode::Nx) => !db.expiry.contains_key(k),
        Some(SetMode::Xx) => db.expiry.contains_key(k),
        Some(SetMode::Gt) => db.expiry_of(k) is None,
        Some(SetMode::Lt) => match db.expiry_of(k) {
            Some(t) => when < t,
            None => false,
        },
    }
}

/// What a modifier asks for at `now`; `None` where the time does not fit 128
/// bits.
pub open spec fn expiry_change(mode: SetExpireMode, now: u128) -> Option<ExpiryChange> {
    match mode {
        SetExpireMode::Ex(s) => if now + 1000 * s <= u128::MAX {
            Some(ExpiryChange::At((now + 1000 * s) as u128))
        } else {
            None
        },
        SetExpireMode::Px(ms) => if now + ms <= u128::MAX {
            Some(ExpiryChange::At((now + ms) as u128))
        } else {
            None
        },
        SetExpireMode::Exat(s) => if 1000 * s <= u128::MAX {
            Some(ExpiryChange::At((1000 * s) as u128))
        } else {
            None
        },
        SetExpireMode::Pxat(ms) => Some(ExpiryChange::At(ms)),
        SetExpireMode::Persist => Some(ExpiryChange::Never),
    }
}

/// The database after the expiry of `k` was changed.
pub open spec fn change_expiry(db: DbState, k: Value, change: ExpiryChange) -> DbState {
    match change {
        ExpiryChange::Keep => db,
        ExpiryChange::At(when) => db.set_expiry(k, when),
        ExpiryChange::Never => db.remove_expiry(k),
    }
}

/// For each key of `keys` that the configuration holds, the key and its
/// value, in the order of `keys`.
pub open spec fn config_pairs(config: Map<Value, Value>, keys: Seq<Value>) -> Seq<Value>
    decreases keys.len(),
{
    if keys.len() == 0 {
        Seq::empty()
    } else {
        let k = keys.last();
        let before = config_pairs(config, keys.drop_last());
        if config.contains_key(k) {
            before.push(k).push(config[k])
        } else {
            before
        }
    }
}

/// The configuration after the first `count` pairs of `pairs` were written,
/// in order; a pair is a key and the value that follows it.
pub open spec fn config_after(config: Map<Value, Value>, pairs: Seq<Value>, count: nat) -> Map<
    Value,
    Value,
>
    decreases count,
{
    if count == 0 {
        config
    } else {
        config_after(config, pairs, (count - 1) as nat).insert(
            pairs[2 * (count - 1)],
            pairs[2 * (count - 1) + 1],
        )
    }
}

/// The name by which an unknown command is reported: its bytes as text, or
/// `command name` where they are no text.
pub open spec fn command_name(name: Seq<u8>) -> Seq<char> {
    if valid_utf8(name) {
        decode_utf8(name)
    } else {
        "command name"@
    }
}

/// `PING`: `PONG`, or the argument given.
pub open spec fn do_ping(w: World, cmd: Seq<Value>) -> Outcome {
    if cmd.len() == 1 {
        w.reply(bulk("PONG"))
    } else if cmd.len() == 2 {
        w.reply(cmd[1])
    } else {
        w.fail(ErrorKind::NotEnoughArgs("ping"@))
    }
}

/// `CONFIG GET`: the keys asked for that the configuration holds, each with
/// its value.
pub open spec fn do_config_get(w: World, cmd: Seq<Value>) -> Outcome {
    if cmd.len() < 3 {
        w.fail(ErrorKind::NotEnoughArgs("config"@))
    } else {
        w.reply(Value::Array(config_pairs(w.server.config, cmd.skip(2))))
    }
}

/// `CONFIG SET`: writes the pairs given, in order.
pub open spec fn do_config_set(w: World, cmd: Seq<Value>) -> Outcome {
    if cmd.len() < 3 || (cmd.len() - 2) % 2 != 0 {
        w.fail(ErrorKind::NotEnoughArgs("config"@))
    } else {
        let config = config_after(w.server.config, cmd.skip(2), ((cmd.len() - 2) / 2) as nat);
        World { server: w.server.with_config(config), db_id: w.db_id }.reply(bulk("OK"))
    }
}

/// `CONFIG`: `GET` or `SET`.
pub open spec fn do_config(w: World, cmd: Seq<Value>) -> Outcome {
    if cmd.len() < 2 {
        w.fail(ErrorKind::NotEnoughArgs("config"@))
    } else if named(cmd[1], "get") {
        do_config_get(w, cmd)
    } else if named(cmd[1], "set") {
        do_config_set(w, cmd)
    } else {
        w.fail(ErrorKind::NotEnoughArgs("config"@))
    }
}

/// `COMMAND`: not offered.
pub open spec fn do_command(w: World, cmd: Seq<Value>) -> Outcome {
    w.fail(ErrorKind::NotImplemented("command"@))
}

/// `SET key value`: writes the value. The key keeps its expiry.
pub open spec fn do_set(w: World, cmd: Seq<Value>) -> Outcome {
    if cmd.len() != 3 {
        w.fail(ErrorKind::SyntaxError)
    } else {
        w.with_db(w.db().set(cmd[1], cmd[2])).reply(Value::String("OK".spec_bytes()))
    }
}

/// `GET key`: the value as found at `now`, or the nil array.
pub open spec fn do_get(w: World, cmd: Seq<Value>, now: u128) -> Outcome {
    if cmd.len() != 2 {
        w.fail(ErrorKind::SyntaxError)
    } else {
        let db = w.db().purge(cmd[1], now);
        w.with_db(db).reply(
            match db.value(cmd[1]) {
                Some(v) => v,
                None => Value::NilArray,
            },
        )
    }
}

/// `DEL key`: removes the key, value and expiry.
pub open spec fn do_del(w: World, cmd: Seq<Value>) -> Outcome {
    if cmd.len() != 2 {
        w.fail(ErrorKind::SyntaxError)
    } else {
        w.with_db(w.db().delete(cmd[1])).reply(bulk("OK"))
    }
}

/// `INCR key`: adds one to the integer under the key as found at `now`,
/// where 0 stands for a key without value, and replies the new integer. A
/// value that is no integer, or is the greatest one, stays as it is and is
/// answered by `NotInteger`.
pub open spec fn do_incr(w: World, cmd: Seq<Value>, now: u128) -> Outcome {
    if cmd.len() != 2 {
        w.fail(ErrorKind::SyntaxError)
    } else {
        let db = w.db().purge(cmd[1], now);
        let current = match db.value(cmd[1]) {
            Some(v) => v,
            None => Value::Integer(0),
        };
        match current {
            Value::Integer(n) => if n < i64::MAX {
                w.with_db(db.set(cmd[1], Value::Integer((n + 1) as i64))).reply(
                    Value::Integer((n + 1) as i64),
                )
            } else {
                w.with_db(db).fail(ErrorKind::NotInteger)
            },
            _ => w.with_db(db).fail(ErrorKind::NotInteger),
        }
    }
}

/// `SELECT id`: makes the database `id` the current one.
pub open spec fn do_select(w: World, cmd: Seq<Value>) -> Outcome {
    if cmd.len() != 2 {
        w.fail(ErrorKind::SyntaxError)
    } else {
        match cmd[1].to_i64() {
            None => w.fail(ErrorKind::InvalidArgument),
            Some(id) => if id < 0 {
                w.fail(ErrorKind::SyntaxError)
            } else {
                World { server: w.server, db_id: id as u64 }.reply(bulk("OK"))
            },
        }
    }
}

/// `FLUSHALL`: empties every database. A modifier is taken and not looked
/// at.
pub open spec fn do_flushall(w: World, cmd: Seq<Value>) -> Outcome {
    if cmd.len() > 2 {
        w.fail(ErrorKind::SyntaxError)
    } else {
        World { server: w.server.flushed(), db_id: w.db_id }.reply(bulk("OK"))
    }
}

/// `FLUSHDB`: empties the current database. The modifier, where there is
/// one, is `SYNC` or `ASYNC`.
pub open spec fn do_flushdb(w: World, cmd: Seq<Value>) -> Outcome {
    if cmd.len() > 2 {
        w.fail(ErrorKind::SyntaxError)
    } else if cmd.len() == 2 && !named(cmd[1], "sync") && !named(cmd[1], "async") {
        w.fail(ErrorKind::SyntaxError)
    } else {
        w.with_db(DbState::empty()).reply(bulk("OK"))
    }
}

/// `FUNCTION`: accepted, without effect.
pub open spec fn do_function(w: World, cmd: Seq<Value>) -> Outcome {
    w.reply(bulk("OK"))
}

/// `DEBUG`: accepted, without effect.
pub open spec fn do_debug(w: World, cmd: Seq<Value>) -> Outcome {
    w.reply(bulk("OK"))
}

/// `SETNX key value`: writes the value where the key, as found at `now`, has
/// none, and replies 1; replies 0 otherwise.
pub open spec fn do_setnx(w: World, cmd: Seq<Value>, now: u128) -> Outcome {
    if cmd.len() != 3 {
        w.fail(ErrorKind::SyntaxError)
    } else {
        let db = w.db().purge(cmd[1], now);
        if db.kv.contains_key(cmd[1]) {
            w.with_db(db).reply(Value::Integer(0))
        } else {
            w.with_db(db.set(cmd[1], cmd[2])).reply(Value::Integer(1))
        }
    }
}

/// `EXPIRE key seconds [NX | XX | GT | LT]`: lets the key expire so many
/// seconds from `now` where the restriction allows it, and replies 1;
/// replies 0 otherwise.
pub open spec fn do_expire(w: World, cmd: Seq<Value>, now: u128) -> Outcome {
    if cmd.len() != 3 && cmd.len() != 4 {
        w.fail(ErrorKind::SyntaxError)
    } else {
        match expire_time(cmd[2], now) {
            None => w.fail(ErrorKind::SyntaxError),
            Some(when) => {
                let mode = if cmd.len() == 4 {
                    cmd[3].to_set_mode()
                } else {
                    None
                };
                if cmd.len() == 4 && mode is None {
                    w.fail(ErrorKind::SyntaxError)
                } else if should_set(w.db(), cmd[1], mode, when) {
                    w.with_db(w.db().set_expiry(cmd[1], when)).reply(Value::Integer(1))
                } else {
                    w.reply(Value::Integer(0))
                }
            },
        }
    }
}

/// `SETEX key seconds value`: writes the value and lets the key expire so
/// many seconds from `now`.
pub open spec fn do_setex(w: World, cmd: Seq<Value>, now: u128) -> Outcome {
    if cmd.len() != 4 {
        w.fail(ErrorKind::SyntaxError)
    } else {
        match expire_time(cmd[2], now) {
            None => w.fail(ErrorKind::SyntaxError),
            Some(when) => w.with_db(w.db().set_expiry(cmd[1], when).set(cmd[1], cmd[3])).reply(
                bulk("OK"),
            ),
        }
    }
}

/// The change that a `GETEX` asks for; `None` where its modifier is wrong.
pub open spec fn getex_change(cmd: Seq<Value>, now: u128) -> Option<ExpiryChange> {
    if cmd.len() == 2 {
        Some(ExpiryChange::Keep)
    } else {
        match expire_mode_of(cmd[2].as_bytes(), cmd[3].as_bytes()) {
            Some(mode) => expiry_change(mode, now),
            None => None,
        }
    }
}

/// `GETEX key [EX s | PX ms | EXAT s | PXAT ms | PERSIST x]`: the value as
/// found at `now`, or the nil array; where there is a value, its expiry is
/// changed as the modifier says.
pub open spec fn do_getex(w: World, cmd: Seq<Value>, now: u128) -> Outcome {
    if cmd.len() != 2 && cmd.len() != 4 {
        w.fail(ErrorKind::SyntaxError)
    } else {
        match getex_change(cmd, now) {
            None => w.fail(ErrorKind::SyntaxError),
            Some(change) => {
                let db = w.db().purge(cmd[1], now);
                match db.value(cmd[1]) {
                    None => w.with_db(db).reply(Value::NilArray),
                    Some(v) => w.with_db(change_expiry(db, cmd[1], change)).reply(v),
                }
            },
        }
    }
}

/// `TTL key`: -2 where the key, as found at `now`, has no value; -1 where it
/// has no expiry; else the whole seconds left, cut to 64 bits.
pub open spec fn do_ttl(w: World, cmd: Seq<Value>, now: u128) -> Outcome {
    if cmd.len() != 2 {
        w.fail(ErrorKind::SyntaxError)
    } else {
        let db = w.db().purge(cmd[1], now);
        let left = if !db.kv.contains_key(cmd[1]) {
            -2i64
        } else {
            match db.expiry_of(cmd[1]) {
                None => -1i64,
                Some(when) => ((when - now) / 1000) as i64,
            }
        };
        w.with_db(db).reply(Value::Integer(left))
    }
}

/// `PTTL key`: as `TTL`, in milliseconds.
pub open spec fn do_pttl(w: World, cmd: Seq<Value>, now: u128) -> Outcome {
    if cmd.len() != 2 {
        w.fail(ErrorKind::SyntaxError)
    } else {
        let db = w.db().purge(cmd[1], now);
        let left = if !db.kv.contains_key(cmd[1]) {
            -2i64
        } else {
            match db.expiry_of(cmd[1]) {
                None => -1i64,
                Some(when) => (when - now) as i64,
            }
        };
        w.with_db(db).reply(Value::Integer(left))
    }
}

/// What the command `cmd` does at `now`.
#[verifier::opaque]
pub open spec fn run_array(w: World, cmd: Seq<Value>, now: u128) -> Outcome {
    if cmd.len() == 0 {
        w.fail(ErrorKind::NotEnoughArgs("array command"@))
    } else if named(cmd[0], "ping") {
        do_ping(w, cmd)
    } else if named(cmd[0], "config") {
        do_config(w, cmd)
    } else if named(cmd[0], "command") {
        do_command(w, cmd)
    } else if named(cmd[0], "set") {
        do_set(w, cmd)
    } else if named(cmd[0], "get") {
        do_get(w, cmd, now)
    } else if named(cmd[0], "incr") {
        do_incr(w, cmd, now)
    } else if named(cmd[0], "select") {
        do_select(w, cmd)
    } else if named(cmd[0], "flushall") {
        do_flushall(w, cmd)
    } else if named(cmd[0], "function") {
        do_function(w, cmd)
    } else if named(cmd[0], "del") {
        do_del(w, cmd)
    } else if named(cmd[0], "setnx") {
        do_setnx(w, cmd, now)
    } else if named(cmd[0], "expire") {
        do_expire(w, cmd, now)
    } else if named(cmd[0], "setex") {
        do_setex(w, cmd, now)
    } else if named(cmd[0], "getex") {
        do_getex(w, cmd, now)
    } else if named(cmd[0], "ttl") {
        do_ttl(w, cmd, now)
    } else if named(cmd[0], "pttl") {
        do_pttl(w, cmd, now)
    } else if named(cmd[0], "debug") {
        do_debug(w, cmd)
    } else if named(cmd[0], "flushdb") {
        do_flushdb(w, cmd)
    } else {
        w.fail(ErrorKind::NotImplemented(command_name(cmd[0].as_bytes())))
    }
}

/// The reply to a bare simple string: `ping`, in either case, is answered by
/// `PONG`; nothing else is offered.
pub open spec fn string_reply(text: Seq<u8>) -> Result<Value, ErrorKind> {
    if eq_ignore_case(text, "ping".spec_bytes()) {
        Ok(bulk("PONG"))
    } else {
        Err(ErrorKind::NotImplemented("string command"@))
    }
}

/// What a bare simple string does: it is answered, and nothing changes.
pub open spec fn run_string(w: World, text: Seq<u8>) -> Outcome {
    Outcome { world: w, reply: string_reply(text) }
}

/// What the request `request` does at `now`: an array is a command, a
/// simple string may be a bare `ping`, and nothing else is offered.
#[verifier::opaque]
pub open spec fn run(w: World, request: Value, now: u128) -> Outcome {
    match request {
        Value::String(text) => run_string(w, text),
        Value::Error(_) => w.fail(ErrorKind::NotImplemented("error command"@)),
        Value::Integer(_) => w.fail(ErrorKind::NotImplemented("integer command"@)),
        Value::BulkString(_) => w.fail(ErrorKind::NotImplemented("bulk string command"@)),
        Value::NilBulk => w.fail(ErrorKind::NotImplemented("nil bulk command"@)),
        Value::Array(cmd) => run_array(w, cmd, now),
        Value::NilArray => w.fail(ErrorKind::NotImplemented("nil array command"@)),
    }
}

} // verus!
