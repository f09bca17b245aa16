//! One connection: its current database, and the commands it carries out.
//!
//! Every handler is proved to do what the function of the same command in
//! [`crate::semantics`] says: it leaves the server and the connection as
//! that function's outcome has them, and gives the outcome's reply. A
//! handler that needs the time takes it as `now`.

use crate::buffer::{buf_as_slice, buf_bytes, buf_put_slice, buf_split_to, buf_with_capacity};
use crate::db::Db;
use crate::misc::{reply_of, utf8_text, CommandError, CommandResult, SetExpireMode};
use crate::pairing::pair_up;
use crate::resp::{Resp, RespArray, RespArrayBuilder};
use crate::semantics::{
    config_after, config_pairs, do_command, do_config, do_config_get,
    do_config_set, do_debug, do_del, do_expire, do_flushall, do_flushdb, do_function, do_get,
    do_getex, do_incr, do_ping, do_pttl, do_select, do_set, do_setex, do_setnx, do_ttl,
    expire_time, expiry_change, run, run_array, string_reply, ExpiryChange, Outcome,
    World,
};
use crate::server::{Server, ServerState};
use crate::text::eq_ignore_ascii_case;
use crate::value::{SetMode, Value};
use bytes::BytesMut;
use vstd::prelude::*;
use vstd::string::StringSliceAdditionalSpecFns;

verus! {

/// Where a connection stands.
#[derive(Debug, Copy, Clone, PartialEq, Eq, Structural)]
pub enum ConnState {
    /// Waiting for bytes.
    Reading,
    /// Looking for the next request among the bytes held. A connection
    /// passes through here while it takes note of an event; it never rests
    /// here.
    Draining,
    /// Waiting for a reply to be sent.
    Writing,
    /// Over.
    Closed,
}

/// What a connection holds.
#[verifier::ext_equal]
pub struct ClientState {
    /// The number of the connection.
    pub id: u64,
    /// The id of the current database.
    pub db_id: u64,
    /// The bytes received and not yet read as requests.
    pub buffer: Seq<u8>,
    /// Where the connection stands.
    pub state: ConnState,
}

impl ClientState {
    /// The connection with `db_id` as its current database.
    pub open spec fn with_db_id(self, db_id: u64) -> ClientState {
        ClientState { id: self.id, db_id, buffer: self.buffer, state: self.state }
    }

    /// The connection standing at `state`.
    pub open spec fn at(self, state: ConnState) -> ClientState {
        ClientState { id: self.id, db_id: self.db_id, buffer: self.buffer, state }
    }

    /// The connection holding the bytes `buffer`.
    pub open spec fn holding(self, buffer: Seq<u8>) -> ClientState {
        ClientState { id: self.id, db_id: self.db_id, buffer, state: self.state }
    }
}

/// One connection.
pub struct Client {
    id: u64,
    db_id: u64,
    buffer: BytesMut,
    state: ConnState,
}

impl View for Client {
    type V = ClientState;

    closed spec fn view(&self) -> ClientState {
        ClientState {
            id: self.id,
            db_id: self.db_id,
            buffer: buf_bytes(self.buffer),
            state: self.state,
        }
    }
}

/// What a command of the connection `client` acts on.
pub open spec fn world_of(client: ClientState, server: ServerState) -> World {
    World { server, db_id: client.db_id }
}

/// The connection and the server are as the outcome `out` has them, and `r`
/// is its reply. Of the connection a command changes the current database
/// at most.
pub open spec fn ran(
    before: ClientState,
    after: ClientState,
    server: ServerState,
    r: CommandResult,
    out: Outcome,
) -> bool {
    &&& after =~= before.with_db_id(out.world.db_id)
    &&& server =~~= out.world.server
    &&& reply_of(r) == out.reply
}

impl Client {
    /// A connection that has received nothing: the database 0 is current.
    pub fn new(id: u64) -> (client: Client)
        ensures
            client@ == (ClientState {
                id,
                db_id: 0,
                buffer: Seq::empty(),
                state: ConnState::Reading,
            }),
    {
        Client { id, db_id: 0, buffer: buf_with_capacity(1024), state: ConnState::Reading }
    }

    /// The number of the connection.
    pub fn id(&self) -> (id: u64)
        ensures
            id == self@.id,
    {
        self.id
    }

    /// The id of the current database.
    pub fn db_id(&self) -> (id: u64)
        ensures
            id == self@.db_id,
    {
        self.db_id
    }

    /// Where the connection stands.
    pub fn state(&self) -> (state: ConnState)
        ensures
            state == self@.state,
    {
        self.state
    }

    /// Lets the connection stand at `state`.
    pub(crate) fn set_state(&mut self, state: ConnState)
        ensures
            final(self)@ == old(self)@.at(state),
    {
        self.state = state;
    }

    /// The bytes received and not yet read as requests.
    pub fn held(&self) -> (bytes: &[u8])
        ensures
            bytes@ == self@.buffer,
    {
        buf_as_slice(&self.buffer)
    }

    /// Adds `data` to the bytes held.
    pub(crate) fn hold(&mut self, data: &[u8])
        requires
            old(self)@.buffer.len() + data@.len() <= usize::MAX,
        ensures
            final(self)@ == old(self)@.holding(old(self)@.buffer + data@),
    {
        buf_put_slice(&mut self.buffer, data);
    }

    /// Takes the first `n` of the bytes held out of the connection.
    pub(crate) fn take(&mut self, n: usize) -> (head: BytesMut)
        requires
            n <= old(self)@.buffer.len(),
        ensures
            buf_bytes(head) == old(self)@.buffer.take(n as int),
            final(self)@ == old(self)@.holding(old(self)@.buffer.skip(n as int)),
    {
        buf_split_to(&mut self.buffer, n)
    }

    /// The current database, to read and to write. It is made first where
    /// nobody asked for it before.
    pub fn get_db<'a>(&mut self, server: &'a mut Server) -> (db: &'a mut Db)
        requires
            old(server).wf(),
        ensures
            final(self)@ == old(self)@,
            db.wf(),
            db@ == world_of(old(self)@, old(server)@).db(),
            final(db).wf() ==> final(server).wf(),
            final(server)@ == old(server)@.with_db(old(self)@.db_id, final(db)@),
    {
        server.get_db(self.db_id)
    }

    /// `PING`.
    pub fn handle_command_ping(&mut self, server: &mut Server, arr: RespArray) -> (r:
        CommandResult)
        requires
            old(server).wf(),
        ensures
            final(server).wf(),
            ran(
                old(self)@,
                final(self)@,
                final(server)@,
                r,
                do_ping(world_of(old(self)@, old(server)@), arr@),
            ),
    {
        if arr.len() == 1 {
            Ok(Resp::rbs_from_static_bytes("PONG".as_bytes()))
        } else if arr.len() == 2 {
            match arr.get(1) {
                Some(v) => Ok(v),
                None => Err(CommandError::NotEnoughArgs("ping")),
            }
        } else {
            Err(CommandError::NotEnoughArgs("ping"))
        }
    }

    /// `CONFIG`.
    pub fn handle_command_config(&mut self, server: &mut Server, arr: RespArray) -> (r:
        CommandResult)
        requires
            old(server).wf(),
        ensures
            final(server).wf(),
            ran(
                old(self)@,
                final(self)@,
                final(server)@,
                r,
                do_config(world_of(old(self)@, old(server)@), arr@),
            ),
    {
        if arr.len() < 2 {
            return Err(CommandError::NotEnoughArgs("config"));
        }
        let second_arg = match arr.get(1) {
            Some(v) => v.as_bytes(),
            None => {
                return Err(CommandError::NotEnoughArgs("config"));
            },
        };
        if eq_ignore_ascii_case(second_arg.as_slice(), "get".as_bytes()) {
            self.handle_cmd_config_get(server, arr)
        } else if eq_ignore_ascii_case(second_arg.as_slice(), "set".as_bytes()) {
            self.handle_cmd_config_set(server, arr)
        } else {
            Err(CommandError::NotEnoughArgs("config"))
        }
    }

    /// `CONFIG GET`.
    pub fn handle_cmd_config_get(&mut self, server: &mut Server, arr: RespArray) -> (r:
        CommandResult)
        requires
            old(server).wf(),
        ensures
            final(server).wf(),
            ran(
                old(self)@,
                final(self)@,
                final(server)@,
                r,
                do_config_get(world_of(old(self)@, old(server)@), arr@),
            ),
    {
        if arr.len() < 3 {
            return Err(CommandError::NotEnoughArgs("config"));
        }
        let config = server.config();
        let ghost keys = arr@.skip(2);
        let mut result_arr = RespArrayBuilder::default();
        let mut i: usize = 2;
        assert(keys.take(0) =~= Seq::<Value>::empty());
        while i < arr.len()
            invariant
                2 <= i <= arr@.len(),
                config.wf(),
                keys == arr@.skip(2),
                result_arr@ == config_pairs(config@, keys.take(i - 2)),
            decreases arr@.len() - i,
        {
            proof {
                assert(keys.take(i - 1).drop_last() =~= keys.take(i - 2));
                assert(keys.take(i - 1).last() == arr@[i as int]);
            }
            match arr.get(i) {
                Some(key) => {
                    match config.get(&key) {
                        Some(value) => {
                            let value = value.clone();
                            result_arr.push_resp(key);
                            result_arr.push_resp(value);
                        },
                        None => {},
                    }
                },
                None => {},
            }
            i += 1;
        }
        assert(keys.take(i - 2) =~= keys);
        Ok(Resp::Array(result_arr.build()))
    }

    /// `CONFIG SET`.
    pub fn handle_cmd_config_set(&mut self, server: &mut Server, arr: RespArray) -> (r:
        CommandResult)
        requires
            old(server).wf(),
        ensures
            final(server).wf(),
            ran(
                old(self)@,
                final(self)@,
                final(server)@,
                r,
                do_config_set(world_of(old(self)@, old(server)@), arr@),
            ),
    {
        if arr.len() < 3 {
            return Err(CommandError::NotEnoughArgs("config"));
        }
        let ghost given = arr@.skip(2);
        let mut pairs: Vec<Resp> = Vec::new();
        let mut i: usize = 2;
        while i < arr.len()
            invariant
                2 <= i <= arr@.len(),
                pairs@.len() == i - 2,
                forall|j: int| 0 <= j < pairs@.len() ==> (#[trigger] pairs@[j])@ == arr@[j + 2],
            decreases arr@.len() - i,
        {
            match arr.get(i) {
                Some(v) => {
                    pairs.push(v);
                },
                None => {
                    return Err(CommandError::NotEnoughArgs("config"));
                },
            }
            i += 1;
        }
        if pairs.len() % 2 != 0 {
            return Err(CommandError::NotEnoughArgs("config"));
        }
        let tuples = pair_up(&pairs);
        let config = server.config_mut();
        let ghost before = config@;
        let mut j: usize = 0;
        while j < tuples.len()
            invariant
                j <= tuples@.len(),
                tuples@.len() == pairs@.len() / 2,
                pairs@.len() == given.len(),
                given.len() + 2 == arr@.len(),
                given == arr@.skip(2),
                forall|n: int| 0 <= n < pairs@.len() ==> (#[trigger] pairs@[n])@ == arr@[n + 2],
                forall|n: int|
                    0 <= n < tuples@.len() ==> *(#[trigger] tuples@[n]).0 == pairs@[2 * n]
                        && *tuples@[n].1 == pairs@[2 * n + 1],
                config.wf(),
                config@ == config_after(before, given, j as nat),
            decreases tuples@.len() - j,
        {
            let (key, value) = tuples[j];
            proof {
                assert(key@ == pairs@[2 * j]@);
                assert(value@ == pairs@[2 * j + 1]@);
                assert(given[2 * j] == arr@[2 * j + 2]);
                assert(given[2 * j + 1] == arr@[2 * j + 3]);
            }
            let _ = config.insert(key.clone(), value.clone());
            j += 1;
        }
        Ok(Resp::rbs_from_static_bytes("OK".as_bytes()))
    }

    /// `COMMAND`.
    pub fn handle_cmd_command(&mut self, server: &mut Server, arr: RespArray) -> (r:
        CommandResult)
        requires
            old(server).wf(),
        ensures
            final(server).wf(),
            ran(
                old(self)@,
                final(self)@,
                final(server)@,
                r,
                do_command(world_of(old(self)@, old(server)@), arr@),
            ),
    {
        Err(CommandError::NotImplemented("command".to_owned()))
    }

    /// `SET key value`.
    pub fn handle_cmd_set(&mut self, server: &mut Server, arr: RespArray) -> (r: CommandResult)
        requires
            old(server).wf(),
        ensures
            final(server).wf(),
            ran(
                old(self)@,
                final(self)@,
                final(server)@,
                r,
                do_set(world_of(old(self)@, old(server)@), arr@),
            ),
    {
        if arr.len() != 3 {
            return Err(CommandError::SyntaxError);
        }
        let key = match arr.get(1) {
            Some(v) => v,
            None => {
                return Err(CommandError::NotEnoughArgs("set"));
            },
        };
        let value = match arr.get(2) {
            Some(v) => v,
            None => {
                return Err(CommandError::NotEnoughArgs("set"));
            },
        };
        let db = server.get_db(self.db_id);
        let _ = db.set_value(key, value);
        Ok(Resp::rss_from_static_bytes("OK".as_bytes()))
    }

    /// `GET key`.
    pub fn handle_cmd_get(&mut self, server: &mut Server, arr: RespArray, now: u128) -> (r:
        CommandResult)
        requires
            old(server).wf(),
        ensures
            final(server).wf(),
            ran(
                old(self)@,
                final(self)@,
                final(server)@,
                r,
                do_get(world_of(old(self)@, old(server)@), arr@, now),
            ),
    {
        if arr.len() != 2 {
            return Err(CommandError::SyntaxError);
        }
        let key = match arr.get(1) {
            Some(v) => v,
            None => {
                return Err(CommandError::NotEnoughArgs("get"));
            },
        };
        let db = server.get_db(self.db_id);
        let value = match db.get_value_at(&key, now) {
            Some(v) => v.clone(),
            None => Resp::NilArray,
        };
        Ok(value)
    }

    /// `DEL key`.
    pub fn handle_cmd_del(&mut self, server: &mut Server, arr: RespArray) -> (r: CommandResult)
        requires
            old(server).wf(),
        ensures
            final(server).wf(),
            ran(
                old(self)@,
                final(self)@,
                final(server)@,
                r,
                do_del(world_of(old(self)@, old(server)@), arr@),
            ),
    {
        if arr.len() != 2 {
            return Err(CommandError::SyntaxError);
        }
        let key = match arr.get(1) {
            Some(v) => v,
            None => {
                return Err(CommandError::NotEnoughArgs("get"));
            },
        };
        let db = server.get_db(self.db_id);
        let _ = db.remove_value(&key);
        Ok(Resp::rbs_from_static_str("OK"))
    }
}


/// The time at which a key expires that is given `seconds` from `now`.
fn expire_at(seconds: &Resp, now: u128) -> (r: Option<u128>)
    ensures
        r == expire_time(seconds@, now),
{
    match seconds.to_u128() {
        Some(s) => match s.checked_mul(1000) {
            Some(ms) => now.checked_add(ms),
            None => None,
        },
        None => None,
    }
}

/// What a modifier asks for at `now`.
fn change_for(mode: SetExpireMode, now: u128) -> (r: Option<ExpiryChange>)
    ensures
        r == expiry_change(mode, now),
{
    match mode {
        SetExpireMode::Ex(seconds) => match seconds.checked_mul(1000) {
            Some(ms) => match now.checked_add(ms) {
                Some(when) => Some(ExpiryChange::At(when)),
                None => None,
            },
            None => None,
        },
        SetExpireMode::Px(ms) => match now.checked_add(ms) {
            Some(when) => Some(ExpiryChange::At(when)),
            None => None,
        },
        SetExpireMode::Exat(seconds) => match seconds.checked_mul(1000) {
            Some(when) => Some(ExpiryChange::At(when)),
            None => None,
        },
        SetExpireMode::Pxat(when) => Some(ExpiryChange::At(when)),
        SetExpireMode::Persist => Some(ExpiryChange::Never),
    }
}

impl Client {
    /// `INCR key`.
    pub fn handle_cmd_incr(&mut self, server: &mut Server, arr: RespArray, now: u128) -> (r:
        CommandResult)
        requires
            old(server).wf(),
        ensures
            final(server).wf(),
            ran(
                old(self)@,
                final(self)@,
                final(server)@,
                r,
                do_incr(world_of(old(self)@, old(server)@), arr@, now),
            ),
    {
        if arr.len() != 2 {
            return Err(CommandError::SyntaxError);
        }
        let key = match arr.get(1) {
            Some(v) => v,
            None => {
                return Err(CommandError::NotEnoughArgs("incr"));
            },
        };
        let db = server.get_db(self.db_id);
        let _ = db.contains_value_at(&key, now);
        let ghost found = db@;
        let value = db.entry_value(key, Resp::Integer(0));
        match value {
            Resp::Integer(v) => {
                if *v < i64::MAX {
                    *v += 1;
                    Ok(value.clone())
                } else {
                    assert(found.set(arr@[1], value@) =~~= found);
                    Err(CommandError::NotInteger)
                }
            },
            _ => {
                assert(found.set(arr@[1], value@) =~~= found);
                Err(CommandError::NotInteger)
            },
        }
    }

    /// `SELECT id`.
    pub fn handle_cmd_select(&mut self, server: &mut Server, arr: RespArray) -> (r:
        CommandResult)
        requires
            old(server).wf(),
        ensures
            final(server).wf(),
            ran(
                old(self)@,
                final(self)@,
                final(server)@,
                r,
                do_select(world_of(old(self)@, old(server)@), arr@),
            ),
    {
        if arr.len() != 2 {
            return Err(CommandError::SyntaxError);
        }
        let key = match match arr.get(1) {
            Some(v) => v,
            None => {
                return Err(CommandError::NotEnoughArgs("select"));
            },
        }.to_u64() {
            Some(key) => key,
            None => {
                return Err(CommandError::InvalidArgument);
            },
        };
        if key < 0 {
            return Err(CommandError::SyntaxError);
        }
        self.db_id = key as u64;
        Ok(Resp::rbs_from_static_str("OK"))
    }

    /// `FLUSHALL`.
    pub fn handle_cmd_flushall(&mut self, server: &mut Server, arr: RespArray) -> (r:
        CommandResult)
        requires
            old(server).wf(),
        ensures
            final(server).wf(),
            ran(
                old(self)@,
                final(self)@,
                final(server)@,
                r,
                do_flushall(world_of(old(self)@, old(server)@), arr@),
            ),
    {
        if arr.len() > 2 {
            return Err(CommandError::SyntaxError);
        }
        server.flush_all();
        Ok(Resp::rbs_from_static_str("OK"))
    }

    /// `FUNCTION`.
    pub fn handle_cmd_function(&mut self, server: &mut Server, arr: RespArray) -> (r:
        CommandResult)
        requires
            old(server).wf(),
        ensures
            final(server).wf(),
            ran(
                old(self)@,
                final(self)@,
                final(server)@,
                r,
                do_function(world_of(old(self)@, old(server)@), arr@),
            ),
    {
        Ok(Resp::rbs_from_static_str("OK"))
    }

    /// `SETNX key value`.
    pub fn handle_cmd_setnx(&mut self, server: &mut Server, arr: RespArray, now: u128) -> (r:
        CommandResult)
        requires
            old(server).wf(),
        ensures
            final(server).wf(),
            ran(
                old(self)@,
                final(self)@,
                final(server)@,
                r,
                do_setnx(world_of(old(self)@, old(server)@), arr@, now),
            ),
    {
        if arr.len() != 3 {
            return Err(CommandError::SyntaxError);
        }
        let key = match arr.get(1) {
            Some(v) => v,
            None => {
                return Err(CommandError::NotEnoughArgs("setnx"));
            },
        };
        let value = match arr.get(2) {
            Some(v) => v,
            None => {
                return Err(CommandError::NotEnoughArgs("setnx"));
            },
        };
        let db = server.get_db(self.db_id);
        if !db.contains_value_at(&key, now) {
            let _ = db.set_value(key, value);
            return Ok(Resp::ri_from_u64(1));
        }
        Ok(Resp::ri_from_u64(0))
    }

    /// `EXPIRE key seconds [NX | XX | GT | LT]`.
    pub fn handle_cmd_expire(&mut self, server: &mut Server, arr: RespArray, now: u128) -> (r:
        CommandResult)
        requires
            old(server).wf(),
        ensures
            final(server).wf(),
            ran(
                old(self)@,
                final(self)@,
                final(server)@,
                r,
                do_expire(world_of(old(self)@, old(server)@), arr@, now),
            ),
    {
        if arr.len() != 3 && arr.len() != 4 {
            return Err(CommandError::SyntaxError);
        }
        let key = match arr.get(1) {
            Some(v) => v,
            None => {
                return Err(CommandError::NotEnoughArgs("expire"));
            },
        };
        let seconds = match arr.get(2) {
            Some(v) => v,
            None => {
                return Err(CommandError::NotEnoughArgs("expire"));
            },
        };
        let new_when = match expire_at(&seconds, now) {
            Some(when) => when,
            None => {
                return Err(CommandError::SyntaxError);
            },
        };
        let mode: Option<SetMode> = match arr.get(3) {
            Some(m_expire_type) => match m_expire_type.to_set_mode() {
                Some(expire_type) => Some(expire_type),
                None => {
                    return Err(CommandError::SyntaxError);
                },
            },
            None => None,
        };
        let db = server.get_db(self.db_id);
        let should_set = match mode {
            Some(SetMode::Nx) => !db.contains_expiry(&key),
            Some(SetMode::Xx) => db.contains_expiry(&key),
            Some(SetMode::Gt) => db.get_expiry(&key).is_none(),
            Some(SetMode::Lt) => match db.get_expiry(&key) {
                Some(when) => new_when < *when,
                None => false,
            },
            None => true,
        };
        if should_set {
            let _ = db.set_expiry(key, new_when);
            Ok(Resp::ri_from_u64(1))
        } else {
            assert(old(server)@.with_db(old(self)@.db_id, db@) =~~= old(server)@);
            Ok(Resp::ri_from_u64(0))
        }
    }

    /// `SETEX key seconds value`.
    pub fn handle_cmd_setex(&mut self, server: &mut Server, arr: RespArray, now: u128) -> (r:
        CommandResult)
        requires
            old(server).wf(),
        ensures
            final(server).wf(),
            ran(
                old(self)@,
                final(self)@,
                final(server)@,
                r,
                do_setex(world_of(old(self)@, old(server)@), arr@, now),
            ),
    {
        if arr.len() != 4 {
            return Err(CommandError::SyntaxError);
        }
        let key = match arr.get(1) {
            Some(v) => v,
            None => {
                return Err(CommandError::NotEnoughArgs("setex"));
            },
        };
        let seconds = match arr.get(2) {
            Some(v) => v,
            None => {
                return Err(CommandError::NotEnoughArgs("setex"));
            },
        };
        let value = match arr.get(3) {
            Some(v) => v,
            None => {
                return Err(CommandError::NotEnoughArgs("setex"));
            },
        };
        let new_when = match expire_at(&seconds, now) {
            Some(when) => when,
            None => {
                return Err(CommandError::SyntaxError);
            },
        };
        let db = server.get_db(self.db_id);
        let _ = db.set_expiry(key.clone(), new_when);
        let _ = db.set_value(key, value);
        Ok(Resp::rbs_from_static_str("OK"))
    }

    /// `GETEX key [EX s | PX ms | EXAT s | PXAT ms | PERSIST x]`.
    pub fn handle_cmd_getex(&mut self, server: &mut Server, arr: RespArray, now: u128) -> (r:
        CommandResult)
        requires
            old(server).wf(),
        ensures
            final(server).wf(),
            ran(
                old(self)@,
                final(self)@,
                final(server)@,
                r,
                do_getex(world_of(old(self)@, old(server)@), arr@, now),
            ),
    {
        if arr.len() != 2 && arr.len() != 4 {
            return Err(CommandError::SyntaxError);
        }
        let key = match arr.get(1) {
            Some(v) => v,
            None => {
                return Err(CommandError::NotEnoughArgs("getex"));
            },
        };
        let change = match (arr.get(2), arr.get(3)) {
            (Some(l), Some(r)) => {
                let left = l.as_bytes();
                let right = r.as_bytes();
                match SetExpireMode::parse_set_expire_mode(left.as_slice(), right.as_slice()) {
                    Ok(mode) => match change_for(mode, now) {
                        Some(change) => change,
                        None => {
                            return Err(CommandError::SyntaxError);
                        },
                    },
                    Err(e) => {
                        return Err(e);
                    },
                }
            },
            (None, None) => ExpiryChange::Keep,
            _ => {
                return Err(CommandError::SyntaxError);
            },
        };
        let db = server.get_db(self.db_id);
        let value = match db.get_value_at(&key, now) {
            Some(v) => v.clone(),
            None => {
                return Ok(Resp::NilArray);
            },
        };
        match change {
            ExpiryChange::Keep => {},
            ExpiryChange::At(when) => {
                let _ = db.set_expiry(key, when);
            },
            ExpiryChange::Never => {
                let _ = db.remove_expiry(&key);
            },
        }
        Ok(value)
    }

    /// `TTL key`.
    pub fn handle_cmd_ttl(&mut self, server: &mut Server, arr: RespArray, now: u128) -> (r:
        CommandResult)
        requires
            old(server).wf(),
        ensures
            final(server).wf(),
            ran(
                old(self)@,
                final(self)@,
                final(server)@,
                r,
                do_ttl(world_of(old(self)@, old(server)@), arr@, now),
            ),
    {
        if arr.len() != 2 {
            return Err(CommandError::SyntaxError);
        }
        let key = match arr.get(1) {
            Some(v) => v,
            None => {
                return Err(CommandError::NotEnoughArgs("ttl"));
            },
        };
        let db = server.get_db(self.db_id);
        if !db.contains_value_at(&key, now) {
            Ok(Resp::Integer(-2))
        } else {
            match db.get_expiry(&key) {
                Some(ttl) => {
                    let ts_diff = *ttl - now;
                    let ts_s = ts_diff / 1_000;
                    Ok(Resp::Integer(
                        #[verifier::truncate]
                        (ts_s as i64),
                    ))
                },
                None => Ok(Resp::Integer(-1)),
            }
        }
    }

    /// `PTTL key`.
    pub fn handle_cmd_pttl(&mut self, server: &mut Server, arr: RespArray, now: u128) -> (r:
        CommandResult)
        requires
            old(server).wf(),
        ensures
            final(server).wf(),
            ran(
                old(self)@,
                final(self)@,
                final(server)@,
                r,
                do_pttl(world_of(old(self)@, old(server)@), arr@, now),
            ),
    {
        if arr.len() != 2 {
            return Err(CommandError::SyntaxError);
        }
        let key = match arr.get(1) {
            Some(v) => v,
            None => {
                return Err(CommandError::NotEnoughArgs("pttl"));
            },
        };
        let db = server.get_db(self.db_id);
        if !db.contains_value_at(&key, now) {
            Ok(Resp::Integer(-2))
        } else {
            match db.get_expiry(&key) {
                Some(ttl) => {
                    let ts_diff = *ttl - now;
                    Ok(Resp::Integer(
                        #[verifier::truncate]
                        (ts_diff as i64),
                    ))
                },
                None => Ok(Resp::Integer(-1)),
            }
        }
    }

    /// `DEBUG`.
    pub fn handle_cmd_debug(&mut self, server: &mut Server, arr: RespArray) -> (r:
        CommandResult)
        requires
            old(server).wf(),
        ensures
            final(server).wf(),
            ran(
                old(self)@,
                final(self)@,
                final(server)@,
                r,
                do_debug(world_of(old(self)@, old(server)@), arr@),
            ),
    {
        Ok(Resp::rbs_from_static_str("OK"))
    }

    /// `FLUSHDB [SYNC | ASYNC]`.
    pub fn handle_cmd_flushdb(&mut self, server: &mut Server, arr: RespArray) -> (r:
        CommandResult)
        requires
            old(server).wf(),
        ensures
            final(server).wf(),
            ran(
                old(self)@,
                final(self)@,
                final(server)@,
                r,
                do_flushdb(world_of(old(self)@, old(server)@), arr@),
            ),
    {
        if arr.len() > 2 {
            return Err(CommandError::SyntaxError);
        }
        match arr.get(1) {
            Some(b) => {
                let word = b.as_bytes();
                if !eq_ignore_ascii_case(word.as_slice(), "sync".as_bytes())
                    && !eq_ignore_ascii_case(word.as_slice(), "async".as_bytes()) {
                    return Err(CommandError::SyntaxError);
                }
            },
            None => {},
        }
        let db = server.get_db(self.db_id);
        db.clear();
        Ok(Resp::rbs_from_static_str("OK"))
    }
}

impl Client {
    /// Carries out a bare simple string.
    pub fn handle_resp_string_command(&self, first_bytes: &[u8]) -> (r: CommandResult)
        ensures
            reply_of(r) == string_reply(first_bytes@),
    {
        if eq_ignore_ascii_case(first_bytes, "ping".as_bytes()) {
            return Ok(Resp::rbs_from_static_bytes("PONG".as_bytes()));
        }
        Err(CommandError::NotImplemented("string command".to_owned()))
    }

    /// Carries out the command `arr` at `now`: finds the handler by the
    /// command's name and lets it do the rest.
    pub fn handle_resp_array_command(&mut self, server: &mut Server, arr: RespArray, now: u128) -> (r:
        CommandResult)
        requires
            old(server).wf(),
        ensures
            final(server).wf(),
            ran(
                old(self)@,
                final(self)@,
                final(server)@,
                r,
                run_array(world_of(old(self)@, old(server)@), arr@, now),
            ),
    {
        proof {
            reveal(run_array);
        }
        let cmd_name = match arr.get(0) {
            Some(v) => v.as_bytes(),
            None => {
                return Err(CommandError::NotEnoughArgs("array command"));
            },
        };
        let name = cmd_name.as_slice();
        if eq_ignore_ascii_case(name, "ping".as_bytes()) {
            return self.handle_command_ping(server, arr);
        }
        if eq_ignore_ascii_case(name, "config".as_bytes()) {
            return self.handle_command_config(server, arr);
        }
        if eq_ignore_ascii_case(name, "command".as_bytes()) {
            return self.handle_cmd_command(server, arr);
        }
        if eq_ignore_ascii_case(name, "set".as_bytes()) {
            return self.handle_cmd_set(server, arr);
        }
        if eq_ignore_ascii_case(name, "get".as_bytes()) {
            return self.handle_cmd_get(server, arr, now);
        }
        if eq_ignore_ascii_case(name, "incr".as_bytes()) {
            return self.handle_cmd_incr(server, arr, now);
        }
        if eq_ignore_ascii_case(name, "select".as_bytes()) {
            return self.handle_cmd_select(server, arr);
        }
        if eq_ignore_ascii_case(name, "flushall".as_bytes()) {
            return self.handle_cmd_flushall(server, arr);
        }
        if eq_ignore_ascii_case(name, "function".as_bytes()) {
            return self.handle_cmd_function(server, arr);
        }
        if eq_ignore_ascii_case(name, "del".as_bytes()) {
            return self.handle_cmd_del(server, arr);
        }
        if eq_ignore_ascii_case(name, "setnx".as_bytes()) {
            return self.handle_cmd_setnx(server, arr, now);
        }
        if eq_ignore_ascii_case(name, "expire".as_bytes()) {
            return self.handle_cmd_expire(server, arr, now);
        }
        if eq_ignore_ascii_case(name, "setex".as_bytes()) {
            return self.handle_cmd_setex(server, arr, now);
        }
        if eq_ignore_ascii_case(name, "getex".as_bytes()) {
            return self.handle_cmd_getex(server, arr, now);
        }
        if eq_ignore_ascii_case(name, "ttl".as_bytes()) {
            return self.handle_cmd_ttl(server, arr, now);
        }
        if eq_ignore_ascii_case(name, "pttl".as_bytes()) {
            return self.handle_cmd_pttl(server, arr, now);
        }
        if eq_ignore_ascii_case(name, "debug".as_bytes()) {
            return self.handle_cmd_debug(server, arr);
        }
        if eq_ignore_ascii_case(name, "flushdb".as_bytes()) {
            return self.handle_cmd_flushdb(server, arr);
        }
        let text = match utf8_text(name) {
            Some(text) => {
                proof {
                    vstd::utf8::encode_utf8_decode_utf8(text@);
                }
                text
            },
            None => "command name".to_owned(),
        };
        Err(CommandError::NotImplemented(text))
    }

    /// Carries out the request `resp` at `now`.
    pub fn handle_client_resp_at(&mut self, server: &mut Server, resp: Resp, now: u128) -> (r:
        CommandResult)
        requires
            old(server).wf(),
        ensures
            final(server).wf(),
            ran(
                old(self)@,
                final(self)@,
                final(server)@,
                r,
                run(world_of(old(self)@, old(server)@), resp@, now),
            ),
    {
        proof {
            reveal(run);
        }
        match resp {
            Resp::String(r) => self.handle_resp_string_command(buf_as_slice(&r)),
            Resp::Error(_) => Err(CommandError::NotImplemented("error command".to_owned())),
            Resp::Integer(_) => Err(CommandError::NotImplemented("integer command".to_owned())),
            Resp::BulkString(_) => Err(
                CommandError::NotImplemented("bulk string command".to_owned()),
            ),
            Resp::NilBulk => Err(CommandError::NotImplemented("nil bulk command".to_owned())),
            Resp::Array(arr) => self.handle_resp_array_command(server, arr, now),
            Resp::NilArray => Err(CommandError::NotImplemented("nil array command".to_owned())),
        }
    }

    /// Carries out the request `resp` now, by the wall clock. Whatever the
    /// clock says, the outcome is that of [`Client::handle_client_resp_at`]
    /// at some time.
    pub fn handle_client_resp(&mut self, server: &mut Server, resp: Resp) -> (r: CommandResult)
        requires
            old(server).wf(),
        ensures
            final(server).wf(),
            exists|now: u128|
                ran(
                    old(self)@,
                    final(self)@,
                    final(server)@,
                    r,
                    #[trigger] run(world_of(old(self)@, old(server)@), resp@, now),
                ),
    {
        let now = crate::misc::get_current_ms();
        self.handle_client_resp_at(server, resp, now)
    }
}

} // verus!
