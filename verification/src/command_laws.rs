//! What holds of the commands, whatever the keys, the values and the state.
//!
//! A command is given here by its array; its first child is only asked to
//! spell the command's name, in either case.

use crate::misc::ErrorKind;
use crate::semantics::{
    do_expire, do_get, do_incr, do_pttl, do_set, do_setex, do_setnx, do_ttl, expire_time, named,
    run_array, World,
};
use crate::misc::reply_value;
use crate::text::{eq_ignore_case, to_lower};
use crate::value::Value;
use vstd::prelude::*;
use vstd::string::StringSliceAdditionalSpecFns;

verus! {

/// The handler that a command's name stands for.
pub enum Handler {
    OnPing,
    OnConfig,
    OnCommand,
    OnSet,
    OnGet,
    OnIncr,
    OnSelect,
    OnFlushall,
    OnFunction,
    OnDel,
    OnSetnx,
    OnExpire,
    OnSetex,
    OnGetex,
    OnTtl,
    OnPttl,
    OnDebug,
    OnFlushdb,
}

/// The handler that `name` spells, in either case, if any.
pub open spec fn handler_of(name: Seq<u8>) -> Option<Handler> {
    if eq_ignore_case(name, "ping".spec_bytes()) {
        Some(Handler::OnPing)
    } else if eq_ignore_case(name, "config".spec_bytes()) {
        Some(Handler::OnConfig)
    } else if eq_ignore_case(name, "command".spec_bytes()) {
        Some(Handler::OnCommand)
    } else if eq_ignore_case(name, "set".spec_bytes()) {
        Some(Handler::OnSet)
    } else if eq_ignore_case(name, "get".spec_bytes()) {
        Some(Handler::OnGet)
    } else if eq_ignore_case(name, "incr".spec_bytes()) {
        Some(Handler::OnIncr)
    } else if eq_ignore_case(name, "select".spec_bytes()) {
        Some(Handler::OnSelect)
    } else if eq_ignore_case(name, "flushall".spec_bytes()) {
        Some(Handler::OnFlushall)
    } else if eq_ignore_case(name, "function".spec_bytes()) {
        Some(Handler::OnFunction)
    } else if eq_ignore_case(name, "del".spec_bytes()) {
        Some(Handler::OnDel)
    } else if eq_ignore_case(name, "setnx".spec_bytes()) {
        Some(Handler::OnSetnx)
    } else if eq_ignore_case(name, "expire".spec_bytes()) {
        Some(Handler::OnExpire)
    } else if eq_ignore_case(name, "setex".spec_bytes()) {
        Some(Handler::OnSetex)
    } else if eq_ignore_case(name, "getex".spec_bytes()) {
        Some(Handler::OnGetex)
    } else if eq_ignore_case(name, "ttl".spec_bytes()) {
        Some(Handler::OnTtl)
    } else if eq_ignore_case(name, "pttl".spec_bytes()) {
        Some(Handler::OnPttl)
    } else if eq_ignore_case(name, "debug".spec_bytes()) {
        Some(Handler::OnDebug)
    } else if eq_ignore_case(name, "flushdb".spec_bytes()) {
        Some(Handler::OnFlushdb)
    } else {
        None
    }
}

/// A name spells one command at most: whichever command's name it spells,
/// that command's handler is the one it stands for.
pub proof fn lemma_one_handler(name: Seq<u8>)
    ensures
        eq_ignore_case(name, "set".spec_bytes()) ==> handler_of(name) == Some(Handler::OnSet),
        eq_ignore_case(name, "get".spec_bytes()) ==> handler_of(name) == Some(Handler::OnGet),
        eq_ignore_case(name, "incr".spec_bytes()) ==> handler_of(name) == Some(Handler::OnIncr),
        eq_ignore_case(name, "setnx".spec_bytes()) ==> handler_of(name) == Some(Handler::OnSetnx),
        eq_ignore_case(name, "expire".spec_bytes()) ==> handler_of(name) == Some(
            Handler::OnExpire,
        ),
        eq_ignore_case(name, "setex".spec_bytes()) ==> handler_of(name) == Some(Handler::OnSetex),
        eq_ignore_case(name, "ttl".spec_bytes()) ==> handler_of(name) == Some(Handler::OnTtl),
        eq_ignore_case(name, "pttl".spec_bytes()) ==> handler_of(name) == Some(Handler::OnPttl),
{
    broadcast use vstd::string::is_ascii_spec_bytes;

    reveal_strlit("ping");
    reveal_strlit("config");
    reveal_strlit("command");
    reveal_strlit("set");
    reveal_strlit("get");
    reveal_strlit("incr");
    reveal_strlit("select");
    reveal_strlit("flushall");
    reveal_strlit("function");
    reveal_strlit("del");
    reveal_strlit("setnx");
    reveal_strlit("expire");
    reveal_strlit("setex");
    reveal_strlit("getex");
    reveal_strlit("ttl");
    reveal_strlit("pttl");
    assert(vstd::string::is_ascii("ping"));
    assert(vstd::string::is_ascii("config"));
    assert(vstd::string::is_ascii("command"));
    assert(vstd::string::is_ascii("set"));
    assert(vstd::string::is_ascii("get"));
    assert(vstd::string::is_ascii("incr"));
    assert(vstd::string::is_ascii("select"));
    assert(vstd::string::is_ascii("flushall"));
    assert(vstd::string::is_ascii("function"));
    assert(vstd::string::is_ascii("del"));
    assert(vstd::string::is_ascii("setnx"));
    assert(vstd::string::is_ascii("expire"));
    assert(vstd::string::is_ascii("setex"));
    assert(vstd::string::is_ascii("getex"));
    assert(vstd::string::is_ascii("ttl"));
    assert(vstd::string::is_ascii("pttl"));
    if name.len() >= 3 {
        let a = to_lower(name[0]);
        let b = to_lower(name[1]);
        let c = to_lower(name[2]);
        if name.len() >= 4 {
            let d = to_lower(name[3]);
        }
    }
}

/// What a command does is what its handler does.
pub proof fn lemma_run(w: World, cmd: Seq<Value>, now: u128)
    requires
        cmd.len() > 0,
    ensures
        named(cmd[0], "set") ==> run_array(w, cmd, now) == do_set(w, cmd),
        named(cmd[0], "get") ==> run_array(w, cmd, now) == do_get(w, cmd, now),
        named(cmd[0], "incr") ==> run_array(w, cmd, now) == do_incr(w, cmd, now),
        named(cmd[0], "setnx") ==> run_array(w, cmd, now) == do_setnx(w, cmd, now),
        named(cmd[0], "expire") ==> run_array(w, cmd, now) == do_expire(w, cmd, now),
        named(cmd[0], "setex") ==> run_array(w, cmd, now) == do_setex(w, cmd, now),
        named(cmd[0], "ttl") ==> run_array(w, cmd, now) == do_ttl(w, cmd, now),
        named(cmd[0], "pttl") ==> run_array(w, cmd, now) == do_pttl(w, cmd, now),
{
    reveal(run_array);
    lemma_one_handler(cmd[0].as_bytes());
}

/// A key that was written and then given no time to live is gone: after
/// `SET k v` and `EXPIRE k 0`, a `GET k` that is not earlier than the
/// `EXPIRE` is answered by the nil array.
pub proof fn law_expire_zero(
    w: World,
    set: Seq<Value>,
    expire: Seq<Value>,
    get: Seq<Value>,
    t_set: u128,
    t_expire: u128,
    t_get: u128,
)
    requires
        set.len() == 3 && named(set[0], "set"),
        expire.len() == 3 && named(expire[0], "expire"),
        get.len() == 2 && named(get[0], "get"),
        expire[1] == set[1],
        get[1] == set[1],
        expire[2].to_u128() == Some(0u128),
        t_expire <= t_get,
    ensures
        ({
            let w1 = run_array(w, set, t_set).world;
            let w2 = run_array(w1, expire, t_expire).world;
            run_array(w2, get, t_get).reply == Ok::<Value, ErrorKind>(Value::NilArray)
        }),
{
    let w1 = run_array(w, set, t_set).world;
    let w2 = run_array(w1, expire, t_expire).world;
    lemma_run(w, set, t_set);
    lemma_run(w1, expire, t_expire);
    lemma_run(w2, get, t_get);
    assert(expire_time(expire[2], t_expire) == Some(t_expire));
}

/// Right after `SETEX k 10 v` the key has 9 or 10 seconds to live, and
/// between 9000 and 10000 milliseconds: so `TTL k` and `PTTL k` answer where
/// they come no earlier than the `SETEX` and no more than a second later.
pub proof fn law_setex_ttl(
    w: World,
    setex: Seq<Value>,
    ttl: Seq<Value>,
    pttl: Seq<Value>,
    t_setex: u128,
    t_ttl: u128,
)
    requires
        setex.len() == 4 && named(setex[0], "setex"),
        ttl.len() == 2 && named(ttl[0], "ttl"),
        pttl.len() == 2 && named(pttl[0], "pttl"),
        ttl[1] == setex[1],
        pttl[1] == setex[1],
        setex[2].to_u128() == Some(10u128),
        t_setex <= t_ttl <= t_setex + 1000,
        t_setex + 10000 <= u128::MAX,
    ensures
        ({
            let w1 = run_array(w, setex, t_setex).world;
            &&& run_array(w1, ttl, t_ttl).reply matches Ok(Value::Integer(s)) && 9 <= s <= 10
            &&& run_array(w1, pttl, t_ttl).reply matches Ok(Value::Integer(ms)) && 9000 <= ms
                <= 10000
        }),
{
    let w1 = run_array(w, setex, t_setex).world;
    lemma_run(w, setex, t_setex);
    lemma_run(w1, ttl, t_ttl);
    lemma_run(w1, pttl, t_ttl);
    let when = (t_setex + 10000) as u128;
    assert(expire_time(setex[2], t_setex) == Some(when));
    let left = when - t_ttl;
    assert(9000 <= left <= 10000);
    assert(9 <= left / 1000 <= 10);
}

/// `TTL` answers -2 for a key without value, and -1 for a key with a value
/// and no expiry.
pub proof fn law_ttl_without_expiry(w: World, ttl: Seq<Value>, now: u128)
    requires
        ttl.len() == 2 && named(ttl[0], "ttl"),
    ensures
        !w.db().kv.contains_key(ttl[1]) ==> run_array(w, ttl, now).reply == Ok::<
            Value,
            ErrorKind,
        >(Value::Integer(-2i64)),
        w.db().kv.contains_key(ttl[1]) && !w.db().expiry.contains_key(ttl[1]) ==> run_array(
            w,
            ttl,
            now,
        ).reply == Ok::<Value, ErrorKind>(Value::Integer(-1i64)),
{
    lemma_run(w, ttl, now);
}

/// `INCR` on a value that is no integer is answered by the error
/// `ERR value is not an integer or out of range`, and the value stays.
pub proof fn law_incr_not_integer(w: World, incr: Seq<Value>, now: u128)
    requires
        incr.len() == 2 && named(incr[0], "incr"),
        w.server.dbs.contains_key(w.db_id),
        w.db().kv.contains_key(incr[1]),
        !w.db().expired(incr[1], now),
        !(w.db().kv[incr[1]] is Integer),
    ensures
        run_array(w, incr, now).reply == Err::<Value, ErrorKind>(ErrorKind::NotInteger),
        reply_value(run_array(w, incr, now).reply) == Value::Error(
            "ERR value is not an integer or out of range".spec_bytes(),
        ),
        run_array(w, incr, now).world == w,
{
    lemma_run(w, incr, now);
    assert(w.with_db(w.db()) =~~= w);
}

/// `SETNX` on a key that has a value answers 0 and writes nothing.
pub proof fn law_setnx_existing(w: World, setnx: Seq<Value>, now: u128)
    requires
        setnx.len() == 3 && named(setnx[0], "setnx"),
        w.server.dbs.contains_key(w.db_id),
        w.db().kv.contains_key(setnx[1]),
        !w.db().expired(setnx[1], now),
    ensures
        run_array(w, setnx, now).reply == Ok::<Value, ErrorKind>(Value::Integer(0i64)),
        run_array(w, setnx, now).world == w,
{
    lemma_run(w, setnx, now);
    assert(w.with_db(w.db()) =~~= w);
}

/// In every database, every key with an expiry has a value.
pub open spec fn expiries_have_values(w: World) -> bool {
    forall|id: u64| (#[trigger] w.server.dbs[id]).expiry_within_kv()
}

/// A command keeps every expiry with a value, but for one: `EXPIRE` on a key
/// without value, which gives the key an expiry all the same.
pub proof fn law_expiries_have_values(w: World, cmd: Seq<Value>, now: u128)
    requires
        expiries_have_values(w),
        !(cmd.len() >= 3 && named(cmd[0], "expire") && !w.db().kv.contains_key(cmd[1])),
    ensures
        expiries_have_values(run_array(w, cmd, now).world),
{
    reveal(run_array);
    let after = run_array(w, cmd, now).world;
    assert forall|id: u64| (#[trigger] after.server.dbs[id]).expiry_within_kv() by {
        assert(w.server.dbs[id].expiry_within_kv());
        assert(w.server.dbs[w.db_id].expiry_within_kv());
    }
}

} // verus!
