//! The configuration that a server starts with.

use crate::keymap::RespMap;
use crate::resp::Resp;
use crate::value::Value;
use vstd::prelude::*;
use vstd::string::StringSliceAdditionalSpecFns;

verus! {

/// The configuration of a fresh server: `save` and `appendonly`, both as
/// bulk strings.
pub open spec fn default_config() -> Map<Value, Value> {
    Map::<Value, Value>::empty().insert(
        Value::BulkString("save".spec_bytes()),
        Value::BulkString("900 1 300 10 60 10000".spec_bytes()),
    ).insert(Value::BulkString("appendonly".spec_bytes()), Value::BulkString("no".spec_bytes()))
}

/// Builds the configuration of a fresh server.
pub fn get_default_config() -> (config: RespMap<Resp>)
    ensures
        config.wf(),
        config@ == default_config(),
{
    let mut result: RespMap<Resp> = RespMap::new();
    let _ = result.insert(
        Resp::rbs_from_static_str("save"),
        Resp::rbs_from_static_str("900 1 300 10 60 10000"),
    );
    let _ = result.insert(Resp::rbs_from_static_str("appendonly"), Resp::rbs_from_static_str("no"));
    result
}

} // verus!
