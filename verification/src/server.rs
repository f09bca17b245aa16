//! The server: its configuration and its databases.
//!
//! A database exists for every id. One that nobody has touched is empty, and
//! is made only when somebody asks for it.

use crate::config::{default_config, get_default_config};
use crate::db::{Db, DbState};
use crate::keymap::RespMap;
use crate::resp::Resp;
use crate::value::Value;
use std::collections::HashMap;
use vstd::prelude::*;

verus! {

/// What a server holds.
#[verifier::ext_equal]
pub struct ServerState {
    /// The configuration.
    pub config: Map<Value, Value>,
    /// The database of every id.
    pub dbs: Map<u64, DbState>,
}

impl ServerState {
    /// A fresh server: the default configuration, and every database empty.
    pub open spec fn initial() -> ServerState {
        ServerState { config: default_config(), dbs: all_empty() }
    }

    /// The server with `db` as the database `id`.
    pub open spec fn with_db(self, id: u64, db: DbState) -> ServerState {
        ServerState { config: self.config, dbs: self.dbs.insert(id, db) }
    }

    /// The server with `config` as its configuration.
    pub open spec fn with_config(self, config: Map<Value, Value>) -> ServerState {
        ServerState { config, dbs: self.dbs }
    }

    /// The server with every database empty.
    pub open spec fn flushed(self) -> ServerState {
        ServerState { config: self.config, dbs: all_empty() }
    }
}

/// Every database empty.
pub open spec fn all_empty() -> Map<u64, DbState> {
    Map::new(|id: u64| true, |id: u64| DbState::empty())
}

/// The database of every id, where `made` holds those that were made.
pub open spec fn dbs_of(made: Map<u64, Db>) -> Map<u64, DbState> {
    Map::new(
        |id: u64| true,
        |id: u64|
            if made.contains_key(id) {
                made[id]@
            } else {
                DbState::empty()
            },
    )
}

/// Every database that was made is well formed.
pub open spec fn dbs_wf(made: Map<u64, Db>) -> bool {
    forall|id: u64| made.contains_key(id) ==> (#[trigger] made[id]).wf()
}

/// The server.
pub struct Server {
    config: RespMap<Resp>,
    dbs: HashMap<u64, Db>,
}

impl View for Server {
    type V = ServerState;

    closed spec fn view(&self) -> ServerState {
        ServerState { config: self.config@, dbs: dbs_of(self.dbs@) }
    }
}

proof fn lemma_dbs_insert(made: Map<u64, Db>, id: u64, db: Db)
    ensures
        dbs_of(made.insert(id, db)) == dbs_of(made).insert(id, db@),
        dbs_wf(made) && db.wf() ==> dbs_wf(made.insert(id, db)),
{
    assert(dbs_of(made.insert(id, db)) =~= dbs_of(made).insert(id, db@));
}

impl Server {
    /// The configuration and every database that was made are well formed.
    pub closed spec fn wf(&self) -> bool {
        self.config.wf() && dbs_wf(self.dbs@)
    }

    /// There is a database for every id.
    pub proof fn lemma_every_db(&self)
        ensures
            forall|id: u64| self@.dbs.contains_key(id),
    {
    }

    /// The database `id`, to read and to write. It is made first where
    /// nobody asked for it before.
    pub fn get_db(&mut self, id: u64) -> (db: &mut Db)
        requires
            old(self).wf(),
        ensures
            db.wf(),
            old(self)@.dbs.contains_key(id),
            db@ == old(self)@.dbs[id],
            final(db).wf() ==> final(self).wf(),
            final(self)@ == old(self)@.with_db(id, final(db)@),
    {
        broadcast use vstd::std_specs::hash::group_hash_axioms;

        let ghost made = self.dbs@;
        let db = self.dbs.entry(id).or_insert(Db::new());
        proof {
            lemma_dbs_insert(made, id, *final(db));
        }
        db
    }

    /// The configuration, to read.
    pub fn config(&self) -> (config: &RespMap<Resp>)
        requires
            self.wf(),
        ensures
            config.wf(),
            config@ == self@.config,
    {
        &self.config
    }

    /// The configuration, to read and to write.
    pub fn config_mut(&mut self) -> (config: &mut RespMap<Resp>)
        requires
            old(self).wf(),
        ensures
            config.wf(),
            config@ == old(self)@.config,
            final(config).wf() ==> final(self).wf(),
            final(self)@ == old(self)@.with_config(final(config)@),
    {
        &mut self.config
    }

    /// Empties every database.
    pub fn flush_all(&mut self)
        requires
            old(self).wf(),
        ensures
            final(self).wf(),
            final(self)@ == old(self)@.flushed(),
    {
        self.dbs.clear();
        assert(dbs_of(self.dbs@) =~= all_empty());
    }
}

impl Default for Server {
    fn default() -> (server: Server)
        ensures
            server.wf(),
            server@ == ServerState::initial(),
    {
        let server = Server { config: get_default_config(), dbs: HashMap::new() };
        assert(dbs_of(server.dbs@) =~= all_empty());
        server
    }
}

} // verus!
