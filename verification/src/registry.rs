//! The registry of connections: those that are saved, those that are open, and
//! what is cached of them.
//!
//! A live connection is known here by a number. Whoever holds the connections
//! opens, pings and closes them, persists the saved ones, and reports back.
use vstd::prelude::*;

use crate::browse::TableBrowseRequest;
use crate::connection::{distinct_ids, in_name_order, sort_by_name, ConnectionConfig};
use crate::engine::{CellarError, Engine, ErrorView};
use crate::ordered_map::OrderedMap;
use crate::schema::{database_named, find_database, find_schema, schema_named, Database, Schema};
use crate::text::{is_blank, trim_of};
use crate::value::opt_text;
use crate::workspace_model::opt_str;

verus! {

/// A connection that is open: its configuration when it was opened, and its
/// number.
#[derive(PartialEq, Eq, Debug)]
pub struct OpenConnection {
    pub config: ConnectionConfig,
    pub connection: u64,
}

/// What a history record says of a connection.
#[derive(Clone, PartialEq, Eq, Debug)]
pub struct ConnectionHistoryContext {
    pub name: Option<String>,
    pub database: Option<String>,
}

/// The registry. `U` is a definition that usages are searched in.
pub struct ConnectionRegistry<U> {
    /// The saved connections, as they are on disk.
    configs: OrderedMap<String, ConnectionConfig>,
    /// The open connections.
    open: OrderedMap<String, OpenConnection>,
    /// The schema tree of the last introspection.
    schema_cache: OrderedMap<String, Vec<Database>>,
    /// The definitions of each database of a connection.
    usage_cache: OrderedMap<String, OrderedMap<String, Vec<U>>>,
}

/// The model of [`ConnectionRegistry`].
#[verifier::ext_equal]
pub struct RegistryView<U> {
    pub configs: Map<Seq<char>, ConnectionConfig>,
    pub open: Map<Seq<char>, OpenConnection>,
    pub schemas: Map<Seq<char>, Vec<Database>>,
    pub usages: Map<Seq<char>, Map<Seq<char>, Vec<U>>>,
}

impl<U> View for ConnectionRegistry<U> {
    type V = RegistryView<U>;

    closed spec fn view(&self) -> RegistryView<U> {
        RegistryView {
            configs: self.configs.map(),
            open: self.open.map(),
            schemas: self.schema_cache.map(),
            usages: Map::new(
                |id: Seq<char>| self.usage_cache.map().contains_key(id),
                |id: Seq<char>| self.usage_cache.map()[id].map(),
            ),
        }
    }
}

/// Whether `list` holds exactly the connections of `map`, each once.
pub open spec fn lists(
    list: Seq<ConnectionConfig>,
    map: Map<Seq<char>, ConnectionConfig>,
) -> bool {
    &&& distinct_ids(list)
    &&& forall|c: ConnectionConfig| #[trigger]
        list.contains(c) == (map.contains_key(c.id@) && map[c.id@] == c)
}

/// The message where a connection is not open.
pub open spec fn not_open(id: Seq<char>) -> ErrorView {
    ErrorView::NotConnected("no open connection for "@ + id)
}

fn not_open_error(id: &str) -> (r: CellarError)
    ensures
        r@ == not_open(id@),
{
    let mut message = "no open connection for ".to_owned();
    message.append(id);
    CellarError::NotConnected(message)
}

/// `before`, the name of the engine, `after`.
pub open spec fn about_engine(before: Seq<char>, engine: Engine, after: Seq<char>) -> Seq<char> {
    before + engine.name() + after
}

fn engine_message(before: &str, engine: Engine, after: &str) -> (r: String)
    ensures
        r@ == about_engine(before@, engine, after@),
{
    let mut message = before.to_owned();
    message.append(engine.as_str());
    message.append(after);
    message
}

impl<U> RegistryView<U> {
    /// Saved connections stand under their ids.
    pub open spec fn coherent(self) -> bool {
        forall|id: Seq<char>| #[trigger]
            self.configs.contains_key(id) ==> self.configs[id].id@ == id
    }

    /// The registry without anything cached of a connection.
    pub open spec fn invalidated(self, id: Seq<char>) -> RegistryView<U> {
        RegistryView { schemas: self.schemas.remove(id), usages: self.usages.remove(id), ..self }
    }

    /// The registry without an open connection and what is cached of it.
    pub open spec fn closed(self, id: Seq<char>) -> RegistryView<U> {
        RegistryView { open: self.open.remove(id), ..self.invalidated(id) }
    }

    /// How an introspection starts: with the cached tree, unless it is to be
    /// refreshed, else on the open connection.
    pub open spec fn introspection(self, id: Seq<char>, refresh: bool) -> Result<
        IntrospectStep,
        ErrorView,
    > {
        if !refresh && self.schemas.contains_key(id) {
            Ok(IntrospectStep::Cached)
        } else {
            match self.open_of(id) {
                Some(open) => Ok(
                    IntrospectStep::Run {
                        engine: open.config.engine,
                        connection: open.connection,
                    },
                ),
                None => Err(not_open(id)),
            }
        }
    }

    /// The registry once an introspection has started.
    pub open spec fn introspecting(self, id: Seq<char>, refresh: bool) -> RegistryView<U> {
        if refresh {
            RegistryView { usages: self.usages.remove(id), ..self }
        } else {
            self
        }
    }

    /// The registry with the tree that an introspection found.
    pub open spec fn introspected(self, id: Seq<char>, databases: Vec<Database>) -> RegistryView<
        U,
    > {
        RegistryView { schemas: self.schemas.insert(id, databases), ..self }
    }

    /// The open connection of this id.
    pub open spec fn open_of(self, id: Seq<char>) -> Option<OpenConnection> {
        if self.open.contains_key(id) {
            Some(self.open[id])
        } else {
            None
        }
    }

    /// The configuration that is known of a connection: the saved one, else that
    /// of the open connection.
    pub open spec fn known_config(self, id: Seq<char>) -> Option<ConnectionConfig> {
        if self.configs.contains_key(id) {
            Some(self.configs[id])
        } else if self.open.contains_key(id) {
            Some(self.open[id].config)
        } else {
            None
        }
    }
}

/// A copy of a map of configurations.
fn copy_configs(configs: &OrderedMap<String, ConnectionConfig>) -> (r: OrderedMap<
    String,
    ConnectionConfig,
>)
    requires
        configs.wf(),
    ensures
        r.wf(),
        r.map() == configs.map(),
{
    let mut out: OrderedMap<String, ConnectionConfig> = OrderedMap::new();
    let mut i: usize = 0;
    while i < configs.len()
        invariant
            i <= configs.entries().len(),
            configs.wf(),
            out.wf(),
            forall|id: Seq<char>| #[trigger]
                out.map().contains_key(id) == exists|k: int|
                    0 <= k < i && (#[trigger] configs.entries()[k]).0@ == id,
            forall|id: Seq<char>| #[trigger]
                out.map().contains_key(id) ==> configs.map().contains_key(id) && out.map()[id]
                    == configs.map()[id],
        decreases configs.entries().len() - i,
    {
        let ghost before = out.map();
        proof {
            configs.lemma_entry(i as int);
        }
        out.insert(configs.key(i).clone(), configs.at(i).clone());
        proof {
            assert forall|id: Seq<char>| #[trigger]
                out.map().contains_key(id) == exists|k: int|
                    0 <= k < i + 1 && (#[trigger] configs.entries()[k]).0@ == id by {
                if before.contains_key(id) {
                    let k = choose|k: int|
                        0 <= k < i && (#[trigger] configs.entries()[k]).0@ == id;
                    assert(0 <= k < i + 1 && configs.entries()[k].0@ == id);
                }
                assert(configs.entries()[i as int].0@ == configs.entries()[i as int].0@);
                if exists|k: int| 0 <= k < i + 1 && (#[trigger] configs.entries()[k]).0@ == id {
                    let k = choose|k: int|
                        0 <= k < i + 1 && (#[trigger] configs.entries()[k]).0@ == id;
                    if k < i {
                        assert(before.contains_key(id));
                    }
                }
            }
        }
        i += 1;
    }
    proof {
        assert forall|id: Seq<char>| #[trigger]
            out.map().contains_key(id) == configs.map().contains_key(id) by {
            if configs.map().contains_key(id) {
                let at = choose|at: int| #[trigger] configs.key_at(id, at);
                assert(configs.entries()[at].0@ == id);
            }
        }
        assert(out.map() =~= configs.map());
    }
    out
}

/// The configurations of a map, in the order of their ids.
fn config_values(configs: &OrderedMap<String, ConnectionConfig>) -> (r: Vec<ConnectionConfig>)
    requires
        configs.wf(),
        forall|id: Seq<char>| #[trigger]
            configs.map().contains_key(id) ==> configs.map()[id].id@ == id,
    ensures
        lists(r@, configs.map()),
{
    let mut out: Vec<ConnectionConfig> = Vec::new();
    let mut i: usize = 0;
    while i < configs.len()
        invariant
            i <= configs.entries().len(),
            configs.wf(),
            out@.len() == i,
            forall|k: int| 0 <= k < i ==> (#[trigger] out@[k]) == configs.entries()[k].1,
        decreases configs.entries().len() - i,
    {
        out.push(configs.at(i).clone());
        i += 1;
    }
    proof {
        assert forall|k: int| 0 <= k < out@.len() implies (#[trigger] out@[k]).id@
            == configs.entries()[k].0@ by {
            configs.lemma_entry(k);
        }
        assert forall|a: int, b: int| 0 <= a < b < out@.len() implies (#[trigger] out@[a]).id@ != (
        #[trigger] out@[b]).id@ by {
            if out@[a].id@ == out@[b].id@ {
                configs.lemma_unique(a, b);
            }
        }
        assert forall|c: ConnectionConfig| #[trigger]
            out@.contains(c) == (configs.map().contains_key(c.id@) && configs.map()[c.id@] == c) by {
            if out@.contains(c) {
                let k = choose|k: int| 0 <= k < out@.len() && out@[k] == c;
                configs.lemma_entry(k);
            }
            if configs.map().contains_key(c.id@) && configs.map()[c.id@] == c {
                let at = choose|at: int| #[trigger] configs.key_at(c.id@, at);
                configs.lemma_entry(at);
                assert(out@[at] == c);
            }
        }
    }
    out
}

impl<U> ConnectionRegistry<U> {
    pub closed spec fn wf(self) -> bool {
        &&& self.configs.wf()
        &&& self.open.wf()
        &&& self.schema_cache.wf()
        &&& self.usage_cache.wf()
        &&& forall|id: Seq<char>| #[trigger]
            self.usage_cache.map().contains_key(id) ==> self.usage_cache.map()[id].wf()
        &&& self@.coherent()
    }

    // -----------------------------------------------------------------
    // Saved connections
    // -----------------------------------------------------------------
    /// A registry of these saved connections. Of two with one id the later one
    /// counts.
    pub fn new(configs: Vec<ConnectionConfig>) -> (r: Self)
        ensures
            r.wf(),
            r@.configs == by_id(configs@),
            r@.open == Map::<Seq<char>, OpenConnection>::empty(),
            r@.schemas == Map::<Seq<char>, Vec<Database>>::empty(),
            r@.usages == Map::<Seq<char>, Map<Seq<char>, Vec<U>>>::empty(),
    {
        let mut map: OrderedMap<String, ConnectionConfig> = OrderedMap::new();
        let mut i: usize = 0;
        assert(by_id(configs@.take(0)) =~= map.map());
        while i < configs.len()
            invariant
                i <= configs@.len(),
                map.wf(),
                map.map() == by_id(configs@.take(i as int)),
                forall|id: Seq<char>| #[trigger]
                    map.map().contains_key(id) ==> map.map()[id].id@ == id,
            decreases configs@.len() - i,
        {
            assert(configs@.take(i + 1).drop_last() =~= configs@.take(i as int));
            map.insert(configs[i].id.clone(), configs[i].clone());
            i += 1;
        }
        assert(configs@.take(configs@.len() as int) =~= configs@);
        let r = ConnectionRegistry {
            configs: map,
            open: OrderedMap::new(),
            schema_cache: OrderedMap::new(),
            usage_cache: OrderedMap::new(),
        };
        assert(r@.usages =~= Map::<Seq<char>, Map<Seq<char>, Vec<U>>>::empty());
        r
    }

    /// The saved connections, sorted by name.
    pub fn list(&self) -> (r: Vec<ConnectionConfig>)
        requires
            self.wf(),
        ensures
            in_name_order(r@),
            lists(r@, self@.configs),
    {
        let values = config_values(&self.configs);
        let ghost all = values@;
        let r = sort_by_name(values);
        proof {
            crate::connection::law_sorting_keeps_the_connections(all, r@);
            crate::connection::law_sorting_keeps_ids_distinct(all, r@);
        }
        r
    }

    /// What is to be persisted before a connection is saved. Nothing changes in
    /// memory until that has succeeded and [`ConnectionRegistry::commit_save`]
    /// is called.
    pub fn plan_save(&self, config: &ConnectionConfig) -> (r: Result<
        Vec<ConnectionConfig>,
        CellarError,
    >)
        requires
            self.wf(),
        ensures
            r is Err == (config.id@.len() == 0),
            r matches Err(e) ==> e@ == ErrorView::InvalidConfig("connection id is empty"@),
            r matches Ok(list) ==> lists(list@, self@.configs.insert(config.id@, *config)),
    {
        if config.id.as_str().is_empty() {
            return Err(CellarError::InvalidConfig("connection id is empty".to_owned()));
        }
        let mut configs = copy_configs(&self.configs);
        proof {
            assert forall|id: Seq<char>| #[trigger]
                self@.configs.contains_key(id) implies self@.configs[id].id@ == id by {}
        }
        configs.insert(config.id.clone(), config.clone());
        Ok(config_values(&configs))
    }

    /// Saves a connection, once it is persisted.
    pub fn commit_save(&mut self, config: ConnectionConfig)
        requires
            old(self).wf(),
        ensures
            final(self).wf(),
            final(self)@ == (RegistryView {
                configs: old(self)@.configs.insert(config.id@, config),
                ..old(self)@
            }),
    {
        let ghost was = self@;
        self.configs.insert(config.id.clone(), config);
        assert(self@ =~= (RegistryView { configs: was.configs.insert(config.id@, config), ..was }));
    }

    /// What is to be persisted before a connection is deleted.
    pub fn plan_delete(&self, id: &str) -> (r: Vec<ConnectionConfig>)
        requires
            self.wf(),
        ensures
            lists(r@, self@.configs.remove(id@)),
    {
        let mut configs = copy_configs(&self.configs);
        proof {
            assert forall|id: Seq<char>| #[trigger]
                self@.configs.contains_key(id) implies self@.configs[id].id@ == id by {}
        }
        configs.remove(&id.to_owned());
        config_values(&configs)
    }

    /// Deletes a connection, once that is persisted. The result is the open
    /// connection that is to be closed.
    pub fn commit_delete(&mut self, id: &str) -> (r: Option<OpenConnection>)
        requires
            old(self).wf(),
        ensures
            final(self).wf(),
            r == old(self)@.open_of(id@),
            final(self)@ == (RegistryView {
                configs: old(self)@.configs.remove(id@),
                ..old(self)@
            }).closed(id@),
    {
        let ghost was = self@;
        self.configs.remove(&id.to_owned());
        let r = self.remove_open(id);
        assert(self@ =~= (RegistryView { configs: was.configs.remove(id@), ..was }).closed(id@));
        r
    }

    // -----------------------------------------------------------------
    // Open connections
    // -----------------------------------------------------------------
    /// Drops what is cached of a connection: its schema tree and the
    /// definitions of its databases.
    pub fn invalidate_connection(&mut self, id: &str)
        requires
            old(self).wf(),
        ensures
            final(self).wf(),
            final(self)@ == old(self)@.invalidated(id@),
    {
        let ghost was = self@;
        self.schema_cache.remove(&id.to_owned());
        self.usage_cache.remove(&id.to_owned());
        assert(self@.usages =~= was.usages.remove(id@));
        assert(self@ =~= was.invalidated(id@));
    }

    /// Takes out an open connection and drops what is cached of it.
    pub fn remove_open(&mut self, id: &str) -> (r: Option<OpenConnection>)
        requires
            old(self).wf(),
        ensures
            final(self).wf(),
            r == old(self)@.open_of(id@),
            final(self)@ == old(self)@.closed(id@),
    {
        let ghost was = self@;
        self.invalidate_connection(id);
        let r = self.open.remove(&id.to_owned());
        assert(self@ =~= was.closed(id@));
        r
    }

    /// Takes out an open connection, where it is still this one. A connection
    /// that was opened in its place meanwhile is left alone.
    pub fn remove_open_if_same(&mut self, id: &str, connection: u64) -> (r: Option<OpenConnection>)
        requires
            old(self).wf(),
        ensures
            final(self).wf(),
            ({
                let same = old(self)@.open_of(id@) matches Some(open) && open.connection
                    == connection;
                &&& same ==> r == old(self)@.open_of(id@) && final(self)@ == old(self)@.closed(id@)
                &&& !same ==> r is None && final(self)@ == old(self)@
            }),
    {
        let same = match self.open.get(&id.to_owned()) {
            Some(open) => open.connection == connection,
            None => false,
        };
        if !same {
            return None;
        }
        self.remove_open(id)
    }

    /// The saved configuration of a connection.
    pub fn config_for(&self, id: &str) -> (r: Result<ConnectionConfig, CellarError>)
        requires
            self.wf(),
        ensures
            r is Ok == self@.configs.contains_key(id@),
            r matches Ok(config) ==> config == self@.configs[id@],
            r matches Err(e) ==> e@ == ErrorView::InvalidConfig("unknown connection "@ + id@),
    {
        match self.configs.get(&id.to_owned()) {
            Some(config) => Ok(config.clone()),
            None => {
                let mut message = "unknown connection ".to_owned();
                message.append(id);
                Err(CellarError::InvalidConfig(message))
            },
        }
    }

    /// The number of the open connection of this id. One that answers a ping is
    /// used again; one that does not is taken out with
    /// [`ConnectionRegistry::remove_open_if_same`].
    pub fn existing(&self, id: &str) -> (r: Option<u64>)
        requires
            self.wf(),
        ensures
            r is Some == self@.open.contains_key(id@),
            r matches Some(connection) ==> connection == self@.open[id@].connection,
    {
        match self.open.get(&id.to_owned()) {
            Some(open) => Some(open.connection),
            None => None,
        }
    }

    /// Keeps a connection that was just opened. Where another one was kept
    /// meanwhile, its number is returned, and the new one is to be closed.
    pub fn install(&mut self, id: &str, config: ConnectionConfig, connection: u64) -> (r: Option<
        u64,
    >)
        requires
            old(self).wf(),
        ensures
            final(self).wf(),
            match old(self)@.open_of(id@) {
                Some(open) => r == Some(open.connection) && final(self)@ == old(self)@,
                None => r is None && final(self)@ == (RegistryView {
                    open: old(self)@.open.insert(id@, OpenConnection { config, connection }),
                    ..old(self)@
                }),
            },
    {
        if let Some(open) = self.open.get(&id.to_owned()) {
            return Some(open.connection);
        }
        let ghost was = self@;
        self.open.insert(id.to_owned(), OpenConnection { config, connection });
        assert(self@ =~= (RegistryView {
            open: was.open.insert(id@, OpenConnection { config, connection }),
            ..was
        }));
        None
    }

    /// Reacts to a failed operation. An error that means that the connection is
    /// broken takes it out; the result is what is to be closed.
    pub fn operation_failed(&mut self, id: &str, evict: bool) -> (r: Option<OpenConnection>)
        requires
            old(self).wf(),
        ensures
            final(self).wf(),
            !evict ==> r is None && final(self)@ == old(self)@,
            evict ==> r == old(self)@.open_of(id@) && final(self)@ == old(self)@.closed(id@),
    {
        if !evict {
            return None;
        }
        self.remove_open(id)
    }

    /// The engine and the number of an open connection.
    pub fn open_target(&self, id: &str) -> (r: Result<(Engine, u64), CellarError>)
        requires
            self.wf(),
        ensures
            match self@.open_of(id@) {
                Some(open) => r matches Ok(t) && t == (open.config.engine, open.connection),
                None => r matches Err(e) && e@ == not_open(id@),
            },
    {
        match self.open.get(&id.to_owned()) {
            Some(open) => Ok((open.config.engine, open.connection)),
            None => Err(not_open_error(id)),
        }
    }

    // -----------------------------------------------------------------
    // Schemas
    // -----------------------------------------------------------------
    /// Starts an introspection. A refresh drops the cached definitions, so that
    /// usages are searched in the new schema; otherwise a cached tree is used.
    pub fn begin_introspect(&mut self, id: &str, refresh: bool) -> (r: Result<
        IntrospectStep,
        CellarError,
    >)
        requires
            old(self).wf(),
        ensures
            final(self).wf(),
            final(self)@ == old(self)@.introspecting(id@, refresh),
            match r {
                Ok(step) => old(self)@.introspection(id@, refresh) == Ok::<
                    IntrospectStep,
                    ErrorView,
                >(step),
                Err(e) => old(self)@.introspection(id@, refresh) == Err::<
                    IntrospectStep,
                    ErrorView,
                >(e@),
            },
    {
        let ghost was = self@;
        if refresh {
            self.usage_cache.remove(&id.to_owned());
            assert(self@.usages =~= was.usages.remove(id@));
            assert(self@ =~= was.introspecting(id@, refresh));
        } else if self.schema_cache.contains(&id.to_owned()) {
            return Ok(IntrospectStep::Cached);
        }
        match self.open_target(id) {
            Ok((engine, connection)) => Ok(IntrospectStep::Run { engine, connection }),
            Err(e) => Err(e),
        }
    }

    /// Keeps the tree that an introspection found.
    pub fn finish_introspect(&mut self, id: &str, databases: Vec<Database>)
        requires
            old(self).wf(),
        ensures
            final(self).wf(),
            final(self)@ == old(self)@.introspected(id@, databases),
    {
        let ghost was = self@;
        self.schema_cache.insert(id.to_owned(), databases);
        assert(self@ =~= was.introspected(id@, databases));
    }

    /// The cached tree of a connection.
    pub fn cached_schemas(&self, id: &str) -> (r: Option<&Vec<Database>>)
        requires
            self.wf(),
        ensures
            r is Some == self@.schemas.contains_key(id@),
            r matches Some(databases) ==> *databases == self@.schemas[id@],
    {
        self.schema_cache.get(&id.to_owned())
    }

    // -----------------------------------------------------------------
    // What engines can do
    // -----------------------------------------------------------------
    /// Where a query runs. Queries that may only read need an engine whose
    /// driver enforces that.
    pub fn query_target(&self, id: &str, read_only: bool) -> (r: Result<(Engine, u64), CellarError>)
        requires
            self.wf(),
        ensures
            match self@.open_of(id@) {
                Some(open) => if read_only && !guards_reads(open.config.engine) {
                    r matches Err(e) && e@ == ErrorView::Query(
                        about_engine(
                            "read-only AI query execution is not available for "@,
                            open.config.engine,
                            " yet"@,
                        ),
                    )
                } else {
                    r matches Ok(t) && t == (open.config.engine, open.connection)
                },
                None => r matches Err(e) && e@ == not_open(id@),
            },
    {
        let (engine, connection) = match self.open_target(id) {
            Ok(target) => target,
            Err(e) => return Err(e),
        };
        let guarded = match engine.family() {
            Engine::Postgres | Engine::Mssql => true,
            _ => false,
        };
        if read_only && !guarded {
            return Err(
                CellarError::Query(
                    engine_message(
                        "read-only AI query execution is not available for ",
                        engine,
                        " yet",
                    ),
                ),
            );
        }
        Ok((engine, connection))
    }

    /// The database that a table is browsed in: the one that the request names,
    /// else that of the open connection.
    pub fn target_database_for(&self, request: &TableBrowseRequest) -> (r: Result<
        String,
        CellarError,
    >)
        requires
            self.wf(),
        ensures
            match request.database {
                Some(database) => if trim_of(database@).len() == 0 {
                    r matches Err(e) && e@ == ErrorView::InvalidConfig("database name is empty"@)
                } else {
                    r matches Ok(name) && name@ == database@
                },
                None => match self@.open_of(request.connection_id@) {
                    Some(open) => r matches Ok(name) && name@ == open.config.database@,
                    None => r matches Err(e) && e@ == not_open(request.connection_id@),
                },
            },
    {
        if let Some(database) = &request.database {
            if is_blank(database.as_str()) {
                return Err(CellarError::InvalidConfig("database name is empty".to_owned()));
            }
            return Ok(database.clone());
        }
        match self.open.get(&request.connection_id) {
            Some(open) => Ok(open.config.database.clone()),
            None => Err(not_open_error(request.connection_id.as_str())),
        }
    }

    /// Where the changes of a grid are committed.
    pub fn commit_target(&self, id: &str) -> (r: Result<(Engine, u64), CellarError>)
        requires
            self.wf(),
        ensures
            match self@.open_of(id@) {
                Some(open) => {
                    let family = open.config.engine.family_of();
                    if family == Engine::Postgres || family == Engine::Mssql {
                        r matches Ok(t) && t == (family, open.connection)
                    } else {
                        r matches Err(e) && e@ == ErrorView::InvalidConfig(
                            about_engine("engine "@, family, " does not support grid commits yet"@),
                        )
                    }
                },
                None => r matches Err(e) && e@ == not_open(id@),
            },
    {
        let (engine, connection) = match self.open_target(id) {
            Ok(target) => target,
            Err(e) => return Err(e),
        };
        match engine.family() {
            Engine::Postgres => Ok((Engine::Postgres, connection)),
            Engine::Mssql => Ok((Engine::Mssql, connection)),
            other => Err(
                CellarError::InvalidConfig(
                    engine_message("engine ", other, " does not support grid commits yet"),
                ),
            ),
        }
    }

    /// Where a migration script runs.
    pub fn migration_target(&self, id: &str) -> (r: Result<u64, CellarError>)
        requires
            self.wf(),
        ensures
            match self@.open_of(id@) {
                Some(open) => {
                    let family = open.config.engine.family_of();
                    if family == Engine::Postgres {
                        r == Ok::<u64, CellarError>(open.connection)
                    } else {
                        r matches Err(e) && e@ == ErrorView::InvalidConfig(
                            about_engine(
                                "engine "@,
                                family,
                                " does not support schema migrations yet"@,
                            ),
                        )
                    }
                },
                None => r matches Err(e) && e@ == not_open(id@),
            },
    {
        let (engine, connection) = match self.open_target(id) {
            Ok(target) => target,
            Err(e) => return Err(e),
        };
        match engine.family() {
            Engine::Postgres => Ok(connection),
            other => Err(
                CellarError::InvalidConfig(
                    engine_message("engine ", other, " does not support schema migrations yet"),
                ),
            ),
        }
    }

    /// Where an execution plan is made.
    pub fn explain_target(&self, id: &str) -> (r: Result<(Engine, u64), CellarError>)
        requires
            self.wf(),
        ensures
            match self@.open_of(id@) {
                Some(open) => if open.config.engine.family_of() == Engine::Postgres {
                    r matches Ok(t) && t == (open.config.engine, open.connection)
                } else {
                    r matches Err(e) && e@ == ErrorView::InvalidConfig(
                        about_engine(
                            "execution plans are not available for "@,
                            open.config.engine,
                            " yet"@,
                        ),
                    )
                },
                None => r matches Err(e) && e@ == not_open(id@),
            },
    {
        let (engine, connection) = match self.open_target(id) {
            Ok(target) => target,
            Err(e) => return Err(e),
        };
        match engine.family() {
            Engine::Postgres => Ok((engine, connection)),
            _ => Err(
                CellarError::InvalidConfig(
                    engine_message("execution plans are not available for ", engine, " yet"),
                ),
            ),
        }
    }

    // -----------------------------------------------------------------
    // Usages
    // -----------------------------------------------------------------
    /// Starts a search for usages: the database to search, and the connection to
    /// fetch its definitions from where they are not cached.
    pub fn begin_find_usages(&self, id: &str, database: Option<&str>) -> (r: Result<
        UsageStep,
        CellarError,
    >)
        requires
            self.wf(),
        ensures
            match self@.open_of(id@) {
                Some(open) => if open.config.engine.family_of() != Engine::Postgres {
                    r matches Err(e) && e@ == ErrorView::InvalidConfig(
                        about_engine(
                            "find usages is not available for "@,
                            open.config.engine,
                            " yet"@,
                        ),
                    )
                } else {
                    let target = usage_database(opt_str(database), open.config.database@);
                    &&& r matches Ok(step)
                    &&& step.database@ == target
                    &&& step.fetch_from == (if self@.usages.contains_key(id@)
                        && self@.usages[id@].contains_key(target) {
                        None
                    } else {
                        Some(open.connection)
                    })
                },
                None => r matches Err(e) && e@ == not_open(id@),
            },
    {
        let open = match self.open.get(&id.to_owned()) {
            Some(open) => open,
            None => return Err(not_open_error(id)),
        };
        let engine = open.config.engine;
        match engine.family() {
            Engine::Postgres => {},
            _ => {
                return Err(
                    CellarError::InvalidConfig(
                        engine_message("find usages is not available for ", engine, " yet"),
                    ),
                );
            },
        }
        let target = match database {
            Some(name) => if is_blank(name) {
                open.config.database.clone()
            } else {
                name.to_owned()
            },
            None => open.config.database.clone(),
        };
        let cached = match self.usage_cache.get(&id.to_owned()) {
            Some(of_connection) => of_connection.contains(&target),
            None => false,
        };
        let fetch_from = if cached {
            None
        } else {
            Some(open.connection)
        };
        Ok(UsageStep { database: target, fetch_from })
    }

    /// The cached definitions of a database.
    pub fn cached_usages(&self, id: &str, database: &str) -> (r: Option<&Vec<U>>)
        requires
            self.wf(),
        ensures
            r is Some == (self@.usages.contains_key(id@) && self@.usages[id@].contains_key(
                database@,
            )),
            r matches Some(definitions) ==> *definitions == self@.usages[id@][database@],
    {
        match self.usage_cache.get(&id.to_owned()) {
            Some(of_connection) => of_connection.get(&database.to_owned()),
            None => None,
        }
    }

    /// Keeps the definitions that were fetched.
    pub fn store_usages(&mut self, id: &str, database: &str, definitions: Vec<U>)
        requires
            old(self).wf(),
        ensures
            final(self).wf(),
            final(self)@ == (RegistryView {
                usages: old(self)@.usages.insert(
                    id@,
                    (if old(self)@.usages.contains_key(id@) {
                        old(self)@.usages[id@]
                    } else {
                        Map::empty()
                    }).insert(database@, definitions),
                ),
                ..old(self)@
            }),
    {
        let ghost was = self@;
        let mut of_connection = match self.usage_cache.remove(&id.to_owned()) {
            Some(map) => map,
            None => OrderedMap::new(),
        };
        of_connection.insert(database.to_owned(), definitions);
        self.usage_cache.insert(id.to_owned(), of_connection);
        proof {
            let base = if was.usages.contains_key(id@) {
                was.usages[id@]
            } else {
                Map::empty()
            };
            assert(self@.usages =~= was.usages.insert(id@, base.insert(database@, definitions)));
            assert(self@ =~= (RegistryView {
                usages: was.usages.insert(id@, base.insert(database@, definitions)),
                ..was
            }));
        }
    }

    // -----------------------------------------------------------------
    // What is known of a connection
    // -----------------------------------------------------------------
    /// The engine of a saved or open connection.
    pub fn engine_for(&self, id: &str) -> (r: Option<Engine>)
        requires
            self.wf(),
        ensures
            r == (match self@.known_config(id@) {
                Some(config) => Some(config.engine),
                None => None,
            }),
    {
        match self.configs.get(&id.to_owned()) {
            Some(config) => Some(config.engine),
            None => match self.open.get(&id.to_owned()) {
                Some(open) => Some(open.config.engine),
                None => None,
            },
        }
    }

    /// What a history record says of a connection.
    pub fn history_context(&self, id: &str) -> (r: ConnectionHistoryContext)
        requires
            self.wf(),
        ensures
            match self@.known_config(id@) {
                Some(config) => opt_text(r.name) == Some(config.name@) && opt_text(r.database)
                    == Some(config.database@),
                None => r.name is None && r.database is None,
            },
    {
        let config = match self.configs.get(&id.to_owned()) {
            Some(config) => config,
            None => match self.open.get(&id.to_owned()) {
                Some(open) => &open.config,
                None => return ConnectionHistoryContext { name: None, database: None },
            },
        };
        ConnectionHistoryContext {
            name: Some(config.name.clone()),
            database: Some(config.database.clone()),
        }
    }
}

/// The connections by id, the later one where an id occurs twice.
pub open spec fn by_id(list: Seq<ConnectionConfig>) -> Map<Seq<char>, ConnectionConfig>
    decreases list.len(),
{
    if list.len() == 0 {
        Map::empty()
    } else {
        by_id(list.drop_last()).insert(list.last().id@, list.last())
    }
}

/// The next step of an introspection.
#[derive(Clone, Copy, PartialEq, Eq, Structural, Debug)]
pub enum IntrospectStep {
    /// The tree is cached.
    Cached,
    /// The tree is to be read from this connection.
    Run { engine: Engine, connection: u64 },
}

/// The next step of a search for usages.
#[derive(Clone, PartialEq, Eq, Debug)]
pub struct UsageStep {
    pub database: String,
    /// Where the definitions are to be fetched; nothing where they are cached.
    pub fetch_from: Option<u64>,
}

/// Whether the driver of an engine enforces that a query only reads.
pub open spec fn guards_reads(engine: Engine) -> bool {
    engine.family_of() == Engine::Postgres || engine.family_of() == Engine::Mssql
}

/// The database that usages are searched in.
pub open spec fn usage_database(named: Option<Seq<char>>, home: Seq<char>) -> Seq<char> {
    match named {
        Some(name) => if trim_of(name).len() == 0 {
            home
        } else {
            name
        },
        None => home,
    }
}

/// Whether a failed browse of this engine can mean that the connection is
/// broken. The document stores answer each request for itself.
pub fn browse_can_break(engine: Engine) -> (r: bool)
    ensures
        r == (match engine.family_of() {
            Engine::Firestore | Engine::Convex | Engine::Cosmos => false,
            _ => true,
        }),
{
    match engine.family() {
        Engine::Firestore | Engine::Convex | Engine::Cosmos => false,
        _ => true,
    }
}

// ---------------------------------------------------------------------
// Changing the saved connections
// ---------------------------------------------------------------------
/// Where a change of the saved connections stands: a connection is saved, with a
/// secret or without one, or deleted. The change is made on disk first.
#[derive(Clone, Copy, Debug, PartialEq, Eq, Structural)]
pub enum SaveStep {
    /// The changed connections are to be written.
    Write,
    /// The secret is to be stored.
    StoreSecret,
    /// The connections are to be written as they were.
    RollBack,
    /// All is done on disk: the change is to be made in memory.
    Commit,
    /// Nothing is saved: the changed connections could not be written.
    NotWritten,
    /// Nothing is saved: the secret could not be stored, and the connections on
    /// disk are as they were.
    RolledBack,
    /// The secret could not be stored, nor the connections written as they were.
    NotRolledBack,
}

/// The step after `step` was done or failed.
pub open spec fn step_after(step: SaveStep, with_secret: bool, done: bool) -> SaveStep {
    match step {
        SaveStep::Write => if !done {
            SaveStep::NotWritten
        } else if with_secret {
            SaveStep::StoreSecret
        } else {
            SaveStep::Commit
        },
        SaveStep::StoreSecret => if done {
            SaveStep::Commit
        } else {
            SaveStep::RollBack
        },
        SaveStep::RollBack => if done {
            SaveStep::RolledBack
        } else {
            SaveStep::NotRolledBack
        },
        last => last,
    }
}

/// What comes after a step was done or failed. Behind [`SaveStep::Commit`] and
/// the three failures nothing comes.
pub fn next_save_step(step: SaveStep, with_secret: bool, done: bool) -> (r: SaveStep)
    ensures
        r == step_after(step, with_secret, done),
{
    match step {
        SaveStep::Write => if !done {
            SaveStep::NotWritten
        } else if with_secret {
            SaveStep::StoreSecret
        } else {
            SaveStep::Commit
        },
        SaveStep::StoreSecret => if done {
            SaveStep::Commit
        } else {
            SaveStep::RollBack
        },
        SaveStep::RollBack => if done {
            SaveStep::RolledBack
        } else {
            SaveStep::NotRolledBack
        },
        last => last,
    }
}

/// The connections that a step writes, of the changed ones and those before the
/// change.
pub fn list_to_write<'a>(
    step: SaveStep,
    changed: &'a [ConnectionConfig],
    before: &'a [ConnectionConfig],
) -> (r: Option<&'a [ConnectionConfig]>)
    ensures
        match step {
            SaveStep::Write => r matches Some(list) && list@ == changed@,
            SaveStep::RollBack => r matches Some(list) && list@ == before@,
            _ => r is None,
        },
{
    match step {
        SaveStep::Write => Some(changed),
        SaveStep::RollBack => Some(before),
        _ => None,
    }
}

/// The saved connections in memory and on disk.
#[verifier::ext_equal]
pub struct SavedLists {
    pub memory: Map<Seq<char>, ConnectionConfig>,
    pub disk: Map<Seq<char>, ConnectionConfig>,
}

impl SavedLists {
    /// The lists after a step on the way to the connections `changed` was tried.
    /// `left` is what a write that failed leaves on disk.
    pub open spec fn tried(
        self,
        step: SaveStep,
        changed: Map<Seq<char>, ConnectionConfig>,
        done: bool,
        left: Map<Seq<char>, ConnectionConfig>,
    ) -> SavedLists {
        match step {
            SaveStep::Write => SavedLists {
                disk: if done {
                    changed
                } else {
                    left
                },
                ..self
            },
            SaveStep::RollBack => SavedLists {
                disk: if done {
                    self.memory
                } else {
                    left
                },
                ..self
            },
            _ => self,
        }
    }

    /// The lists at the end of a change.
    pub open spec fn ended(
        self,
        step: SaveStep,
        changed: Map<Seq<char>, ConnectionConfig>,
    ) -> SavedLists {
        if step == SaveStep::Commit {
            SavedLists { memory: changed, ..self }
        } else {
            self
        }
    }
}

/// Where a change stands, and what the lists are, once its steps had these
/// outcomes: whether each was done, and what it left on disk where it was a write
/// that failed.
pub open spec fn save_run(
    lists: SavedLists,
    changed: Map<Seq<char>, ConnectionConfig>,
    with_secret: bool,
    outcomes: Seq<(bool, Map<Seq<char>, ConnectionConfig>)>,
) -> (SaveStep, SavedLists)
    decreases outcomes.len(),
{
    if outcomes.len() == 0 {
        (SaveStep::Write, lists)
    } else {
        let (step, now) = save_run(lists, changed, with_secret, outcomes.drop_last());
        let (done, left) = outcomes.last();
        (step_after(step, with_secret, done), now.tried(step, changed, done, left))
    }
}

/// The error after the secret of a connection could not be stored: that of the
/// store, unless the saved connections could not be put back either.
pub fn secret_error(error: CellarError, error_text: &str, rollback: Result<(), String>) -> (r:
    CellarError)
    ensures
        match rollback {
            Ok(_) => r == error,
            Err(why) => r@ == ErrorView::Internal(
                "keychain update failed and connection metadata rollback failed: "@ + error_text@
                    + "; "@ + why@,
            ),
        },
{
    match rollback {
        Ok(_) => error,
        Err(why) => {
            let mut message =
                "keychain update failed and connection metadata rollback failed: ".to_owned();
            message.append(error_text);
            message.append("; ");
            message.append(why.as_str());
            CellarError::Internal(message)
        },
    }
}

/// One schema of a tree.
pub fn schema_in<'a>(databases: &'a [Database], id: &str, database: &str, schema: &str) -> (r: Result<
    &'a Schema,
    CellarError,
>)
    ensures
        match database_named(databases@, database@) {
            Some(d) => match schema_named(d.schemas@, schema@) {
                Some(s) => r matches Ok(found) && *found == s,
                None => r matches Err(e) && e@ == schema_missing(id@, database@, schema@),
            },
            None => r matches Err(e) && e@ == schema_missing(id@, database@, schema@),
        },
{
    if let Some(d) = find_database(databases, database) {
        if let Some(s) = find_schema(d.schemas.as_slice(), schema) {
            return Ok(s);
        }
    }
    let mut message = "schema ".to_owned();
    message.append(database);
    message.append(".");
    message.append(schema);
    message.append(" was not found on connection ");
    message.append(id);
    Err(CellarError::InvalidConfig(message))
}

pub open spec fn schema_missing(id: Seq<char>, database: Seq<char>, schema: Seq<char>) -> ErrorView {
    ErrorView::InvalidConfig(
        "schema "@ + database + "."@ + schema + " was not found on connection "@ + id,
    )
}

/// One database of a tree.
pub fn database_in<'a>(databases: &'a [Database], id: &str, database: &str) -> (r: Result<
    &'a Database,
    CellarError,
>)
    ensures
        match database_named(databases@, database@) {
            Some(d) => r matches Ok(found) && *found == d,
            None => r matches Err(e) && e@ == ErrorView::InvalidConfig(
                "database "@ + database@ + " was not found on connection "@ + id@,
            ),
        },
{
    if let Some(d) = find_database(databases, database) {
        return Ok(d);
    }
    let mut message = "database ".to_owned();
    message.append(database);
    message.append(" was not found on connection ");
    message.append(id);
    Err(CellarError::InvalidConfig(message))
}

// ---------------------------------------------------------------------
// Laws
// ---------------------------------------------------------------------
/// After a connection is closed nothing of it is open or cached, and nothing of
/// any other connection has changed.
pub proof fn law_closing_drops_every_cache<U>(v: RegistryView<U>, id: Seq<char>, other: Seq<char>)
    requires
        other != id,
    ensures
        !v.closed(id).open.contains_key(id),
        !v.closed(id).schemas.contains_key(id),
        !v.closed(id).usages.contains_key(id),
        v.closed(id).configs == v.configs,
        v.closed(id).open_of(other) == v.open_of(other),
        v.closed(id).schemas.contains_key(other) == v.schemas.contains_key(other),
        v.schemas.contains_key(other) ==> v.closed(id).schemas[other] == v.schemas[other],
        v.closed(id).usages.contains_key(other) == v.usages.contains_key(other),
        v.usages.contains_key(other) ==> v.closed(id).usages[other] == v.usages[other],
        v.closed(id).closed(id) == v.closed(id),
{
    assert(v.closed(id).closed(id) =~= v.closed(id));
}

/// The tree of a connection is read once: until it is refreshed or the
/// connection is closed, the tree that was found is the one that is used. A
/// refresh reads it anew and keeps nothing of what usages were searched in.
pub proof fn law_schemas_are_cached_until_refreshed<U>(
    v: RegistryView<U>,
    id: Seq<char>,
    databases: Vec<Database>,
)
    ensures
        v.introspected(id, databases).introspection(id, false) == Ok::<IntrospectStep, ErrorView>(
            IntrospectStep::Cached,
        ),
        v.introspected(id, databases).introspecting(id, false).schemas[id] == databases,
        v.introspection(id, true) != Ok::<IntrospectStep, ErrorView>(IntrospectStep::Cached),
        !v.introspecting(id, true).usages.contains_key(id),
        v.introspected(id, databases).closed(id).introspection(id, false) == Err::<
            IntrospectStep,
            ErrorView,
        >(not_open(id)),
{
}

/// What a run of a change has come to.
proof fn lemma_save_run(
    lists: SavedLists,
    changed: Map<Seq<char>, ConnectionConfig>,
    with_secret: bool,
    outcomes: Seq<(bool, Map<Seq<char>, ConnectionConfig>)>,
)
    ensures
        ({
            let n = outcomes.len();
            let (step, now) = save_run(lists, changed, with_secret, outcomes);
            &&& now.memory == lists.memory
            &&& match step {
                SaveStep::Write => n == 0 && now == lists,
                SaveStep::StoreSecret => n == 1 && with_secret && outcomes[0].0 && now.disk
                    == changed,
                SaveStep::RollBack => n == 2 && with_secret && outcomes[0].0 && !outcomes[1].0
                    && now.disk == changed,
                SaveStep::Commit => n >= 1 && outcomes[0].0 && (with_secret ==> n >= 2
                    && outcomes[1].0) && now.disk == changed,
                SaveStep::NotWritten => n >= 1 && !outcomes[0].0 && now.disk == outcomes[0].1,
                SaveStep::RolledBack => n >= 3 && with_secret && outcomes[0].0 && !outcomes[1].0
                    && outcomes[2].0 && now.disk == lists.memory,
                SaveStep::NotRolledBack => n >= 3 && with_secret && outcomes[0].0
                    && !outcomes[1].0 && !outcomes[2].0 && now.disk == outcomes[2].1,
            }
        }),
    decreases outcomes.len(),
{
    if outcomes.len() > 0 {
        lemma_save_run(lists, changed, with_secret, outcomes.drop_last());
    }
}

/// A change of the saved connections is made in memory only once it is made on
/// disk and the secret, where there is one, is stored. The secret is stored only
/// after the changed connections were written; where it cannot be stored, the
/// connections are written as they were. So a change that fails leaves the
/// connections in memory as they were, and those on disk too, unless a write
/// failed: on disk is then what that write left. Three steps settle it.
pub proof fn law_a_failed_save_changes_nothing(
    lists: SavedLists,
    changed: Map<Seq<char>, ConnectionConfig>,
    with_secret: bool,
    outcomes: Seq<(bool, Map<Seq<char>, ConnectionConfig>)>,
)
    requires
        lists.memory == lists.disk,
    ensures
        ({
            let n = outcomes.len();
            let (step, now) = save_run(lists, changed, with_secret, outcomes);
            let end = now.ended(step, changed);
            &&& step == SaveStep::StoreSecret ==> with_secret && outcomes[0].0 && now.disk
                == changed
            &&& step == SaveStep::RollBack ==> outcomes[0].0 && !outcomes[1].0 && now.tried(
                step,
                changed,
                true,
                now.disk,
            ) == lists
            &&& (step == SaveStep::Commit) == (n >= 1 && outcomes[0].0 && (with_secret ==> n >= 2
                && outcomes[1].0))
            &&& step == SaveStep::Commit ==> end == (SavedLists { memory: changed, disk: changed })
            &&& step != SaveStep::Commit ==> end.memory == lists.memory
            &&& step == SaveStep::RolledBack ==> end == lists
            &&& step == SaveStep::NotWritten ==> !outcomes[0].0 && end.disk == outcomes[0].1
            &&& step == SaveStep::NotRolledBack ==> !outcomes[2].0 && end.disk == outcomes[2].1
            &&& n >= 3 ==> step != SaveStep::Write && step != SaveStep::StoreSecret && step
                != SaveStep::RollBack
        }),
{
    lemma_save_run(lists, changed, with_secret, outcomes);
    let (step, now) = save_run(lists, changed, with_secret, outcomes);
    assert(now.tried(SaveStep::RollBack, changed, true, now.disk) =~= lists);
}

/// What is known of a connection does not depend on whether it is open, once it
/// is saved.
pub proof fn law_saved_connections_are_known<U>(v: RegistryView<U>, id: Seq<char>)
    requires
        v.configs.contains_key(id),
    ensures
        v.closed(id).known_config(id) == v.known_config(id),
        v.known_config(id) == Some(v.configs[id]),
{
}

/// An open connection is found under its id with its engine and its number, and
/// any other is told not to be open.
pub proof fn law_open_connections_are_found<U>(
    registry: &ConnectionRegistry<U>,
    id: &str,
    existing: Option<u64>,
    target: Result<(Engine, u64), CellarError>,
)
    requires
        registry.wf(),
        call_ensures(ConnectionRegistry::<U>::existing, (registry, id), existing),
        call_ensures(ConnectionRegistry::<U>::open_target, (registry, id), target),
    ensures
        existing is Some <==> registry@.open.contains_key(id@),
        registry@.open.contains_key(id@) ==> {
            &&& existing == Some(registry@.open[id@].connection)
            &&& target matches Ok((engine, connection))
            &&& engine == registry@.open[id@].config.engine
            &&& connection == registry@.open[id@].connection
        },
        !registry@.open.contains_key(id@) ==> (target matches Err(CellarError::NotConnected(text))
            && text@ == "no open connection for "@ + id@),
{
}

/// A query runs on the open connection. One that may only read runs on the engines
/// of Postgres and SQL Server alone.
pub proof fn law_reads_are_guarded<U>(
    registry: &ConnectionRegistry<U>,
    id: &str,
    read_only: bool,
    r: Result<(Engine, u64), CellarError>,
)
    requires
        registry.wf(),
        call_ensures(ConnectionRegistry::<U>::query_target, (registry, id, read_only), r),
        registry@.open.contains_key(id@),
    ensures
        ({
            let engine = registry@.open[id@].config.engine;
            let guarded = engine == Engine::Postgres || engine == Engine::Supabase || engine
                == Engine::Neon || engine == Engine::Mssql || engine == Engine::Azure;
            &&& r is Ok <==> !read_only || guarded
            &&& r matches Ok((on, connection)) ==> on == engine && connection
                == registry@.open[id@].connection
            &&& r matches Err(e) ==> (e matches CellarError::Query(text) && text@
                == "read-only AI query execution is not available for "@ + engine.name() + " yet"@)
        }),
{
}

/// Changes are committed on the engines of Postgres and SQL Server alone; plans,
/// migrations and usages are had from those of Postgres alone.
pub proof fn law_engines_do_what_they_can<U>(
    registry: &ConnectionRegistry<U>,
    id: &str,
    commit: Result<(Engine, u64), CellarError>,
    migration: Result<u64, CellarError>,
    plan: Result<(Engine, u64), CellarError>,
    database: Option<&str>,
    usages: Result<UsageStep, CellarError>,
)
    requires
        registry.wf(),
        call_ensures(ConnectionRegistry::<U>::commit_target, (registry, id), commit),
        call_ensures(ConnectionRegistry::<U>::migration_target, (registry, id), migration),
        call_ensures(ConnectionRegistry::<U>::explain_target, (registry, id), plan),
        call_ensures(ConnectionRegistry::<U>::begin_find_usages, (registry, id, database), usages),
    ensures
        !registry@.open.contains_key(id@) ==> commit is Err && migration is Err && plan is Err
            && usages is Err,
        registry@.open.contains_key(id@) ==> {
            let engine = registry@.open[id@].config.engine;
            let number = registry@.open[id@].connection;
            let postgres = engine == Engine::Postgres || engine == Engine::Supabase || engine
                == Engine::Neon;
            let server = engine == Engine::Mssql || engine == Engine::Azure;
            &&& commit is Ok <==> postgres || server
            &&& migration is Ok <==> postgres
            &&& plan is Ok <==> postgres
            &&& usages is Ok <==> postgres
            &&& commit matches Ok((on, connection)) ==> connection == number && (postgres ==> on
                == Engine::Postgres) && (server ==> on == Engine::Mssql)
            &&& migration matches Ok(connection) ==> connection == number
            &&& plan matches Ok((on, connection)) ==> on == engine && connection == number
            &&& usages matches Ok(step) ==> (step.fetch_from matches Some(connection) ==> connection
                == number)
        },
{
}

/// Usages are searched in the database that is named, or in that of the connection
/// where none is, and fetched exactly where they are not cached.
pub proof fn law_usages_are_fetched_once<U>(
    registry: &ConnectionRegistry<U>,
    id: &str,
    database: Option<&str>,
    step: UsageStep,
    name: &str,
    cached: Option<&Vec<U>>,
)
    requires
        registry.wf(),
        call_ensures(
            ConnectionRegistry::<U>::begin_find_usages,
            (registry, id, database),
            Ok(step),
        ),
        name@ == step.database@,
        call_ensures(ConnectionRegistry::<U>::cached_usages, (registry, id, name), cached),
    ensures
        step.fetch_from is Some <==> cached is None,
        database is None ==> step.database@ == registry@.open[id@].config.database@,
        database matches Some(given) ==> {
            &&& trim_of(given@).len() > 0 ==> step.database@ == given@
            &&& trim_of(given@).len() == 0 ==> step.database@ == registry@.open[id@].config.database@
        },
{
}

/// A table is browsed in the database that is named, or in that of the connection
/// where none is. A blank name is refused.
pub proof fn law_tables_are_browsed_where_asked<U>(
    registry: &ConnectionRegistry<U>,
    request: &TableBrowseRequest,
    r: Result<String, CellarError>,
)
    requires
        registry.wf(),
        call_ensures(ConnectionRegistry::<U>::target_database_for, (registry, request), r),
    ensures
        request.database matches Some(name) ==> {
            &&& trim_of(name@).len() > 0 ==> (r matches Ok(chosen) && chosen@ == name@)
            &&& trim_of(name@).len() == 0 ==> (r matches Err(CellarError::InvalidConfig(text))
                && text@ == "database name is empty"@)
        },
        request.database is None ==> {
            let id = request.connection_id@;
            &&& registry@.open.contains_key(id) ==> (r matches Ok(chosen) && chosen@
                == registry@.open[id].config.database@)
            &&& !registry@.open.contains_key(id) ==> (r matches Err(CellarError::NotConnected(text))
                && text@ == "no open connection for "@ + id)
        },
{
}

/// What is known of a connection is what is saved of it, or else what it was opened
/// with.
pub proof fn law_saved_settings_come_first<U>(
    registry: &ConnectionRegistry<U>,
    id: &str,
    config: Result<ConnectionConfig, CellarError>,
    engine: Option<Engine>,
    context: ConnectionHistoryContext,
)
    requires
        registry.wf(),
        call_ensures(ConnectionRegistry::<U>::config_for, (registry, id), config),
        call_ensures(ConnectionRegistry::<U>::engine_for, (registry, id), engine),
        call_ensures(ConnectionRegistry::<U>::history_context, (registry, id), context),
    ensures
        registry@.configs.contains_key(id@) ==> {
            let saved = registry@.configs[id@];
            &&& config == Ok::<ConnectionConfig, CellarError>(saved)
            &&& engine == Some(saved.engine)
            &&& context.name matches Some(name)
            &&& name@ == saved.name@
            &&& context.database matches Some(database)
            &&& database@ == saved.database@
        },
        !registry@.configs.contains_key(id@) ==> (config matches Err(CellarError::InvalidConfig(text))
            && text@ == "unknown connection "@ + id@),
        !registry@.configs.contains_key(id@) && registry@.open.contains_key(id@) ==> {
            let opened = registry@.open[id@].config;
            &&& engine == Some(opened.engine)
            &&& context.name matches Some(name)
            &&& name@ == opened.name@
            &&& context.database matches Some(database)
            &&& database@ == opened.database@
        },
        !registry@.configs.contains_key(id@) && !registry@.open.contains_key(id@) ==> engine is None
            && context.name is None && context.database is None,
{
}

proof fn lemma_by_id(list: Seq<ConnectionConfig>, k: int)
    requires
        0 <= k < list.len(),
        forall|j: int| k < j < list.len() ==> (#[trigger] list[j]).id@ != list[k].id@,
    ensures
        by_id(list).contains_key(list[k].id@),
        by_id(list)[list[k].id@] == list[k],
    decreases list.len(),
{
    if k < list.len() - 1 {
        let front = list.drop_last();
        assert forall|j: int| k < j < front.len() implies (#[trigger] front[j]).id@
            != front[k].id@ by {
            assert(front[j] == list[j]);
        }
        lemma_by_id(front, k);
        assert(list[list.len() - 1].id@ != list[k].id@);
    }
}

proof fn lemma_by_id_only(list: Seq<ConnectionConfig>, id: Seq<char>)
    requires
        forall|j: int| 0 <= j < list.len() ==> (#[trigger] list[j]).id@ != id,
    ensures
        !by_id(list).contains_key(id),
    decreases list.len(),
{
    if list.len() > 0 {
        let front = list.drop_last();
        assert forall|j: int| 0 <= j < front.len() implies (#[trigger] front[j]).id@ != id by {
            assert(front[j] == list[j]);
        }
        lemma_by_id_only(front, id);
        assert(list[list.len() - 1].id@ != id);
    }
}

/// A new registry knows each connection under its id, the last one where there are
/// several, and no other. Nothing is open.
pub proof fn law_registries_start_with_what_is_saved<U>(
    configs: Vec<ConnectionConfig>,
    registry: ConnectionRegistry<U>,
    k: int,
    id: Seq<char>,
)
    requires
        call_ensures(ConnectionRegistry::<U>::new, (configs,), registry),
        0 <= k < configs@.len(),
        forall|j: int| k < j < configs@.len() ==> (#[trigger] configs@[j]).id@ != configs@[k].id@,
        forall|j: int| 0 <= j < configs@.len() ==> (#[trigger] configs@[j]).id@ != id,
    ensures
        registry@.configs.contains_key(configs@[k].id@),
        registry@.configs[configs@[k].id@] == configs@[k],
        !registry@.configs.contains_key(id),
        !registry@.open.contains_key(id),
        !registry@.open.contains_key(configs@[k].id@),
        !registry@.schemas.contains_key(configs@[k].id@),
        !registry@.usages.contains_key(configs@[k].id@),
{
    lemma_by_id(configs@, k);
    lemma_by_id_only(configs@, id);
}

/// The list has the saved connections, by their names, and no others.
pub proof fn law_the_list_is_what_is_saved<U>(
    registry: &ConnectionRegistry<U>,
    list: Vec<ConnectionConfig>,
    c: ConnectionConfig,
)
    requires
        registry.wf(),
        call_ensures(ConnectionRegistry::<U>::list, (registry,), list),
    ensures
        list@.contains(c) <==> registry@.configs.contains_key(c.id@) && registry@.configs[c.id@] == c,
        forall|i: int, j: int|
            0 <= i < j < list@.len() ==> !crate::text::text_before(
                (#[trigger] list@[j]).name@,
                (#[trigger] list@[i]).name@,
            ) && list@[i].id@ != list@[j].id@,
{
}

/// Saving a connection writes it in place of the one with its id and keeps every
/// other; deleting one keeps every other. One without an id is not saved.
pub proof fn law_other_connections_are_written_as_they_are<U>(
    registry: &ConnectionRegistry<U>,
    config: &ConnectionConfig,
    saved: Result<Vec<ConnectionConfig>, CellarError>,
    id: &str,
    left: Vec<ConnectionConfig>,
    other: ConnectionConfig,
)
    requires
        registry.wf(),
        call_ensures(ConnectionRegistry::<U>::plan_save, (registry, config), saved),
        call_ensures(ConnectionRegistry::<U>::plan_delete, (registry, id), left),
        registry@.configs.contains_key(other.id@),
        registry@.configs[other.id@] == other,
    ensures
        config.id@.len() == 0 ==> (saved matches Err(CellarError::InvalidConfig(text)) && text@
            == "connection id is empty"@),
        config.id@.len() > 0 ==> {
            &&& saved matches Ok(list)
            &&& list@.contains(*config)
            &&& other.id@ != config.id@ ==> list@.contains(other)
            &&& other.id@ == config.id@ && other != *config ==> !list@.contains(other)
        },
        left@.contains(other) <==> other.id@ != id@,
        forall|c: ConnectionConfig| #[trigger]
            left@.contains(c) ==> registry@.configs.contains_key(c.id@) && registry@.configs[c.id@]
                == c,
{
}

/// The steps of a save: the connections are written, then the secret is stored
/// where there is one, and where that fails the connections are put back.
pub proof fn law_a_save_goes_step_by_step(
    step: SaveStep,
    with_secret: bool,
    done: bool,
    next: SaveStep,
)
    requires
        call_ensures(next_save_step, (step, with_secret, done), next),
    ensures
        step == SaveStep::Write && !done ==> next == SaveStep::NotWritten,
        step == SaveStep::Write && done && with_secret ==> next == SaveStep::StoreSecret,
        step == SaveStep::Write && done && !with_secret ==> next == SaveStep::Commit,
        step == SaveStep::StoreSecret && done ==> next == SaveStep::Commit,
        step == SaveStep::StoreSecret && !done ==> next == SaveStep::RollBack,
        step == SaveStep::RollBack && done ==> next == SaveStep::RolledBack,
        step == SaveStep::RollBack && !done ==> next == SaveStep::NotRolledBack,
        step != SaveStep::Write && step != SaveStep::StoreSecret && step != SaveStep::RollBack
            ==> next == step,
{
}

/// The changed connections are written first, and those before the change where it
/// is taken back. No other step writes.
pub proof fn law_what_is_written(
    step: SaveStep,
    changed: &[ConnectionConfig],
    before: &[ConnectionConfig],
    r: Option<&[ConnectionConfig]>,
)
    requires
        call_ensures(list_to_write, (step, changed, before), r),
    ensures
        r is Some <==> step == SaveStep::Write || step == SaveStep::RollBack,
        step == SaveStep::Write ==> r->0@ == changed@,
        step == SaveStep::RollBack ==> r->0@ == before@,
{
}

/// The error of the store is told, and that the connections could not be put back
/// where they could not.
pub proof fn law_secret_errors_tell_what_is_left(
    error: CellarError,
    error_text: &str,
    rollback: Result<(), String>,
    r: CellarError,
)
    requires
        call_ensures(secret_error, (error, error_text, rollback), r),
    ensures
        rollback is Ok ==> r == error,
        rollback matches Err(why) ==> (r matches CellarError::Internal(text) && text@
            == "keychain update failed and connection metadata rollback failed: "@ + error_text@
            + "; "@ + why@),
{
}

/// A failed browse can break the connection of any engine but the document stores.
pub proof fn law_document_stores_are_not_broken(engine: Engine, r: bool)
    requires
        call_ensures(browse_can_break, (engine,), r),
    ensures
        !r <==> engine == Engine::Firestore || engine == Engine::Convex || engine == Engine::Cosmos,
{
}

/// A database or a schema that is not in a tree is told by its names.
pub proof fn law_missing_schemas_are_named(
    databases: &[Database],
    id: &str,
    database: &str,
    schema: &str,
    found: Option<&Database>,
    part: Result<&Database, CellarError>,
    r: Result<&Schema, CellarError>,
)
    requires
        call_ensures(find_database, (databases, database), found),
        call_ensures(database_in, (databases, id, database), part),
        call_ensures(schema_in, (databases, id, database, schema), r),
    ensures
        found matches Some(d) ==> (part matches Ok(p) && *p == *d),
        found is None ==> (part matches Err(CellarError::InvalidConfig(text)) && text@ == "database "@
            + database@ + " was not found on connection "@ + id@),
        r matches Err(e) ==> (e matches CellarError::InvalidConfig(text) && text@ == "schema "@
            + database@ + "."@ + schema@ + " was not found on connection "@ + id@),
        found is None ==> r is Err,
        r matches Ok(s) ==> found is Some && schema_named(found->0.schemas@, schema@) == Some(*s),
        found matches Some(d) && schema_named(d.schemas@, schema@) is Some ==> r is Ok,
{
}

/// An introspection that is refreshed, or that finds nothing cached, runs on the
/// open connection.
pub proof fn law_introspections_run_on_the_open_connection<U>(
    v: RegistryView<U>,
    id: Seq<char>,
    refresh: bool,
)
    requires
        refresh || !v.schemas.contains_key(id),
    ensures
        v.open.contains_key(id) ==> v.introspection(id, refresh) == Ok::<IntrospectStep, ErrorView>(
            IntrospectStep::Run {
                engine: v.open[id].config.engine,
                connection: v.open[id].connection,
            },
        ),
        !v.open.contains_key(id) ==> v.introspection(id, refresh) == Err::<IntrospectStep, ErrorView>(
            ErrorView::NotConnected("no open connection for "@ + id),
        ),
        v.introspecting(id, false) == v,
        v.introspecting(id, true).schemas == v.schemas,
        v.introspecting(id, true).open == v.open,
        v.introspecting(id, true).configs == v.configs,
{
}

} // verus!
