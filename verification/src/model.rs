//! The state behind the window: connections and their schemas, the expanded
//! parts of the tree, the tabs, and the two panes that tabs are shown in.
use vstd::prelude::*;

use crate::connection::{
    find_connection, first_with_id, knows, sort_by_name, sorts, ConnectionConfig,
};
use crate::ordered_map::OrderedMap;
use crate::schema::{deref, find_table, table_at, Database, Table};
use crate::schema_node::{default_nodes, open_defaults, NodeSet, NodeView, SchemaNode};
use crate::text::{nat_text, push_u64, same_text};
use crate::workspace_model::{
    ErDiagramState, ErDiagramTarget, LookupView, QueryState, QueryTarget, SchemaCompareConfig,
    SchemaCompareState, TabKind, TableLoadState, TableLookupContext, TablePage, TableTarget,
    TableTargetView, WorkspaceTab,
};

verus! {

/// The state of a connection.
#[derive(PartialEq, Eq, Debug)]
pub enum ConnectionState {
    Disconnected,
    Connecting,
    Disconnecting,
    Connected,
    Error(String),
}

impl Clone for ConnectionState {
    fn clone(&self) -> (r: Self)
        ensures
            r == *self,
    {
        match self {
            ConnectionState::Disconnected => ConnectionState::Disconnected,
            ConnectionState::Connecting => ConnectionState::Connecting,
            ConnectionState::Disconnecting => ConnectionState::Disconnecting,
            ConnectionState::Connected => ConnectionState::Connected,
            ConnectionState::Error(e) => ConnectionState::Error(e.clone()),
        }
    }
}

impl ConnectionState {
    /// Whether schema metadata is available and table browses can start.
    pub fn is_ready(&self) -> (r: bool)
        ensures
            r == (*self is Connected),
    {
        match self {
            ConnectionState::Connected => true,
            _ => false,
        }
    }
}

/// The error of a table browse that starts before schema metadata exists. Tabs
/// in this state are retried once the connection is up; other errors stay.
pub const TABLE_METADATA_UNAVAILABLE: &'static str = "Table metadata is unavailable";

/// How the two panes are arranged.
#[derive(Clone, Copy, PartialEq, Eq, Structural, Debug)]
pub enum SplitOrientation {
    Horizontal,
    Vertical,
}

/// The state behind the window.
pub struct AppModel {
    connections: Vec<ConnectionConfig>,
    active_connection: Option<String>,
    states: OrderedMap<String, ConnectionState>,
    schemas: OrderedMap<String, Vec<Database>>,
    expanded_nodes: NodeSet,
    /// The folders under a table are open by default, so a click on a table
    /// reveals its columns. Only folders that were closed are held here.
    collapsed_folders: NodeSet,
    expanded_connections: OrderedMap<String, ()>,
    tabs: Vec<WorkspaceTab>,
    active_tab: Option<u64>,
    split: Option<SplitOrientation>,
    tab_panes: OrderedMap<u64, u8>,
    pane_active: Vec<Option<u64>>,
    focused_pane: u8,
    next_tab_id: u64,
    next_query_number: u64,
    table_load_generations: OrderedMap<u64, u64>,
    table_lookup_contexts: OrderedMap<u64, TableLookupContext>,
}

/// The model of [`AppModel`].
#[verifier::ext_equal]
pub struct ModelView {
    pub connections: Seq<ConnectionConfig>,
    pub active_connection: Option<Seq<char>>,
    pub states: Map<Seq<char>, ConnectionState>,
    pub schemas: Map<Seq<char>, Vec<Database>>,
    pub expanded_nodes: Set<NodeView>,
    pub collapsed_folders: Set<NodeView>,
    pub expanded_connections: Set<Seq<char>>,
    pub tabs: Seq<WorkspaceTab>,
    pub active_tab: Option<u64>,
    pub split: Option<SplitOrientation>,
    pub tab_panes: Map<u64, u8>,
    pub pane_active: Seq<Option<u64>>,
    pub focused_pane: u8,
    pub next_tab_id: u64,
    pub next_query_number: u64,
    pub generations: Map<u64, u64>,
    pub lookups: Map<u64, TableLookupContext>,
}

// ---------------------------------------------------------------------
// Tabs
// ---------------------------------------------------------------------
/// Whether a tab has this id.
pub open spec fn has_tab(tabs: Seq<WorkspaceTab>, id: u64) -> bool {
    exists|i: int| 0 <= i < tabs.len() && (#[trigger] tabs[i]).id == id
}

/// The ids of tabs.
pub open spec fn tab_ids(tabs: Seq<WorkspaceTab>) -> Set<u64> {
    Set::new(|id: u64| has_tab(tabs, id))
}

/// The position of the first tab with this id, from `from` on.
pub open spec fn tab_from(tabs: Seq<WorkspaceTab>, id: u64, from: int) -> Option<int>
    decreases tabs.len() - from,
{
    if from < 0 || from >= tabs.len() {
        None
    } else if tabs[from].id == id {
        Some(from)
    } else {
        tab_from(tabs, id, from + 1)
    }
}

/// The position of the first tab with this id.
pub open spec fn tab_at(tabs: Seq<WorkspaceTab>, id: u64) -> Option<int> {
    tab_from(tabs, id, 0)
}

/// The tabs that show nothing of this connection.
pub open spec fn tabs_without(tabs: Seq<WorkspaceTab>, id: Seq<char>) -> Seq<WorkspaceTab>
    decreases tabs.len(),
{
    if tabs.len() == 0 {
        Seq::empty()
    } else if tabs.last().kind.references(id) {
        tabs_without(tabs.drop_last(), id)
    } else {
        tabs_without(tabs.drop_last(), id).push(tabs.last())
    }
}

/// The connections other than those with this id.
pub open spec fn connections_without(
    list: Seq<ConnectionConfig>,
    id: Seq<char>,
) -> Seq<ConnectionConfig>
    decreases list.len(),
{
    if list.len() == 0 {
        Seq::empty()
    } else if list.last().id@ == id {
        connections_without(list.drop_last(), id)
    } else {
        connections_without(list.drop_last(), id).push(list.last())
    }
}

/// A tab with another kind.
pub open spec fn with_kind(tab: WorkspaceTab, kind: TabKind) -> WorkspaceTab {
    WorkspaceTab { kind, ..tab }
}

impl ModelView {
    // -----------------------------------------------------------------
    // Reading
    // -----------------------------------------------------------------
    /// The state of a connection; disconnected where nothing is known of it.
    pub open spec fn state_of(self, id: Seq<char>) -> ConnectionState {
        if self.states.contains_key(id) {
            self.states[id]
        } else {
            ConnectionState::Disconnected
        }
    }

    /// The databases of a connection; none where they are not known.
    pub open spec fn databases_of(self, id: Seq<char>) -> Seq<Database> {
        if self.schemas.contains_key(id) {
            self.schemas[id]@
        } else {
            Seq::empty()
        }
    }

    /// The table that a target names.
    pub open spec fn table_of(self, target: TableTargetView) -> Option<Table> {
        table_at(
            self.databases_of(target.connection_id),
            target.database,
            target.schema,
            target.table,
        )
    }

    /// Whether a table browse can start.
    pub open spec fn browse_ready(self, target: TableTargetView) -> bool {
        self.state_of(target.connection_id) is Connected && self.table_of(target) is Some
    }

    pub open spec fn lookup_of(self, id: u64) -> Option<LookupView> {
        if self.lookups.contains_key(id) {
            Some(self.lookups[id]@)
        } else {
            None
        }
    }

    pub open spec fn pane_of(self, id: u64) -> u8 {
        if self.tab_panes.contains_key(id) {
            self.tab_panes[id]
        } else {
            0
        }
    }

    /// Whether a node is shown expanded: a structure folder unless it was
    /// closed, any other node once it was opened.
    pub open spec fn shows_expanded(self, node: NodeView) -> bool {
        match node {
            NodeView::RelationGroup { .. } => !self.collapsed_folders.contains(node),
            _ => self.expanded_nodes.contains(node),
        }
    }

    // -----------------------------------------------------------------
    // What holds of every model
    // -----------------------------------------------------------------
    /// Tabs have distinct ids below the next one. A tab is active whenever there
    /// are tabs, and a connection whenever there are connections. Lookup
    /// contexts, panes and the active tabs of panes belong to open tabs.
    pub open spec fn coherent(self) -> bool {
        &&& forall|i: int, j: int|
            0 <= i < j < self.tabs.len() ==> (#[trigger] self.tabs[i]).id != (
            #[trigger] self.tabs[j]).id
        &&& forall|i: int| 0 <= i < self.tabs.len() ==> (#[trigger] self.tabs[i]).id < self.next_tab_id
        &&& match self.active_tab {
            Some(id) => has_tab(self.tabs, id),
            None => self.tabs.len() == 0,
        }
        &&& match self.active_connection {
            Some(id) => knows(self.connections, id),
            None => self.connections.len() == 0,
        }
        &&& self.focused_pane <= 1
        &&& self.pane_active.len() == 2
        &&& forall|p: int|
            0 <= p < 2 ==> match #[trigger] self.pane_active[p] {
                Some(id) => has_tab(self.tabs, id),
                None => true,
            }
        &&& forall|id: u64| #[trigger]
            self.tab_panes.contains_key(id) ==> has_tab(self.tabs, id) && self.tab_panes[id] <= 1
        &&& forall|id: u64| #[trigger] self.lookups.contains_key(id) ==> has_tab(self.tabs, id)
    }

    // -----------------------------------------------------------------
    // Steps
    // -----------------------------------------------------------------
    /// The pane that a tab is activated in. Without a split there is only the
    /// first; in a split a new tab goes to the focused pane.
    pub open spec fn pane_for(self, id: u64, new: bool) -> u8 {
        if self.split is Some {
            if new {
                if self.focused_pane <= 1 {
                    self.focused_pane
                } else {
                    1
                }
            } else {
                self.pane_of(id)
            }
        } else {
            0
        }
    }

    /// The model with this tab active.
    pub open spec fn activated(self, id: u64, new: bool) -> ModelView {
        let pane = self.pane_for(id, new);
        ModelView {
            tab_panes: if self.split is Some && new {
                self.tab_panes.insert(id, pane)
            } else {
                self.tab_panes
            },
            focused_pane: pane,
            pane_active: self.pane_active.update(pane as int, Some(id)),
            active_tab: Some(id),
            ..self
        }
    }

    /// The model with a new tab, active.
    pub open spec fn with_new_tab(self, tab: WorkspaceTab) -> ModelView {
        ModelView {
            tabs: self.tabs.push(tab),
            next_tab_id: (self.next_tab_id + 1) as u64,
            ..self
        }.activated(tab.id, true)
    }

    /// The panes without the tabs that are no longer open.
    pub open spec fn reconciled(self) -> ModelView {
        let tabs = self.tabs;
        ModelView {
            tab_panes: self.tab_panes.restrict(tab_ids(tabs)),
            pane_active: self.pane_active.map_values(
                |p: Option<u64>|
                    match p {
                        Some(id) => if has_tab(tabs, id) {
                            p
                        } else {
                            None
                        },
                        None => None,
                    },
            ),
            ..self
        }
    }

    /// The model with another kind of the tab at `at`.
    pub open spec fn with_tab_kind(self, at: int, kind: TabKind) -> ModelView {
        ModelView { tabs: self.tabs.update(at, with_kind(self.tabs[at], kind)), ..self }
    }

    pub open spec fn with_connection_state(self, id: Seq<char>, state: ConnectionState) -> ModelView {
        ModelView { states: self.states.insert(id, state), ..self }
    }
}

impl View for AppModel {
    type V = ModelView;

    closed spec fn view(&self) -> ModelView {
        ModelView {
            connections: self.connections@,
            active_connection: crate::value::opt_text(self.active_connection),
            states: self.states.map(),
            schemas: self.schemas.map(),
            expanded_nodes: self.expanded_nodes@,
            collapsed_folders: self.collapsed_folders@,
            expanded_connections: self.expanded_connections.map().dom(),
            tabs: self.tabs@,
            active_tab: self.active_tab,
            split: self.split,
            tab_panes: self.tab_panes.map(),
            pane_active: self.pane_active@,
            focused_pane: self.focused_pane,
            next_tab_id: self.next_tab_id,
            next_query_number: self.next_query_number,
            generations: self.table_load_generations.map(),
            lookups: self.table_lookup_contexts.map(),
        }
    }
}

pub proof fn lemma_tab_from(tabs: Seq<WorkspaceTab>, id: u64, from: int)
    requires
        0 <= from,
    ensures
        match tab_from(tabs, id, from) {
            Some(at) => from <= at < tabs.len() && tabs[at].id == id && forall|i: int|
                from <= i < at ==> (#[trigger] tabs[i]).id != id,
            None => forall|i: int| from <= i < tabs.len() ==> (#[trigger] tabs[i]).id != id,
        },
    decreases tabs.len() - from,
{
    if from < tabs.len() && tabs[from].id != id {
        lemma_tab_from(tabs, id, from + 1);
    }
}

/// The position of the tab with this id.
pub fn find_tab(tabs: &[WorkspaceTab], id: u64) -> (r: Option<usize>)
    ensures
        r is Some == has_tab(tabs@, id),
        r is Some == tab_at(tabs@, id) is Some,
        r matches Some(at) ==> tab_at(tabs@, id) == Some(at as int) && at < tabs@.len()
            && tabs@[at as int].id == id,
{
    let mut i: usize = 0;
    while i < tabs.len()
        invariant
            i <= tabs@.len(),
            tab_from(tabs@, id, i as int) == tab_from(tabs@, id, 0),
            forall|j: int| 0 <= j < i ==> (#[trigger] tabs@[j]).id != id,
        decreases tabs@.len() - i,
    {
        if tabs[i].id == id {
            return Some(i);
        }
        i += 1;
    }
    None
}

/// Drops the entries of tabs that are no longer open.
fn keep_open<V>(map: &mut OrderedMap<u64, V>, tabs: &[WorkspaceTab])
    requires
        old(map).wf(),
    ensures
        final(map).wf(),
        final(map).map() == old(map).map().restrict(tab_ids(tabs@)),
{
    let ghost was = map.map();
    let mut stale: Vec<u64> = Vec::new();
    let mut i: usize = 0;
    while i < map.len()
        invariant
            i <= map.entries().len(),
            map.wf(),
            map.map() == was,
            forall|k: int| 0 <= k < stale@.len() ==> !has_tab(tabs@, #[trigger] stale@[k]),
            forall|k: int|
                0 <= k < i && !has_tab(tabs@, (#[trigger] map.entries()[k]).0) ==> stale@.contains(
                    map.entries()[k].0,
                ),
        decreases map.entries().len() - i,
    {
        let key: u64 = *map.key(i);
        let ghost before = stale@;
        if find_tab(tabs, key).is_none() {
            stale.push(key);
        }
        proof {
            assert forall|k: int|
                0 <= k < i + 1 && !has_tab(tabs@, (#[trigger] map.entries()[k]).0) implies
                stale@.contains(map.entries()[k].0) by {
                if k < i {
                    let j = choose|j: int|
                        0 <= j < before.len() && before[j] == map.entries()[k].0;
                    assert(stale@[j] == map.entries()[k].0);
                } else {
                    assert(stale@[stale@.len() - 1] == key);
                }
            }
        }
        i += 1;
    }
    proof {
        assert forall|k: u64| was.contains_key(k) && !has_tab(tabs@, k) implies stale@.contains(
            k,
        ) by {
            assert(map.has(k));
            let at = choose|at: int| #[trigger] map.key_at(k, at);
            assert(map.entries()[at].0 == k);
        }
    }
    let mut j: usize = 0;
    while j < stale.len()
        invariant
            j <= stale@.len(),
            map.wf(),
            forall|k: u64| #[trigger]
                map.map().contains_key(k) == (was.contains_key(k) && !stale@.take(j as int).contains(
                    k,
                )),
            forall|k: u64| #[trigger] map.map().contains_key(k) ==> map.map()[k] == was[k],
        decreases stale@.len() - j,
    {
        let ghost before = map.map();
        map.remove(&stale[j]);
        proof {
            assert forall|k: u64| #[trigger]
                map.map().contains_key(k) == (was.contains_key(k) && !stale@.take(
                    j + 1,
                ).contains(k)) by {
                assert(before.contains_key(k) == (was.contains_key(k) && !stale@.take(
                    j as int,
                ).contains(k)));
                let done = stale@.take(j as int);
                let next = stale@.take(j + 1);
                if next.contains(k) {
                    let x = choose|x: int| 0 <= x < next.len() && next[x] == k;
                    if x < j {
                        assert(done[x] == k);
                    }
                }
                if done.contains(k) {
                    let x = choose|x: int| 0 <= x < done.len() && done[x] == k;
                    assert(next[x] == k);
                }
                assert(next[j as int] == stale@[j as int]);
            }
        }
        j += 1;
    }
    proof {
        assert(stale@.take(stale@.len() as int) =~= stale@);
        assert forall|k: u64| #[trigger]
            map.map().contains_key(k) == was.restrict(tab_ids(tabs@)).contains_key(k) by {
            if stale@.contains(k) {
                let x = choose|x: int| 0 <= x < stale@.len() && stale@[x] == k;
                assert(!has_tab(tabs@, stale@[x]));
            }
        }
        assert(map.map() =~= was.restrict(tab_ids(tabs@)));
    }
}

impl AppModel {
    pub closed spec fn wf(self) -> bool {
        &&& self.states.wf()
        &&& self.schemas.wf()
        &&& self.expanded_nodes.wf()
        &&& self.collapsed_folders.wf()
        &&& self.expanded_connections.wf()
        &&& self.tab_panes.wf()
        &&& self.table_load_generations.wf()
        &&& self.table_lookup_contexts.wf()
        &&& self@.coherent()
    }

    /// Every model is coherent.
    pub proof fn lemma_coherent(self)
        requires
            self.wf(),
        ensures
            self@.coherent(),
    {
    }

    // -----------------------------------------------------------------
    // Connections
    // -----------------------------------------------------------------
    pub fn new(connections: Vec<ConnectionConfig>) -> (r: Self)
        ensures
            r.wf(),
            r@.connections == connections@,
            r@.active_connection == (if connections@.len() > 0 {
                Some(connections@[0].id@)
            } else {
                None
            }),
            forall|id: Seq<char>| #[trigger]
                r@.states.contains_key(id) == knows(connections@, id),
            forall|id: Seq<char>| #[trigger]
                r@.states.contains_key(id) ==> r@.states[id] is Disconnected,
            r@.schemas == Map::<Seq<char>, Vec<Database>>::empty(),
            r@.expanded_nodes == Set::<NodeView>::empty(),
            r@.collapsed_folders == Set::<NodeView>::empty(),
            r@.expanded_connections == Set::<Seq<char>>::empty(),
            r@.tabs.len() == 0,
            r@.active_tab is None,
            r@.split is None,
            r@.tab_panes == Map::<u64, u8>::empty(),
            r@.pane_active == seq![None::<u64>, None::<u64>],
            r@.focused_pane == 0,
            r@.next_tab_id == 1,
            r@.next_query_number == 1,
            r@.generations == Map::<u64, u64>::empty(),
            r@.lookups == Map::<u64, TableLookupContext>::empty(),
    {
        let mut states: OrderedMap<String, ConnectionState> = OrderedMap::new();
        let mut i: usize = 0;
        while i < connections.len()
            invariant
                i <= connections@.len(),
                states.wf(),
                forall|id: Seq<char>| #[trigger]
                    states.map().contains_key(id) == knows(connections@.take(i as int), id),
                forall|id: Seq<char>| #[trigger]
                    states.map().contains_key(id) ==> states.map()[id] is Disconnected,
            decreases connections@.len() - i,
        {
            let ghost before = states.map();
            states.insert(connections[i].id.clone(), ConnectionState::Disconnected);
            proof {
                let next = connections@.take(i + 1);
                let done = connections@.take(i as int);
                assert forall|id: Seq<char>| #[trigger]
                    states.map().contains_key(id) == knows(next, id) by {
                    assert(before.contains_key(id) == knows(done, id));
                    if knows(next, id) {
                        let k = choose|k: int| 0 <= k < next.len() && (#[trigger] next[k]).id@
                            == id;
                        if k < i {
                            assert(done[k].id@ == id);
                        }
                    }
                    if knows(done, id) {
                        let k = choose|k: int| 0 <= k < done.len() && (#[trigger] done[k]).id@
                            == id;
                        assert(next[k].id@ == id);
                    }
                    assert(next[i as int] == connections@[i as int]);
                }
            }
            i += 1;
        }
        assert(connections@.take(connections@.len() as int) =~= connections@);
        let active_connection = if connections.len() > 0 {
            Some(connections[0].id.clone())
        } else {
            None
        };
        let mut pane_active: Vec<Option<u64>> = Vec::new();
        pane_active.push(None);
        pane_active.push(None);
        let r = AppModel {
            connections,
            active_connection,
            states,
            schemas: OrderedMap::new(),
            expanded_nodes: NodeSet::new(),
            collapsed_folders: NodeSet::new(),
            expanded_connections: OrderedMap::new(),
            tabs: Vec::new(),
            active_tab: None,
            split: None,
            tab_panes: OrderedMap::new(),
            pane_active,
            focused_pane: 0,
            next_tab_id: 1,
            next_query_number: 1,
            table_load_generations: OrderedMap::new(),
            table_lookup_contexts: OrderedMap::new(),
        };
        proof {
            assert(r@.expanded_connections =~= Set::<Seq<char>>::empty());
            assert(r@.pane_active =~= seq![None::<u64>, None::<u64>]);
            if r@.connections.len() > 0 {
                assert(r@.connections[0].id@ == r@.active_connection->0);
            }
        }
        r
    }

    pub fn connections(&self) -> (r: &[ConnectionConfig])
        ensures
            r@ == self@.connections,
    {
        self.connections.as_slice()
    }

    /// Adds a connection, or replaces the one with its id. It becomes the active
    /// one, disconnected, and the list stays sorted by name.
    pub fn upsert_connection(&mut self, config: ConnectionConfig)
        requires
            old(self).wf(),
        ensures
            final(self).wf(),
            ({
                let was = old(self)@;
                &&& sorts(upserted(was.connections, config), final(self)@.connections)
                &&& final(self)@ == (ModelView {
                    connections: final(self)@.connections,
                    states: was.states.insert(config.id@, ConnectionState::Disconnected),
                    active_connection: Some(config.id@),
                    ..was
                })
            }),
    {
        let ghost was = self@;
        let id = config.id.clone();
        let ghost saved = config;
        let mut list: Vec<ConnectionConfig> = Vec::new();
        std::mem::swap(&mut list, &mut self.connections);
        match find_connection(list.as_slice(), config.id.as_str()) {
            Some(at) => {
                list.set(at, config);
                proof {
                    assert(first_with_id(was.connections, saved.id@, at as int));
                    lemma_upserted(was.connections, saved, at as int);
                }
            },
            None => {
                list.push(config);
            },
        }
        assert(list@ == upserted(was.connections, saved));
        let ghost together = list@;
        self.connections = sort_by_name(list);
        self.states.insert(id.clone(), ConnectionState::Disconnected);
        self.active_connection = Some(id);
        proof {
            lemma_upserted_knows(was.connections, saved);
            crate::connection::law_sorting_keeps_the_connections(together, self.connections@);
            let k = choose|k: int|
                0 <= k < together.len() && (#[trigger] together[k]).id@ == saved.id@;
            assert(together.contains(together[k]));
            assert(self.connections@.contains(together[k]));
            let n = choose|n: int|
                0 <= n < self.connections@.len() && self.connections@[n] == together[k];
            assert(self.connections@[n].id@ == saved.id@);
            assert(self@ =~= (ModelView {
                connections: self.connections@,
                states: was.states.insert(saved.id@, ConnectionState::Disconnected),
                active_connection: Some(saved.id@),
                ..was
            }));
        }
    }
}

/// The list with `config` in place of the first connection with its id, or
/// behind the others where there is none.
pub open spec fn upserted(list: Seq<ConnectionConfig>, config: ConnectionConfig) -> Seq<
    ConnectionConfig,
> {
    if knows(list, config.id@) {
        list.update(
            choose|at: int| #[trigger] first_with_id(list, config.id@, at),
            config,
        )
    } else {
        list.push(config)
    }
}

proof fn lemma_upserted(list: Seq<ConnectionConfig>, config: ConnectionConfig, at: int)
    requires
        first_with_id(list, config.id@, at),
    ensures
        upserted(list, config) == list.update(at, config),
{
    assert(knows(list, config.id@)) by {
        assert(list[at].id@ == config.id@);
    }
    let other = choose|k: int| #[trigger] first_with_id(list, config.id@, k);
    if other < at {
        assert(list[other].id@ != config.id@);
    }
    if at < other {
        assert(list[at].id@ != config.id@);
    }
}

proof fn lemma_first_exists(list: Seq<ConnectionConfig>, id: Seq<char>, n: int)
    requires
        0 <= n < list.len(),
        list[n].id@ == id,
    ensures
        exists|at: int| #[trigger] first_with_id(list, id, at),
    decreases n,
{
    if exists|k: int| 0 <= k < n && (#[trigger] list[k]).id@ == id {
        let k = choose|k: int| 0 <= k < n && (#[trigger] list[k]).id@ == id;
        lemma_first_exists(list, id, k);
    } else {
        assert(first_with_id(list, id, n));
    }
}

proof fn lemma_upserted_knows(list: Seq<ConnectionConfig>, config: ConnectionConfig)
    ensures
        knows(upserted(list, config), config.id@),
{
    if knows(list, config.id@) {
        let n = choose|n: int| 0 <= n < list.len() && (#[trigger] list[n]).id@ == config.id@;
        lemma_first_exists(list, config.id@, n);
        let at = choose|at: int| #[trigger] first_with_id(list, config.id@, at);
        assert(upserted(list, config)[at].id@ == config.id@);
    } else {
        assert(upserted(list, config)[list.len() as int].id@ == config.id@);
    }
}

// ---------------------------------------------------------------------
// Removing
// ---------------------------------------------------------------------
proof fn lemma_tabs_without(tabs: Seq<WorkspaceTab>, id: Seq<char>)
    ensures
        forall|k: int|
            0 <= k < tabs_without(tabs, id).len() ==> {
                &&& tabs.contains(#[trigger] tabs_without(tabs, id)[k])
                &&& !tabs_without(tabs, id)[k].kind.references(id)
            },
        forall|k: int|
            0 <= k < tabs.len() && !(#[trigger] tabs[k]).kind.references(id) ==> tabs_without(
                tabs,
                id,
            ).contains(tabs[k]),
        (forall|i: int, j: int|
            0 <= i < j < tabs.len() ==> (#[trigger] tabs[i]).id != (#[trigger] tabs[j]).id) ==> (
        forall|i: int, j: int|
            0 <= i < j < tabs_without(tabs, id).len() ==> (#[trigger] tabs_without(
                tabs,
                id,
            )[i]).id != (#[trigger] tabs_without(tabs, id)[j]).id),
    decreases tabs.len(),
{
    if tabs.len() > 0 {
        let front = tabs.drop_last();
        let before = tabs_without(front, id);
        let now = tabs_without(tabs, id);
        lemma_tabs_without(front, id);
        assert forall|k: int| 0 <= k < now.len() implies tabs.contains(#[trigger] now[k])
            && !now[k].kind.references(id) by {
            if k < before.len() {
                assert(front.contains(before[k]));
                let j = choose|j: int| 0 <= j < front.len() && front[j] == before[k];
                assert(tabs[j] == now[k]);
            } else {
                assert(tabs[tabs.len() - 1] == now[k]);
            }
        }
        assert forall|k: int| 0 <= k < tabs.len() && !(#[trigger] tabs[k]).kind.references(
            id,
        ) implies now.contains(tabs[k]) by {
            if k < front.len() {
                assert(front[k] == tabs[k]);
                let j = choose|j: int| 0 <= j < before.len() && before[j] == tabs[k];
                assert(now[j] == tabs[k]);
            } else {
                assert(now[now.len() - 1] == tabs[k]);
            }
        }
        if forall|i: int, j: int|
            0 <= i < j < tabs.len() ==> (#[trigger] tabs[i]).id != (#[trigger] tabs[j]).id {
            assert forall|i: int, j: int| 0 <= i < j < front.len() implies (
            #[trigger] front[i]).id != (#[trigger] front[j]).id by {
                assert(front[i] == tabs[i] && front[j] == tabs[j]);
            }
            assert forall|i: int, j: int| 0 <= i < j < now.len() implies (#[trigger] now[i]).id
                != (#[trigger] now[j]).id by {
                if j < before.len() {
                    assert(now[i] == before[i] && now[j] == before[j]);
                } else {
                    assert(front.contains(before[i]));
                    let k = choose|k: int| 0 <= k < front.len() && front[k] == before[i];
                    assert(tabs[k] == now[i] && tabs[tabs.len() - 1] == now[j]);
                }
            }
        }
    }
}

fn take_tab(tabs: &mut Vec<WorkspaceTab>) -> (r: WorkspaceTab)
    requires
        old(tabs)@.len() > 0,
    ensures
        r == old(tabs)@[0],
        final(tabs)@ == old(tabs)@.skip(1),
{
    let r = tabs.remove(0);
    assert(tabs@ =~= old(tabs)@.skip(1));
    r
}

fn remove_tabs_of(tabs: Vec<WorkspaceTab>, id: &str) -> (r: Vec<WorkspaceTab>)
    ensures
        r@ == tabs_without(tabs@, id@),
{
    let ghost all = tabs@;
    let ghost mut done: int = 0;
    let mut rest = tabs;
    let mut out: Vec<WorkspaceTab> = Vec::new();
    assert(all.skip(0) =~= all);
    assert(tabs_without(all.take(0), id@) =~= out@);
    while rest.len() > 0
        invariant
            0 <= done <= all.len(),
            rest@ == all.skip(done),
            out@ == tabs_without(all.take(done), id@),
        decreases rest@.len(),
    {
        let tab = take_tab(&mut rest);
        proof {
            assert(all.take(done + 1).drop_last() =~= all.take(done));
            assert(all.take(done + 1).last() == tab);
            assert(all.skip(done).skip(1) =~= all.skip(done + 1));
        }
        if !tab.kind.references_connection(id) {
            out.push(tab);
        }
        proof {
            done = done + 1;
        }
    }
    assert(all.take(done) =~= all);
    out
}

fn remove_connections(list: &[ConnectionConfig], id: &str) -> (r: Vec<ConnectionConfig>)
    ensures
        r@ == connections_without(list@, id@),
{
    let mut out: Vec<ConnectionConfig> = Vec::new();
    let mut i: usize = 0;
    assert(connections_without(list@.take(0), id@) =~= out@);
    while i < list.len()
        invariant
            i <= list@.len(),
            out@ == connections_without(list@.take(i as int), id@),
        decreases list@.len() - i,
    {
        assert(list@.take(i + 1).drop_last() =~= list@.take(i as int));
        if !same_text(list[i].id.as_str(), id) {
            out.push(list[i].clone());
        }
        i += 1;
    }
    assert(list@.take(list@.len() as int) =~= list@);
    out
}

proof fn lemma_connections_without(list: Seq<ConnectionConfig>, id: Seq<char>)
    ensures
        forall|other: Seq<char>| #[trigger]
            knows(connections_without(list, id), other) == (other != id && knows(list, other)),
    decreases list.len(),
{
    if list.len() > 0 {
        let front = list.drop_last();
        let before = connections_without(front, id);
        let now = connections_without(list, id);
        lemma_connections_without(front, id);
        assert forall|other: Seq<char>| #[trigger] knows(now, other) == (other != id && knows(
            list,
            other,
        )) by {
            assert(knows(before, other) == (other != id && knows(front, other)));
            if knows(now, other) {
                let k = choose|k: int| 0 <= k < now.len() && (#[trigger] now[k]).id@ == other;
                if k < before.len() {
                    assert(before[k].id@ == other);
                    let j = choose|j: int|
                        0 <= j < front.len() && (#[trigger] front[j]).id@ == other;
                    assert(list[j].id@ == other);
                } else {
                    assert(list[list.len() - 1].id@ == other);
                }
            }
            if other != id && knows(list, other) {
                let k = choose|k: int| 0 <= k < list.len() && (#[trigger] list[k]).id@ == other;
                if k < front.len() {
                    assert(front[k].id@ == other);
                    let j = choose|j: int|
                        0 <= j < before.len() && (#[trigger] before[j]).id@ == other;
                    assert(now[j].id@ == other);
                } else {
                    assert(now[now.len() - 1].id@ == other);
                }
            }
        }
    }
}

/// The first tab, where there is one.
pub open spec fn first_tab(tabs: Seq<WorkspaceTab>) -> Option<u64> {
    if tabs.len() > 0 {
        Some(tabs[0].id)
    } else {
        None
    }
}

impl ModelView {
    /// The model without a connection: without its state, its schemas and the
    /// tabs that show something of it. Where the active connection or tab is
    /// gone, the first one takes its place.
    pub open spec fn without_connection(self, id: Seq<char>) -> ModelView {
        let connections = connections_without(self.connections, id);
        let tabs = tabs_without(self.tabs, id);
        ModelView {
            connections,
            states: self.states.remove(id),
            schemas: self.schemas.remove(id),
            expanded_connections: self.expanded_connections.remove(id),
            tabs,
            generations: self.generations.restrict(tab_ids(tabs)),
            lookups: self.lookups.restrict(tab_ids(tabs)),
            active_connection: if self.active_connection == Some(id) {
                if connections.len() > 0 {
                    Some(connections[0].id@)
                } else {
                    None
                }
            } else {
                self.active_connection
            },
            active_tab: match self.active_tab {
                Some(active) => if has_tab(tabs, active) {
                    Some(active)
                } else {
                    first_tab(tabs)
                },
                None => None,
            },
            ..self
        }.reconciled()
    }

    /// The model without the tab at `at`. Where it was active, the tab that
    /// moves up to its place takes over, or else the last one.
    pub open spec fn without_tab(self, at: int) -> ModelView {
        let id = self.tabs[at].id;
        let tabs = self.tabs.remove(at);
        ModelView {
            tabs,
            tab_panes: self.tab_panes.remove(id),
            active_tab: if self.active_tab == Some(id) {
                if tabs.len() == 0 {
                    None
                } else if at < tabs.len() {
                    Some(tabs[at].id)
                } else {
                    Some(tabs[tabs.len() - 1].id)
                }
            } else {
                self.active_tab
            },
            generations: self.generations.remove(id),
            lookups: self.lookups.remove(id),
            ..self
        }.reconciled()
    }
}

impl AppModel {
    /// Drops from the panes the tabs that are no longer open.
    fn reconcile_split(&mut self)
        requires
            old(self).tab_panes.wf(),
            old(self)@.pane_active.len() == 2,
        ensures
            final(self)@ == old(self)@.reconciled(),
            final(self).tab_panes.wf(),
            final(self).states == old(self).states,
            final(self).schemas == old(self).schemas,
            final(self).expanded_nodes == old(self).expanded_nodes,
            final(self).collapsed_folders == old(self).collapsed_folders,
            final(self).expanded_connections == old(self).expanded_connections,
            final(self).table_load_generations == old(self).table_load_generations,
            final(self).table_lookup_contexts == old(self).table_lookup_contexts,
    {
        keep_open(&mut self.tab_panes, self.tabs.as_slice());
        let mut pane: usize = 0;
        let ghost was = self.pane_active@;
        let ghost base = *self;
        while pane < 2
            invariant
                pane <= 2,
                was.len() == 2,
                self.pane_active@.len() == 2,
                base.pane_active@ == was,
                *self == (AppModel { pane_active: self.pane_active, ..base }),
                forall|p: int| pane <= p < 2 ==> self.pane_active@[p] == was[p],
                forall|p: int|
                    0 <= p < pane ==> #[trigger] self.pane_active@[p] == match was[p] {
                        Some(id) => if has_tab(self.tabs@, id) {
                            was[p]
                        } else {
                            None
                        },
                        None => None,
                    },
            decreases 2 - pane,
        {
            if let Some(id) = self.pane_active[pane] {
                if find_tab(self.tabs.as_slice(), id).is_none() {
                    self.pane_active.set(pane, None);
                }
            }
            pane += 1;
        }
        assert(self@ =~= old(self)@.reconciled());
    }

    /// Removes a connection with all that belongs to it.
    pub fn remove_connection(&mut self, id: &str)
        requires
            old(self).wf(),
        ensures
            final(self).wf(),
            final(self)@ == old(self)@.without_connection(id@),
    {
        let ghost was = self@;
        self.connections = remove_connections(self.connections.as_slice(), id);
        let key = id.to_owned();
        self.states.remove(&key);
        self.schemas.remove(&key);
        self.expanded_connections.remove(&key);
        let mut tabs: Vec<WorkspaceTab> = Vec::new();
        std::mem::swap(&mut tabs, &mut self.tabs);
        self.tabs = remove_tabs_of(tabs, id);
        keep_open(&mut self.table_load_generations, self.tabs.as_slice());
        keep_open(&mut self.table_lookup_contexts, self.tabs.as_slice());
        let selected = match &self.active_connection {
            Some(active) => same_text(active.as_str(), id),
            None => false,
        };
        if selected {
            self.active_connection = if self.connections.len() > 0 {
                Some(self.connections[0].id.clone())
            } else {
                None
            };
        }
        if let Some(active) = self.active_tab {
            if find_tab(self.tabs.as_slice(), active).is_none() {
                self.active_tab = if self.tabs.len() > 0 {
                    Some(self.tabs[0].id)
                } else {
                    None
                };
            }
        }
        self.reconcile_split();
        proof {
            let now = self@;
            lemma_tabs_without(was.tabs, id@);
            lemma_connections_without(was.connections, id@);
            assert(now.expanded_connections =~= was.expanded_connections.remove(id@));
            assert(now =~= was.without_connection(id@));
            lemma_without_connection_coherent(was, id@);
        }
    }
}

proof fn lemma_without_connection_coherent(was: ModelView, id: Seq<char>)
    requires
        was.coherent(),
    ensures
        was.without_connection(id).coherent(),
{
    let now = was.without_connection(id);
    lemma_tabs_without(was.tabs, id);
    lemma_connections_without(was.connections, id);
    assert forall|i: int| 0 <= i < now.tabs.len() implies (#[trigger] now.tabs[i]).id
        < now.next_tab_id by {
        assert(was.tabs.contains(now.tabs[i]));
    }
    if now.active_tab is Some && now.tabs.len() > 0 {
        assert(has_tab(now.tabs, now.tabs[0].id));
    }
    if was.active_tab is Some && now.active_tab is None {
        assert(now.tabs.len() == 0);
    }
    if was.active_tab is None {
        assert(now.tabs.len() == 0) by {
            if now.tabs.len() > 0 {
                assert(was.tabs.contains(now.tabs[0]));
            }
        }
    }
    if now.connections.len() > 0 {
        assert(knows(now.connections, now.connections[0].id@));
    }
    if was.active_connection is None {
        assert(now.connections.len() == 0);
    }
    if was.active_connection is Some && was.active_connection != Some(id) {
        assert(knows(now.connections, was.active_connection->0));
    }
}

// ---------------------------------------------------------------------
// States of connections
// ---------------------------------------------------------------------
impl ModelView {
    /// Whether a connection attempt can start.
    pub open spec fn can_connect(self, id: Seq<char>) -> bool {
        knows(self.connections, id) && match self.state_of(id) {
            ConnectionState::Disconnected | ConnectionState::Error(_) => true,
            _ => false,
        }
    }

    /// Whether a connection can be opened again: also while it is up.
    pub open spec fn can_reconnect(self, id: Seq<char>) -> bool {
        knows(self.connections, id) && match self.state_of(id) {
            ConnectionState::Connecting | ConnectionState::Disconnecting => false,
            _ => true,
        }
    }

    /// The model after a connection attempt. The default databases of a
    /// connection that came up are expanded; a failed one has no schemas.
    pub open spec fn connected(self, id: Seq<char>, result: Result<Vec<Database>, String>) -> ModelView {
        match result {
            Ok(databases) => ModelView {
                expanded_nodes: self.expanded_nodes.union(default_nodes(id, databases@)),
                schemas: self.schemas.insert(id, databases),
                states: self.states.insert(id, ConnectionState::Connected),
                ..self
            },
            Err(error) => ModelView {
                schemas: self.schemas.remove(id),
                states: self.states.insert(id, ConnectionState::Error(error)),
                ..self
            },
        }
    }

    /// The model with a node opened or closed.
    pub open spec fn toggled(self, node: NodeView) -> ModelView {
        match node {
            NodeView::RelationGroup { .. } => ModelView {
                collapsed_folders: if self.collapsed_folders.contains(node) {
                    self.collapsed_folders.remove(node)
                } else {
                    self.collapsed_folders.insert(node)
                },
                ..self
            },
            _ => ModelView {
                expanded_nodes: if self.expanded_nodes.contains(node) {
                    self.expanded_nodes.remove(node)
                } else {
                    self.expanded_nodes.insert(node)
                },
                ..self
            },
        }
    }
}

impl AppModel {
    /// The active connection.
    pub fn active_connection(&self) -> (r: Option<&ConnectionConfig>)
        requires
            self.wf(),
        ensures
            r is Some == self@.active_connection is Some,
            r matches Some(config) ==> exists|at: int|
                #[trigger] first_with_id(self@.connections, self@.active_connection->0, at)
                    && *config == self@.connections[at],
    {
        match &self.active_connection {
            Some(id) => match find_connection(self.connections.as_slice(), id.as_str()) {
                Some(at) => Some(&self.connections[at]),
                None => None,
            },
            None => None,
        }
    }

    /// Makes a connection the active one. The result says whether it exists.
    pub fn select_connection(&mut self, id: &str) -> (r: bool)
        requires
            old(self).wf(),
        ensures
            final(self).wf(),
            r == knows(old(self)@.connections, id@),
            !r ==> final(self)@ == old(self)@,
            r ==> final(self)@ == (ModelView { active_connection: Some(id@), ..old(self)@ }),
    {
        if find_connection(self.connections.as_slice(), id).is_none() {
            return false;
        }
        self.active_connection = Some(id.to_owned());
        true
    }

    pub fn connection_expanded(&self, id: &str) -> (r: bool)
        requires
            self.wf(),
        ensures
            r == self@.expanded_connections.contains(id@),
    {
        self.expanded_connections.contains(&id.to_owned())
    }

    /// Expands or collapses a connection. The result says whether it is expanded
    /// now; of an unknown connection nothing changes.
    pub fn toggle_connection_expanded(&mut self, id: &str) -> (r: bool)
        requires
            old(self).wf(),
        ensures
            final(self).wf(),
            r == (knows(old(self)@.connections, id@)
                && !old(self)@.expanded_connections.contains(id@)),
            !knows(old(self)@.connections, id@) ==> final(self)@ == old(self)@,
            knows(old(self)@.connections, id@) ==> final(self)@ == (ModelView {
                expanded_connections: if r {
                    old(self)@.expanded_connections.insert(id@)
                } else {
                    old(self)@.expanded_connections.remove(id@)
                },
                ..old(self)@
            }),
    {
        if find_connection(self.connections.as_slice(), id).is_none() {
            return false;
        }
        let key = id.to_owned();
        if self.expanded_connections.remove(&key).is_some() {
            assert(self@ =~= (ModelView {
                expanded_connections: old(self)@.expanded_connections.remove(id@),
                ..old(self)@
            }));
            false
        } else {
            self.expanded_connections.insert(key, ());
            assert(self@ =~= (ModelView {
                expanded_connections: old(self)@.expanded_connections.insert(id@),
                ..old(self)@
            }));
            true
        }
    }

    pub fn connection_state(&self, id: &str) -> (r: &ConnectionState)
        requires
            self.wf(),
        ensures
            *r == self@.state_of(id@),
    {
        match self.states.get(&id.to_owned()) {
            Some(state) => state,
            None => &ConnectionState::Disconnected,
        }
    }

    /// Starts a connection attempt. The result says whether one can start.
    pub fn begin_connect(&mut self, id: &str) -> (r: bool)
        requires
            old(self).wf(),
        ensures
            final(self).wf(),
            r == old(self)@.can_connect(id@),
            !r ==> final(self)@ == old(self)@,
            r ==> final(self)@ == old(self)@.with_connection_state(
                id@,
                ConnectionState::Connecting,
            ),
    {
        if find_connection(self.connections.as_slice(), id).is_none() {
            return false;
        }
        match self.connection_state(id) {
            ConnectionState::Connecting | ConnectionState::Disconnecting
            | ConnectionState::Connected => {
                return false;
            },
            _ => {},
        }
        self.states.insert(id.to_owned(), ConnectionState::Connecting);
        true
    }

    /// Starts a new attempt, also of a connection that is up.
    pub fn begin_reconnect(&mut self, id: &str) -> (r: bool)
        requires
            old(self).wf(),
        ensures
            final(self).wf(),
            r == old(self)@.can_reconnect(id@),
            !r ==> final(self)@ == old(self)@,
            r ==> final(self)@ == old(self)@.with_connection_state(
                id@,
                ConnectionState::Connecting,
            ),
    {
        if find_connection(self.connections.as_slice(), id).is_none() {
            return false;
        }
        match self.connection_state(id) {
            ConnectionState::Connecting | ConnectionState::Disconnecting => {
                return false;
            },
            _ => {},
        }
        self.states.insert(id.to_owned(), ConnectionState::Connecting);
        true
    }

    /// Starts to close a connection that is up.
    pub fn begin_disconnect(&mut self, id: &str) -> (r: bool)
        requires
            old(self).wf(),
        ensures
            final(self).wf(),
            r == (old(self)@.state_of(id@) is Connected),
            !r ==> final(self)@ == old(self)@,
            r ==> final(self)@ == old(self)@.with_connection_state(
                id@,
                ConnectionState::Disconnecting,
            ),
    {
        if !self.connection_state(id).is_ready() {
            return false;
        }
        self.states.insert(id.to_owned(), ConnectionState::Disconnecting);
        true
    }

    /// Ends the closing of a connection: its schemas are forgotten.
    pub fn finish_disconnect(&mut self, id: &str)
        requires
            old(self).wf(),
        ensures
            final(self).wf(),
            final(self)@ == (ModelView {
                schemas: old(self)@.schemas.remove(id@),
                states: old(self)@.states.insert(id@, ConnectionState::Disconnected),
                ..old(self)@
            }),
    {
        self.schemas.remove(&id.to_owned());
        self.states.insert(id.to_owned(), ConnectionState::Disconnected);
    }

    /// Ends a connection attempt with the databases that were found, or an error.
    pub fn finish_connect(&mut self, id: &str, result: Result<Vec<Database>, String>)
        requires
            old(self).wf(),
        ensures
            final(self).wf(),
            final(self)@ == old(self)@.connected(id@, result),
    {
        match result {
            Ok(databases) => {
                open_defaults(&mut self.expanded_nodes, id, databases.as_slice());
                self.schemas.insert(id.to_owned(), databases);
                self.states.insert(id.to_owned(), ConnectionState::Connected);
            },
            Err(error) => {
                self.schemas.remove(&id.to_owned());
                self.states.insert(id.to_owned(), ConnectionState::Error(error));
            },
        }
    }

    pub fn databases(&self, id: &str) -> (r: &[Database])
        requires
            self.wf(),
        ensures
            r@ == self@.databases_of(id@),
    {
        match self.schemas.get(&id.to_owned()) {
            Some(list) => list.as_slice(),
            None => {
                let none: &[Database] = &[];
                none
            },
        }
    }

    /// The table that a target names.
    pub fn table(&self, target: &TableTarget) -> (r: Option<&Table>)
        requires
            self.wf(),
        ensures
            deref(r) == self@.table_of(target@),
    {
        find_table(
            self.databases(target.connection_id.as_str()),
            target.database.as_str(),
            target.schema.as_str(),
            target.table.as_str(),
        )
    }

    /// Opens or closes a node.
    pub fn toggle_node(&mut self, node: SchemaNode)
        requires
            old(self).wf(),
        ensures
            final(self).wf(),
            final(self)@ == old(self)@.toggled(node@),
    {
        match node {
            SchemaNode::RelationGroup { .. } => {
                if !self.collapsed_folders.remove(&node) {
                    self.collapsed_folders.insert(node);
                    assert(self@.collapsed_folders =~= old(self)@.collapsed_folders.insert(node@));
                }
            },
            _ => {
                if !self.expanded_nodes.remove(&node) {
                    self.expanded_nodes.insert(node);
                    assert(self@.expanded_nodes =~= old(self)@.expanded_nodes.insert(node@));
                }
            },
        }
    }

    pub fn node_expanded(&self, node: &SchemaNode) -> (r: bool)
        requires
            self.wf(),
        ensures
            r == self@.shows_expanded(node@),
    {
        match node {
            SchemaNode::RelationGroup { .. } => !self.collapsed_folders.contains(node),
            _ => self.expanded_nodes.contains(node),
        }
    }

    /// Whether a table browse can start: the connection is up and the table is
    /// among its schemas. A browse that starts anyway ends with
    /// [`TABLE_METADATA_UNAVAILABLE`].
    pub fn table_browse_ready(&self, target: &TableTarget) -> (r: bool)
        requires
            self.wf(),
        ensures
            r == self@.browse_ready(target@),
    {
        self.connection_state(target.connection_id.as_str()).is_ready() && self.table(
            target,
        ).is_some()
    }
}

/// Opening or closing a node changes whether it shows as expanded, and that of
/// no other node; doing it twice changes nothing.
pub proof fn law_toggling_a_node(v: ModelView, node: NodeView, other: NodeView)
    ensures
        v.toggled(node).shows_expanded(node) == !v.shows_expanded(node),
        other != node ==> v.toggled(node).shows_expanded(other) == v.shows_expanded(other),
        v.toggled(node).toggled(node) == v,
{
    assert(v.toggled(node).toggled(node) =~= v);
}

/// A connection attempt that came up expands nothing but nodes of its own
/// connection, and leaves the tabs, the other connections and their schemas as
/// they were.
pub proof fn law_connecting_touches_one_connection(
    v: ModelView,
    id: Seq<char>,
    result: Result<Vec<Database>, String>,
    other: Seq<char>,
)
    requires
        other != id,
    ensures
        v.connected(id, result).state_of(other) == v.state_of(other),
        v.connected(id, result).databases_of(other) == v.databases_of(other),
        v.connected(id, result).tabs == v.tabs,
        v.connected(id, result).connections == v.connections,
        result is Err ==> v.connected(id, result).expanded_nodes == v.expanded_nodes,
        forall|database: Seq<char>|
            #![trigger v.expanded_nodes.contains(
                NodeView::Database { connection_id: other, database },
            )]
            v.connected(id, result).expanded_nodes.contains(
                NodeView::Database { connection_id: other, database },
            ) == v.expanded_nodes.contains(NodeView::Database { connection_id: other, database }),
{
}

// ---------------------------------------------------------------------
// Opening tabs
// ---------------------------------------------------------------------
/// The model of an optional lookup context.
pub open spec fn context_view(lookup: Option<TableLookupContext>) -> Option<LookupView> {
    match lookup {
        Some(context) => Some(context@),
        None => None,
    }
}

/// The first page of a table.
pub open spec fn first_page() -> TablePage {
    TablePage { offset: 0, limit: 500, rows: 0, total_rows: None }
}

impl ModelView {
    /// Whether the tab at `at` shows this table with this lookup context.
    pub open spec fn shows_table(
        self,
        at: int,
        target: TableTargetView,
        lookup: Option<LookupView>,
    ) -> bool {
        &&& self.tabs[at].kind matches TabKind::Table { target: open, .. }
        &&& open@ == target
        &&& self.lookup_of(self.tabs[at].id) == lookup
    }

    /// The first tab from `from` on that shows this table with this context.
    pub open spec fn table_tab_from(
        self,
        target: TableTargetView,
        lookup: Option<LookupView>,
        from: int,
    ) -> Option<int>
        decreases self.tabs.len() - from,
    {
        if from < 0 || from >= self.tabs.len() {
            None
        } else if self.shows_table(from, target, lookup) {
            Some(from)
        } else {
            self.table_tab_from(target, lookup, from + 1)
        }
    }

    /// The first tab from `from` on that shows this diagram.
    pub open spec fn diagram_tab_from(self, target: ErDiagramTarget, from: int) -> Option<int>
        decreases self.tabs.len() - from,
    {
        if from < 0 || from >= self.tabs.len() {
            None
        } else if (self.tabs[from].kind matches TabKind::ErDiagram { target: open, .. } && open@
            == target@) {
            Some(from)
        } else {
            self.diagram_tab_from(target, from + 1)
        }
    }

    /// The first tab from `from` on that shows this comparison.
    pub open spec fn compare_tab_from(self, config: SchemaCompareConfig, from: int) -> Option<int>
        decreases self.tabs.len() - from,
    {
        if from < 0 || from >= self.tabs.len() {
            None
        } else if (self.tabs[from].kind matches TabKind::SchemaCompare { config: open, .. }
            && open@ == config@) {
            Some(from)
        } else {
            self.compare_tab_from(config, from + 1)
        }
    }

    /// The title of an ER diagram: its schema where there is exactly one, else
    /// its database.
    pub open spec fn diagram_title(target: ErDiagramTarget) -> Seq<char> {
        match target.schemas {
            Some(schemas) => if schemas@.len() == 1 {
                "ER: "@ + schemas@[0]@
            } else {
                "ER: "@ + target.database@
            },
            None => "ER: "@ + target.database@,
        }
    }
}

proof fn lemma_activated_coherent(v: ModelView, id: u64, new: bool)
    requires
        has_tab(v.tabs, id),
        v.coherent(),
    ensures
        v.activated(id, new).coherent(),
{
    if v.tab_panes.contains_key(id) {
        assert(v.tab_panes[id] <= 1);
    }
}

proof fn lemma_new_tab_coherent(v: ModelView, tab: WorkspaceTab)
    requires
        v.coherent(),
        tab.id == v.next_tab_id,
        v.next_tab_id < u64::MAX,
    ensures
        v.with_new_tab(tab).coherent(),
        has_tab(v.with_new_tab(tab).tabs, tab.id),
        forall|id: u64| has_tab(v.tabs, id) ==> #[trigger] has_tab(v.with_new_tab(tab).tabs, id),
{
    let now = v.tabs.push(tab);
    assert(now[v.tabs.len() as int] == tab);
    assert(has_tab(now, tab.id));
    assert forall|id: u64| has_tab(v.tabs, id) implies #[trigger] has_tab(now, id) by {
        let i = choose|i: int| 0 <= i < v.tabs.len() && (#[trigger] v.tabs[i]).id == id;
        assert(now[i].id == id);
    }
    assert forall|i: int, j: int| 0 <= i < j < now.len() implies (#[trigger] now[i]).id != (
    #[trigger] now[j]).id by {
        if j == v.tabs.len() {
            assert(now[i] == v.tabs[i]);
        } else {
            assert(now[i] == v.tabs[i] && now[j] == v.tabs[j]);
        }
    }
    assert forall|i: int| 0 <= i < now.len() implies (#[trigger] now[i]).id < v.next_tab_id + 1 by {
        if i < v.tabs.len() {
            assert(now[i] == v.tabs[i]);
        }
    }
}

impl AppModel {
    /// The pane that a tab is shown in.
    fn tab_pane(&self, id: u64) -> (r: u8)
        requires
            self.wf(),
        ensures
            r == self@.pane_of(id),
            r <= 1,
    {
        proof {
            if self@.tab_panes.contains_key(id) {
                assert(self@.tab_panes[id] <= 1);
            }
        }
        match self.tab_panes.get(&id) {
            Some(pane) => *pane,
            None => 0,
        }
    }

    /// Makes a tab the active one, of its pane and of the window.
    fn activate_tab(&mut self, id: u64, new: bool)
        requires
            old(self).wf(),
            has_tab(old(self)@.tabs, id),
        ensures
            final(self).wf(),
            final(self)@ == old(self)@.activated(id, new),
    {
        let ghost was = self@;
        let pane: u8 = if self.split.is_some() {
            if new {
                let pane: u8 = if self.focused_pane <= 1 {
                    self.focused_pane
                } else {
                    1
                };
                self.tab_panes.insert(id, pane);
                pane
            } else {
                self.tab_pane(id)
            }
        } else {
            0
        };
        self.focused_pane = pane;
        self.pane_active.set(pane as usize, Some(id));
        self.active_tab = Some(id);
        proof {
            lemma_activated_coherent(was, id, new);
            assert(self@ =~= was.activated(id, new));
        }
    }

    /// Adds a tab with the next id and activates it.
    fn push_tab(&mut self, title: String, kind: TabKind) -> (r: u64)
        requires
            old(self).wf(),
            old(self)@.next_tab_id < u64::MAX,
        ensures
            final(self).wf(),
            r == old(self)@.next_tab_id,
            final(self)@ == old(self)@.with_new_tab(
                WorkspaceTab { id: r, title, pinned: false, kind },
            ),
    {
        let ghost was = self@;
        let id: u64 = self.next_tab_id;
        self.next_tab_id = id + 1;
        let tab = WorkspaceTab { id, title, pinned: false, kind };
        let ghost new = tab;
        self.tabs.push(tab);
        let pane: u8 = if self.split.is_some() {
            let pane: u8 = if self.focused_pane <= 1 {
                self.focused_pane
            } else {
                1
            };
            self.tab_panes.insert(id, pane);
            pane
        } else {
            0
        };
        self.focused_pane = pane;
        self.pane_active.set(pane as usize, Some(id));
        self.active_tab = Some(id);
        proof {
            lemma_new_tab_coherent(was, new);
            assert(self@ =~= was.with_new_tab(new));
        }
        id
    }

    /// How the panes are arranged; nothing while there is only one.
    pub fn split(&self) -> (r: Option<SplitOrientation>)
        ensures
            r == self@.split,
    {
        self.split
    }

    pub fn set_split(&mut self, split: Option<SplitOrientation>)
        requires
            old(self).wf(),
        ensures
            final(self).wf(),
            final(self)@ == (ModelView { split, ..old(self)@ }),
    {
        self.split = split;
    }

    /// Opens a table or shows the tab that is open for it. The flag is true only
    /// where the caller has to load the first page.
    pub fn open_table(&mut self, target: TableTarget) -> (r: (u64, bool))
        requires
            old(self).wf(),
            old(self)@.next_tab_id < u64::MAX,
        ensures
            final(self).wf(),
            opens_table(old(self)@, final(self)@, target, None, r),
    {
        self.open_table_with_lookup(target, None)
    }

    /// Opens a table with a lookup context. The context is part of what a tab
    /// is: two foreign keys into one table keep their own tabs and filters.
    pub fn open_table_with_lookup(
        &mut self,
        target: TableTarget,
        lookup: Option<TableLookupContext>,
    ) -> (r: (u64, bool))
        requires
            old(self).wf(),
            old(self)@.next_tab_id < u64::MAX,
        ensures
            final(self).wf(),
            opens_table(old(self)@, final(self)@, target, lookup, r),
    {
        let ghost was = self@;
        let ghost wanted = context_view(lookup);
        let mut i: usize = 0;
        while i < self.tabs.len()
            invariant
                i <= self.tabs@.len(),
                self.wf(),
                self@ == was,
                *self == *old(self),
                wanted == context_view(lookup),
                was.table_tab_from(target@, wanted, i as int) == was.table_tab_from(
                    target@,
                    wanted,
                    0,
                ),
            decreases self.tabs@.len() - i,
        {
            let id: u64 = self.tabs[i].id;
            if let TabKind::Table { target: open, .. } = &self.tabs[i].kind {
                let context = match (self.table_lookup_contexts.get(&id), &lookup) {
                    (Some(a), Some(b)) => a.same(b),
                    (None, None) => true,
                    _ => false,
                };
                if open.same(&target) && context {
                    assert(was.shows_table(i as int, target@, wanted));
                    assert(was.tabs[i as int].id == id);
                    self.activate_tab(id, false);
                    return (id, false);
                }
            }
            assert(!was.shows_table(i as int, target@, wanted));
            i += 1;
        }
        let ready = self.table_browse_ready(&target);
        let title = target.table.clone();
        let kind = TabKind::Table {
            target,
            state: TableLoadState::Loading,
            page: TablePage { offset: 0, limit: 500, rows: 0, total_rows: None },
        };
        let ghost tab = WorkspaceTab { id: was.next_tab_id, title, pinned: false, kind };
        let id: u64 = self.push_tab(title, kind);
        if let Some(lookup) = lookup {
            self.table_lookup_contexts.insert(id, lookup);
            proof {
                lemma_new_tab_coherent(was, tab);
            }
        }
        (id, ready)
    }

    pub fn table_lookup_context(&self, tab_id: u64) -> (r: Option<&TableLookupContext>)
        requires
            self.wf(),
        ensures
            r is Some == self@.lookups.contains_key(tab_id),
            r matches Some(context) ==> *context == self@.lookups[tab_id],
    {
        self.table_lookup_contexts.get(&tab_id)
    }

    /// Opens a query tab.
    pub fn new_query(&mut self, target: QueryTarget) -> (r: u64)
        requires
            old(self).wf(),
            old(self)@.next_tab_id < u64::MAX,
            old(self)@.next_query_number < u64::MAX,
        ensures
            final(self).wf(),
            r == old(self)@.next_tab_id,
            ({
                let tab = final(self)@.tabs.last();
                &&& tab.id == r
                &&& tab.title@ == "untitled-"@ + nat_text(old(self)@.next_query_number as nat)
                    + ".sql"@
                &&& !tab.pinned
                &&& tab.kind == (TabKind::Query { target, state: QueryState::Editing })
                &&& final(self)@ == (ModelView {
                    next_query_number: (old(self)@.next_query_number + 1) as u64,
                    ..old(self)@
                }).with_new_tab(tab)
            }),
    {
        let number: u64 = self.next_query_number;
        self.next_query_number = number + 1;
        let mut title = String::new();
        title.append("untitled-");
        push_u64(&mut title, number);
        title.append(".sql");
        assert(title@ =~= "untitled-"@ + nat_text(number as nat) + ".sql"@);
        self.push_tab(title, TabKind::Query { target, state: QueryState::Editing })
    }

    /// Opens an ER diagram or shows the tab that is open for it. The flag is
    /// true where the diagram has to be loaded.
    pub fn open_er_diagram(&mut self, target: ErDiagramTarget) -> (r: (u64, bool))
        requires
            old(self).wf(),
            old(self)@.next_tab_id < u64::MAX,
        ensures
            final(self).wf(),
            match old(self)@.diagram_tab_from(target, 0) {
                Some(at) => {
                    &&& r == (old(self)@.tabs[at].id, false)
                    &&& final(self)@ == old(self)@.activated(r.0, false)
                },
                None => {
                    let tab = final(self)@.tabs.last();
                    &&& r == (old(self)@.next_tab_id, true)
                    &&& tab.id == r.0
                    &&& tab.title@ == ModelView::diagram_title(target)
                    &&& !tab.pinned
                    &&& tab.kind == (TabKind::ErDiagram { target, state: ErDiagramState::Loading })
                    &&& final(self)@ == old(self)@.with_new_tab(tab)
                },
            },
    {
        let ghost was = self@;
        let mut i: usize = 0;
        while i < self.tabs.len()
            invariant
                i <= self.tabs@.len(),
                self.wf(),
                *self == *old(self),
                self@ == was,
                was.diagram_tab_from(target, i as int) == was.diagram_tab_from(target, 0),
            decreases self.tabs@.len() - i,
        {
            if let TabKind::ErDiagram { target: open, .. } = &self.tabs[i].kind {
                if open.same(&target) {
                    let id: u64 = self.tabs[i].id;
                    assert(was.tabs[i as int].id == id);
                    self.activate_tab(id, false);
                    return (id, false);
                }
            }
            i += 1;
        }
        let mut title = String::new();
        title.append("ER: ");
        match &target.schemas {
            Some(schemas) if schemas.len() == 1 => title.append(schemas[0].as_str()),
            _ => title.append(target.database.as_str()),
        }
        assert(title@ =~= ModelView::diagram_title(target));
        let id: u64 = self.push_tab(
            title,
            TabKind::ErDiagram { target, state: ErDiagramState::Loading },
        );
        (id, true)
    }

    /// Opens a schema comparison or shows the tab that is open for it. The flag
    /// is true where the comparison has to run.
    pub fn open_schema_compare(&mut self, config: SchemaCompareConfig) -> (r: (u64, bool))
        requires
            old(self).wf(),
            old(self)@.next_tab_id < u64::MAX,
        ensures
            final(self).wf(),
            match old(self)@.compare_tab_from(config, 0) {
                Some(at) => {
                    &&& r == (old(self)@.tabs[at].id, false)
                    &&& final(self)@ == old(self)@.activated(r.0, false)
                },
                None => {
                    let tab = final(self)@.tabs.last();
                    &&& r == (old(self)@.next_tab_id, true)
                    &&& tab.id == r.0
                    &&& tab.title@ == config.source@.schema_name() + " ↔ "@
                        + config.target@.schema_name()
                    &&& !tab.pinned
                    &&& tab.kind == (TabKind::SchemaCompare {
                        config,
                        state: SchemaCompareState::Loading,
                    })
                    &&& final(self)@ == old(self)@.with_new_tab(tab)
                },
            },
    {
        let ghost was = self@;
        let mut i: usize = 0;
        while i < self.tabs.len()
            invariant
                i <= self.tabs@.len(),
                self.wf(),
                *self == *old(self),
                self@ == was,
                was.compare_tab_from(config, i as int) == was.compare_tab_from(config, 0),
            decreases self.tabs@.len() - i,
        {
            if let TabKind::SchemaCompare { config: open, .. } = &self.tabs[i].kind {
                if open.same(&config) {
                    let id: u64 = self.tabs[i].id;
                    assert(was.tabs[i as int].id == id);
                    self.activate_tab(id, false);
                    return (id, false);
                }
            }
            i += 1;
        }
        let mut title = config.source.schema().to_owned();
        title.append(" ↔ ");
        title.append(config.target.schema());
        assert(title@ =~= config.source@.schema_name() + " ↔ "@ + config.target@.schema_name());
        let id: u64 = self.push_tab(
            title,
            TabKind::SchemaCompare { config, state: SchemaCompareState::Loading },
        );
        (id, true)
    }
}

/// What opening a table does: the tab that shows it with this context is
/// activated; where there is none, a new one is added and its context kept.
pub open spec fn opens_table(
    was: ModelView,
    now: ModelView,
    target: TableTarget,
    lookup: Option<TableLookupContext>,
    r: (u64, bool),
) -> bool {
    match was.table_tab_from(target@, context_view(lookup), 0) {
        Some(at) => {
            &&& r == (was.tabs[at].id, false)
            &&& now == was.activated(r.0, false)
        },
        None => {
            let tab = WorkspaceTab {
                id: was.next_tab_id,
                title: target.table,
                pinned: false,
                kind: TabKind::Table { target, state: TableLoadState::Loading, page: first_page() },
            };
            &&& r == (was.next_tab_id, was.browse_ready(target@))
            &&& now == (ModelView {
                lookups: match lookup {
                    Some(l) => was.lookups.insert(tab.id, l),
                    None => was.lookups,
                },
                ..was.with_new_tab(tab)
            })
        },
    }
}

// ---------------------------------------------------------------------
// Changing tabs
// ---------------------------------------------------------------------
proof fn lemma_kind_change_coherent(v: ModelView, at: int, kind: TabKind)
    requires
        v.coherent(),
        0 <= at < v.tabs.len(),
    ensures
        v.with_tab_kind(at, kind).coherent(),
{
    let now = v.with_tab_kind(at, kind).tabs;
    assert forall|i: int| 0 <= i < now.len() implies (#[trigger] now[i]).id == v.tabs[i].id by {}
    assert forall|id: u64| has_tab(v.tabs, id) implies #[trigger] has_tab(now, id) by {
        let i = choose|i: int| 0 <= i < v.tabs.len() && (#[trigger] v.tabs[i]).id == id;
        assert(now[i].id == id);
    }
}

impl ModelView {
    /// The generation of the last load of a table tab.
    pub open spec fn generation_of(self, id: u64) -> u64 {
        if self.generations.contains_key(id) {
            self.generations[id]
        } else {
            0
        }
    }

    /// The model in which one more load of a table tab has begun.
    pub open spec fn with_next_load(self, id: u64) -> ModelView {
        ModelView {
            generations: self.generations.insert(id, (self.generation_of(id) + 1) as u64),
            ..self
        }
    }

    /// Whether a tab is open and shows a table.
    pub open spec fn is_table_tab(self, id: u64) -> bool {
        &&& tab_at(self.tabs, id) is Some
        &&& self.tabs[tab_at(self.tabs, id)->0].kind is Table
    }

    /// The model after a load of a table tab that is still wanted. A page keeps
    /// the total that it knew where none came with the rows.
    pub open spec fn with_loaded(
        self,
        at: int,
        result: Result<(u32, Option<u64>), String>,
    ) -> ModelView {
        match self.tabs[at].kind {
            TabKind::Table { target, page, .. } => match result {
                Ok((rows, total_rows)) => self.with_tab_kind(
                    at,
                    TabKind::Table {
                        target,
                        state: TableLoadState::Loaded,
                        page: TablePage {
                            rows,
                            total_rows: if total_rows is Some {
                                total_rows
                            } else {
                                page.total_rows
                            },
                            ..page
                        },
                    },
                ),
                Err(error) => self.with_tab_kind(
                    at,
                    TabKind::Table { target, state: TableLoadState::Error(error), page },
                ),
            },
            _ => self,
        }
    }

    /// Whether a finished load counts: it is the last one that was started, and
    /// its tab is still open and shows a table.
    pub open spec fn load_counts(self, id: u64, generation: u64) -> bool {
        &&& self.generations.contains_key(id)
        &&& self.generations[id] == generation
        &&& self.is_table_tab(id)
    }
}

impl AppModel {
    /// Replaces the kind of the tab at `at`.
    fn put_kind(&mut self, at: usize, kind: TabKind)
        requires
            old(self).wf(),
            at < old(self)@.tabs.len(),
        ensures
            final(self).wf(),
            final(self)@ == old(self)@.with_tab_kind(at as int, kind),
    {
        let ghost was = self@;
        let mut tabs: Vec<WorkspaceTab> = Vec::new();
        std::mem::swap(&mut tabs, &mut self.tabs);
        let tab = tabs.remove(at);
        tabs.insert(at, WorkspaceTab { id: tab.id, title: tab.title, pinned: tab.pinned, kind });
        self.tabs = tabs;
        proof {
            lemma_kind_change_coherent(was, at as int, kind);
            assert(self@ =~= was.with_tab_kind(at as int, kind));
        }
    }

    /// Starts a load of a table tab: the number of the load.
    pub fn next_table_load(&mut self, tab_id: u64) -> (r: u64)
        requires
            old(self).wf(),
            old(self)@.generation_of(tab_id) < u64::MAX,
        ensures
            final(self).wf(),
            r == old(self)@.generation_of(tab_id) + 1,
            final(self)@ == old(self)@.with_next_load(tab_id),
    {
        let generation: u64 = match self.table_load_generations.get(&tab_id) {
            Some(g) => *g + 1,
            None => 1,
        };
        self.table_load_generations.insert(tab_id, generation);
        generation
    }

    /// Ends a load of a table tab with the number of its rows and the total, or
    /// an error. Of a load that a later one has overtaken nothing is kept. The
    /// result says whether the load counted.
    pub fn finish_table_load(
        &mut self,
        tab_id: u64,
        generation: u64,
        result: Result<(u32, Option<u64>), String>,
    ) -> (r: bool)
        requires
            old(self).wf(),
        ensures
            final(self).wf(),
            r == old(self)@.load_counts(tab_id, generation),
            !r ==> final(self)@ == old(self)@,
            r ==> final(self)@ == old(self)@.with_loaded(
                tab_at(old(self)@.tabs, tab_id)->0,
                result,
            ),
    {
        match self.table_load_generations.get(&tab_id) {
            Some(g) => {
                if *g != generation {
                    return false;
                }
            },
            None => {
                return false;
            },
        }
        let at = match find_tab(self.tabs.as_slice(), tab_id) {
            Some(at) => at,
            None => return false,
        };
        let (target, page) = match &self.tabs[at].kind {
            TabKind::Table { target, page, .. } => (target.clone(), *page),
            _ => return false,
        };
        let kind = match result {
            Ok((rows, total_rows)) => TabKind::Table {
                target,
                state: TableLoadState::Loaded,
                page: TablePage {
                    offset: page.offset,
                    limit: page.limit,
                    rows,
                    total_rows: if total_rows.is_some() {
                        total_rows
                    } else {
                        page.total_rows
                    },
                },
            },
            Err(error) => TabKind::Table { target, state: TableLoadState::Error(error), page },
        };
        self.put_kind(at, kind);
        true
    }

    /// Puts a table tab into the loading state, at another offset where one is
    /// given. The result is what to load.
    pub fn begin_table_load(&mut self, tab_id: u64, offset: Option<u32>) -> (r: Option<
        (TableTarget, TablePage),
    >)
        requires
            old(self).wf(),
        ensures
            final(self).wf(),
            loads_from(
                old(self)@,
                final(self)@,
                tab_id,
                |page: TablePage|
                    match offset {
                        Some(n) => TablePage { offset: n, ..page },
                        None => page,
                    },
                r,
            ),
    {
        let at = match find_tab(self.tabs.as_slice(), tab_id) {
            Some(at) => at,
            None => return None,
        };
        let (target, page) = match &self.tabs[at].kind {
            TabKind::Table { target, page, .. } => (target.clone(), *page),
            _ => return None,
        };
        let page = TablePage {
            offset: match offset {
                Some(n) => n,
                None => page.offset,
            },
            limit: page.limit,
            rows: page.rows,
            total_rows: page.total_rows,
        };
        let copy = target.clone();
        self.put_kind(at, TabKind::Table { target: copy, state: TableLoadState::Loading, page });
        Some((target, page))
    }

    pub fn table_page(&self, tab_id: u64) -> (r: Option<TablePage>)
        ensures
            r == (match tab_at(self@.tabs, tab_id) {
                Some(at) => match self@.tabs[at].kind {
                    TabKind::Table { page, .. } => Some(page),
                    _ => None,
                },
                None => None,
            }),
    {
        match find_tab(self.tabs.as_slice(), tab_id) {
            Some(at) => match &self.tabs[at].kind {
                TabKind::Table { page, .. } => Some(*page),
                _ => None,
            },
            None => None,
        }
    }

    /// Puts a table tab back to its first page, with the total unknown.
    pub fn reset_table_page(&mut self, tab_id: u64) -> (r: Option<(TableTarget, TablePage)>)
        requires
            old(self).wf(),
        ensures
            final(self).wf(),
            loads_from(
                old(self)@,
                final(self)@,
                tab_id,
                |page: TablePage| TablePage { offset: 0, total_rows: None, ..page },
                r,
            ),
    {
        let at = match find_tab(self.tabs.as_slice(), tab_id) {
            Some(at) => at,
            None => return None,
        };
        let (target, page) = match &self.tabs[at].kind {
            TabKind::Table { target, page, .. } => (target.clone(), *page),
            _ => return None,
        };
        let page = TablePage { offset: 0, limit: page.limit, rows: page.rows, total_rows: None };
        let copy = target.clone();
        self.put_kind(at, TabKind::Table { target: copy, state: TableLoadState::Loading, page });
        Some((target, page))
    }

    /// Moves a query tab to another database. The result says whether it moved.
    pub fn set_query_database(&mut self, tab_id: u64, database: String) -> (r: bool)
        requires
            old(self).wf(),
        ensures
            final(self).wf(),
            r == (match tab_at(old(self)@.tabs, tab_id) {
                Some(at) => old(self)@.tabs[at].kind matches TabKind::Query { target, .. }
                    && target.database@ != database@,
                None => false,
            }),
            !r ==> final(self)@ == old(self)@,
            r ==> final(self)@ == old(self)@.with_tab_kind(
                tab_at(old(self)@.tabs, tab_id)->0,
                TabKind::Query {
                    target: QueryTarget {
                        connection_id: old(self)@.tabs[tab_at(
                            old(self)@.tabs,
                            tab_id,
                        )->0].kind->Query_target.connection_id,
                        database,
                    },
                    state: QueryState::Editing,
                },
            ),
    {
        let at = match find_tab(self.tabs.as_slice(), tab_id) {
            Some(at) => at,
            None => return false,
        };
        let connection_id = match &self.tabs[at].kind {
            TabKind::Query { target, .. } => {
                if same_text(target.database.as_str(), database.as_str()) {
                    return false;
                }
                target.connection_id.clone()
            },
            _ => return false,
        };
        self.put_kind(
            at,
            TabKind::Query {
                target: QueryTarget { connection_id, database },
                state: QueryState::Editing,
            },
        );
        true
    }

    /// Puts an ER diagram into the loading state.
    pub fn start_er_diagram(&mut self, tab_id: u64)
        requires
            old(self).wf(),
        ensures
            final(self).wf(),
            sets_diagram(old(self)@, final(self)@, tab_id, ErDiagramState::Loading),
    {
        self.set_diagram_state(tab_id, ErDiagramState::Loading)
    }

    /// Ends the loading of an ER diagram with its graph or an error.
    pub fn finish_er_diagram(&mut self, tab_id: u64, result: Result<u64, String>)
        requires
            old(self).wf(),
        ensures
            final(self).wf(),
            sets_diagram(
                old(self)@,
                final(self)@,
                tab_id,
                match result {
                    Ok(graph) => ErDiagramState::Ready(graph),
                    Err(error) => ErDiagramState::Error(error),
                },
            ),
    {
        let state = match result {
            Ok(graph) => ErDiagramState::Ready(graph),
            Err(error) => ErDiagramState::Error(error),
        };
        self.set_diagram_state(tab_id, state)
    }

    fn set_diagram_state(&mut self, tab_id: u64, state: ErDiagramState)
        requires
            old(self).wf(),
        ensures
            final(self).wf(),
            sets_diagram(old(self)@, final(self)@, tab_id, state),
    {
        let at = match find_tab(self.tabs.as_slice(), tab_id) {
            Some(at) => at,
            None => return,
        };
        let target = match &self.tabs[at].kind {
            TabKind::ErDiagram { target, .. } => target.clone(),
            _ => return,
        };
        self.put_kind(at, TabKind::ErDiagram { target, state });
    }

    /// Puts a schema comparison into the loading state.
    pub fn start_schema_compare(&mut self, tab_id: u64)
        requires
            old(self).wf(),
        ensures
            final(self).wf(),
            sets_compare(old(self)@, final(self)@, tab_id, SchemaCompareState::Loading),
    {
        self.set_compare_state(tab_id, SchemaCompareState::Loading)
    }

    /// Ends a schema comparison.
    pub fn finish_schema_compare(&mut self, tab_id: u64, result: Result<(), String>)
        requires
            old(self).wf(),
        ensures
            final(self).wf(),
            sets_compare(
                old(self)@,
                final(self)@,
                tab_id,
                match result {
                    Ok(_) => SchemaCompareState::Ready,
                    Err(error) => SchemaCompareState::Error(error),
                },
            ),
    {
        let state = match result {
            Ok(_) => SchemaCompareState::Ready,
            Err(error) => SchemaCompareState::Error(error),
        };
        self.set_compare_state(tab_id, state)
    }

    fn set_compare_state(&mut self, tab_id: u64, state: SchemaCompareState)
        requires
            old(self).wf(),
        ensures
            final(self).wf(),
            sets_compare(old(self)@, final(self)@, tab_id, state),
    {
        let at = match find_tab(self.tabs.as_slice(), tab_id) {
            Some(at) => at,
            None => return,
        };
        let config = match &self.tabs[at].kind {
            TabKind::SchemaCompare { config, .. } => config.clone(),
            _ => return,
        };
        self.put_kind(at, TabKind::SchemaCompare { config, state });
    }

    fn set_query_state(&mut self, at: usize, state: QueryState)
        requires
            old(self).wf(),
            at < old(self)@.tabs.len(),
            old(self)@.tabs[at as int].kind is Query,
        ensures
            final(self).wf(),
            final(self)@ == old(self)@.with_tab_kind(
                at as int,
                TabKind::Query {
                    target: old(self)@.tabs[at as int].kind->Query_target,
                    state,
                },
            ),
    {
        let target = match &self.tabs[at].kind {
            TabKind::Query { target, .. } => target.clone(),
            _ => return,
        };
        self.put_kind(at, TabKind::Query { target, state });
    }

    /// Starts a query. The result says whether one can start: not while another
    /// one runs in the tab.
    pub fn begin_query(&mut self, tab_id: u64) -> (r: bool)
        requires
            old(self).wf(),
        ensures
            final(self).wf(),
            r == (match query_state(old(self)@, tab_id) {
                Some(state) => !(state is Running),
                None => false,
            }),
            !r ==> final(self)@ == old(self)@,
            r ==> sets_query(
                old(self)@,
                final(self)@,
                tab_id,
                QueryState::Running { rows_received: 0 },
            ),
    {
        let at = match find_tab(self.tabs.as_slice(), tab_id) {
            Some(at) => at,
            None => return false,
        };
        match &self.tabs[at].kind {
            TabKind::Query { state, .. } => match state {
                QueryState::Running { .. } => return false,
                _ => {},
            },
            _ => return false,
        }
        self.set_query_state(at, QueryState::Running { rows_received: 0 });
        true
    }

    /// Counts the rows of a page that a running query received.
    pub fn receive_query_page(&mut self, tab_id: u64, row_count: u64)
        requires
            old(self).wf(),
            query_state(old(self)@, tab_id) matches Some(QueryState::Running { rows_received })
                ==> rows_received + row_count <= u64::MAX,
        ensures
            final(self).wf(),
            match query_state(old(self)@, tab_id) {
                Some(QueryState::Running { rows_received }) => sets_query(
                    old(self)@,
                    final(self)@,
                    tab_id,
                    QueryState::Running { rows_received: (rows_received + row_count) as u64 },
                ),
                _ => final(self)@ == old(self)@,
            },
    {
        let at = match find_tab(self.tabs.as_slice(), tab_id) {
            Some(at) => at,
            None => return,
        };
        let rows: u64 = match &self.tabs[at].kind {
            TabKind::Query { state: QueryState::Running { rows_received }, .. } => *rows_received,
            _ => return,
        };
        self.set_query_state(at, QueryState::Running { rows_received: rows + row_count });
    }

    /// Ends a query with its rows and duration, or an error.
    pub fn finish_query(&mut self, tab_id: u64, result: Result<(u64, u64), String>)
        requires
            old(self).wf(),
        ensures
            final(self).wf(),
            match query_state(old(self)@, tab_id) {
                Some(_) => sets_query(
                    old(self)@,
                    final(self)@,
                    tab_id,
                    match result {
                        Ok((rows_received, duration_ms)) => QueryState::Complete {
                            rows_received,
                            duration_ms,
                        },
                        Err(error) => QueryState::Error(error),
                    },
                ),
                None => final(self)@ == old(self)@,
            },
    {
        let at = match find_tab(self.tabs.as_slice(), tab_id) {
            Some(at) => at,
            None => return,
        };
        match &self.tabs[at].kind {
            TabKind::Query { .. } => {},
            _ => return,
        }
        let state = match result {
            Ok((rows_received, duration_ms)) => QueryState::Complete {
                rows_received,
                duration_ms,
            },
            Err(error) => QueryState::Error(error),
        };
        self.set_query_state(at, state);
    }

    pub fn tabs(&self) -> (r: &[WorkspaceTab])
        ensures
            r@ == self@.tabs,
    {
        self.tabs.as_slice()
    }

    /// The active tab.
    pub fn active_tab(&self) -> (r: Option<&WorkspaceTab>)
        requires
            self.wf(),
        ensures
            r is Some == self@.active_tab is Some,
            r matches Some(tab) ==> tab.id == self@.active_tab->0 && self@.tabs.contains(*tab),
    {
        match self.active_tab {
            Some(id) => match find_tab(self.tabs.as_slice(), id) {
                Some(at) => Some(&self.tabs[at]),
                None => None,
            },
            None => None,
        }
    }

    /// Closes a tab with all that is kept for it.
    pub fn close_tab(&mut self, id: u64)
        requires
            old(self).wf(),
        ensures
            final(self).wf(),
            match tab_at(old(self)@.tabs, id) {
                Some(at) => final(self)@ == old(self)@.without_tab(at),
                None => final(self)@ == old(self)@,
            },
    {
        let ghost was = self@;
        let index = match find_tab(self.tabs.as_slice(), id) {
            Some(index) => index,
            None => return,
        };
        let mut tabs: Vec<WorkspaceTab> = Vec::new();
        std::mem::swap(&mut tabs, &mut self.tabs);
        tabs.remove(index);
        self.tabs = tabs;
        self.tab_panes.remove(&id);
        if self.active_tab == Some(id) {
            let left: usize = self.tabs.len();
            self.active_tab = if left == 0 {
                None
            } else if index < left {
                Some(self.tabs[index].id)
            } else {
                Some(self.tabs[left - 1].id)
            };
        }
        self.table_load_generations.remove(&id);
        self.table_lookup_contexts.remove(&id);
        self.reconcile_split();
        proof {
            assert(self@ =~= was.without_tab(index as int));
            lemma_without_tab_coherent(was, index as int);
        }
    }
}

proof fn lemma_without_tab_coherent(v: ModelView, at: int)
    requires
        v.coherent(),
        0 <= at < v.tabs.len(),
    ensures
        v.without_tab(at).coherent(),
        forall|id: u64| #[trigger]
            has_tab(v.without_tab(at).tabs, id) == (has_tab(v.tabs, id) && id != v.tabs[at].id),
{
    let now = v.tabs.remove(at);
    let gone = v.tabs[at].id;
    assert forall|i: int| 0 <= i < now.len() implies #[trigger] now[i] == v.tabs[if i < at {
        i
    } else {
        i + 1
    }] by {}
    assert forall|id: u64| #[trigger] has_tab(now, id) == (has_tab(v.tabs, id) && id != gone) by {
        if has_tab(now, id) {
            let i = choose|i: int| 0 <= i < now.len() && (#[trigger] now[i]).id == id;
            let o = if i < at { i } else { i + 1 };
            assert(v.tabs[o] == now[i]);
        }
        if has_tab(v.tabs, id) && id != gone {
            let i = choose|i: int| 0 <= i < v.tabs.len() && (#[trigger] v.tabs[i]).id == id;
            let o = if i < at { i } else { i - 1 };
            assert(now[o] == v.tabs[i]);
        }
    }
    if now.len() > 0 {
        assert(has_tab(now, now[0].id) && has_tab(now, now[now.len() - 1].id));
        if at < now.len() {
            assert(has_tab(now, now[at].id));
        }
    }
}

/// What putting a table tab into the loading state does: its page becomes
/// `change` of it, and the result is what to load. Nothing happens to a tab that
/// is not open or shows no table.
pub open spec fn loads_from(
    was: ModelView,
    now: ModelView,
    tab_id: u64,
    change: spec_fn(TablePage) -> TablePage,
    r: Option<(TableTarget, TablePage)>,
) -> bool {
    match tab_at(was.tabs, tab_id) {
        Some(at) => match was.tabs[at].kind {
            TabKind::Table { target, page, .. } => {
                &&& r == Some((target, change(page)))
                &&& now == was.with_tab_kind(
                    at,
                    TabKind::Table { target, state: TableLoadState::Loading, page: change(page) },
                )
            },
            _ => r is None && now == was,
        },
        None => r is None && now == was,
    }
}

/// What setting the state of an ER diagram does.
pub open spec fn sets_diagram(
    was: ModelView,
    now: ModelView,
    tab_id: u64,
    state: ErDiagramState,
) -> bool {
    match tab_at(was.tabs, tab_id) {
        Some(at) => match was.tabs[at].kind {
            TabKind::ErDiagram { target, .. } => {
                &&& now.tabs[at].kind matches TabKind::ErDiagram { target: kept, state: set }
                &&& kept@ == target@
                &&& set == state
                &&& now == was.with_tab_kind(at, now.tabs[at].kind)
            },
            _ => now == was,
        },
        None => now == was,
    }
}

/// What setting the state of a schema comparison does.
pub open spec fn sets_compare(
    was: ModelView,
    now: ModelView,
    tab_id: u64,
    state: SchemaCompareState,
) -> bool {
    match tab_at(was.tabs, tab_id) {
        Some(at) => match was.tabs[at].kind {
            TabKind::SchemaCompare { config, .. } => now == was.with_tab_kind(
                at,
                TabKind::SchemaCompare { config, state },
            ),
            _ => now == was,
        },
        None => now == was,
    }
}

/// The state of the query tab with this id.
pub open spec fn query_state(v: ModelView, tab_id: u64) -> Option<QueryState> {
    match tab_at(v.tabs, tab_id) {
        Some(at) => match v.tabs[at].kind {
            TabKind::Query { state, .. } => Some(state),
            _ => None,
        },
        None => None,
    }
}

/// What setting the state of a query does.
pub open spec fn sets_query(was: ModelView, now: ModelView, tab_id: u64, state: QueryState) -> bool {
    match tab_at(was.tabs, tab_id) {
        Some(at) => match was.tabs[at].kind {
            TabKind::Query { target, .. } => now == was.with_tab_kind(
                at,
                TabKind::Query { target, state },
            ),
            _ => now == was,
        },
        None => now == was,
    }
}

// ---------------------------------------------------------------------
// Laws
// ---------------------------------------------------------------------
/// What [`ModelView::table_tab_from`] finds.
proof fn lemma_table_tab(
    v: ModelView,
    target: TableTargetView,
    lookup: Option<LookupView>,
    from: int,
)
    requires
        0 <= from,
    ensures
        match v.table_tab_from(target, lookup, from) {
            Some(at) => from <= at < v.tabs.len() && v.shows_table(at, target, lookup)
                && forall|i: int| from <= i < at ==> !#[trigger] v.shows_table(i, target, lookup),
            None => forall|i: int|
                from <= i < v.tabs.len() ==> !#[trigger] v.shows_table(i, target, lookup),
        },
    decreases v.tabs.len() - from,
{
    if from < v.tabs.len() && !v.shows_table(from, target, lookup) {
        lemma_table_tab(v, target, lookup, from + 1);
    }
}

/// Where the first tab that shows a table stands.
proof fn lemma_table_tab_is(
    v: ModelView,
    target: TableTargetView,
    lookup: Option<LookupView>,
    from: int,
    at: int,
)
    requires
        0 <= from <= at < v.tabs.len(),
        v.shows_table(at, target, lookup),
        forall|i: int| from <= i < at ==> !#[trigger] v.shows_table(i, target, lookup),
    ensures
        v.table_tab_from(target, lookup, from) == Some(at),
{
    lemma_table_tab(v, target, lookup, from);
}

/// A table that was opened is opened no second time: opening it again, with the
/// same lookup context, leads to the same tab, adds none and loads nothing.
pub proof fn law_opening_a_table_again_finds_its_tab(
    was: ModelView,
    now: ModelView,
    later: ModelView,
    target: TableTarget,
    again: TableTarget,
    lookup: Option<TableLookupContext>,
    lookup_again: Option<TableLookupContext>,
    first: (u64, bool),
    second: (u64, bool),
)
    requires
        was.coherent(),
        was.next_tab_id < u64::MAX,
        target@ == again@,
        context_view(lookup) == context_view(lookup_again),
        opens_table(was, now, target, lookup, first),
        opens_table(now, later, again, lookup_again, second),
    ensures
        second == (first.0, false),
        later.tabs == now.tabs,
        later.active_tab == Some(first.0),
{
    let wanted = context_view(lookup);
    lemma_table_tab(was, target@, wanted, 0);
    match was.table_tab_from(target@, wanted, 0) {
        Some(at) => {
            assert(now.tabs == was.tabs && now.lookups == was.lookups);
            assert(now.shows_table(at, target@, wanted));
            assert forall|i: int| 0 <= i < at implies !#[trigger] now.shows_table(
                i,
                target@,
                wanted,
            ) by {
                assert(!was.shows_table(i, target@, wanted));
            }
            lemma_table_tab_is(now, target@, wanted, 0, at);
        },
        None => {
            let at = was.tabs.len() as int;
            let id = was.next_tab_id;
            assert(now.tabs[at].id == id);
            if was.lookups.contains_key(id) {
                assert(has_tab(was.tabs, id));
                let k = choose|k: int|
                    0 <= k < was.tabs.len() && (#[trigger] was.tabs[k]).id == id;
                assert(was.tabs[k].id < was.next_tab_id);
            }
            assert(now.shows_table(at, target@, wanted));
            assert forall|i: int| 0 <= i < at implies !#[trigger] now.shows_table(
                i,
                target@,
                wanted,
            ) by {
                assert(now.tabs[i] == was.tabs[i]);
                assert(was.tabs[i].id < id);
                assert(!was.shows_table(i, target@, wanted));
            }
            lemma_table_tab_is(now, target@, wanted, 0, at);
        },
    }
}

/// A table with another lookup context is another tab: opening it never leads to
/// a tab of the first context.
pub proof fn law_lookup_contexts_keep_their_own_tabs(
    was: ModelView,
    now: ModelView,
    target: TableTarget,
    lookup: Option<TableLookupContext>,
    r: (u64, bool),
    other: u64,
)
    requires
        was.coherent(),
        was.next_tab_id < u64::MAX,
        opens_table(was, now, target, lookup, r),
        has_tab(was.tabs, other),
        was.lookup_of(other) != context_view(lookup),
    ensures
        r.0 != other,
        now.lookup_of(other) == was.lookup_of(other),
{
    lemma_table_tab(was, target@, context_view(lookup), 0);
    let k = choose|k: int| 0 <= k < was.tabs.len() && (#[trigger] was.tabs[k]).id == other;
    assert(was.tabs[k].id < was.next_tab_id);
}

/// Opening a table, whatever is open: the tab that shows it with this very
/// lookup context becomes active and no tab is added; where there is none, one
/// tab with an id of its own is added, which loads the table where it can be
/// browsed, and keeps the context.
pub proof fn law_opening_a_table(
    was: ModelView,
    now: ModelView,
    target: TableTarget,
    lookup: Option<TableLookupContext>,
    r: (u64, bool),
)
    requires
        was.coherent(),
        was.next_tab_id < u64::MAX,
        opens_table(was, now, target, lookup, r),
    ensures
        now.active_tab == Some(r.0),
        if exists|i: int|
            0 <= i < was.tabs.len() && #[trigger] was.shows_table(
                i,
                target@,
                context_view(lookup),
            ) {
            &&& !r.1
            &&& now.tabs == was.tabs
            &&& exists|i: int|
                0 <= i < was.tabs.len() && was.tabs[i].id == r.0 && #[trigger] was.shows_table(
                    i,
                    target@,
                    context_view(lookup),
                )
        } else {
            &&& !has_tab(was.tabs, r.0)
            &&& now.tabs.len() == was.tabs.len() + 1
            &&& now.tabs.drop_last() == was.tabs
            &&& now.tabs.last().id == r.0
            &&& now.tabs.last().title@ == target.table@
            &&& now.tabs.last().kind == (TabKind::Table {
                target,
                state: TableLoadState::Loading,
                page: first_page(),
            })
            &&& r.1 == was.browse_ready(target@)
            &&& now.lookup_of(r.0) == context_view(lookup)
        },
{
    let wanted = context_view(lookup);
    lemma_table_tab(was, target@, wanted, 0);
    match was.table_tab_from(target@, wanted, 0) {
        Some(at) => {
            assert(was.shows_table(at, target@, wanted) && was.tabs[at].id == r.0);
        },
        None => {
            if has_tab(was.tabs, r.0) {
                let k = choose|k: int|
                    0 <= k < was.tabs.len() && (#[trigger] was.tabs[k]).id == r.0;
                assert(was.tabs[k].id < was.next_tab_id);
            }
            assert(!was.lookups.contains_key(r.0));
            assert(now.tabs.drop_last() =~= was.tabs);
        },
    }
}

/// Whether a step of the model, other than the start of a load of this tab,
/// leaves the number of its last load alone: the number stays for as long as the
/// tab is open, and a tab that is closed is not opened again.
pub open spec fn leaves_load(was: ModelView, now: ModelView, id: u64) -> bool {
    has_tab(now.tabs, id) ==> {
        &&& has_tab(was.tabs, id)
        &&& now.generations.contains_key(id) == was.generations.contains_key(id)
        &&& now.generation_of(id) == was.generation_of(id)
    }
}

/// Whether one model follows another in steps each of which either starts a load
/// of this tab or leaves the number of its last load alone.
pub open spec fn is_history(history: Seq<ModelView>, id: u64) -> bool {
    forall|i: int|
        #![trigger history[i]]
        0 <= i < history.len() - 1 ==> starts_load(history, i, id) || leaves_load(
            history[i],
            history[i + 1],
            id,
        )
}

/// Whether the step from the model at `i` starts a load of this tab.
pub open spec fn starts_load(history: Seq<ModelView>, i: int, id: u64) -> bool {
    &&& history[i].generation_of(id) < u64::MAX
    &&& history[i + 1] == history[i].with_next_load(id)
}

/// Whether no step starts a load of this tab.
pub open spec fn starts_none(history: Seq<ModelView>, id: u64) -> bool {
    forall|i: int| 0 <= i < history.len() - 1 ==> !#[trigger] starts_load(history, i, id)
}

/// The numbers of loads only go up while their tab is open.
proof fn lemma_numbers_go_up(history: Seq<ModelView>, id: u64)
    requires
        history.len() > 0,
        is_history(history, id),
        history[0].generations.contains_key(id),
    ensures
        has_tab(history.last().tabs, id) ==> {
            &&& has_tab(history[0].tabs, id)
            &&& history.last().generations.contains_key(id)
            &&& history.last().generation_of(id) >= history[0].generation_of(id)
            &&& (history.last().generation_of(id) == history[0].generation_of(id)) == starts_none(
                history,
                id,
            )
        },
    decreases history.len(),
{
    let n = history.len();
    if n > 1 {
        let before = history.drop_last();
        assert forall|i: int|
            #![trigger before[i]]
            0 <= i < before.len() - 1 implies starts_load(before, i, id) || leaves_load(
            before[i],
            before[i + 1],
            id,
        ) by {
            assert(before[i] == history[i] && before[i + 1] == history[i + 1]);
            if starts_load(history, i, id) {
                assert(starts_load(before, i, id));
            }
        }
        lemma_numbers_go_up(before, id);
        assert forall|i: int| 0 <= i < n - 2 implies #[trigger] starts_load(history, i, id)
            == starts_load(before, i, id) by {
            assert(before[i] == history[i] && before[i + 1] == history[i + 1]);
        }
        assert(history[n - 2] == before.last() && history[n - 1] == history.last());
        if has_tab(history.last().tabs, id) {
            if starts_load(history, n - 2, id) {
                assert(!starts_none(history, id));
            } else {
                assert(leaves_load(history[n - 2], history[n - 1], id));
                if starts_none(before, id) {
                    assert forall|i: int| 0 <= i < n - 1 implies !#[trigger] starts_load(
                        history,
                        i,
                        id,
                    ) by {
                        if i < n - 2 {
                            assert(!starts_load(before, i, id));
                        }
                    }
                } else {
                    let i = choose|i: int|
                        0 <= i < before.len() - 1 && #[trigger] starts_load(before, i, id);
                    assert(starts_load(history, i, id));
                }
            }
        }
    }
}

/// A load counts when it ends if and only if its tab is open and shows a table,
/// and no later load of the tab was begun, whatever else happened since. The
/// history is that of the model from the start of the load on.
pub proof fn law_overtaken_loads_do_not_count(
    was: ModelView,
    history: Seq<ModelView>,
    tab_id: u64,
)
    requires
        was.generation_of(tab_id) < u64::MAX,
        history.len() > 0,
        history[0] == was.with_next_load(tab_id),
        is_history(history, tab_id),
    ensures
        history.last().load_counts(tab_id, history[0].generation_of(tab_id)) == (
        history.last().is_table_tab(tab_id) && starts_none(history, tab_id)),
{
    lemma_numbers_go_up(history, tab_id);
    let now = history.last();
    lemma_tab_from(now.tabs, tab_id, 0);
    if let Some(at) = tab_at(now.tabs, tab_id) {
        assert(now.tabs[at].id == tab_id);
        assert(has_tab(now.tabs, tab_id));
    }
}

/// Every other step leaves the number of a tab's last load alone: loads of other
/// tabs that begin or end, tabs that are opened, activated, changed or closed,
/// and connections that are removed.
pub proof fn law_other_steps_leave_loads_alone(
    v: ModelView,
    id: u64,
    other: u64,
    at: int,
    tab: WorkspaceTab,
    kind: TabKind,
    result: Result<(u32, Option<u64>), String>,
    new: bool,
    connection: Seq<char>,
)
    requires
        v.coherent(),
        0 <= at < v.tabs.len(),
        other != id,
        tab.id == v.next_tab_id,
        id != v.next_tab_id,
    ensures
        leaves_load(v, v.with_next_load(other), id),
        leaves_load(v, v.with_loaded(at, result), id),
        leaves_load(v, v.with_tab_kind(at, kind), id),
        leaves_load(v, v.with_new_tab(tab), id),
        leaves_load(v, v.activated(other, new), id),
        leaves_load(v, v.without_tab(at), id),
        leaves_load(v, v.without_connection(connection), id),
{
    lemma_kind_keeps_tabs(v, at, kind, id);
    if let TabKind::Table { target, page, .. } = v.tabs[at].kind {
        match result {
            Ok((rows, total_rows)) => {
                lemma_kind_keeps_tabs(
                    v,
                    at,
                    TabKind::Table {
                        target,
                        state: TableLoadState::Loaded,
                        page: TablePage {
                            rows,
                            total_rows: if total_rows is Some {
                                total_rows
                            } else {
                                page.total_rows
                            },
                            ..page
                        },
                    },
                    id,
                );
            },
            Err(error) => {
                lemma_kind_keeps_tabs(
                    v,
                    at,
                    TabKind::Table { target, state: TableLoadState::Error(error), page },
                    id,
                );
            },
        }
    }
    let added = v.with_new_tab(tab).tabs;
    if has_tab(added, id) {
        let i = choose|i: int| 0 <= i < added.len() && (#[trigger] added[i]).id == id;
        assert(v.tabs[i].id == id);
    }
    lemma_without_tab_coherent(v, at);
    assert(has_tab(v.without_tab(at).tabs, id) ==> has_tab(v.tabs, id) && id != v.tabs[at].id);
    let left = tabs_without(v.tabs, connection);
    lemma_tabs_without(v.tabs, connection);
    if has_tab(left, id) {
        let k = choose|k: int| 0 <= k < left.len() && (#[trigger] left[k]).id == id;
        assert(v.tabs.contains(left[k]));
        let i = choose|i: int| 0 <= i < v.tabs.len() && v.tabs[i] == left[k];
        assert(v.tabs[i].id == id);
        assert(tab_ids(left).contains(id));
    }
}

proof fn lemma_kind_keeps_tabs(v: ModelView, at: int, kind: TabKind, id: u64)
    requires
        0 <= at < v.tabs.len(),
    ensures
        leaves_load(v, v.with_tab_kind(at, kind), id),
{
    let now = v.with_tab_kind(at, kind).tabs;
    if has_tab(now, id) {
        let i = choose|i: int| 0 <= i < now.len() && (#[trigger] now[i]).id == id;
        assert(v.tabs[i].id == id);
    }
}

/// Closing a tab forgets all that was kept for it, and nothing of the others.
pub proof fn law_closing_a_tab_forgets_it(v: ModelView, at: int, other: u64)
    requires
        v.coherent(),
        0 <= at < v.tabs.len(),
        has_tab(v.tabs, other),
        other != v.tabs[at].id,
    ensures
        !has_tab(v.without_tab(at).tabs, v.tabs[at].id),
        !v.without_tab(at).lookups.contains_key(v.tabs[at].id),
        !v.without_tab(at).generations.contains_key(v.tabs[at].id),
        !v.without_tab(at).tab_panes.contains_key(v.tabs[at].id),
        has_tab(v.without_tab(at).tabs, other),
        v.without_tab(at).lookup_of(other) == v.lookup_of(other),
        v.without_tab(at).generation_of(other) == v.generation_of(other),
        v.without_tab(at).pane_of(other) == v.pane_of(other),
        v.without_tab(at).next_tab_id == v.next_tab_id,
{
    lemma_without_tab_coherent(v, at);
}

/// Nothing of a removed connection is left: not the connection, its state, its
/// schemas, nor a tab that shows something of it. Every other tab stays.
pub proof fn law_removing_a_connection_leaves_nothing_of_it(v: ModelView, id: Seq<char>)
    requires
        v.coherent(),
    ensures
        ({
            let now = v.without_connection(id);
            &&& !knows(now.connections, id)
            &&& !now.states.contains_key(id)
            &&& !now.schemas.contains_key(id)
            &&& !now.expanded_connections.contains(id)
            &&& now.active_connection != Some(id)
            &&& forall|i: int|
                0 <= i < now.tabs.len() ==> !(#[trigger] now.tabs[i]).kind.references(id)
            &&& forall|i: int|
                0 <= i < v.tabs.len() && !(#[trigger] v.tabs[i]).kind.references(id)
                    ==> now.tabs.contains(v.tabs[i])
        }),
{
    lemma_tabs_without(v.tabs, id);
    lemma_connections_without(v.connections, id);
    let now = v.without_connection(id);
    if now.connections.len() > 0 {
        assert(knows(now.connections, now.connections[0].id@));
    }
}

proof fn lemma_first_tab_from(tabs: Seq<WorkspaceTab>, id: u64, from: int, at: int)
    requires
        0 <= from <= at <= tabs.len(),
        forall|i: int| from <= i < at ==> (#[trigger] tabs[i]).id != id,
        at < tabs.len() ==> tabs[at].id == id,
    ensures
        tab_from(tabs, id, from) == if at < tabs.len() {
            Some(at)
        } else {
            None
        },
    decreases tabs.len() - from,
{
    if from < at {
        assert(tabs[from].id != id);
        lemma_first_tab_from(tabs, id, from + 1, at);
    }
}

/// A tab is found at the first place where its id stands, and nowhere else.
pub proof fn law_tabs_are_found_by_their_id(tabs: Seq<WorkspaceTab>, id: u64, at: int)
    requires
        0 <= at <= tabs.len(),
        forall|i: int| 0 <= i < at ==> (#[trigger] tabs[i]).id != id,
        at < tabs.len() ==> tabs[at].id == id,
    ensures
        at < tabs.len() ==> tab_at(tabs, id) == Some(at) && has_tab(tabs, id),
        at == tabs.len() ==> tab_at(tabs, id) is None && !has_tab(tabs, id),
{
    lemma_first_tab_from(tabs, id, 0, at);
    if at < tabs.len() {
        assert(tabs[at].id == id);
    }
}

/// A model knows the state and the databases of a connection that were set, and
/// takes any other for one that is not connected and has none.
pub proof fn law_unknown_connections_are_not_connected(
    model: &AppModel,
    id: &str,
    state: &ConnectionState,
)
    requires
        model.wf(),
        call_ensures(AppModel::connection_state, (model, id), state),
    ensures
        model@.states.contains_key(id@) ==> *state == model@.states[id@],
        !model@.states.contains_key(id@) ==> *state is Disconnected,
        model@.schemas.contains_key(id@) ==> model@.databases_of(id@) == model@.schemas[id@]@,
        !model@.schemas.contains_key(id@) ==> model@.databases_of(id@).len() == 0,
{
}

/// A browse can start exactly where the connection is up and the table is known.
pub proof fn law_browses_need_a_connection_and_a_table(v: ModelView, target: TableTargetView)
    ensures
        v.browse_ready(target) <==> v.states.contains_key(target.connection_id)
            && v.states[target.connection_id] is Connected && v.table_of(target) is Some,
        !v.schemas.contains_key(target.connection_id) ==> v.table_of(target) is None,
        v.schemas.contains_key(target.connection_id) ==> v.table_of(target) == table_at(
            v.schemas[target.connection_id]@,
            target.database,
            target.schema,
            target.table,
        ),
{
}

/// A tab that is made active is the active one, and that of its pane: without a
/// split there is the first pane alone, a new tab goes to the focused pane, and
/// any other stays in its own.
pub proof fn law_the_active_tab_is_in_its_pane(v: ModelView, id: u64, new: bool)
    requires
        v.coherent(),
    ensures
        ({
            let now = v.activated(id, new);
            let pane = if v.split is None {
                0u8
            } else if new {
                v.focused_pane
            } else if v.tab_panes.contains_key(id) {
                v.tab_panes[id]
            } else {
                0u8
            };
            &&& now.active_tab == Some(id)
            &&& now.focused_pane == pane
            &&& now.pane_active.len() == 2
            &&& now.pane_active[pane as int] == Some(id)
            &&& now.pane_active[1 - pane] == v.pane_active[1 - pane]
            &&& v.split is Some && new ==> now.tab_panes.contains_key(id) && now.tab_panes[id] == pane
            &&& v.split is None || !new ==> now.tab_panes == v.tab_panes
            &&& now.tabs == v.tabs
            &&& now.lookups == v.lookups
            &&& now.generations == v.generations
        }),
{
    if v.tab_panes.contains_key(id) {
        assert(v.tab_panes[id] <= 1);
    }
}

/// A new tab stands behind the others, is active, and takes the next id.
pub proof fn law_new_tabs_stand_last(v: ModelView, tab: WorkspaceTab)
    requires
        v.next_tab_id < u64::MAX,
    ensures
        v.with_new_tab(tab).tabs == v.tabs.push(tab),
        v.with_new_tab(tab).next_tab_id == v.next_tab_id + 1,
        v.with_new_tab(tab).active_tab == Some(tab.id),
        v.with_new_tab(tab).connections == v.connections,
        v.with_new_tab(tab).states == v.states,
{
}

/// Closing a tab takes it alone out. Where it was active, the one behind it is, or
/// else the one before it.
pub proof fn law_closing_a_tab_goes_to_its_neighbour(v: ModelView, at: int)
    requires
        v.coherent(),
        0 <= at < v.tabs.len(),
    ensures
        ({
            let now = v.without_tab(at);
            let id = v.tabs[at].id;
            &&& now.tabs == v.tabs.take(at) + v.tabs.skip(at + 1)
            &&& v.active_tab != Some(id) ==> now.active_tab == v.active_tab
            &&& v.active_tab == Some(id) && at + 1 < v.tabs.len() ==> now.active_tab == Some(
                v.tabs[at + 1].id,
            )
            &&& v.active_tab == Some(id) && at + 1 == v.tabs.len() && at > 0 ==> now.active_tab
                == Some(v.tabs[at - 1].id)
            &&& v.tabs.len() == 1 && v.active_tab == Some(id) ==> now.active_tab is None
            &&& !now.lookups.contains_key(id)
            &&& !now.generations.contains_key(id)
            &&& !now.tab_panes.contains_key(id)
            &&& now.connections == v.connections
            &&& now.next_tab_id == v.next_tab_id
        }),
{
    let now = v.without_tab(at);
    let id = v.tabs[at].id;
    assert(v.tabs.remove(at) =~= v.tabs.take(at) + v.tabs.skip(at + 1));
}

proof fn lemma_tabs_without_parts(
    before: Seq<WorkspaceTab>,
    tab: WorkspaceTab,
    after: Seq<WorkspaceTab>,
    id: Seq<char>,
)
    ensures
        tabs_without(before + seq![tab] + after, id) == tabs_without(before, id)
            + (if tab.kind.references(id) {
            Seq::empty()
        } else {
            seq![tab]
        }) + tabs_without(after, id),
    decreases after.len(),
{
    let all = before + seq![tab] + after;
    let mid = if tab.kind.references(id) {
        Seq::empty()
    } else {
        seq![tab]
    };
    if after.len() > 0 {
        lemma_tabs_without_parts(before, tab, after.drop_last(), id);
        assert(all.drop_last() =~= before + seq![tab] + after.drop_last());
        assert(all.last() == after.last());
    } else {
        assert(all.drop_last() =~= before);
        assert(all.last() == tab);
    }
    assert(tabs_without(all, id) =~= tabs_without(before, id) + mid + tabs_without(after, id));
}

proof fn lemma_connections_without_parts(
    before: Seq<ConnectionConfig>,
    config: ConnectionConfig,
    after: Seq<ConnectionConfig>,
    id: Seq<char>,
)
    ensures
        connections_without(before + seq![config] + after, id) == connections_without(before, id)
            + (if config.id@ == id {
            Seq::empty()
        } else {
            seq![config]
        }) + connections_without(after, id),
    decreases after.len(),
{
    let all = before + seq![config] + after;
    let mid = if config.id@ == id {
        Seq::empty()
    } else {
        seq![config]
    };
    if after.len() > 0 {
        lemma_connections_without_parts(before, config, after.drop_last(), id);
        assert(all.drop_last() =~= before + seq![config] + after.drop_last());
        assert(all.last() == after.last());
    } else {
        assert(all.drop_last() =~= before);
        assert(all.last() == config);
    }
    assert(connections_without(all, id) =~= connections_without(before, id) + mid
        + connections_without(after, id));
}

/// Removing a connection takes out its tabs and itself, and keeps every other tab
/// and connection in its place.
pub proof fn law_other_tabs_and_connections_stay(
    before: Seq<WorkspaceTab>,
    tab: WorkspaceTab,
    after: Seq<WorkspaceTab>,
    front: Seq<ConnectionConfig>,
    config: ConnectionConfig,
    back: Seq<ConnectionConfig>,
    id: Seq<char>,
)
    ensures
        tabs_without(Seq::empty(), id).len() == 0,
        connections_without(Seq::empty(), id).len() == 0,
        tab.kind.references(id) ==> tabs_without(before + seq![tab] + after, id) == tabs_without(
            before,
            id,
        ) + tabs_without(after, id),
        !tab.kind.references(id) ==> tabs_without(before + seq![tab] + after, id) == tabs_without(
            before,
            id,
        ) + seq![tab] + tabs_without(after, id),
        config.id@ == id ==> connections_without(front + seq![config] + back, id)
            == connections_without(front, id) + connections_without(back, id),
        config.id@ != id ==> connections_without(front + seq![config] + back, id)
            == connections_without(front, id) + seq![config] + connections_without(back, id),
{
    lemma_tabs_without_parts(before, tab, after, id);
    lemma_connections_without_parts(front, config, back, id);
    assert(tabs_without(before, id) + Seq::<WorkspaceTab>::empty() =~= tabs_without(before, id));
    assert(connections_without(front, id) + Seq::<ConnectionConfig>::empty()
        =~= connections_without(front, id));
}

/// After a connection is removed the others are as they were, and the first of them
/// is active where it was.
pub proof fn law_the_first_takes_the_place_of_a_removed_connection(
    v: ModelView,
    id: Seq<char>,
    other: Seq<char>,
)
    requires
        other != id,
    ensures
        ({
            let now = v.without_connection(id);
            &&& now.connections == connections_without(v.connections, id)
            &&& now.tabs == tabs_without(v.tabs, id)
            &&& v.active_connection != Some(id) ==> now.active_connection == v.active_connection
            &&& v.active_connection == Some(id) && now.connections.len() > 0
                ==> now.active_connection == Some(now.connections[0].id@)
            &&& v.active_connection == Some(id) && now.connections.len() == 0
                ==> now.active_connection is None
            &&& v.active_tab is Some && has_tab(now.tabs, v.active_tab->0) ==> now.active_tab
                == v.active_tab
            &&& v.active_tab is Some && !has_tab(now.tabs, v.active_tab->0) && now.tabs.len() > 0
                ==> now.active_tab == Some(now.tabs[0].id)
            &&& now.states.contains_key(other) == v.states.contains_key(other)
            &&& now.schemas.contains_key(other) == v.schemas.contains_key(other)
            &&& now.expanded_connections.contains(other) == v.expanded_connections.contains(other)
            &&& !now.states.contains_key(id)
            &&& !now.schemas.contains_key(id)
            &&& !now.expanded_connections.contains(id)
        }),
{
}

/// A connection is saved in the place of the first one with its id, or behind the
/// others.
pub proof fn law_saved_connections_keep_their_place(
    list: Seq<ConnectionConfig>,
    config: ConnectionConfig,
    at: int,
)
    requires
        0 <= at <= list.len(),
        forall|i: int| 0 <= i < at ==> (#[trigger] list[i]).id@ != config.id@,
        at < list.len() ==> list[at].id@ == config.id@,
    ensures
        at < list.len() ==> upserted(list, config) == list.update(at, config),
        at == list.len() ==> upserted(list, config) == list.push(config),
{
    if at < list.len() {
        assert(first_with_id(list, config.id@, at));
        lemma_upserted(list, config, at);
        assert(list[at].id@ == config.id@);
    }
}

/// A connection can be opened where it is known and down, and opened again where
/// it is neither on its way up nor down.
pub proof fn law_connections_are_opened_when_down(v: ModelView, id: Seq<char>)
    ensures
        v.can_connect(id) <==> knows(v.connections, id) && (v.state_of(id) is Disconnected
            || v.state_of(id) is Error),
        v.can_reconnect(id) <==> knows(v.connections, id) && !(v.state_of(id) is Connecting)
            && !(v.state_of(id) is Disconnecting),
        v.can_connect(id) ==> v.can_reconnect(id),
{
}

/// A connection that came up is connected and has the databases that were read;
/// one that failed has the error and none.
pub proof fn law_attempts_end_up_or_in_error(
    v: ModelView,
    id: Seq<char>,
    databases: Vec<Database>,
    error: String,
)
    ensures
        v.connected(id, Ok(databases)).state_of(id) is Connected,
        v.connected(id, Ok(databases)).databases_of(id) == databases@,
        v.connected(id, Err(error)).state_of(id) == ConnectionState::Error(error),
        v.connected(id, Err(error)).databases_of(id).len() == 0,
        v.connected(id, Err(error)).expanded_nodes == v.expanded_nodes,
        v.connected(id, Ok(databases)).tabs == v.tabs,
        v.connected(id, Err(error)).tabs == v.tabs,
{
}

/// A finished load sets the rows of its page and the total where one came, and
/// keeps the table and where the page starts. A failed one keeps the page.
pub proof fn law_finished_loads_keep_the_page(
    v: ModelView,
    at: int,
    target: TableTarget,
    page: TablePage,
    rows: u32,
    total: Option<u64>,
    error: String,
)
    requires
        0 <= at < v.tabs.len(),
        v.tabs[at].kind matches TabKind::Table { target: t, page: p, .. } && t == target && p == page,
    ensures
        v.with_loaded(at, Ok((rows, total))).tabs[at].kind matches TabKind::Table {
            target: t,
            state,
            page: p,
        } && t == target && state is Loaded && p.rows == rows && p.offset == page.offset && p.limit
            == page.limit && (total is Some ==> p.total_rows == total) && (total is None
            ==> p.total_rows == page.total_rows),
        v.with_loaded(at, Err(error)).tabs[at].kind matches TabKind::Table { target: t, state, page: p }
            && t == target && state == TableLoadState::Error(error) && p == page,
        v.with_loaded(at, Ok((rows, total))).tabs[at].id == v.tabs[at].id,
        v.with_loaded(at, Ok((rows, total))).tabs[at].title == v.tabs[at].title,
        v.with_loaded(at, Ok((rows, total))).tabs.len() == v.tabs.len(),
        v.with_loaded(at, Ok((rows, total))).active_tab == v.active_tab,
        forall|other: int|
            0 <= other < v.tabs.len() && other != at ==> #[trigger] v.with_loaded(
                at,
                Ok((rows, total)),
            ).tabs[other] == v.tabs[other],
{
}

/// The first page starts at the first row, has room for 500, and nothing is known
/// of the rows.
pub proof fn law_first_pages()
    ensures
        first_page().offset == 0,
        first_page().limit == 500,
        first_page().rows == 0,
        first_page().total_rows is None,
{
}

/// A diagram of one schema is called by it, and any other by its database.
pub proof fn law_diagrams_are_called_by_what_they_show(target: ErDiagramTarget)
    ensures
        target.schemas matches Some(schemas) ==> (schemas@.len() == 1 ==> ModelView::diagram_title(
            target,
        ) == "ER: "@ + schemas@[0]@),
        target.schemas matches Some(schemas) ==> (schemas@.len() != 1 ==> ModelView::diagram_title(
            target,
        ) == "ER: "@ + target.database@),
        target.schemas is None ==> ModelView::diagram_title(target) == "ER: "@ + target.database@,
{
}

/// A structure folder shows open until it is closed, and any other node shows
/// closed until it is opened.
pub proof fn law_nodes_show_as_they_were_left(v: ModelView, node: NodeView)
    ensures
        node is RelationGroup ==> (v.shows_expanded(node) <==> !v.collapsed_folders.contains(node)),
        !(node is RelationGroup) ==> (v.shows_expanded(node) <==> v.expanded_nodes.contains(node)),
        v.toggled(node).shows_expanded(node) != v.shows_expanded(node),
        v.toggled(node).tabs == v.tabs,
        v.toggled(node).connections == v.connections,
{
}

/// Putting a table into the loading state keeps its table and changes its page as
/// asked; setting the state of another tab keeps what it shows.
pub proof fn law_states_change_on_their_tab_alone(
    was: ModelView,
    now: ModelView,
    tab_id: u64,
    change: spec_fn(TablePage) -> TablePage,
    r: Option<(TableTarget, TablePage)>,
    other: int,
)
    requires
        loads_from(was, now, tab_id, change, r),
        0 <= other < was.tabs.len(),
        was.tabs[other].id != tab_id,
    ensures
        now.tabs.len() == was.tabs.len(),
        now.tabs[other] == was.tabs[other],
        now.active_tab == was.active_tab,
        now.generations == was.generations,
        r matches Some((target, page)) ==> (tab_at(was.tabs, tab_id) matches Some(at)
            && was.tabs[at].kind matches TabKind::Table { target: t, page: p, .. } && t == target
            && page == change(p) && now.tabs[at].kind == (TabKind::Table {
            target,
            state: TableLoadState::Loading,
            page,
        })),
{
    lemma_tab_from(was.tabs, tab_id, 0);
}

/// The tab of a diagram or of a comparison is found at the first place where it is
/// shown.
pub proof fn law_open_diagrams_and_comparisons_are_found(
    v: ModelView,
    target: ErDiagramTarget,
    config: SchemaCompareConfig,
    from: int,
)
    requires
        0 <= from,
    ensures
        match v.diagram_tab_from(target, from) {
            Some(at) => {
                &&& from <= at < v.tabs.len()
                &&& v.tabs[at].kind matches TabKind::ErDiagram { target: open, .. }
                &&& open@ == target@
                &&& forall|i: int|
                    from <= i < at ==> !((#[trigger] v.tabs[i]).kind matches TabKind::ErDiagram {
                        target: open,
                        ..
                    } && open@ == target@)
            },
            None => forall|i: int|
                from <= i < v.tabs.len() ==> !((#[trigger] v.tabs[i]).kind matches TabKind::ErDiagram {
                    target: open,
                    ..
                } && open@ == target@),
        },
        match v.compare_tab_from(config, from) {
            Some(at) => {
                &&& from <= at < v.tabs.len()
                &&& v.tabs[at].kind matches TabKind::SchemaCompare { config: open, .. }
                &&& open.source@ == config.source@
                &&& open.target@ == config.target@
                &&& forall|i: int|
                    from <= i < at ==> !((#[trigger] v.tabs[i]).kind matches TabKind::SchemaCompare {
                        config: open,
                        ..
                    } && open@ == config@)
            },
            None => forall|i: int|
                from <= i < v.tabs.len() ==> !((
                #[trigger] v.tabs[i]).kind matches TabKind::SchemaCompare { config: open, .. } && open@
                    == config@),
        },
    decreases v.tabs.len() - from,
{
    if from < v.tabs.len() {
        law_open_diagrams_and_comparisons_are_found(v, target, config, from + 1);
    }
}

/// The state of a query, a diagram or a comparison is set on its tab, which shows
/// what it showed; no other tab changes, and none of another kind.
pub proof fn law_set_states_are_shown(
    was: ModelView,
    query: ModelView,
    diagram: ModelView,
    compare: ModelView,
    tab_id: u64,
    state: QueryState,
    graph: ErDiagramState,
    result: SchemaCompareState,
    at: int,
    other: int,
)
    requires
        sets_query(was, query, tab_id, state),
        sets_diagram(was, diagram, tab_id, graph),
        sets_compare(was, compare, tab_id, result),
        tab_at(was.tabs, tab_id) == Some(at),
        0 <= other < was.tabs.len(),
        other != at,
    ensures
        was.tabs[at].kind matches TabKind::Query { target, .. } ==> query.tabs[at].kind
            == (TabKind::Query { target, state }) && query_state(query, tab_id) == Some(state),
        was.tabs[at].kind matches TabKind::ErDiagram { target, .. } ==> (
        diagram.tabs[at].kind matches TabKind::ErDiagram { target: kept, state: now } && kept@
            == target@ && now == graph),
        was.tabs[at].kind matches TabKind::SchemaCompare { config, .. } ==> compare.tabs[at].kind
            == (TabKind::SchemaCompare { config, state: result }),
        query.tabs[other] == was.tabs[other],
        diagram.tabs[other] == was.tabs[other],
        compare.tabs[other] == was.tabs[other],
        !(was.tabs[at].kind is Query) ==> query == was,
        !(was.tabs[at].kind is ErDiagram) ==> diagram == was,
        !(was.tabs[at].kind is SchemaCompare) ==> compare == was,
{
    lemma_tab_from(was.tabs, tab_id, 0);
    if was.tabs[at].kind is Query {
        lemma_first_tab_from(query.tabs, tab_id, 0, at);
    }
}

} // verus!
