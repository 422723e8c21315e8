//! The nodes of the schema tree in the sidebar, and sets of them.
use vstd::prelude::*;

use crate::schema::{Database, Schema};
use crate::text::same_text;
use crate::workspace_model::TableTarget;

verus! {

/// A node of the tree that can be expanded.
#[derive(PartialEq, Eq, Hash, Debug)]
pub enum SchemaNode {
    Database { connection_id: String, database: String },
    Schema { connection_id: String, database: String, schema: String },
    /// The tables or the views of a schema.
    Group { connection_id: String, database: String, schema: String, kind: &'static str },
    /// A table row. Expanding it reveals its structure folders.
    Relation { connection_id: String, database: String, schema: String, table: String },
    /// A structure folder under a table: `columns`, `keys`, `indexes`, or
    /// `defaults`.
    RelationGroup {
        connection_id: String,
        database: String,
        schema: String,
        table: String,
        kind: &'static str,
    },
}

/// The model of [`SchemaNode`].
pub enum NodeView {
    Database { connection_id: Seq<char>, database: Seq<char> },
    Schema { connection_id: Seq<char>, database: Seq<char>, schema: Seq<char> },
    Group {
        connection_id: Seq<char>,
        database: Seq<char>,
        schema: Seq<char>,
        kind: Seq<char>,
    },
    Relation {
        connection_id: Seq<char>,
        database: Seq<char>,
        schema: Seq<char>,
        table: Seq<char>,
    },
    RelationGroup {
        connection_id: Seq<char>,
        database: Seq<char>,
        schema: Seq<char>,
        table: Seq<char>,
        kind: Seq<char>,
    },
}

impl View for SchemaNode {
    type V = NodeView;

    open spec fn view(&self) -> NodeView {
        match self {
            SchemaNode::Database { connection_id, database } => NodeView::Database {
                connection_id: connection_id@,
                database: database@,
            },
            SchemaNode::Schema { connection_id, database, schema } => NodeView::Schema {
                connection_id: connection_id@,
                database: database@,
                schema: schema@,
            },
            SchemaNode::Group { connection_id, database, schema, kind } => NodeView::Group {
                connection_id: connection_id@,
                database: database@,
                schema: schema@,
                kind: kind@,
            },
            SchemaNode::Relation { connection_id, database, schema, table } => NodeView::Relation {
                connection_id: connection_id@,
                database: database@,
                schema: schema@,
                table: table@,
            },
            SchemaNode::RelationGroup {
                connection_id,
                database,
                schema,
                table,
                kind,
            } => NodeView::RelationGroup {
                connection_id: connection_id@,
                database: database@,
                schema: schema@,
                table: table@,
                kind: kind@,
            },
        }
    }
}

impl SchemaNode {
    /// The node that tracks whether a table row is expanded.
    pub fn relation(target: &TableTarget) -> (r: Self)
        ensures
            r@ == (NodeView::Relation {
                connection_id: target.connection_id@,
                database: target.database@,
                schema: target.schema@,
                table: target.table@,
            }),
    {
        SchemaNode::Relation {
            connection_id: target.connection_id.clone(),
            database: target.database.clone(),
            schema: target.schema.clone(),
            table: target.table.clone(),
        }
    }

    /// The node that tracks one structure folder under a table.
    pub fn relation_group(target: &TableTarget, kind: &'static str) -> (r: Self)
        ensures
            r@ == (NodeView::RelationGroup {
                connection_id: target.connection_id@,
                database: target.database@,
                schema: target.schema@,
                table: target.table@,
                kind: kind@,
            }),
    {
        SchemaNode::RelationGroup {
            connection_id: target.connection_id.clone(),
            database: target.database.clone(),
            schema: target.schema.clone(),
            table: target.table.clone(),
            kind,
        }
    }

    pub fn same(&self, other: &Self) -> (r: bool)
        ensures
            r == (self@ == other@),
    {
        match (self, other) {
            (
                SchemaNode::Database { connection_id: a, database: b },
                SchemaNode::Database { connection_id: x, database: y },
            ) => same_text(a.as_str(), x.as_str()) && same_text(b.as_str(), y.as_str()),
            (
                SchemaNode::Schema { connection_id: a, database: b, schema: c },
                SchemaNode::Schema { connection_id: x, database: y, schema: z },
            ) => same_text(a.as_str(), x.as_str()) && same_text(b.as_str(), y.as_str())
                && same_text(c.as_str(), z.as_str()),
            (
                SchemaNode::Group { connection_id: a, database: b, schema: c, kind: d },
                SchemaNode::Group { connection_id: x, database: y, schema: z, kind: w },
            ) => same_text(a.as_str(), x.as_str()) && same_text(b.as_str(), y.as_str())
                && same_text(c.as_str(), z.as_str()) && same_text(*d, *w),
            (
                SchemaNode::Relation { connection_id: a, database: b, schema: c, table: d },
                SchemaNode::Relation { connection_id: x, database: y, schema: z, table: w },
            ) => same_text(a.as_str(), x.as_str()) && same_text(b.as_str(), y.as_str())
                && same_text(c.as_str(), z.as_str()) && same_text(d.as_str(), w.as_str()),
            (
                SchemaNode::RelationGroup {
                    connection_id: a,
                    database: b,
                    schema: c,
                    table: d,
                    kind: e,
                },
                SchemaNode::RelationGroup {
                    connection_id: x,
                    database: y,
                    schema: z,
                    table: w,
                    kind: v,
                },
            ) => same_text(a.as_str(), x.as_str()) && same_text(b.as_str(), y.as_str())
                && same_text(c.as_str(), z.as_str()) && same_text(d.as_str(), w.as_str())
                && same_text(*e, *v),
            _ => false,
        }
    }
}

// ---------------------------------------------------------------------
// Sets of nodes
// ---------------------------------------------------------------------
/// A set of nodes.
pub struct NodeSet {
    nodes: Vec<SchemaNode>,
}

impl View for NodeSet {
    type V = Set<NodeView>;

    closed spec fn view(&self) -> Set<NodeView> {
        Set::new(
            |n: NodeView|
                exists|i: int| 0 <= i < self.nodes@.len() && (#[trigger] self.nodes@[i])@ == n,
        )
    }
}

impl NodeSet {
    /// No node is held twice.
    pub closed spec fn wf(self) -> bool {
        forall|i: int, j: int|
            0 <= i < j < self.nodes@.len() ==> (#[trigger] self.nodes@[i])@ != (
            #[trigger] self.nodes@[j])@
    }

    pub fn new() -> (r: Self)
        ensures
            r.wf(),
            r@ == Set::<NodeView>::empty(),
    {
        let r = NodeSet { nodes: Vec::new() };
        assert(r@ =~= Set::<NodeView>::empty());
        r
    }

    fn position(&self, node: &SchemaNode) -> (r: Option<usize>)
        ensures
            r is Some == self@.contains(node@),
            r matches Some(at) ==> at < self.nodes@.len() && self.nodes@[at as int]@ == node@,
    {
        let mut i: usize = 0;
        while i < self.nodes.len()
            invariant
                i <= self.nodes@.len(),
                forall|j: int| 0 <= j < i ==> (#[trigger] self.nodes@[j])@ != node@,
            decreases self.nodes@.len() - i,
        {
            if self.nodes[i].same(node) {
                return Some(i);
            }
            i += 1;
        }
        None
    }

    pub fn contains(&self, node: &SchemaNode) -> (r: bool)
        ensures
            r == self@.contains(node@),
    {
        self.position(node).is_some()
    }

    pub fn insert(&mut self, node: SchemaNode)
        requires
            old(self).wf(),
        ensures
            final(self).wf(),
            final(self)@ == old(self)@.insert(node@),
    {
        if self.position(&node).is_none() {
            let ghost was = *self;
            self.nodes.push(node);
            proof {
                let now = *self;
                assert forall|n: NodeView| #[trigger]
                    now@.contains(n) == was@.insert(node@).contains(n) by {
                    if now@.contains(n) {
                        let i = choose|i: int|
                            0 <= i < now.nodes@.len() && (#[trigger] now.nodes@[i])@ == n;
                        if i < was.nodes@.len() {
                            assert(was.nodes@[i]@ == n);
                        }
                    }
                    if was@.contains(n) {
                        let i = choose|i: int|
                            0 <= i < was.nodes@.len() && (#[trigger] was.nodes@[i])@ == n;
                        assert(now.nodes@[i]@ == n);
                    }
                    assert(now.nodes@[was.nodes@.len() as int]@ == node@);
                }
                assert(now@ =~= was@.insert(node@));
                assert forall|i: int, j: int| 0 <= i < j < now.nodes@.len() implies (
                #[trigger] now.nodes@[i])@ != (#[trigger] now.nodes@[j])@ by {
                    if j == was.nodes@.len() {
                        assert(now.nodes@[i] == was.nodes@[i]);
                    } else {
                        assert(now.nodes@[i] == was.nodes@[i] && now.nodes@[j] == was.nodes@[j]);
                    }
                }
            }
        } else {
            assert(self@ =~= self@.insert(node@));
        }
    }

    /// Removes a node. The result says whether it was there.
    pub fn remove(&mut self, node: &SchemaNode) -> (r: bool)
        requires
            old(self).wf(),
        ensures
            final(self).wf(),
            r == old(self)@.contains(node@),
            final(self)@ == old(self)@.remove(node@),
    {
        match self.position(node) {
            Some(at) => {
                let ghost was = *self;
                self.nodes.remove(at);
                proof {
                    let now = *self;
                    assert forall|n: NodeView| #[trigger]
                        now@.contains(n) == was@.remove(node@).contains(n) by {
                        if now@.contains(n) {
                            let i = choose|i: int|
                                0 <= i < now.nodes@.len() && (#[trigger] now.nodes@[i])@ == n;
                            let o = if i < at { i } else { i + 1 };
                            assert(was.nodes@[o] == now.nodes@[i]);
                        }
                        if was@.contains(n) && n != node@ {
                            let i = choose|i: int|
                                0 <= i < was.nodes@.len() && (#[trigger] was.nodes@[i])@ == n;
                            let o = if i < at { i } else { i - 1 };
                            assert(now.nodes@[o] == was.nodes@[i]);
                        }
                    }
                    assert(now@ =~= was@.remove(node@));
                    assert forall|i: int, j: int| 0 <= i < j < now.nodes@.len() implies (
                    #[trigger] now.nodes@[i])@ != (#[trigger] now.nodes@[j])@ by {
                        let oi = if i < at { i } else { i + 1 };
                        let oj = if j < at { j } else { j + 1 };
                        assert(now.nodes@[i] == was.nodes@[oi] && now.nodes@[j] == was.nodes@[oj]);
                    }
                }
                true
            },
            None => {
                assert(self@ =~= self@.remove(node@));
                false
            },
        }
    }
}

// ---------------------------------------------------------------------
// What a new connection opens
// ---------------------------------------------------------------------
/// Whether `node` is a schema or one of its two groups.
pub open spec fn of_schema(
    id: Seq<char>,
    database: Seq<char>,
    schema: Seq<char>,
    node: NodeView,
) -> bool {
    ||| node == (NodeView::Schema { connection_id: id, database, schema })
    ||| node == (NodeView::Group { connection_id: id, database, schema, kind: "tables"@ })
    ||| node == (NodeView::Group { connection_id: id, database, schema, kind: "views"@ })
}

/// Whether `node` is a database, one of its first `n` schemas, or a group of one.
pub open spec fn of_database(id: Seq<char>, database: Database, n: int, node: NodeView) -> bool {
    ||| node == (NodeView::Database { connection_id: id, database: database.name@ })
    ||| exists|s: int|
        0 <= s < n && of_schema(
            id,
            database.name@,
            (#[trigger] database.schemas@[s]).name@,
            node,
        )
}

/// Whether `node` belongs to a default database among the first `n`.
pub open spec fn of_defaults(id: Seq<char>, databases: Seq<Database>, n: int, node: NodeView) -> bool {
    exists|d: int|
        0 <= d < n && (#[trigger] databases[d]).is_default && of_database(
            id,
            databases[d],
            databases[d].schemas@.len() as int,
            node,
        )
}

/// The nodes of the default databases: the databases, their schemas, and the
/// groups of these.
pub open spec fn default_nodes(id: Seq<char>, databases: Seq<Database>) -> Set<NodeView> {
    Set::new(|node: NodeView| of_defaults(id, databases, databases.len() as int, node))
}

fn open_schema(nodes: &mut NodeSet, id: &str, database: &str, schema: &str)
    requires
        old(nodes).wf(),
    ensures
        final(nodes).wf(),
        forall|n: NodeView| #[trigger]
            final(nodes)@.contains(n) == (old(nodes)@.contains(n) || of_schema(
                id@,
                database@,
                schema@,
                n,
            )),
{
    nodes.insert(
        SchemaNode::Schema {
            connection_id: id.to_owned(),
            database: database.to_owned(),
            schema: schema.to_owned(),
        },
    );
    nodes.insert(
        SchemaNode::Group {
            connection_id: id.to_owned(),
            database: database.to_owned(),
            schema: schema.to_owned(),
            kind: "tables",
        },
    );
    nodes.insert(
        SchemaNode::Group {
            connection_id: id.to_owned(),
            database: database.to_owned(),
            schema: schema.to_owned(),
            kind: "views",
        },
    );
}

fn open_database(nodes: &mut NodeSet, id: &str, database: &Database)
    requires
        old(nodes).wf(),
    ensures
        final(nodes).wf(),
        forall|n: NodeView| #[trigger]
            final(nodes)@.contains(n) == (old(nodes)@.contains(n) || of_database(
                id@,
                *database,
                database.schemas@.len() as int,
                n,
            )),
{
    nodes.insert(
        SchemaNode::Database { connection_id: id.to_owned(), database: database.name.clone() },
    );
    let ghost was = old(nodes)@;
    let mut i: usize = 0;
    while i < database.schemas.len()
        invariant
            i <= database.schemas@.len(),
            nodes.wf(),
            forall|n: NodeView| #[trigger]
                nodes@.contains(n) == (was.contains(n) || of_database(id@, *database, i as int, n)),
        decreases database.schemas@.len() - i,
    {
        let ghost before = nodes@;
        open_schema(nodes, id, database.name.as_str(), database.schemas[i].name.as_str());
        proof {
            assert forall|n: NodeView| #[trigger]
                nodes@.contains(n) == (was.contains(n) || of_database(
                    id@,
                    *database,
                    i + 1,
                    n,
                )) by {
                assert(before.contains(n) == (was.contains(n) || of_database(
                    id@,
                    *database,
                    i as int,
                    n,
                )));
                let here = database.schemas@[i as int].name@;
                if of_database(id@, *database, i + 1, n) && !of_database(
                    id@,
                    *database,
                    i as int,
                    n,
                ) {
                    let s = choose|s: int|
                        0 <= s < i + 1 && of_schema(
                            id@,
                            database.name@,
                            (#[trigger] database.schemas@[s]).name@,
                            n,
                        );
                    assert(s == i);
                }
                if of_schema(id@, database.name@, here, n) {
                    assert(of_database(id@, *database, i + 1, n));
                }
                if of_database(id@, *database, i as int, n) {
                    assert(of_database(id@, *database, i + 1, n));
                }
            }
        }
        i += 1;
    }
}

/// Expands the default databases of a new connection down to their groups.
pub fn open_defaults(nodes: &mut NodeSet, id: &str, databases: &[Database])
    requires
        old(nodes).wf(),
    ensures
        final(nodes).wf(),
        final(nodes)@ == old(nodes)@.union(default_nodes(id@, databases@)),
{
    let ghost was = nodes@;
    let mut i: usize = 0;
    while i < databases.len()
        invariant
            i <= databases@.len(),
            nodes.wf(),
            forall|n: NodeView| #[trigger]
                nodes@.contains(n) == (was.contains(n) || of_defaults(
                    id@,
                    databases@,
                    i as int,
                    n,
                )),
        decreases databases@.len() - i,
    {
        let ghost before = nodes@;
        let database = &databases[i];
        if database.is_default {
            open_database(nodes, id, database);
        }
        proof {
            assert forall|n: NodeView| #[trigger]
                nodes@.contains(n) == (was.contains(n) || of_defaults(
                    id@,
                    databases@,
                    i + 1,
                    n,
                )) by {
                assert(before.contains(n) == (was.contains(n) || of_defaults(
                    id@,
                    databases@,
                    i as int,
                    n,
                )));
                let all = database.schemas@.len() as int;
                if of_defaults(id@, databases@, i + 1, n) && !of_defaults(
                    id@,
                    databases@,
                    i as int,
                    n,
                ) {
                    let d = choose|d: int|
                        0 <= d < i + 1 && (#[trigger] databases@[d]).is_default && of_database(
                            id@,
                            databases@[d],
                            databases@[d].schemas@.len() as int,
                            n,
                        );
                    assert(d == i);
                }
                if database.is_default && of_database(id@, *database, all, n) {
                    assert(databases@[i as int] == *database);
                    assert(of_defaults(id@, databases@, i + 1, n));
                }
                if of_defaults(id@, databases@, i as int, n) {
                    assert(of_defaults(id@, databases@, i + 1, n));
                }
            }
        }
        i += 1;
    }
    assert(nodes@ =~= was.union(default_nodes(id@, databases@)));
}

/// Two nodes are the same exactly where they are of one kind and all their names
/// are the same.
pub proof fn law_nodes_are_told_by_their_names(a: &SchemaNode, b: &SchemaNode, r: bool)
    requires
        call_ensures(SchemaNode::same, (a, b), r),
    ensures
        r <==> match (*a, *b) {
            (
                SchemaNode::Database { connection_id, database },
                SchemaNode::Database { connection_id: c, database: d },
            ) => connection_id@ == c@ && database@ == d@,
            (
                SchemaNode::Schema { connection_id, database, schema },
                SchemaNode::Schema { connection_id: c, database: d, schema: s },
            ) => connection_id@ == c@ && database@ == d@ && schema@ == s@,
            (
                SchemaNode::Group { connection_id, database, schema, kind },
                SchemaNode::Group { connection_id: c, database: d, schema: s, kind: k },
            ) => connection_id@ == c@ && database@ == d@ && schema@ == s@ && kind@ == k@,
            (
                SchemaNode::Relation { connection_id, database, schema, table },
                SchemaNode::Relation { connection_id: c, database: d, schema: s, table: t },
            ) => connection_id@ == c@ && database@ == d@ && schema@ == s@ && table@ == t@,
            (
                SchemaNode::RelationGroup { connection_id, database, schema, table, kind },
                SchemaNode::RelationGroup {
                    connection_id: c,
                    database: d,
                    schema: s,
                    table: t,
                    kind: k,
                },
            ) => connection_id@ == c@ && database@ == d@ && schema@ == s@ && table@ == t@ && kind@
                == k@,
            _ => false,
        },
{
}

/// The nodes of a table carry the names of the table, and that of a folder its
/// kind too.
pub proof fn law_nodes_of_a_table_carry_its_names(
    target: &TableTarget,
    kind: &'static str,
    row: SchemaNode,
    folder: SchemaNode,
)
    requires
        call_ensures(SchemaNode::relation, (target,), row),
        call_ensures(SchemaNode::relation_group, (target, kind), folder),
    ensures
        row matches SchemaNode::Relation { connection_id, database, schema, table }
            && connection_id@ == target.connection_id@ && database@ == target.database@ && schema@
            == target.schema@ && table@ == target.table@,
        folder matches SchemaNode::RelationGroup { connection_id, database, schema, table, kind: k }
            && connection_id@ == target.connection_id@ && database@ == target.database@ && schema@
            == target.schema@ && table@ == target.table@ && k@ == kind@,
{
}

/// A new connection opens its default databases, each of their schemas, and the
/// tables and views of these.
pub proof fn law_default_databases_are_opened(
    id: Seq<char>,
    databases: Seq<Database>,
    d: int,
    s: int,
)
    requires
        0 <= d < databases.len(),
        databases[d].is_default,
        0 <= s < databases[d].schemas@.len(),
    ensures
        ({
            let nodes = default_nodes(id, databases);
            let database = databases[d].name@;
            let schema = databases[d].schemas@[s].name@;
            &&& nodes.contains(NodeView::Database { connection_id: id, database })
            &&& nodes.contains(NodeView::Schema { connection_id: id, database, schema })
            &&& nodes.contains(
                NodeView::Group { connection_id: id, database, schema, kind: "tables"@ },
            )
            &&& nodes.contains(
                NodeView::Group { connection_id: id, database, schema, kind: "views"@ },
            )
        }),
{
    let database = databases[d];
    let n = database.schemas@.len() as int;
    let name = database.name@;
    let schema = database.schemas@[s].name@;
    let a = NodeView::Database { connection_id: id, database: name };
    let b = NodeView::Schema { connection_id: id, database: name, schema };
    let c = NodeView::Group { connection_id: id, database: name, schema, kind: "tables"@ };
    let e = NodeView::Group { connection_id: id, database: name, schema, kind: "views"@ };
    assert(of_database(id, database, n, a));
    assert(of_schema(id, name, database.schemas@[s].name@, b));
    assert(of_database(id, database, n, b));
    assert(of_schema(id, name, database.schemas@[s].name@, c));
    assert(of_database(id, database, n, c));
    assert(of_schema(id, name, database.schemas@[s].name@, e));
    assert(of_database(id, database, n, e));
    assert(of_defaults(id, databases, databases.len() as int, a));
    assert(of_defaults(id, databases, databases.len() as int, b));
    assert(of_defaults(id, databases, databases.len() as int, c));
    assert(of_defaults(id, databases, databases.len() as int, e));
}

/// A new connection opens nothing else: no table, nothing of another connection,
/// and nothing of a database that is not a default.
pub proof fn law_nothing_else_is_opened(id: Seq<char>, databases: Seq<Database>, node: NodeView)
    requires
        default_nodes(id, databases).contains(node),
    ensures
        exists|d: int|
            {
                &&& 0 <= d < databases.len()
                &&& (#[trigger] databases[d]).is_default
                &&& match node {
                    NodeView::Database { connection_id, database } => connection_id == id
                        && database == databases[d].name@,
                    NodeView::Schema { connection_id, database, schema } => connection_id == id
                        && database == databases[d].name@,
                    NodeView::Group { connection_id, database, schema, kind } => connection_id == id
                        && database == databases[d].name@ && (kind == "tables"@ || kind
                        == "views"@),
                    _ => false,
                }
            },
{
    let d = choose|d: int|
        0 <= d < databases.len() && (#[trigger] databases[d]).is_default && of_database(
            id,
            databases[d],
            databases[d].schemas@.len() as int,
            node,
        );
    assert(databases[d].is_default);
}

} // verus!
