//! Saved connections.
use vstd::prelude::*;

use crate::engine::Engine;
use crate::text::{
    lemma_text_before_irreflexive, lemma_text_before_total, lemma_text_before_transitive, same_text,
    text_before, text_position, Position,
};

verus! {

/// The environment that a connection is tagged with.
#[derive(Clone, Copy, PartialEq, Eq, Structural, Hash, Debug)]
pub enum EnvTag {
    Dev,
    Staging,
    Prod,
}

/// A saved connection. `details` is what only its driver reads.
#[derive(PartialEq, Eq, Debug)]
pub struct ConnectionConfig {
    pub id: String,
    pub name: String,
    pub engine: Engine,
    pub database: String,
    pub env_tag: Option<EnvTag>,
    pub details: String,
}

impl Clone for ConnectionConfig {
    fn clone(&self) -> (r: Self)
        ensures
            r == *self,
    {
        ConnectionConfig {
            id: self.id.clone(),
            name: self.name.clone(),
            engine: self.engine,
            database: self.database.clone(),
            env_tag: self.env_tag,
            details: self.details.clone(),
        }
    }
}

/// Whether the connection at `at` is the first with this id.
pub open spec fn first_with_id(list: Seq<ConnectionConfig>, id: Seq<char>, at: int) -> bool {
    &&& 0 <= at < list.len()
    &&& list[at].id@ == id
    &&& forall|i: int| 0 <= i < at ==> (#[trigger] list[i]).id@ != id
}

/// Whether some connection has this id.
pub open spec fn knows(list: Seq<ConnectionConfig>, id: Seq<char>) -> bool {
    exists|i: int| 0 <= i < list.len() && (#[trigger] list[i]).id@ == id
}

/// The position of the first connection with this id.
pub fn find_connection(list: &[ConnectionConfig], id: &str) -> (r: Option<usize>)
    ensures
        r is Some == knows(list@, id@),
        r matches Some(at) ==> first_with_id(list@, id@, at as int),
{
    let mut i: usize = 0;
    while i < list.len()
        invariant
            i <= list@.len(),
            forall|j: int| 0 <= j < i ==> (#[trigger] list@[j]).id@ != id@,
        decreases list@.len() - i,
    {
        if same_text(list[i].id.as_str(), id) {
            return Some(i);
        }
        i += 1;
    }
    None
}

// ---------------------------------------------------------------------
// Sorting
// ---------------------------------------------------------------------
/// The connections with this name, in their order.
pub open spec fn with_name(list: Seq<ConnectionConfig>, name: Seq<char>) -> Seq<ConnectionConfig>
    decreases list.len(),
{
    if list.len() == 0 {
        Seq::empty()
    } else if list.last().name@ == name {
        with_name(list.drop_last(), name).push(list.last())
    } else {
        with_name(list.drop_last(), name)
    }
}

/// Whether the names go up.
pub open spec fn in_name_order(list: Seq<ConnectionConfig>) -> bool {
    forall|i: int, j: int|
        0 <= i < j < list.len() ==> !text_before(
            (#[trigger] list[j]).name@,
            (#[trigger] list[i]).name@,
        )
}

/// Whether `sorted` is `list` sorted by name, connections of one name in the
/// order that they had.
pub open spec fn sorts(list: Seq<ConnectionConfig>, sorted: Seq<ConnectionConfig>) -> bool {
    &&& in_name_order(sorted)
    &&& forall|name: Seq<char>| #[trigger] with_name(sorted, name) == with_name(list, name)
}

proof fn lemma_with_name_join(a: Seq<ConnectionConfig>, b: Seq<ConnectionConfig>, name: Seq<char>)
    ensures
        with_name(a + b, name) == with_name(a, name) + with_name(b, name),
    decreases b.len(),
{
    if b.len() == 0 {
        assert(a + b =~= a);
        assert(with_name(a, name) + with_name(b, name) =~= with_name(a, name));
    } else {
        lemma_with_name_join(a, b.drop_last(), name);
        assert((a + b).drop_last() =~= a + b.drop_last());
        assert(with_name(a + b, name) =~= with_name(a, name) + with_name(b, name));
    }
}

proof fn lemma_with_name_none(list: Seq<ConnectionConfig>, name: Seq<char>)
    requires
        forall|i: int| 0 <= i < list.len() ==> (#[trigger] list[i]).name@ != name,
    ensures
        with_name(list, name).len() == 0,
    decreases list.len(),
{
    if list.len() > 0 {
        assert(list[list.len() - 1].name@ != name);
        assert forall|i: int| 0 <= i < list.drop_last().len() implies (
        #[trigger] list.drop_last()[i]).name@ != name by {
            assert(list.drop_last()[i] == list[i]);
        }
        lemma_with_name_none(list.drop_last(), name);
    }
}

/// A connection put in before those with greater names comes last among those of
/// its own name.
proof fn lemma_with_name_insert(
    list: Seq<ConnectionConfig>,
    at: int,
    new: ConnectionConfig,
    name: Seq<char>,
)
    requires
        0 <= at <= list.len(),
        forall|i: int| at <= i < list.len() ==> text_before(new.name@, (#[trigger] list[i]).name@),
    ensures
        with_name(list.insert(at, new), name) == (if new.name@ == name {
            with_name(list, name).push(new)
        } else {
            with_name(list, name)
        }),
{
    let front = list.take(at);
    let back = list.skip(at);
    assert(list =~= front + back);
    assert(list.insert(at, new) =~= front.push(new) + back);
    lemma_with_name_join(front, back, name);
    lemma_with_name_join(front.push(new), back, name);
    assert(front.push(new).drop_last() =~= front);
    if new.name@ == name {
        lemma_text_before_irreflexive(name);
        assert forall|i: int| 0 <= i < back.len() implies (#[trigger] back[i]).name@ != name by {
            assert(back[i] == list[at + i]);
        }
        lemma_with_name_none(back, name);
        assert(with_name(back, name) =~= Seq::empty());
        assert(with_name(front.push(new), name) + Seq::empty() =~= with_name(
            front,
            name,
        ).push(new));
        assert(with_name(front, name) + Seq::empty() =~= with_name(front, name));
    }
}

fn name_before(a: &ConnectionConfig, b: &ConnectionConfig) -> (r: bool)
    ensures
        r == text_before(a.name@, b.name@),
{
    proof {
        lemma_text_before_irreflexive(a.name@);
    }
    match text_position(a.name.as_str(), b.name.as_str()) {
        Position::Before => true,
        _ => false,
    }
}

/// Sorts connections by name. The order of those with one name is kept.
pub fn sort_by_name(list: Vec<ConnectionConfig>) -> (r: Vec<ConnectionConfig>)
    ensures
        sorts(list@, r@),
{
    let mut out: Vec<ConnectionConfig> = Vec::new();
    let mut i: usize = 0;
    assert(list@.take(0) =~= out@);
    while i < list.len()
        invariant
            i <= list@.len(),
            sorts(list@.take(i as int), out@),
        decreases list@.len() - i,
    {
        let new = list[i].clone();
        let mut at: usize = out.len();
        while at > 0 && name_before(&new, &out[at - 1])
            invariant
                at <= out@.len(),
                forall|j: int|
                    at <= j < out@.len() ==> text_before(new.name@, (#[trigger] out@[j]).name@),
            decreases at,
        {
            at -= 1;
        }
        let ghost was = out@;
        let ghost inserted = new;
        out.insert(at, new);
        proof {
            let now = out@;
            assert(now =~= was.insert(at as int, inserted));
            assert forall|a: int, b: int| 0 <= a < b < now.len() implies !text_before(
                (#[trigger] now[b]).name@,
                (#[trigger] now[a]).name@,
            ) by {
                if a == at {
                    assert(now[b] == was[b - 1]);
                    if text_before(now[b].name@, inserted.name@) {
                        lemma_text_before_transitive(
                            inserted.name@,
                            now[b].name@,
                            inserted.name@,
                        );
                        lemma_text_before_irreflexive(inserted.name@);
                    }
                } else if b == at {
                    assert(now[a] == was[a]);
                    let last = was[at - 1].name@;
                    assert(!text_before(inserted.name@, last));
                    if text_before(inserted.name@, was[a].name@) {
                        lemma_text_before_total(was[a].name@, last);
                        if a < at - 1 {
                            assert(!text_before(last, was[a].name@));
                            if text_before(was[a].name@, last) {
                                lemma_text_before_transitive(
                                    inserted.name@,
                                    was[a].name@,
                                    last,
                                );
                            }
                        }
                    }
                } else {
                    let oa = if a < at { a } else { a - 1 };
                    let ob = if b < at { b } else { b - 1 };
                    assert(now[a] == was[oa] && now[b] == was[ob]);
                }
            }
            assert(list@.take(i + 1).drop_last() =~= list@.take(i as int));
            assert forall|name: Seq<char>| #[trigger]
                with_name(now, name) == with_name(list@.take(i + 1), name) by {
                lemma_with_name_insert(was, at as int, inserted, name);
                assert(with_name(was, name) == with_name(list@.take(i as int), name));
            }
        }
        i += 1;
    }
    assert(list@.take(list@.len() as int) =~= list@);
    out
}

proof fn lemma_with_name_all(list: Seq<ConnectionConfig>, name: Seq<char>)
    ensures
        forall|i: int|
            0 <= i < with_name(list, name).len() ==> list.contains(
                #[trigger] with_name(list, name)[i],
            ),
        forall|i: int|
            0 <= i < list.len() && (#[trigger] list[i]).name@ == name ==> with_name(
                list,
                name,
            ).contains(list[i]),
    decreases list.len(),
{
    if list.len() > 0 {
        let front = list.drop_last();
        lemma_with_name_all(front, name);
        let some = with_name(list, name);
        assert forall|i: int| 0 <= i < some.len() implies list.contains(#[trigger] some[i]) by {
            if i < with_name(front, name).len() {
                assert(front.contains(with_name(front, name)[i]));
                let j = choose|j: int| 0 <= j < front.len() && front[j] == some[i];
                assert(list[j] == some[i]);
            } else {
                assert(list[list.len() - 1] == some[i]);
            }
        }
        assert forall|i: int| 0 <= i < list.len() && (#[trigger] list[i]).name@ == name implies
            some.contains(list[i]) by {
            if i < front.len() {
                assert(front[i] == list[i]);
                let j = choose|j: int|
                    0 <= j < with_name(front, name).len() && with_name(front, name)[j] == list[i];
                assert(some[j] == list[i]);
            } else {
                assert(some[some.len() - 1] == list[i]);
            }
        }
    }
}

/// Sorting keeps exactly the connections that there are.
pub proof fn law_sorting_keeps_the_connections(
    list: Seq<ConnectionConfig>,
    sorted: Seq<ConnectionConfig>,
)
    requires
        sorts(list, sorted),
    ensures
        forall|c: ConnectionConfig| #[trigger] sorted.contains(c) == list.contains(c),
{
    assert forall|c: ConnectionConfig| #[trigger] sorted.contains(c) == list.contains(c) by {
        lemma_with_name_all(list, c.name@);
        lemma_with_name_all(sorted, c.name@);
        assert(with_name(sorted, c.name@) == with_name(list, c.name@));
        if sorted.contains(c) {
            let i = choose|i: int| 0 <= i < sorted.len() && sorted[i] == c;
            assert(with_name(sorted, c.name@).contains(sorted[i]));
            let j = choose|j: int|
                0 <= j < with_name(list, c.name@).len() && with_name(list, c.name@)[j] == c;
            assert(list.contains(with_name(list, c.name@)[j]));
        }
        if list.contains(c) {
            let i = choose|i: int| 0 <= i < list.len() && list[i] == c;
            assert(with_name(list, c.name@).contains(list[i]));
            let j = choose|j: int|
                0 <= j < with_name(sorted, c.name@).len() && with_name(sorted, c.name@)[j] == c;
            assert(sorted.contains(with_name(sorted, c.name@)[j]));
        }
    }
}

/// Whether no two connections have one id.
pub open spec fn distinct_ids(list: Seq<ConnectionConfig>) -> bool {
    forall|i: int, j: int|
        0 <= i < j < list.len() ==> (#[trigger] list[i]).id@ != (#[trigger] list[j]).id@
}

proof fn lemma_with_name_distinct(list: Seq<ConnectionConfig>, name: Seq<char>)
    requires
        distinct_ids(list),
    ensures
        distinct_ids(with_name(list, name)),
    decreases list.len(),
{
    if list.len() > 0 {
        let front = list.drop_last();
        let before = with_name(front, name);
        let now = with_name(list, name);
        assert forall|i: int, j: int| 0 <= i < j < front.len() implies (#[trigger] front[i]).id@
            != (#[trigger] front[j]).id@ by {
            assert(front[i] == list[i] && front[j] == list[j]);
        }
        lemma_with_name_distinct(front, name);
        lemma_with_name_all(front, name);
        assert forall|i: int, j: int| 0 <= i < j < now.len() implies (#[trigger] now[i]).id@ != (
        #[trigger] now[j]).id@ by {
            if j < before.len() {
                assert(now[i] == before[i] && now[j] == before[j]);
            } else {
                assert(front.contains(before[i]));
                let k = choose|k: int| 0 <= k < front.len() && front[k] == before[i];
                assert(list[k] == now[i] && list[list.len() - 1] == now[j]);
            }
        }
    }
}

/// Two connections of one name stand in the list of that name too, in order.
proof fn lemma_with_name_positions(list: Seq<ConnectionConfig>, name: Seq<char>, i: int, j: int)
    requires
        0 <= i < j < list.len(),
        list[i].name@ == name,
        list[j].name@ == name,
    ensures
        exists|a: int, b: int|
            0 <= a < b < with_name(list, name).len() && (#[trigger] with_name(list, name)[a])
                == list[i] && (#[trigger] with_name(list, name)[b]) == list[j],
    decreases list.len(),
{
    let front = list.drop_last();
    let before = with_name(front, name);
    let now = with_name(list, name);
    if j < front.len() {
        assert(front[i] == list[i] && front[j] == list[j]);
        lemma_with_name_positions(front, name, i, j);
        let (a, b) = choose|a: int, b: int|
            0 <= a < b < before.len() && (#[trigger] before[a]) == front[i] && (
            #[trigger] before[b]) == front[j];
        assert(now[a] == before[a] && now[b] == before[b]);
    } else {
        lemma_with_name_all(front, name);
        assert(front[i] == list[i]);
        let a = choose|a: int| 0 <= a < before.len() && before[a] == front[i];
        assert(now[a] == list[i] && now[now.len() - 1] == list[j]);
    }
}

/// Sorting connections with distinct ids holds each of them once.
pub proof fn law_sorting_keeps_ids_distinct(
    list: Seq<ConnectionConfig>,
    sorted: Seq<ConnectionConfig>,
)
    requires
        sorts(list, sorted),
        distinct_ids(list),
    ensures
        distinct_ids(sorted),
{
    law_sorting_keeps_the_connections(list, sorted);
    assert forall|i: int, j: int| 0 <= i < j < sorted.len() implies (#[trigger] sorted[i]).id@ != (
    #[trigger] sorted[j]).id@ by {
        if sorted[i].id@ == sorted[j].id@ {
            assert(sorted.contains(sorted[i]) && sorted.contains(sorted[j]));
            let x = choose|x: int| 0 <= x < list.len() && list[x] == sorted[i];
            let y = choose|y: int| 0 <= y < list.len() && list[y] == sorted[j];
            assert(x == y);
            let name = sorted[i].name@;
            lemma_with_name_positions(sorted, name, i, j);
            lemma_with_name_distinct(list, name);
            assert(with_name(sorted, name) == with_name(list, name));
        }
    }
}

/// The connection that is found has the id, and none before it has.
pub proof fn law_connections_are_found_by_their_id(
    list: &[ConnectionConfig],
    id: &str,
    r: Option<usize>,
)
    requires
        call_ensures(find_connection, (list, id), r),
    ensures
        r matches Some(at) ==> at < list@.len() && list@[at as int].id@ == id@ && forall|i: int|
            0 <= i < at ==> (#[trigger] list@[i]).id@ != id@,
        r is None ==> forall|i: int| 0 <= i < list@.len() ==> (#[trigger] list@[i]).id@ != id@,
{
}

/// Sorted connections are those there were, by their names, and connections of
/// one name are in the order they had.
pub proof fn law_connections_are_in_the_order_of_their_names(
    list: Vec<ConnectionConfig>,
    sorted: Vec<ConnectionConfig>,
    i: int,
    j: int,
)
    requires
        call_ensures(sort_by_name, (list,), sorted),
        forall|i: int, j: int|
            0 <= i < j < list@.len() ==> (#[trigger] list@[i]).id@ != (#[trigger] list@[j]).id@,
        0 <= i < j < list@.len(),
        list@[i].name@ == list@[j].name@,
    ensures
        forall|a: int, b: int|
            0 <= a < b < sorted@.len() ==> !text_before(
                (#[trigger] sorted@[b]).name@,
                (#[trigger] sorted@[a]).name@,
            ),
        forall|c: ConnectionConfig| #[trigger] sorted@.contains(c) == list@.contains(c),
        exists|a: int, b: int|
            0 <= a < b < sorted@.len() && (#[trigger] sorted@[a]) == list@[i] && (
            #[trigger] sorted@[b]) == list@[j],
{
    law_sorting_keeps_the_connections(list@, sorted@);
    law_sorting_keeps_ids_distinct(list@, sorted@);
    let name = list@[i].name@;
    let x = list@[i];
    let y = list@[j];
    assert(sorted@.contains(x) && sorted@.contains(y));
    let a = choose|a: int| 0 <= a < sorted@.len() && sorted@[a] == x;
    let b = choose|b: int| 0 <= b < sorted@.len() && sorted@[b] == y;
    if b <= a {
        assert(x.id@ != y.id@);
        lemma_with_name_positions(sorted@, name, b, a);
        lemma_with_name_positions(list@, name, i, j);
        lemma_with_name_distinct(list@, name);
        let few = with_name(list@, name);
        assert(with_name(sorted@, name) == few);
        let (p, q) = choose|p: int, q: int|
            0 <= p < q < few.len() && (#[trigger] few[p]) == x && (#[trigger] few[q]) == y;
        let (u, v) = choose|u: int, v: int|
            0 <= u < v < few.len() && (#[trigger] few[u]) == y && (#[trigger] few[v]) == x;
        if p < v {
            assert(few[p].id@ != few[v].id@);
        } else if v < p {
            assert(few[v].id@ != few[p].id@);
        }
        if u < q {
            assert(few[u].id@ != few[q].id@);
        } else if q < u {
            assert(few[q].id@ != few[u].id@);
        }
        assert(false);
    }
}

} // verus!
