//! How the list of connections is shown, and what a click in it does.
use vstd::prelude::*;

use crate::connection::{knows, ConnectionConfig, EnvTag};
use crate::model::{AppModel, ConnectionState, ModelView};
use crate::text::{lowercased, nat_text, text_of, to_lowercase, trim, trim_of, u64_text};

verus! {

/// The colours of the dot that shows the state of a connection.
#[derive(Clone, Copy, Debug, PartialEq, Eq, Structural)]
pub enum StateTint {
    Disabled,
    Warn,
    Insert,
}

/// The colour of a state: a connection that is up, one that is not, and all that
/// calls for attention.
pub open spec fn state_tint(state: ConnectionState) -> StateTint {
    match state {
        ConnectionState::Disconnected => StateTint::Disabled,
        ConnectionState::Connected => StateTint::Insert,
        _ => StateTint::Warn,
    }
}

/// How a connection is shown.
pub struct ConnectionRow {
    pub state: StateTint,
    /// Whether the connection is marked as one into production.
    pub production: bool,
    pub icon: &'static str,
}

/// How a connection is shown.
pub fn connection_row(model: &AppModel, config: &ConnectionConfig, expanded: bool) -> (r:
    ConnectionRow)
    requires
        model.wf(),
    ensures
        r.state == state_tint(model@.state_of(config.id@)),
        r.production == (config.env_tag == Some(EnvTag::Prod)),
        r.icon@ == (if expanded {
            "icons/chevron-down.svg"@
        } else {
            "icons/chevron-right.svg"@
        }),
{
    ConnectionRow {
        state: match model.connection_state(config.id.as_str()) {
            ConnectionState::Disconnected => StateTint::Disabled,
            ConnectionState::Connected => StateTint::Insert,
            _ => StateTint::Warn,
        },
        production: match config.env_tag {
            Some(EnvTag::Prod) => true,
            _ => false,
        },
        icon: if expanded {
            "icons/chevron-down.svg"
        } else {
            "icons/chevron-right.svg"
        },
    }
}

/// The model after a click on a connection.
pub open spec fn clicked(v: ModelView, id: Seq<char>) -> ModelView {
    if knows(v.connections, id) {
        ModelView {
            active_connection: Some(id),
            expanded_connections: if v.expanded_connections.contains(id) {
                v.expanded_connections.remove(id)
            } else {
                v.expanded_connections.insert(id)
            },
            ..v
        }
    } else {
        v
    }
}

/// Makes a connection that is clicked the active one and expands or collapses
/// it. The result says whether a connection attempt is due: it was expanded.
pub fn click_connection(model: &mut AppModel, id: &str) -> (r: bool)
    requires
        old(model).wf(),
    ensures
        final(model).wf(),
        final(model)@ == clicked(old(model)@, id@),
        r == (knows(old(model)@.connections, id@) && !old(model)@.expanded_connections.contains(
            id@,
        )),
{
    let ghost was = model@;
    model.select_connection(id);
    let expanded = model.toggle_connection_expanded(id);
    assert(model@ =~= clicked(was, id@));
    expanded
}

/// What the connections are searched for: the text of the filter without the
/// space around it, in lower case.
pub fn sidebar_query(text: &str) -> (r: String)
    ensures
        r@ == lowercased(trim_of(text@)),
{
    let trimmed = trim(text);
    let plain = text_of(trimmed.as_slice());
    to_lowercase(plain.as_str())
}

/// How many of the connections match; all of them where nothing is searched for.
pub open spec fn count_matches(query: Seq<char>, matches: Seq<bool>) -> nat
    decreases matches.len(),
{
    if matches.len() == 0 {
        0
    } else {
        count_matches(query, matches.drop_last()) + if query.len() == 0 || matches.last() {
            1nat
        } else {
            0
        }
    }
}

/// What stands below the connections.
#[derive(Clone, Copy, Debug, PartialEq, Eq, Structural)]
pub enum SidebarNotice {
    Nothing,
    /// There are no connections: `no connections yet`, and a way to add one.
    NoConnections,
    /// None of them matches: `no matches`.
    NoMatches,
}

/// What stands below the connections.
pub open spec fn notice_for(query: Seq<char>, matches: Seq<bool>) -> SidebarNotice {
    if matches.len() == 0 {
        SidebarNotice::NoConnections
    } else if count_matches(query, matches) == 0 {
        SidebarNotice::NoMatches
    } else {
        SidebarNotice::Nothing
    }
}

/// What stands below the connections. `matches` says of each connection whether
/// it matches the query.
pub fn sidebar_notice(query: &str, matches: &[bool]) -> (r: SidebarNotice)
    ensures
        r == notice_for(query@, matches@),
{
    if matches.len() == 0 {
        return SidebarNotice::NoConnections;
    }
    let all = query.is_empty();
    let mut i: usize = 0;
    assert(matches@.take(0) =~= Seq::<bool>::empty());
    while i < matches.len()
        invariant
            i <= matches@.len(),
            all == (query@.len() == 0),
            count_matches(query@, matches@.take(i as int)) == 0,
        decreases matches@.len() - i,
    {
        assert(matches@.take(i + 1).drop_last() =~= matches@.take(i as int));
        if all || matches[i] {
            proof {
                lemma_counts_grow(query@, matches@, i + 1);
            }
            return SidebarNotice::Nothing;
        }
        i += 1;
    }
    assert(matches@.take(i as int) =~= matches@);
    SidebarNotice::NoMatches
}

proof fn lemma_counts_grow(query: Seq<char>, matches: Seq<bool>, n: int)
    requires
        0 <= n <= matches.len(),
    ensures
        count_matches(query, matches.take(n)) <= count_matches(query, matches),
    decreases matches.len() - n,
{
    if n < matches.len() {
        assert(matches.take(n + 1).drop_last() =~= matches.take(n));
        lemma_counts_grow(query, matches, n + 1);
    } else {
        assert(matches.take(n) =~= matches);
    }
}

/// The number of connections, as it stands beside the heading.
pub fn connection_count(model: &AppModel) -> (r: String)
    ensures
        r@ == nat_text(model@.connections.len()),
{
    u64_text(model.connections().len() as u64)
}

/// Which panels a saved layout shows.
#[derive(Clone, Copy, Debug, PartialEq, Eq, Structural)]
pub struct PanelFlags {
    pub left: bool,
    pub right: bool,
    pub bottom: bool,
}

/// The panels that are open at the start: those of the saved layout, or else the
/// sidebar alone.
pub fn initial_panels(saved: Option<PanelFlags>) -> (r: PanelFlags)
    ensures
        r == (match saved {
            Some(flags) => flags,
            None => PanelFlags { left: true, right: false, bottom: false },
        }),
{
    match saved {
        Some(flags) => flags,
        None => PanelFlags { left: true, right: false, bottom: false },
    }
}

/// Two clicks on a connection leave the tree as it was.
pub proof fn law_clicking_twice(v: ModelView, id: Seq<char>)
    requires
        knows(v.connections, id),
    ensures
        clicked(clicked(v, id), id).expanded_connections == v.expanded_connections,
        clicked(v, id).active_connection == Some(id),
{
    assert(clicked(clicked(v, id), id).expanded_connections =~= v.expanded_connections);
}

/// The dot of a connection is green where it is up, grey where it is not, and a
/// warning in every other state. Production is marked, and nothing else is.
pub proof fn law_connections_show_their_state(
    model: &AppModel,
    config: &ConnectionConfig,
    expanded: bool,
    state: ConnectionState,
    r: ConnectionRow,
    id: &str,
)
    requires
        model.wf(),
        id@ == config.id@,
        call_ensures(AppModel::connection_state, (model, id), &state),
        call_ensures(connection_row, (model, config, expanded), r),
    ensures
        state is Connected <==> r.state == StateTint::Insert,
        state is Disconnected <==> r.state == StateTint::Disabled,
        r.production <==> config.env_tag == Some(EnvTag::Prod),
        expanded ==> r.icon@ == "icons/chevron-down.svg"@,
        !expanded ==> r.icon@ == "icons/chevron-right.svg"@,
{
}

/// A click makes the connection the active one and turns it over in the tree; no
/// other connection is touched, and a click on an unknown one does nothing.
pub proof fn law_a_click_turns_over_one_connection(v: ModelView, id: Seq<char>, other: Seq<char>)
    ensures
        knows(v.connections, id) ==> {
            &&& clicked(v, id).active_connection == Some(id)
            &&& clicked(v, id).expanded_connections.contains(id)
                != v.expanded_connections.contains(id)
            &&& other != id ==> clicked(v, id).expanded_connections.contains(other)
                == v.expanded_connections.contains(other)
            &&& clicked(v, id).connections == v.connections
        },
        !knows(v.connections, id) ==> clicked(v, id) == v,
{
}

proof fn lemma_no_matches(query: Seq<char>, matches: Seq<bool>)
    ensures
        count_matches(query, matches) == 0 <==> matches.len() == 0 || (query.len() > 0 && forall|
            i: int,
        |
            0 <= i < matches.len() ==> !(#[trigger] matches[i])),
    decreases matches.len(),
{
    if matches.len() > 0 {
        let front = matches.drop_last();
        lemma_no_matches(query, front);
        if count_matches(query, matches) == 0 {
            assert forall|i: int| 0 <= i < matches.len() implies !(#[trigger] matches[i]) by {
                if i < front.len() {
                    assert(!front[i]);
                }
            }
        }
        if query.len() > 0 && forall|i: int| 0 <= i < matches.len() ==> !(#[trigger] matches[i]) {
            assert(!matches[matches.len() - 1]);
            assert forall|i: int| 0 <= i < front.len() implies !(#[trigger] front[i]) by {
                assert(!matches[i]);
            }
        }
    }
}

/// Below the connections stands that there are none, exactly where there are
/// none, and that none matches, exactly where something is searched for and not
/// found.
pub proof fn law_notices_tell_what_is_missing(query: &str, matches: &[bool], r: SidebarNotice)
    requires
        call_ensures(sidebar_notice, (query, matches), r),
    ensures
        r == SidebarNotice::NoConnections <==> matches@.len() == 0,
        r == SidebarNotice::NoMatches <==> matches@.len() > 0 && query@.len() > 0 && forall|i: int|
            0 <= i < matches@.len() ==> !(#[trigger] matches@[i]),
{
    lemma_no_matches(query@, matches@);
}

/// Searching goes by the trimmed text in lower case, and the panels of a saved
/// layout are those that are open.
pub proof fn law_sidebars_start_as_they_were_left(
    text: &str,
    query: String,
    saved: Option<PanelFlags>,
    panels: PanelFlags,
    model: &AppModel,
    count: String,
)
    requires
        call_ensures(sidebar_query, (text,), query),
        call_ensures(initial_panels, (saved,), panels),
        call_ensures(connection_count, (model,), count),
    ensures
        query@ == lowercased(trim_of(text@)),
        saved matches Some(flags) ==> panels == flags,
        saved is None ==> panels.left && !panels.right && !panels.bottom,
        count@ == nat_text(model@.connections.len()),
{
}

} // verus!
