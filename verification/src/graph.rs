//! The editing rules of the node graph editor: node instances with fresh
//! ids, links from an output port to an input port, and waypoints along a
//! link. What a node or a waypoint looks like is left to the caller (`N`
//! and `W`); the rules only move those values around.

use vstd::prelude::*;
use crate::template::PortDirection;

verus! {

/// The id of a node instance in an editor.
#[derive(Debug, Clone, Copy, PartialEq, Eq, Hash, Structural)]
pub struct NodeInstanceId(pub u64);

/// A port of a node instance, with the direction the port goes in.
#[derive(Debug, Clone)]
pub struct Endpoint {
    pub node_id: NodeInstanceId,
    pub port_id: String,
    pub direction: PortDirection,
}

/// An endpoint as a value.
pub struct EndpointView {
    pub node_id: NodeInstanceId,
    pub port_id: Seq<char>,
    pub direction: PortDirection,
}

impl View for Endpoint {
    type V = EndpointView;

    open spec fn view(&self) -> EndpointView {
        EndpointView { node_id: self.node_id, port_id: self.port_id@, direction: self.direction }
    }
}

/// A link from an output port to an input port, through its waypoints.
#[derive(Debug)]
pub struct NodeLink<W> {
    pub from: Endpoint,
    pub to: Endpoint,
    pub waypoints: Vec<W>,
}

/// A link as a value.
pub struct LinkView<W> {
    pub from: EndpointView,
    pub to: EndpointView,
    pub waypoints: Seq<W>,
}

impl<W> View for NodeLink<W> {
    type V = LinkView<W>;

    open spec fn view(&self) -> LinkView<W> {
        LinkView { from: self.from@, to: self.to@, waypoints: self.waypoints@ }
    }
}

/// The links of a sequence, as values.
pub open spec fn link_views<W>(links: Seq<NodeLink<W>>) -> Seq<LinkView<W>> {
    links.map_values(|l: NodeLink<W>| l@)
}

/// A node instance: its id and what the caller keeps of it.
#[derive(Debug, Clone)]
pub struct NodeEntry<N> {
    pub id: NodeInstanceId,
    pub payload: N,
}

/// An edit of the links that the pointer asked for.
#[derive(Debug, Clone, Copy)]
pub enum LinkAction<W> {
    Cut { link_index: usize },
    AddWaypoint { link_index: usize, segment_index: usize, position: W },
    RemoveWaypoint { link_index: usize, waypoint_index: usize },
}

/// The graph an editor shows: node instances, links, and the link being
/// dragged out of an output port, if any.
#[derive(Debug)]
pub struct NodeGraph<N, W> {
    nodes: Vec<NodeEntry<N>>,
    links: Vec<NodeLink<W>>,
    pending_link: Option<Endpoint>,
    next_node_id: u64,
}

/// A graph as a value.
pub struct GraphView<N, W> {
    pub nodes: Seq<NodeEntry<N>>,
    pub links: Seq<LinkView<W>>,
    pub pending_link: Option<EndpointView>,
    pub next_node_id: u64,
}

/// Whether a link may run from `from` to `to`: from an output port to an
/// input port of another node.
pub open spec fn connectable(from: EndpointView, to: EndpointView) -> bool {
    &&& from.node_id != to.node_id
    &&& from.direction == PortDirection::Output
    &&& to.direction == PortDirection::Input
}

/// What every graph keeps: node ids are distinct and below the next id to
/// be handed out, every link runs from an output port to an input port of
/// another node, and no two links end at the same input port.
pub open spec fn graph_invariant<N, W>(g: GraphView<N, W>) -> bool {
    &&& forall|i: int, j: int|
        0 <= i < j < g.nodes.len() ==> (#[trigger] g.nodes[i]).id != (#[trigger] g.nodes[j]).id
    &&& forall|i: int| 0 <= i < g.nodes.len() ==> (#[trigger] g.nodes[i]).id.0 < g.next_node_id
    &&& forall|i: int|
        0 <= i < g.links.len() ==> connectable((#[trigger] g.links[i]).from, g.links[i].to)
    &&& forall|i: int, j: int|
        0 <= i < j < g.links.len() ==> (#[trigger] g.links[i]).to != (#[trigger] g.links[j]).to
}

/// The links that do not end at `to`, in their order.
pub open spec fn links_not_into<W>(links: Seq<LinkView<W>>, to: EndpointView) -> Seq<LinkView<W>> {
    links.filter(|l: LinkView<W>| l.to != to)
}

/// The links after a connection from `from` to `to` is made: a link that is
/// not from an output port to an input port of another node is refused;
/// otherwise every link into `to` is replaced by the new one, with no
/// waypoints, at the end.
pub open spec fn connect_result<W>(
    links: Seq<LinkView<W>>,
    from: EndpointView,
    to: EndpointView,
) -> Seq<LinkView<W>> {
    if !connectable(from, to) {
        links
    } else {
        links_not_into(links, to).push(LinkView { from, to, waypoints: Seq::empty() })
    }
}

/// The links after an edit. An edit whose indices do not name a link or a
/// waypoint changes nothing; a new waypoint goes before the segment's end,
/// or last if the segment index is past the waypoints.
pub open spec fn link_action_result<W>(links: Seq<LinkView<W>>, action: LinkAction<W>) -> Seq<
    LinkView<W>,
> {
    match action {
        LinkAction::Cut { link_index } => if link_index < links.len() {
            links.remove(link_index as int)
        } else {
            links
        },
        LinkAction::AddWaypoint { link_index, segment_index, position } => if link_index
            < links.len() {
            let link = links[link_index as int];
            let at = if segment_index < link.waypoints.len() {
                segment_index as int
            } else {
                link.waypoints.len() as int
            };
            links.update(
                link_index as int,
                LinkView { waypoints: link.waypoints.insert(at, position), ..link },
            )
        } else {
            links
        },
        LinkAction::RemoveWaypoint { link_index, waypoint_index } => if link_index < links.len()
            && waypoint_index < links[link_index as int].waypoints.len() {
            let link = links[link_index as int];
            links.update(
                link_index as int,
                LinkView { waypoints: link.waypoints.remove(waypoint_index as int), ..link },
            )
        } else {
            links
        },
    }
}

/// After a connection between two nodes, the new link is the last one and
/// the only one into its input port; every other link was there before and
/// does not end at that port, and every earlier link that did not end there
/// is kept.
pub proof fn lemma_connect_single_link_into<W>(
    links: Seq<LinkView<W>>,
    from: EndpointView,
    to: EndpointView,
)
    requires
        connectable(from, to),
    ensures
        ({
            let after = connect_result(links, from, to);
            &&& after.len() >= 1
            &&& after.last() == (LinkView::<W> { from, to, waypoints: Seq::empty() })
            &&& forall|i: int|
                0 <= i < after.len() - 1 ==> (#[trigger] after[i]).to != to && links.contains(
                    after[i],
                )
            &&& forall|i: int|
                0 <= i < links.len() && (#[trigger] links[i]).to != to ==> after.contains(links[i])
        }),
{
    broadcast use vstd::seq_lib::group_filter_ensures;

    let kept = links_not_into(links, to);
    let after = connect_result(links, from, to);
    let pred = |l: LinkView<W>| l.to != to;
    assert(kept == links.filter(pred));
    assert forall|i: int| 0 <= i < after.len() - 1 implies (#[trigger] after[i]).to != to
        && links.contains(after[i]) by {
        assert(after[i] == kept[i]);
        links.lemma_filter_pred(pred, i);
        assert(kept.contains(kept[i]));
        links.lemma_filter_contains_rev(pred, kept[i]);
    }
    assert forall|i: int|
        0 <= i < links.len() && (#[trigger] links[i]).to != to implies after.contains(links[i]) by {
        assert(pred(links[i]));
        assert(kept.contains(links[i]));
        let k = choose|k: int| 0 <= k < kept.len() && kept[k] == links[i];
        assert(after[k] == links[i]);
    }
}

/// Cutting at a position that names a link removes exactly that link: the
/// links before it stay where they are, and the ones after it move up by one.
pub proof fn lemma_cut_removes_that_link<W>(links: Seq<LinkView<W>>, link_index: usize)
    requires
        link_index < links.len(),
    ensures
        ({
            let after = link_action_result(links, LinkAction::Cut { link_index });
            &&& after.len() == links.len() - 1
            &&& forall|j: int| 0 <= j < link_index ==> #[trigger] after[j] == links[j]
            &&& forall|j: int| link_index <= j < after.len() ==> #[trigger] after[j] == links[j + 1]
        }),
{
}

/// Adding a waypoint changes only the named link: its endpoints stay, and the
/// new waypoint takes the position of the segment's end, or the last place if
/// the segment is past the waypoints; the other waypoints keep their order.
pub proof fn lemma_add_waypoint_places_it<W>(
    links: Seq<LinkView<W>>,
    link_index: usize,
    segment_index: usize,
    position: W,
)
    requires
        link_index < links.len(),
    ensures
        ({
            let after = link_action_result(
                links,
                LinkAction::AddWaypoint { link_index, segment_index, position },
            );
            let old = links[link_index as int].waypoints;
            let new = after[link_index as int].waypoints;
            let at = if segment_index <= old.len() {
                segment_index as int
            } else {
                old.len() as int
            };
            &&& after.len() == links.len()
            &&& forall|j: int| 0 <= j < links.len() && j != link_index ==> #[trigger] after[j] == links[j]
            &&& after[link_index as int].from == links[link_index as int].from
            &&& after[link_index as int].to == links[link_index as int].to
            &&& new.len() == old.len() + 1
            &&& new[at] == position
            &&& forall|k: int| 0 <= k < at ==> #[trigger] new[k] == old[k]
            &&& forall|k: int| at < k < new.len() ==> #[trigger] new[k] == old[k - 1]
        }),
{
}

/// Removing a waypoint that exists changes only the named link: its endpoints
/// stay and that one waypoint is gone, the others keeping their order.
pub proof fn lemma_remove_waypoint_removes_it<W>(
    links: Seq<LinkView<W>>,
    link_index: usize,
    waypoint_index: usize,
)
    requires
        link_index < links.len(),
        waypoint_index < links[link_index as int].waypoints.len(),
    ensures
        ({
            let after = link_action_result(
                links,
                LinkAction::RemoveWaypoint { link_index, waypoint_index },
            );
            let old = links[link_index as int].waypoints;
            let new = after[link_index as int].waypoints;
            &&& after.len() == links.len()
            &&& forall|j: int| 0 <= j < links.len() && j != link_index ==> #[trigger] after[j] == links[j]
            &&& after[link_index as int].from == links[link_index as int].from
            &&& after[link_index as int].to == links[link_index as int].to
            &&& new.len() == old.len() - 1
            &&& forall|k: int| 0 <= k < waypoint_index ==> #[trigger] new[k] == old[k]
            &&& forall|k: int| waypoint_index <= k < new.len() ==> #[trigger] new[k] == old[k + 1]
        }),
{
}

/// An edit whose indices name no link, or no waypoint to remove, changes
/// nothing.
pub proof fn lemma_edit_out_of_range_changes_nothing<W>(
    links: Seq<LinkView<W>>,
    action: LinkAction<W>,
)
    requires
        match action {
            LinkAction::Cut { link_index } => link_index >= links.len(),
            LinkAction::AddWaypoint { link_index, .. } => link_index >= links.len(),
            LinkAction::RemoveWaypoint { link_index, waypoint_index } => link_index >= links.len()
                || waypoint_index >= links[link_index as int].waypoints.len(),
        },
    ensures
        link_action_result(links, action) == links,
{
}

/// The next id a graph hands out is not the id of any of its nodes.
pub proof fn lemma_next_id_is_fresh<N, W>(g: GraphView<N, W>)
    requires
        graph_invariant(g),
    ensures
        forall|i: int| 0 <= i < g.nodes.len() ==> (#[trigger] g.nodes[i]).id != NodeInstanceId(g.next_node_id),
{
}

/// An edit that changes one link in place and keeps its endpoints keeps the
/// graph's invariant.
proof fn lemma_endpoints_unchanged<N, W>(
    before: GraphView<N, W>,
    after: GraphView<N, W>,
    old_links: Seq<NodeLink<W>>,
    new_links: Seq<NodeLink<W>>,
    index: int,
)
    requires
        graph_invariant(before),
        before.links == link_views(old_links),
        after.links == link_views(new_links),
        after.nodes == before.nodes,
        after.next_node_id == before.next_node_id,
        0 <= index < old_links.len(),
        new_links.len() == old_links.len(),
        forall|i: int| 0 <= i < old_links.len() && i != index ==> new_links[i] == old_links[i],
        new_links[index].from == old_links[index].from,
        new_links[index].to == old_links[index].to,
    ensures
        graph_invariant(after),
        after.links == before.links.update(
            index,
            LinkView { waypoints: new_links[index].waypoints@, ..before.links[index] },
        ),
{
    assert forall|i: int| 0 <= i < after.links.len() implies (#[trigger] after.links[i]).to
        == before.links[i].to && after.links[i].from == before.links[i].from by {}
    assert forall|i: int| 0 <= i < after.links.len() implies connectable((#[trigger] after.links[i]).from, after.links[i].to) by {
        assert(after.links[i].to == before.links[i].to);
    }
    assert forall|i: int, j: int| 0 <= i < j < after.links.len() implies (#[trigger] after.links[i]).to
        != (#[trigger] after.links[j]).to by {
        assert(after.links[i].to == before.links[i].to);
        assert(after.links[j].to == before.links[j].to);
    }
    assert(after.links =~= before.links.update(
        index,
        LinkView { waypoints: new_links[index].waypoints@, ..before.links[index] },
    ));
}

fn has_link<W>(links: &Vec<NodeLink<W>>, from: &Endpoint, to: &Endpoint) -> (found: bool)
    ensures
        found == exists|i: int|
            0 <= i < links@.len() && (#[trigger] links@[i])@.from == from@ && links@[i]@.to == to@,
{
    let n = links.len();
    for k in 0..n
        invariant
            n == links@.len(),
            forall|i: int|
                0 <= i < k ==> !((#[trigger] links@[i])@.from == from@ && links@[i]@.to == to@),
    {
        if same_endpoint(&links[k].from, from) && same_endpoint(&links[k].to, to) {
            return true;
        }
    }
    false
}

fn same_endpoint(a: &Endpoint, b: &Endpoint) -> (same: bool)
    ensures
        same == (a@ == b@),
{
    a.node_id == b.node_id && a.port_id == b.port_id && a.direction == b.direction
}

impl<N, W> View for NodeGraph<N, W> {
    type V = GraphView<N, W>;

    closed spec fn view(&self) -> GraphView<N, W> {
        GraphView {
            nodes: self.nodes@,
            links: link_views(self.links@),
            pending_link: match self.pending_link {
                Some(e) => Some(e@),
                None => None,
            },
            next_node_id: self.next_node_id,
        }
    }
}

impl<N, W> NodeGraph<N, W> {
    /// The graph keeps its invariant.
    pub open spec fn wf(&self) -> bool {
        graph_invariant(self@)
    }

    /// An empty graph.
    pub fn new() -> (g: Self)
        ensures
            g.wf(),
            g@.nodes == Seq::<NodeEntry<N>>::empty(),
            g@.links == Seq::<LinkView<W>>::empty(),
            g@.pending_link is None,
            g@.next_node_id == 0,
    {
        let g = NodeGraph { nodes: Vec::new(), links: Vec::new(), pending_link: None, next_node_id: 0 };
        assert(link_views(g.links@) =~= Seq::<LinkView<W>>::empty());
        g
    }

    /// The number of node instances.
    pub fn node_count(&self) -> (n: usize)
        ensures
            n == self@.nodes.len(),
    {
        self.nodes.len()
    }

    /// The number of links.
    pub fn link_count(&self) -> (n: usize)
        ensures
            n == self@.links.len(),
    {
        self.links.len()
    }

    /// The id the next node instance will get.
    pub fn next_node_id(&self) -> (id: u64)
        ensures
            id == self@.next_node_id,
    {
        self.next_node_id
    }

    /// The node instances, in the order they were added.
    pub fn nodes(&self) -> (nodes: &Vec<NodeEntry<N>>)
        ensures
            nodes@ == self@.nodes,
    {
        &self.nodes
    }

    /// The links, in their order.
    pub fn links(&self) -> (links: &Vec<NodeLink<W>>)
        ensures
            link_views(links@) == self@.links,
    {
        &self.links
    }

    /// The link being dragged out of an output port, if any.
    pub fn pending_link(&self) -> (pending: Option<&Endpoint>)
        ensures
            match (pending, self@.pending_link) {
                (Some(e), Some(v)) => e@ == v,
                (None, None) => true,
                _ => false,
            },
    {
        match &self.pending_link {
            Some(e) => Some(e),
            None => None,
        }
    }

    /// Adds a node instance and hands out the next id for it.
    pub fn add_node(&mut self, payload: N) -> (id: NodeInstanceId)
        requires
            old(self).wf(),
            old(self)@.next_node_id < u64::MAX,
        ensures
            final(self).wf(),
            id == NodeInstanceId(old(self)@.next_node_id),
            final(self)@.nodes == old(self)@.nodes.push(NodeEntry { id, payload }),
            final(self)@.links == old(self)@.links,
            final(self)@.pending_link == old(self)@.pending_link,
            final(self)@.next_node_id == old(self)@.next_node_id + 1,
    {
        let ghost before = self@;
        let id = NodeInstanceId(self.next_node_id);
        self.next_node_id = self.next_node_id + 1;
        self.nodes.push(NodeEntry { id, payload });
        proof {
            let after = self@;
            assert forall|i: int| 0 <= i < after.nodes.len() implies (#[trigger] after.nodes[i]).id.0
                < after.next_node_id by {
                if i < before.nodes.len() {
                    assert(after.nodes[i] == before.nodes[i]);
                }
            }
            assert(after.links == before.links);
            assert forall|i: int, j: int| 0 <= i < j < after.nodes.len() implies (#[trigger] after.nodes[i]).id
                != (#[trigger] after.nodes[j]).id by {
                assert(after.nodes[i] == before.nodes[i]);
                if j < before.nodes.len() {
                    assert(after.nodes[j] == before.nodes[j]);
                }
            }
        }
        id
    }

    /// The position of the first node instance with the given id.
    pub fn find_node(&self, id: NodeInstanceId) -> (index: Option<usize>)
        ensures
            match index {
                Some(i) => i < self@.nodes.len() && self@.nodes[i as int].id == id && forall|
                    j: int,
                | 0 <= j < i ==> (#[trigger] self@.nodes[j]).id != id,
                None => forall|j: int|
                    0 <= j < self@.nodes.len() ==> (#[trigger] self@.nodes[j]).id != id,
            },
    {
        let n = self.nodes.len();
        for i in 0..n
            invariant
                n == self.nodes@.len(),
                forall|j: int| 0 <= j < i ==> (#[trigger] self.nodes@[j]).id != id,
        {
            if self.nodes[i].id == id {
                return Some(i);
            }
        }
        None
    }

    /// Replaces what the caller keeps of a node instance.
    pub fn set_payload(&mut self, index: usize, payload: N)
        requires
            old(self).wf(),
            index < old(self)@.nodes.len(),
        ensures
            final(self).wf(),
            final(self)@.nodes == old(self)@.nodes.update(
                index as int,
                NodeEntry { id: old(self)@.nodes[index as int].id, payload },
            ),
            final(self)@.links == old(self)@.links,
            final(self)@.pending_link == old(self)@.pending_link,
            final(self)@.next_node_id == old(self)@.next_node_id,
    {
        let ghost before = self@;
        let id = self.nodes[index].id;
        self.nodes.set(index, NodeEntry { id, payload });
        proof {
            let after = self@;
            assert forall|i: int| 0 <= i < after.nodes.len() implies (#[trigger] after.nodes[i]).id
                == before.nodes[i].id by {}
            assert(after.links == before.links);
        }
    }

    /// Moves a waypoint of a link.
    pub fn set_waypoint(&mut self, link_index: usize, waypoint_index: usize, position: W)
        requires
            old(self).wf(),
            link_index < old(self)@.links.len(),
            waypoint_index < old(self)@.links[link_index as int].waypoints.len(),
        ensures
            final(self).wf(),
            final(self)@.links == old(self)@.links.update(
                link_index as int,
                LinkView {
                    waypoints: old(self)@.links[link_index as int].waypoints.update(
                        waypoint_index as int,
                        position,
                    ),
                    ..old(self)@.links[link_index as int]
                },
            ),
            final(self)@.nodes == old(self)@.nodes,
            final(self)@.pending_link == old(self)@.pending_link,
            final(self)@.next_node_id == old(self)@.next_node_id,
    {
        let ghost old_links = self.links@;
        let ghost before = self@;
        let link = &mut self.links[link_index];
        link.waypoints.set(waypoint_index, position);
        proof {
            lemma_endpoints_unchanged(before, self@, old_links, self.links@, link_index as int);
        }
    }

    /// Connects an output port to an input port. A link within one node is
    /// refused; otherwise the new link replaces every link into `to`.
    pub fn try_connect(&mut self, from: Endpoint, to: Endpoint)
        requires
            old(self).wf(),
        ensures
            final(self).wf(),
            final(self)@.links == connect_result(old(self)@.links, from@, to@),
            final(self)@.nodes == old(self)@.nodes,
            final(self)@.pending_link == old(self)@.pending_link,
            final(self)@.next_node_id == old(self)@.next_node_id,
    {
        if !(from.node_id != to.node_id && from.direction == PortDirection::Output && to.direction
            == PortDirection::Input) {
            return;
        }
        let ghost before = self@;
        let mut old_links: Vec<NodeLink<W>> = Vec::new();
        std::mem::swap(&mut old_links, &mut self.links);
        assert(self.nodes@ == before.nodes);
        let ghost olds = link_views(old_links@);
        assert(olds == before.links);
        let mut kept: Vec<NodeLink<W>> = Vec::new();
        assert(olds.take(0) =~= Seq::<LinkView<W>>::empty());
        #[verifier::loop_isolation(false)]
        for link in it: old_links
            invariant
                it.seq() == old_links@,
                olds == link_views(old_links@),
                link_views(kept@) == links_not_into(olds.take(it.index() as int), to@),
                forall|a: int| 0 <= a < kept@.len() ==> (#[trigger] kept@[a])@.to != to@,
                forall|a: int, m: int|
                    0 <= a < kept@.len() && it.index() <= m < olds.len() ==> (#[trigger] kept@[a])@.to
                        != (#[trigger] olds[m]).to,
                forall|a: int, b: int|
                    0 <= a < b < kept@.len() ==> (#[trigger] kept@[a])@.to != (#[trigger] kept@[b])@.to,
                forall|a: int|
                    0 <= a < kept@.len() ==> connectable((#[trigger] kept@[a])@.from, kept@[a]@.to),
        {
            let ghost i = it.index() as int;
            let ghost prev = kept@;
            assert(olds[i] == link@);
            reveal_with_fuel(Seq::<_>::filter, 1);
            assert(olds.take(i + 1).drop_last() =~= olds.take(i));
            if !same_endpoint(&link.to, &to) {
                kept.push(link);
                assert(link_views(kept@) =~= link_views(prev).push(olds[i]));
            } else {
                assert(link_views(kept@) =~= link_views(prev));
            }
        }
        assert(olds.take(olds.len() as int) =~= olds);
        if has_link(&kept, &from, &to) {
            self.links = kept;
            return;
        }
        let ghost prev = kept@;
        kept.push(NodeLink { from, to, waypoints: Vec::new() });
        self.links = kept;
        proof {
            let after = self@;
            assert(link_views(self.links@) =~= link_views(prev).push(
                LinkView { from: from@, to: to@, waypoints: Seq::empty() },
            ));
            assert(after.nodes == before.nodes);
            assert forall|a: int| 0 <= a < after.links.len() implies connectable((#[trigger] after.links[a]).from, after.links[a].to) by {
                if a < prev.len() {
                    assert(after.links[a] == prev[a]@);
                }
            }
            assert forall|a: int, b: int| 0 <= a < b < after.links.len() implies (#[trigger] after.links[a]).to
                != (#[trigger] after.links[b]).to by {
                assert(after.links[a] == prev[a]@);
                if b < prev.len() {
                    assert(after.links[b] == prev[b]@);
                }
            }
        }
    }

    /// Starts dragging a link out of an output port.
    pub fn start_link(&mut self, from: Endpoint)
        requires
            old(self).wf(),
        ensures
            final(self).wf(),
            final(self)@.pending_link == Some(from@),
            final(self)@.links == old(self)@.links,
            final(self)@.nodes == old(self)@.nodes,
            final(self)@.next_node_id == old(self)@.next_node_id,
    {
        let ghost before = self@;
        self.pending_link = Some(from);
        assert(self@.links == before.links);
        assert(self@.nodes == before.nodes);
    }

    /// The pointer was released: the dragged link, if any, ends; it is
    /// connected when the pointer is over an input port.
    pub fn release_pointer(&mut self, hovered_input: Option<Endpoint>)
        requires
            old(self).wf(),
        ensures
            final(self).wf(),
            final(self)@.pending_link is None,
            final(self)@.links == match (old(self)@.pending_link, hovered_input) {
                (Some(from), Some(to)) => connect_result(old(self)@.links, from, to@),
                _ => old(self)@.links,
            },
            final(self)@.nodes == old(self)@.nodes,
            final(self)@.next_node_id == old(self)@.next_node_id,
    {
        let ghost before = self@;
        let mut pending: Option<Endpoint> = None;
        std::mem::swap(&mut pending, &mut self.pending_link);
        assert(self@.links == before.links);
        assert(self@.nodes == before.nodes);
        if let Some(from) = pending {
            if let Some(to) = hovered_input {
                self.try_connect(from, to);
            }
        }
    }

    /// Applies an edit of the links.
    pub fn apply_link_action(&mut self, action: LinkAction<W>)
        requires
            old(self).wf(),
        ensures
            final(self).wf(),
            final(self)@.links == link_action_result(old(self)@.links, action),
            final(self)@.nodes == old(self)@.nodes,
            final(self)@.pending_link == old(self)@.pending_link,
            final(self)@.next_node_id == old(self)@.next_node_id,
    {
        let ghost before = self@;
        let ghost old_links = self.links@;
        match action {
            LinkAction::Cut { link_index } => {
                if link_index < self.links.len() {
                    self.links.remove(link_index);
                    proof {
                        let after = self@;
                        assert(after.links =~= before.links.remove(link_index as int));
                        assert(after.nodes == before.nodes);
                        assert forall|a: int| 0 <= a < after.links.len() implies connectable((#[trigger] after.links[a]).from, after.links[a].to) by {
                            if a < link_index {
                                assert(after.links[a] == before.links[a]);
                            } else {
                                assert(after.links[a] == before.links[a + 1]);
                            }
                        }
                        assert forall|a: int, b: int| 0 <= a < b < after.links.len() implies (#[trigger] after.links[a]).to
                            != (#[trigger] after.links[b]).to by {
                            let a2 = if a < link_index { a } else { a + 1 };
                            let b2 = if b < link_index { b } else { b + 1 };
                            assert(after.links[a] == before.links[a2]);
                            assert(after.links[b] == before.links[b2]);
                        }
                    }
                } else {
                    assert(self@.links == before.links);
                }
            },
            LinkAction::AddWaypoint { link_index, segment_index, position } => {
                if link_index < self.links.len() {
                    let link = &mut self.links[link_index];
                    let at = if segment_index < link.waypoints.len() {
                        segment_index
                    } else {
                        link.waypoints.len()
                    };
                    link.waypoints.insert(at, position);
                    proof {
                        lemma_endpoints_unchanged(before, self@, old_links, self.links@, link_index as int);
                    }
                } else {
                    assert(self@.links == before.links);
                }
            },
            LinkAction::RemoveWaypoint { link_index, waypoint_index } => {
                if link_index < self.links.len() {
                    let link = &mut self.links[link_index];
                    if waypoint_index < link.waypoints.len() {
                        link.waypoints.remove(waypoint_index);
                    }
                    proof {
                        lemma_endpoints_unchanged(before, self@, old_links, self.links@, link_index as int);
                    }
                } else {
                    assert(self@.links == before.links);
                }
            },
        }
    }
}

} // verus!
