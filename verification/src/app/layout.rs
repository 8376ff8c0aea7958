//! Where the entities of the graph sit in the patchbay.
//!
//! The patchbay has two columns: sources (output ports) on the left and sinks
//! (input ports) on the right. A column lists the media objects in the graph's
//! order; each shows the nodes that have a port on that side, each node the
//! ports on that side. Heights and gaps come from the desktop theme's spacing
//! scale, so every vertical position is a whole number of pixels.
use crate::app::graph::{
    entity_name, is_node, is_object, is_port, port_placed, Graph, Spacing, node_media, node_on_side, node_ports, object_nodes, object_on_side, port_on_side,
    MediaType, PipewireEntity, PipewireId, PortType,
};
use std::collections::{HashMap, HashSet};
use vstd::prelude::*;

verus! {

broadcast use vstd::std_specs::hash::group_hash_axioms;

/// The vertical metrics of the patchbay, in pixels.
#[derive(Debug, Clone, Copy, PartialEq, Eq, Structural)]
pub struct LayoutMetrics {
    /// Space around the whole canvas.
    pub canvas_padding: u16,
    /// Space above the first object of a column.
    pub column_vertical_padding: u16,
    /// Gap between two objects of a column.
    pub column_spacing: u16,
    /// Gap between two nodes of an object.
    pub object_spacing: u16,
    /// Space below the last node of an object.
    pub object_padding: u16,
    /// Height of an object's title row.
    pub object_label_height: u16,
    /// Gap between a node's title and its first port.
    pub node_spacing: u16,
    /// Space above a node's title and below its last port.
    pub node_padding: u16,
    /// Height of a node's title row.
    pub node_label_height: u16,
    /// Gap between two ports of a node.
    pub port_spacing: u16,
    /// Height of a port row.
    pub port_height: u16,
}

impl LayoutMetrics {
    /// The metrics the patchbay takes from the theme's spacing scale.
    pub fn from_spacing(spacing: &Spacing) -> (m: Self)
        ensures
            m == (LayoutMetrics {
                canvas_padding: spacing.space_xxxs,
                column_vertical_padding: spacing.space_none,
                column_spacing: spacing.space_xxs,
                object_spacing: spacing.space_xxs,
                object_padding: spacing.space_xxs,
                object_label_height: spacing.space_xl,
                node_spacing: spacing.space_none,
                node_padding: spacing.space_xxs,
                node_label_height: spacing.space_l,
                port_spacing: spacing.space_none,
                port_height: spacing.space_l,
            }),
    {
        LayoutMetrics {
            canvas_padding: Graph::canvas_padding(spacing),
            column_vertical_padding: Graph::column_vertical_padding(spacing),
            column_spacing: Graph::column_spacing(spacing),
            object_spacing: PipewireEntity::object_spacing(spacing),
            object_padding: PipewireEntity::object_padding(spacing),
            object_label_height: PipewireEntity::object_label_height(spacing),
            node_spacing: PipewireEntity::node_spacing(spacing),
            node_padding: PipewireEntity::node_padding(spacing),
            node_label_height: PipewireEntity::node_label_height(spacing),
            port_spacing: PipewireEntity::port_spacing(spacing),
            port_height: PipewireEntity::port_height(spacing),
        }
    }
}

/// Where a port was placed: its column and the top of its row.
#[derive(Debug, Clone, Copy, PartialEq, Eq, Structural)]
pub struct PortPosition {
    pub side: PortType,
    pub top: u64,
}

/// A port row of a column.
#[derive(Debug, Clone)]
pub struct PortView {
    pub id: PipewireId,
    pub name: String,
    /// The media type of the node the port belongs to; it gives the port's colour.
    pub media_type: MediaType,
    pub hovered: bool,
    pub inspected: bool,
    pub top: u64,
}

/// A node box of a column, with its ports on that side.
#[derive(Debug, Clone)]
pub struct NodeView {
    pub id: PipewireId,
    pub name: String,
    pub media_type: MediaType,
    pub hovered: bool,
    pub inspected: bool,
    pub top: u64,
    pub bottom: u64,
    pub ports: Vec<PortView>,
}

/// A media object box of a column, with its nodes that have ports on that side.
#[derive(Debug, Clone)]
pub struct ObjectView {
    pub id: PipewireId,
    pub name: String,
    pub hovered: bool,
    pub inspected: bool,
    pub top: u64,
    pub bottom: u64,
    pub nodes: Vec<NodeView>,
}

/// A port row as a mathematical value.
pub struct PortLayout {
    pub id: PipewireId,
    pub name: String,
    pub media_type: MediaType,
    pub hovered: bool,
    pub inspected: bool,
    pub top: int,
}

/// A node box as a mathematical value.
pub struct NodeLayout {
    pub id: PipewireId,
    pub name: String,
    pub media_type: MediaType,
    pub hovered: bool,
    pub inspected: bool,
    pub top: int,
    pub bottom: int,
    pub ports: Seq<PortLayout>,
}

/// A media object box as a mathematical value.
pub struct ObjectLayout {
    pub id: PipewireId,
    pub name: String,
    pub hovered: bool,
    pub inspected: bool,
    pub top: int,
    pub bottom: int,
    pub nodes: Seq<NodeLayout>,
}

impl View for PortView {
    type V = PortLayout;

    open spec fn view(&self) -> PortLayout {
        PortLayout {
            id: self.id,
            name: self.name,
            media_type: self.media_type,
            hovered: self.hovered,
            inspected: self.inspected,
            top: self.top as int,
        }
    }
}

impl View for NodeView {
    type V = NodeLayout;

    open spec fn view(&self) -> NodeLayout {
        NodeLayout {
            id: self.id,
            name: self.name,
            media_type: self.media_type,
            hovered: self.hovered,
            inspected: self.inspected,
            top: self.top as int,
            bottom: self.bottom as int,
            ports: self.ports@.map_values(|p: PortView| p@),
        }
    }
}

impl View for ObjectView {
    type V = ObjectLayout;

    open spec fn view(&self) -> ObjectLayout {
        ObjectLayout {
            id: self.id,
            name: self.name,
            hovered: self.hovered,
            inspected: self.inspected,
            top: self.top as int,
            bottom: self.bottom as int,
            nodes: self.nodes@.map_values(|n: NodeView| n@),
        }
    }
}

/// The mathematical values of a column's object boxes.
pub open spec fn object_views(v: Seq<ObjectView>) -> Seq<ObjectLayout> {
    v.map_values(|o: ObjectView| o@)
}

/// Whether an entity is the one pointed at (hovered or inspected).
pub open spec fn marked(target: Option<PipewireId>, id: PipewireId) -> bool {
    target == Some(id)
}

/// Everything one column's layout depends on.
pub struct Column {
    pub ents: Map<PipewireId, PipewireEntity>,
    pub side: PortType,
    pub hovered: Option<PipewireId>,
    pub inspected: Option<PipewireId>,
    pub metrics: LayoutMetrics,
}

impl Column {
    /// The rows of the given ports that belong on this side, the first at
    /// `start`, each next one a port height and a port gap below.
    pub open spec fn ports(self, media: MediaType, ports: Seq<PipewireId>, start: int) -> Seq<
        PortLayout,
    >
        decreases ports.len(),
    {
        if ports.len() == 0 {
            seq![]
        } else {
            let prev = self.ports(media, ports.drop_last(), start);
            let p = ports.last();
            if port_on_side(self.ents, p, self.side) {
                let top = if prev.len() == 0 {
                    start
                } else {
                    prev.last().top + self.metrics.port_height + self.metrics.port_spacing
                };
                prev.push(
                    PortLayout {
                        id: p,
                        name: entity_name(self.ents[p]),
                        media_type: media,
                        hovered: marked(self.hovered, p),
                        inspected: marked(self.inspected, p),
                        top,
                    },
                )
            } else {
                prev
            }
        }
    }

    /// Where the first port row of a node whose box starts at `top` goes:
    /// below the padding, the title and the gap under the title.
    pub open spec fn ports_start(self, top: int) -> int {
        top + self.metrics.node_padding + self.metrics.node_label_height + self.metrics.node_spacing
    }

    /// The box of node `n` starting at `top`; it ends a port height and the
    /// node padding below its last port row.
    pub open spec fn node(self, n: PipewireId, top: int) -> NodeLayout {
        let media = node_media(self.ents[n]);
        let ports = self.ports(media, node_ports(self.ents[n]), self.ports_start(top));
        NodeLayout {
            id: n,
            name: entity_name(self.ents[n]),
            media_type: media,
            hovered: marked(self.hovered, n),
            inspected: marked(self.inspected, n),
            top,
            bottom: ports.last().top + self.metrics.port_height + self.metrics.node_padding,
            ports,
        }
    }

    /// The boxes of the given nodes that have a port on this side, the first at
    /// `start`, each next one an object gap below the previous one.
    pub open spec fn nodes(self, nodes: Seq<PipewireId>, start: int) -> Seq<NodeLayout>
        decreases nodes.len(),
    {
        if nodes.len() == 0 {
            seq![]
        } else {
            let prev = self.nodes(nodes.drop_last(), start);
            let n = nodes.last();
            if node_on_side(self.ents, n, self.side) {
                let top = if prev.len() == 0 {
                    start
                } else {
                    prev.last().bottom + self.metrics.object_spacing
                };
                prev.push(self.node(n, top))
            } else {
                prev
            }
        }
    }

    /// The box of media object `o` starting at `top`: its title, then its
    /// nodes, then the object padding.
    pub open spec fn object(self, o: PipewireId, top: int) -> ObjectLayout {
        let nodes = self.nodes(object_nodes(self.ents[o]), top + self.metrics.object_label_height);
        ObjectLayout {
            id: o,
            name: entity_name(self.ents[o]),
            hovered: marked(self.hovered, o),
            inspected: marked(self.inspected, o),
            top,
            bottom: nodes.last().bottom + self.metrics.object_padding,
            nodes,
        }
    }

    /// The boxes of the given objects that have a node on this side, the first
    /// at `start`, each next one a column gap below the previous one.
    pub open spec fn objects(self, objects: Seq<PipewireId>, start: int) -> Seq<ObjectLayout>
        decreases objects.len(),
    {
        if objects.len() == 0 {
            seq![]
        } else {
            let prev = self.objects(objects.drop_last(), start);
            let o = objects.last();
            if object_on_side(self.ents, o, self.side) {
                let top = if prev.len() == 0 {
                    start
                } else {
                    prev.last().bottom + self.metrics.column_spacing
                };
                prev.push(self.object(o, top))
            } else {
                prev
            }
        }
    }

    /// Where a column's first object goes.
    pub open spec fn start(self) -> int {
        self.metrics.canvas_padding + self.metrics.column_vertical_padding
    }

    /// The column for the graph's objects.
    pub open spec fn layout(self, objects: Seq<PipewireId>) -> Seq<ObjectLayout> {
        self.objects(objects, self.start())
    }

    /// How far down the column reaches: the bottom of its last object.
    pub open spec fn extent(self, objects: Seq<PipewireId>) -> int {
        let l = self.layout(objects);
        if l.len() == 0 {
            self.start()
        } else {
            l.last().bottom
        }
    }
}

impl Column {
    /// A node with a port on this side gets at least one port row.
    pub proof fn lemma_ports_nonempty(self, media: MediaType, ports: Seq<PipewireId>, start: int, k: int)
        requires
            0 <= k < ports.len(),
            port_on_side(self.ents, ports[k], self.side),
        ensures
            self.ports(media, ports, start).len() > 0,
        decreases ports.len(),
    {
        if k < ports.len() - 1 {
            self.lemma_ports_nonempty(media, ports.drop_last(), start, k);
        }
    }

    /// Port rows go down the column: none above `start`, each no higher than
    /// the next.
    pub proof fn lemma_ports_ordered(self, media: MediaType, ports: Seq<PipewireId>, start: int)
        ensures
            forall|i: int|
                0 <= i < self.ports(media, ports, start).len() ==> start <= #[trigger] self.ports(
                    media,
                    ports,
                    start,
                )[i].top,
            forall|i: int, j: int|
                0 <= i <= j < self.ports(media, ports, start).len() ==> #[trigger] self.ports(
                    media,
                    ports,
                    start,
                )[i].top <= #[trigger] self.ports(media, ports, start)[j].top,
        decreases ports.len(),
    {
        if ports.len() > 0 {
            self.lemma_ports_ordered(media, ports.drop_last(), start);
        }
    }

    /// The rows of a prefix of the ports are a prefix of the rows of all of them.
    pub proof fn lemma_ports_prefix(self, media: MediaType, ports: Seq<PipewireId>, start: int, k: int)
        requires
            0 <= k <= ports.len(),
        ensures
            self.ports(media, ports.take(k), start).len() <= self.ports(media, ports, start).len(),
            forall|i: int|
                0 <= i < self.ports(media, ports.take(k), start).len() ==> #[trigger] self.ports(
                    media,
                    ports.take(k),
                    start,
                )[i] == self.ports(media, ports, start)[i],
        decreases ports.len(),
    {
        if k < ports.len() {
            assert(ports.drop_last().take(k) =~= ports.take(k));
            self.lemma_ports_prefix(media, ports.drop_last(), start, k);
        } else {
            assert(ports.take(k) =~= ports);
        }
    }

    /// A port on this side gets a row.
    pub proof fn lemma_ports_member(self, media: MediaType, ports: Seq<PipewireId>, start: int, k: int)
        requires
            0 <= k < ports.len(),
            port_on_side(self.ents, ports[k], self.side),
        ensures
            exists|r: int|
                0 <= r < self.ports(media, ports, start).len() && #[trigger] self.ports(
                    media,
                    ports,
                    start,
                )[r].id == ports[k],
        decreases ports.len(),
    {
        let l = self.ports(media, ports, start);
        if k < ports.len() - 1 {
            self.lemma_ports_member(media, ports.drop_last(), start, k);
            let prev = self.ports(media, ports.drop_last(), start);
            let r = choose|r: int| 0 <= r < prev.len() && #[trigger] prev[r].id == ports[k];
            assert(l[r] == prev[r]);
        } else {
            assert(l[l.len() - 1].id == ports[k]);
        }
    }
}

impl Column {
    /// A node with a port on this side spans from its top to its bottom, with
    /// all its port rows in between.
    pub proof fn lemma_node_span(self, n: PipewireId, top: int)
        requires
            node_on_side(self.ents, n, self.side),
        ensures
            self.node(n, top).ports.len() > 0,
            top <= self.ports_start(top),
            forall|i: int|
                0 <= i < self.node(n, top).ports.len() ==> self.ports_start(top)
                    <= #[trigger] self.node(n, top).ports[i].top <= self.node(
                    n,
                    top,
                ).ports.last().top,
            self.node(n, top).ports.last().top <= self.node(n, top).bottom,
            top <= self.node(n, top).bottom,
    {
        let media = node_media(self.ents[n]);
        let ports = node_ports(self.ents[n]);
        let k = choose|k: int| 0 <= k < ports.len() && #[trigger] port_on_side(self.ents, ports[k], self.side);
        self.lemma_ports_nonempty(media, ports, self.ports_start(top), k);
        self.lemma_ports_ordered(media, ports, self.ports_start(top));
        let l = self.ports(media, ports, self.ports_start(top));
        assert(self.ports_start(top) <= l[0].top);
    }

    /// An object with a node on this side gets at least one node box.
    pub proof fn lemma_nodes_nonempty(self, nodes: Seq<PipewireId>, start: int, j: int)
        requires
            0 <= j < nodes.len(),
            node_on_side(self.ents, nodes[j], self.side),
        ensures
            self.nodes(nodes, start).len() > 0,
        decreases nodes.len(),
    {
        if j < nodes.len() - 1 {
            self.lemma_nodes_nonempty(nodes.drop_last(), start, j);
        }
    }

    /// Node boxes go down the column without overlapping.
    pub proof fn lemma_nodes_ordered(self, nodes: Seq<PipewireId>, start: int)
        ensures
            forall|i: int|
                0 <= i < self.nodes(nodes, start).len() ==> start <= #[trigger] self.nodes(
                    nodes,
                    start,
                )[i].top <= self.nodes(nodes, start)[i].bottom,
            forall|i: int, j: int|
                0 <= i < j < self.nodes(nodes, start).len() ==> #[trigger] self.nodes(
                    nodes,
                    start,
                )[i].bottom <= #[trigger] self.nodes(nodes, start)[j].top,
        decreases nodes.len(),
    {
        if nodes.len() > 0 {
            self.lemma_nodes_ordered(nodes.drop_last(), start);
            let prev = self.nodes(nodes.drop_last(), start);
            let n = nodes.last();
            if node_on_side(self.ents, n, self.side) {
                let top = if prev.len() == 0 {
                    start
                } else {
                    prev.last().bottom + self.metrics.object_spacing
                };
                self.lemma_node_span(n, top);
                let l = self.nodes(nodes, start);
                assert(l.drop_last() =~= prev);
                if prev.len() > 0 {
                    let k = prev.len() - 1;
                    assert(start <= prev[k].top <= prev[k].bottom);
                }
                assert forall|i: int| 0 <= i < l.len() implies start <= #[trigger] l[i].top <= l[i].bottom by {
                    if i < prev.len() {
                        assert(l[i] == prev[i]);
                    }
                }
                assert forall|i: int, j: int| 0 <= i < j < l.len() implies #[trigger] l[i].bottom <= #[trigger] l[j].top by {
                    let k = prev.len() - 1;
                    assert(l[i] == prev[i]);
                    if j == l.len() - 1 {
                        if i < k {
                            assert(prev[i].bottom <= prev[k].top);
                        }
                        assert(prev[k].top <= prev[k].bottom);
                    } else {
                        assert(l[j] == prev[j]);
                    }
                }
            }
        }
    }

    /// The boxes of a prefix of the nodes are a prefix of the boxes of all of them.
    pub proof fn lemma_nodes_prefix(self, nodes: Seq<PipewireId>, start: int, k: int)
        requires
            0 <= k <= nodes.len(),
        ensures
            self.nodes(nodes.take(k), start).len() <= self.nodes(nodes, start).len(),
            forall|i: int|
                0 <= i < self.nodes(nodes.take(k), start).len() ==> #[trigger] self.nodes(
                    nodes.take(k),
                    start,
                )[i] == self.nodes(nodes, start)[i],
        decreases nodes.len(),
    {
        if k < nodes.len() {
            assert(nodes.drop_last().take(k) =~= nodes.take(k));
            self.lemma_nodes_prefix(nodes.drop_last(), start, k);
        } else {
            assert(nodes.take(k) =~= nodes);
        }
    }

    /// A port on this side of one of the nodes gets a row among the node boxes' rows.
    pub proof fn lemma_nodes_member(self, nodes: Seq<PipewireId>, start: int, j: int, k: int)
        requires
            0 <= j < nodes.len(),
            0 <= k < node_ports(self.ents[nodes[j]]).len(),
            port_on_side(self.ents, node_ports(self.ents[nodes[j]])[k], self.side),
        ensures
            exists|r: int|
                0 <= r < node_rows(self.nodes(nodes, start)).len() && #[trigger] node_rows(
                    self.nodes(nodes, start),
                )[r].id == node_ports(self.ents[nodes[j]])[k],
        decreases nodes.len(),
    {
        let p = node_ports(self.ents[nodes[j]])[k];
        let l = self.nodes(nodes, start);
        let prev = self.nodes(nodes.drop_last(), start);
        if j < nodes.len() - 1 {
            self.lemma_nodes_member(nodes.drop_last(), start, j, k);
            let r = choose|r: int| 0 <= r < node_rows(prev).len() && #[trigger] node_rows(prev)[r].id == p;
            if node_on_side(self.ents, nodes.last(), self.side) {
                assert(l.drop_last() =~= prev);
                assert(node_rows(l)[r] == node_rows(prev)[r]);
            }
        } else {
            assert(node_on_side(self.ents, nodes[j], self.side));
            let top = if prev.len() == 0 {
                start
            } else {
                prev.last().bottom + self.metrics.object_spacing
            };
            let nl = self.node(nodes[j], top);
            self.lemma_ports_member(nl.media_type, node_ports(self.ents[nodes[j]]), self.ports_start(top), k);
            let q = choose|q: int| 0 <= q < nl.ports.len() && #[trigger] nl.ports[q].id == p;
            assert(l.drop_last() =~= prev);
            assert(node_rows(l)[node_rows(prev).len() + q] == nl.ports[q]);
        }
    }
}

impl Column {
    /// Every node box lies between the first box's start and the last box's bottom.
    pub proof fn lemma_nodes_within(self, nodes: Seq<PipewireId>, start: int)
        ensures
            forall|i: int|
                0 <= i < self.nodes(nodes, start).len() ==> start <= #[trigger] self.nodes(
                    nodes,
                    start,
                )[i].top <= self.nodes(nodes, start)[i].bottom <= self.nodes(nodes, start).last().bottom,
    {
        self.lemma_nodes_ordered(nodes, start);
        let l = self.nodes(nodes, start);
        assert forall|i: int| 0 <= i < l.len() implies start <= #[trigger] l[i].top <= l[i].bottom
            <= l.last().bottom by {
            let k = l.len() - 1;
            if i < k {
                assert(l[i].bottom <= l[k].top);
            }
            assert(l[k].top <= l[k].bottom);
        }
    }

    /// An object with a node on this side spans from its top to its bottom,
    /// with all its node boxes in between.
    pub proof fn lemma_object_span(self, o: PipewireId, top: int)
        requires
            object_on_side(self.ents, o, self.side),
        ensures
            self.object(o, top).nodes.len() > 0,
            forall|i: int|
                0 <= i < self.object(o, top).nodes.len() ==> top + self.metrics.object_label_height
                    <= #[trigger] self.object(o, top).nodes[i].top <= self.object(o, top).nodes[i].bottom
                    <= self.object(o, top).nodes.last().bottom,
            self.object(o, top).nodes.last().bottom <= self.object(o, top).bottom,
            top <= self.object(o, top).bottom,
    {
        let nodes = object_nodes(self.ents[o]);
        let start = top + self.metrics.object_label_height;
        let j = choose|j: int| 0 <= j < nodes.len() && #[trigger] node_on_side(self.ents, nodes[j], self.side);
        self.lemma_nodes_nonempty(nodes, start, j);
        self.lemma_nodes_within(nodes, start);
        let l = self.nodes(nodes, start);
        assert(start <= l[0].top <= l[0].bottom <= l.last().bottom);
    }

    /// Object boxes go down the column without overlapping.
    pub proof fn lemma_objects_ordered(self, objects: Seq<PipewireId>, start: int)
        ensures
            forall|i: int|
                0 <= i < self.objects(objects, start).len() ==> start <= #[trigger] self.objects(
                    objects,
                    start,
                )[i].top <= self.objects(objects, start)[i].bottom,
            forall|i: int, j: int|
                0 <= i < j < self.objects(objects, start).len() ==> #[trigger] self.objects(
                    objects,
                    start,
                )[i].bottom <= #[trigger] self.objects(objects, start)[j].top,
        decreases objects.len(),
    {
        if objects.len() > 0 {
            self.lemma_objects_ordered(objects.drop_last(), start);
            let prev = self.objects(objects.drop_last(), start);
            let o = objects.last();
            if object_on_side(self.ents, o, self.side) {
                let top = if prev.len() == 0 {
                    start
                } else {
                    prev.last().bottom + self.metrics.column_spacing
                };
                self.lemma_object_span(o, top);
                let l = self.objects(objects, start);
                assert(l.drop_last() =~= prev);
                if prev.len() > 0 {
                    let k = prev.len() - 1;
                    assert(start <= prev[k].top <= prev[k].bottom);
                }
                assert forall|i: int| 0 <= i < l.len() implies start <= #[trigger] l[i].top <= l[i].bottom by {
                    if i < prev.len() {
                        assert(l[i] == prev[i]);
                    }
                }
                assert forall|i: int, j: int| 0 <= i < j < l.len() implies #[trigger] l[i].bottom <= #[trigger] l[j].top by {
                    let k = prev.len() - 1;
                    assert(l[i] == prev[i]);
                    if j == l.len() - 1 {
                        if i < k {
                            assert(prev[i].bottom <= prev[k].top);
                        }
                        assert(prev[k].top <= prev[k].bottom);
                    } else {
                        assert(l[j] == prev[j]);
                    }
                }
            }
        }
    }

    /// Every object box lies between the column start and the column's extent.
    pub proof fn lemma_objects_within(self, objects: Seq<PipewireId>)
        ensures
            forall|i: int|
                0 <= i < self.layout(objects).len() ==> self.start() <= #[trigger] self.layout(
                    objects,
                )[i].top <= self.layout(objects)[i].bottom <= self.extent(objects),
    {
        self.lemma_objects_ordered(objects, self.start());
        let l = self.layout(objects);
        assert forall|i: int| 0 <= i < l.len() implies self.start() <= #[trigger] l[i].top
            <= l[i].bottom <= self.extent(objects) by {
            let k = l.len() - 1;
            if i < k {
                assert(l[i].bottom <= l[k].top);
            }
            assert(l[k].top <= l[k].bottom);
        }
    }

    /// The boxes of a prefix of the objects are a prefix of the boxes of all of them.
    pub proof fn lemma_objects_prefix(self, objects: Seq<PipewireId>, start: int, k: int)
        requires
            0 <= k <= objects.len(),
        ensures
            self.objects(objects.take(k), start).len() <= self.objects(objects, start).len(),
            forall|i: int|
                0 <= i < self.objects(objects.take(k), start).len() ==> #[trigger] self.objects(
                    objects.take(k),
                    start,
                )[i] == self.objects(objects, start)[i],
        decreases objects.len(),
    {
        if k < objects.len() {
            assert(objects.drop_last().take(k) =~= objects.take(k));
            self.lemma_objects_prefix(objects.drop_last(), start, k);
        } else {
            assert(objects.take(k) =~= objects);
        }
    }

    /// A port on this side below one of the objects gets a row in the column.
    pub proof fn lemma_objects_member(
        self,
        objects: Seq<PipewireId>,
        start: int,
        i: int,
        j: int,
        k: int,
    )
        requires
            0 <= i < objects.len(),
            0 <= j < object_nodes(self.ents[objects[i]]).len(),
            0 <= k < node_ports(self.ents[object_nodes(self.ents[objects[i]])[j]]).len(),
            port_on_side(
                self.ents,
                node_ports(self.ents[object_nodes(self.ents[objects[i]])[j]])[k],
                self.side,
            ),
        ensures
            exists|r: int|
                0 <= r < object_rows(self.objects(objects, start)).len() && #[trigger] object_rows(
                    self.objects(objects, start),
                )[r].id == node_ports(self.ents[object_nodes(self.ents[objects[i]])[j]])[k],
        decreases objects.len(),
    {
        let nodes = object_nodes(self.ents[objects[i]]);
        let p = node_ports(self.ents[nodes[j]])[k];
        let l = self.objects(objects, start);
        let prev = self.objects(objects.drop_last(), start);
        if i < objects.len() - 1 {
            self.lemma_objects_member(objects.drop_last(), start, i, j, k);
            let r = choose|r: int| 0 <= r < object_rows(prev).len() && #[trigger] object_rows(prev)[r].id == p;
            if object_on_side(self.ents, objects.last(), self.side) {
                assert(l.drop_last() =~= prev);
                assert(object_rows(l)[r] == object_rows(prev)[r]);
            }
        } else {
            assert(node_on_side(self.ents, nodes[j], self.side));
            assert(object_on_side(self.ents, objects[i], self.side));
            let top = if prev.len() == 0 {
                start
            } else {
                prev.last().bottom + self.metrics.column_spacing
            };
            let ol = self.object(objects[i], top);
            self.lemma_nodes_member(nodes, top + self.metrics.object_label_height, j, k);
            let q = choose|q: int| 0 <= q < node_rows(ol.nodes).len() && #[trigger] node_rows(ol.nodes)[q].id == p;
            assert(l.drop_last() =~= prev);
            assert(object_rows(l)[object_rows(prev).len() + q] == node_rows(ol.nodes)[q]);
        }
    }
}

impl Column {
    /// Only ports of this side get rows.
    pub proof fn lemma_ports_on_side(self, media: MediaType, ports: Seq<PipewireId>, start: int)
        ensures
            forall|r: int|
                0 <= r < self.ports(media, ports, start).len() ==> port_on_side(
                    self.ents,
                    #[trigger] self.ports(media, ports, start)[r].id,
                    self.side,
                ),
        decreases ports.len(),
    {
        if ports.len() > 0 {
            self.lemma_ports_on_side(media, ports.drop_last(), start);
        }
    }

    /// Only ports of this side get rows among the node boxes.
    pub proof fn lemma_nodes_on_side(self, nodes: Seq<PipewireId>, start: int)
        ensures
            forall|r: int|
                0 <= r < node_rows(self.nodes(nodes, start)).len() ==> port_on_side(
                    self.ents,
                    #[trigger] node_rows(self.nodes(nodes, start))[r].id,
                    self.side,
                ),
        decreases nodes.len(),
    {
        if nodes.len() > 0 {
            self.lemma_nodes_on_side(nodes.drop_last(), start);
            let prev = self.nodes(nodes.drop_last(), start);
            let l = self.nodes(nodes, start);
            let n = nodes.last();
            if node_on_side(self.ents, n, self.side) {
                let last = l.last();
                self.lemma_ports_on_side(
                    node_media(self.ents[n]),
                    node_ports(self.ents[n]),
                    self.ports_start(last.top),
                );
                assert(l.drop_last() =~= prev);
                assert forall|r: int| 0 <= r < node_rows(l).len() implies port_on_side(
                    self.ents,
                    #[trigger] node_rows(l)[r].id,
                    self.side,
                ) by {
                    if r < node_rows(prev).len() {
                        assert(node_rows(l)[r] == node_rows(prev)[r]);
                    } else {
                        assert(node_rows(l)[r] == last.ports[r - node_rows(prev).len()]);
                    }
                }
            }
        }
    }

    /// The source column shows only source ports and the sink column only
    /// sink ports.
    pub proof fn lemma_column_on_side(self, objects: Seq<PipewireId>, start: int)
        ensures
            forall|r: int|
                0 <= r < object_rows(self.objects(objects, start)).len() ==> port_on_side(
                    self.ents,
                    #[trigger] object_rows(self.objects(objects, start))[r].id,
                    self.side,
                ),
        decreases objects.len(),
    {
        if objects.len() > 0 {
            self.lemma_column_on_side(objects.drop_last(), start);
            let prev = self.objects(objects.drop_last(), start);
            let l = self.objects(objects, start);
            let o = objects.last();
            if object_on_side(self.ents, o, self.side) {
                let last = l.last();
                self.lemma_nodes_on_side(
                    object_nodes(self.ents[o]),
                    last.top + self.metrics.object_label_height,
                );
                assert(l.drop_last() =~= prev);
                assert forall|r: int| 0 <= r < object_rows(l).len() implies port_on_side(
                    self.ents,
                    #[trigger] object_rows(l)[r].id,
                    self.side,
                ) by {
                    if r < object_rows(prev).len() {
                        assert(object_rows(l)[r] == object_rows(prev)[r]);
                    } else {
                        assert(object_rows(l)[r] == node_rows(last.nodes)[r - object_rows(prev).len()]);
                    }
                }
            }
        }
    }
}

/// Two sequences of port rows that differ at most in what is marked hovered
/// or inspected.
pub open spec fn same_port_places(a: Seq<PortLayout>, b: Seq<PortLayout>) -> bool {
    &&& a.len() == b.len()
    &&& forall|i: int|
        0 <= i < a.len() ==> (#[trigger] a[i]).id == b[i].id && a[i].top == b[i].top && a[i].name
            == b[i].name && a[i].media_type == b[i].media_type
}

/// Two sequences of node boxes that differ at most in what is marked hovered
/// or inspected.
pub open spec fn same_node_places(a: Seq<NodeLayout>, b: Seq<NodeLayout>) -> bool {
    &&& a.len() == b.len()
    &&& forall|i: int|
        0 <= i < a.len() ==> (#[trigger] a[i]).id == b[i].id && a[i].top == b[i].top
            && a[i].bottom == b[i].bottom && a[i].name == b[i].name && a[i].media_type
            == b[i].media_type && same_port_places(a[i].ports, b[i].ports)
}

/// Two sequences of object boxes that differ at most in what is marked
/// hovered or inspected.
pub open spec fn same_object_places(a: Seq<ObjectLayout>, b: Seq<ObjectLayout>) -> bool {
    &&& a.len() == b.len()
    &&& forall|i: int|
        0 <= i < a.len() ==> (#[trigger] a[i]).id == b[i].id && a[i].top == b[i].top
            && a[i].bottom == b[i].bottom && a[i].name == b[i].name && same_node_places(
            a[i].nodes,
            b[i].nodes,
        )
}

/// Port rows do not move with what is hovered or inspected.
pub proof fn lemma_ports_unmoved(
    c: Column,
    d: Column,
    media: MediaType,
    ports: Seq<PipewireId>,
    start: int,
)
    requires
        c.ents == d.ents,
        c.side == d.side,
        c.metrics == d.metrics,
    ensures
        same_port_places(c.ports(media, ports, start), d.ports(media, ports, start)),
    decreases ports.len(),
{
    if ports.len() > 0 {
        lemma_ports_unmoved(c, d, media, ports.drop_last(), start);
        let a = c.ports(media, ports, start);
        let b = d.ports(media, ports, start);
        let pa = c.ports(media, ports.drop_last(), start);
        let pb = d.ports(media, ports.drop_last(), start);
        if port_on_side(c.ents, ports.last(), c.side) {
            assert forall|i: int| 0 <= i < a.len() implies (#[trigger] a[i]).id == b[i].id && a[i].top
                == b[i].top && a[i].name == b[i].name && a[i].media_type == b[i].media_type by {
                if i < pa.len() {
                    assert(a[i] == pa[i] && b[i] == pb[i]);
                } else if pa.len() > 0 {
                    assert(pa[pa.len() - 1].top == pb[pb.len() - 1].top);
                }
            }
        }
    }
}

/// Node boxes do not move with what is hovered or inspected.
pub proof fn lemma_nodes_unmoved(c: Column, d: Column, nodes: Seq<PipewireId>, start: int)
    requires
        c.ents == d.ents,
        c.side == d.side,
        c.metrics == d.metrics,
    ensures
        same_node_places(c.nodes(nodes, start), d.nodes(nodes, start)),
    decreases nodes.len(),
{
    if nodes.len() > 0 {
        lemma_nodes_unmoved(c, d, nodes.drop_last(), start);
        let a = c.nodes(nodes, start);
        let b = d.nodes(nodes, start);
        let pa = c.nodes(nodes.drop_last(), start);
        let pb = d.nodes(nodes.drop_last(), start);
        let n = nodes.last();
        if node_on_side(c.ents, n, c.side) {
            let top = if pa.len() == 0 {
                start
            } else {
                pa.last().bottom + c.metrics.object_spacing
            };
            if pa.len() > 0 {
                assert(pa[pa.len() - 1].bottom == pb[pb.len() - 1].bottom);
            }
            let media = node_media(c.ents[n]);
            lemma_ports_unmoved(c, d, media, node_ports(c.ents[n]), c.ports_start(top));
            let ca = c.node(n, top);
            let cb = d.node(n, top);
            c.lemma_node_span(n, top);
            if ca.ports.len() > 0 {
                assert(ca.ports[ca.ports.len() - 1].top == cb.ports[cb.ports.len() - 1].top);
            }
            assert forall|i: int| 0 <= i < a.len() implies (#[trigger] a[i]).id == b[i].id && a[i].top
                == b[i].top && a[i].bottom == b[i].bottom && a[i].name == b[i].name
                && a[i].media_type == b[i].media_type && same_port_places(a[i].ports, b[i].ports) by {
                if i < pa.len() {
                    assert(a[i] == pa[i] && b[i] == pb[i]);
                } else {
                    assert(a[i] == ca);
                    assert(b[i] == cb);
                }
            }
        }
    }
}

/// Hovering or inspecting an entity never moves any box or row of a column:
/// two columns that differ only in what is hovered and inspected place the
/// same objects, nodes and ports at the same heights.
pub proof fn lemma_column_unmoved(c: Column, d: Column, objects: Seq<PipewireId>, start: int)
    requires
        c.ents == d.ents,
        c.side == d.side,
        c.metrics == d.metrics,
    ensures
        same_object_places(c.objects(objects, start), d.objects(objects, start)),
    decreases objects.len(),
{
    if objects.len() > 0 {
        lemma_column_unmoved(c, d, objects.drop_last(), start);
        let a = c.objects(objects, start);
        let b = d.objects(objects, start);
        let pa = c.objects(objects.drop_last(), start);
        let pb = d.objects(objects.drop_last(), start);
        let o = objects.last();
        if object_on_side(c.ents, o, c.side) {
            let top = if pa.len() == 0 {
                start
            } else {
                pa.last().bottom + c.metrics.column_spacing
            };
            if pa.len() > 0 {
                assert(pa[pa.len() - 1].bottom == pb[pb.len() - 1].bottom);
            }
            lemma_nodes_unmoved(c, d, object_nodes(c.ents[o]), top + c.metrics.object_label_height);
            let ca = c.object(o, top);
            let cb = d.object(o, top);
            c.lemma_object_span(o, top);
            if ca.nodes.len() > 0 {
                assert(ca.nodes[ca.nodes.len() - 1].bottom == cb.nodes[cb.nodes.len() - 1].bottom);
            }
            assert forall|i: int| 0 <= i < a.len() implies (#[trigger] a[i]).id == b[i].id && a[i].top
                == b[i].top && a[i].bottom == b[i].bottom && a[i].name == b[i].name
                && same_node_places(a[i].nodes, b[i].nodes) by {
                if i < pa.len() {
                    assert(a[i] == pa[i] && b[i] == pb[i]);
                } else {
                    assert(a[i] == ca);
                    assert(b[i] == cb);
                }
            }
        }
    }
}

/// Rows at the same places yield the same port rows when gathered by node.
pub proof fn lemma_node_rows_unmoved(a: Seq<NodeLayout>, b: Seq<NodeLayout>)
    requires
        same_node_places(a, b),
    ensures
        same_port_places(node_rows(a), node_rows(b)),
    decreases a.len(),
{
    if a.len() > 0 {
        let pa = a.drop_last();
        let pb = b.drop_last();
        assert forall|i: int| 0 <= i < pa.len() implies (#[trigger] pa[i]).id == pb[i].id && pa[i].top
            == pb[i].top && pa[i].bottom == pb[i].bottom && pa[i].name == pb[i].name
            && pa[i].media_type == pb[i].media_type && same_port_places(pa[i].ports, pb[i].ports) by {
            assert(pa[i] == a[i] && pb[i] == b[i]);
        }
        lemma_node_rows_unmoved(pa, pb);
        let x = node_rows(pa);
        let y = node_rows(pb);
        let la = a.last().ports;
        let lb = b.last().ports;
        assert(same_port_places(la, lb));
        assert forall|i: int| 0 <= i < node_rows(a).len() implies (#[trigger] node_rows(a)[i]).id
            == node_rows(b)[i].id && node_rows(a)[i].top == node_rows(b)[i].top && node_rows(a)[i].name
            == node_rows(b)[i].name && node_rows(a)[i].media_type == node_rows(b)[i].media_type by {
            if i < x.len() {
                assert(node_rows(a)[i] == x[i] && node_rows(b)[i] == y[i]);
            } else {
                assert(node_rows(a)[i] == la[i - x.len()] && node_rows(b)[i] == lb[i - x.len()]);
            }
        }
    }
}

/// Boxes at the same places yield the same port rows when gathered by object.
pub proof fn lemma_object_rows_unmoved(a: Seq<ObjectLayout>, b: Seq<ObjectLayout>)
    requires
        same_object_places(a, b),
    ensures
        same_port_places(object_rows(a), object_rows(b)),
    decreases a.len(),
{
    if a.len() > 0 {
        let pa = a.drop_last();
        let pb = b.drop_last();
        assert forall|i: int| 0 <= i < pa.len() implies (#[trigger] pa[i]).id == pb[i].id && pa[i].top
            == pb[i].top && pa[i].bottom == pb[i].bottom && pa[i].name == pb[i].name
            && same_node_places(pa[i].nodes, pb[i].nodes) by {
            assert(pa[i] == a[i] && pb[i] == b[i]);
        }
        lemma_object_rows_unmoved(pa, pb);
        let x = object_rows(pa);
        let y = object_rows(pb);
        assert(same_node_places(a.last().nodes, b.last().nodes));
        lemma_node_rows_unmoved(a.last().nodes, b.last().nodes);
        let la = node_rows(a.last().nodes);
        let lb = node_rows(b.last().nodes);
        assert forall|i: int| 0 <= i < object_rows(a).len() implies (#[trigger] object_rows(a)[i]).id
            == object_rows(b)[i].id && object_rows(a)[i].top == object_rows(b)[i].top
            && object_rows(a)[i].name == object_rows(b)[i].name && object_rows(a)[i].media_type
            == object_rows(b)[i].media_type by {
            if i < x.len() {
                assert(object_rows(a)[i] == x[i] && object_rows(b)[i] == y[i]);
            } else {
                assert(object_rows(a)[i] == la[i - x.len()] && object_rows(b)[i] == lb[i - x.len()]);
            }
        }
    }
}

/// Recording rows at the same places gives the same positions.
pub proof fn lemma_record_unmoved(
    m: Map<PipewireId, PortPosition>,
    side: PortType,
    a: Seq<PortLayout>,
    b: Seq<PortLayout>,
)
    requires
        same_port_places(a, b),
    ensures
        record(m, side, a) == record(m, side, b),
    decreases a.len(),
{
    if a.len() > 0 {
        let pa = a.drop_last();
        let pb = b.drop_last();
        assert forall|i: int| 0 <= i < pa.len() implies (#[trigger] pa[i]).id == pb[i].id && pa[i].top
            == pb[i].top && pa[i].name == pb[i].name && pa[i].media_type == pb[i].media_type by {
            assert(pa[i] == a[i] && pb[i] == b[i]);
        }
        lemma_record_unmoved(m, side, pa, pb);
        assert(a.last().id == b.last().id && a.last().top == b.last().top);
    }
}

/// Hovering or inspecting an entity never moves a recorded port position nor
/// a connection line: with the same entities, objects and metrics, the
/// positions are the same whatever is hovered and inspected, and so are the
/// lines drawn for the connections, in any order.
pub proof fn lemma_lines_unmoved(
    ents: Map<PipewireId, PipewireEntity>,
    objects: Seq<PipewireId>,
    metrics: LayoutMetrics,
    hovered1: Option<PipewireId>,
    inspected1: Option<PipewireId>,
    hovered2: Option<PipewireId>,
    inspected2: Option<PipewireId>,
    set: Set<PipewireId>,
    lines: Seq<ConnectionLine>,
)
    ensures
        ({
            let p1 = port_positions(
                column(ents, PortType::Source, hovered1, inspected1, metrics),
                column(ents, PortType::Sink, hovered1, inspected1, metrics),
                objects,
            );
            let p2 = port_positions(
                column(ents, PortType::Source, hovered2, inspected2, metrics),
                column(ents, PortType::Sink, hovered2, inspected2, metrics),
                objects,
            );
            &&& p1 == p2
            &&& forall|order: Seq<PipewireId>| #[trigger] lines_of(ents, p1, order) == lines_of(ents, p2, order)
            &&& draws(set, ents, p1, lines) == draws(set, ents, p2, lines)
        }),
{
    let s1 = column(ents, PortType::Source, hovered1, inspected1, metrics);
    let s2 = column(ents, PortType::Source, hovered2, inspected2, metrics);
    let k1 = column(ents, PortType::Sink, hovered1, inspected1, metrics);
    let k2 = column(ents, PortType::Sink, hovered2, inspected2, metrics);
    lemma_column_unmoved(s1, s2, objects, s1.start());
    lemma_column_unmoved(k1, k2, objects, k1.start());
    lemma_object_rows_unmoved(s1.layout(objects), s2.layout(objects));
    lemma_object_rows_unmoved(k1.layout(objects), k2.layout(objects));
    let empty = Map::<PipewireId, PortPosition>::empty();
    lemma_record_unmoved(empty, PortType::Source, object_rows(s1.layout(objects)), object_rows(s2.layout(objects)));
    let inner = record(empty, PortType::Source, object_rows(s1.layout(objects)));
    lemma_record_unmoved(inner, PortType::Sink, object_rows(k1.layout(objects)), object_rows(k2.layout(objects)));
}

impl Column {
    /// A port row is marked hovered exactly when the hovered id is the port's,
    /// and inspected exactly when the inspected id is the port's.
    pub proof fn lemma_ports_marks(self, media: MediaType, ports: Seq<PipewireId>, start: int)
        ensures
            forall|r: int|
                0 <= r < self.ports(media, ports, start).len() ==> {
                    let row = #[trigger] self.ports(media, ports, start)[r];
                    &&& row.hovered == (self.hovered == Some(row.id))
                    &&& row.inspected == (self.inspected == Some(row.id))
                },
        decreases ports.len(),
    {
        if ports.len() > 0 {
            self.lemma_ports_marks(media, ports.drop_last(), start);
        }
    }

    /// A node box, and each of its port rows, is marked hovered exactly when
    /// the hovered id is its own, and inspected exactly when the inspected id
    /// is its own.
    pub proof fn lemma_node_marks(self, n: PipewireId, top: int)
        ensures
            self.node(n, top).id == n,
            self.node(n, top).hovered == (self.hovered == Some(n)),
            self.node(n, top).inspected == (self.inspected == Some(n)),
            forall|r: int|
                0 <= r < self.node(n, top).ports.len() ==> {
                    let row = #[trigger] self.node(n, top).ports[r];
                    &&& row.hovered == (self.hovered == Some(row.id))
                    &&& row.inspected == (self.inspected == Some(row.id))
                },
    {
        self.lemma_ports_marks(node_media(self.ents[n]), node_ports(self.ents[n]), self.ports_start(top));
    }

    /// Every node box among the given nodes is marked hovered and inspected
    /// exactly when the hovered and inspected ids are its own.
    pub proof fn lemma_nodes_marks(self, nodes: Seq<PipewireId>, start: int)
        ensures
            forall|i: int|
                0 <= i < self.nodes(nodes, start).len() ==> {
                    let b = #[trigger] self.nodes(nodes, start)[i];
                    &&& b.hovered == (self.hovered == Some(b.id))
                    &&& b.inspected == (self.inspected == Some(b.id))
                    &&& forall|r: int|
                        0 <= r < b.ports.len() ==> (#[trigger] b.ports[r]).hovered == (self.hovered
                            == Some(b.ports[r].id)) && b.ports[r].inspected == (self.inspected == Some(
                            b.ports[r].id,
                        ))
                },
        decreases nodes.len(),
    {
        if nodes.len() > 0 {
            self.lemma_nodes_marks(nodes.drop_last(), start);
            let prev = self.nodes(nodes.drop_last(), start);
            let l = self.nodes(nodes, start);
            let n = nodes.last();
            if node_on_side(self.ents, n, self.side) {
                let top = if prev.len() == 0 {
                    start
                } else {
                    prev.last().bottom + self.metrics.object_spacing
                };
                self.lemma_node_marks(n, top);
                assert forall|i: int| 0 <= i < l.len() implies {
                    let b = #[trigger] l[i];
                    &&& b.hovered == (self.hovered == Some(b.id))
                    &&& b.inspected == (self.inspected == Some(b.id))
                    &&& forall|r: int|
                        0 <= r < b.ports.len() ==> (#[trigger] b.ports[r]).hovered == (self.hovered
                            == Some(b.ports[r].id)) && b.ports[r].inspected == (self.inspected == Some(
                            b.ports[r].id,
                        ))
                } by {
                    if i < prev.len() {
                        assert(l[i] == prev[i]);
                    } else {
                        assert(l[i] == self.node(n, top));
                    }
                }
            }
        }
    }

    /// An object box is marked hovered and inspected exactly when the hovered
    /// and inspected ids are its own, and so is every node box and port row
    /// in it.
    pub proof fn lemma_object_marks(self, o: PipewireId, top: int)
        ensures
            self.object(o, top).id == o,
            self.object(o, top).hovered == (self.hovered == Some(o)),
            self.object(o, top).inspected == (self.inspected == Some(o)),
            forall|i: int|
                0 <= i < self.object(o, top).nodes.len() ==> {
                    let b = #[trigger] self.object(o, top).nodes[i];
                    &&& b.hovered == (self.hovered == Some(b.id))
                    &&& b.inspected == (self.inspected == Some(b.id))
                    &&& forall|r: int|
                        0 <= r < b.ports.len() ==> (#[trigger] b.ports[r]).hovered == (self.hovered
                            == Some(b.ports[r].id)) && b.ports[r].inspected == (self.inspected == Some(
                            b.ports[r].id,
                        ))
                },
    {
        self.lemma_nodes_marks(object_nodes(self.ents[o]), top + self.metrics.object_label_height);
    }

    /// In a whole column, every object box is marked hovered and inspected
    /// exactly when the hovered and inspected ids are its own.
    pub proof fn lemma_objects_marks(self, objects: Seq<PipewireId>, start: int)
        ensures
            forall|i: int|
                0 <= i < self.objects(objects, start).len() ==> {
                    let b = #[trigger] self.objects(objects, start)[i];
                    &&& b.hovered == (self.hovered == Some(b.id))
                    &&& b.inspected == (self.inspected == Some(b.id))
                },
        decreases objects.len(),
    {
        if objects.len() > 0 {
            self.lemma_objects_marks(objects.drop_last(), start);
            let prev = self.objects(objects.drop_last(), start);
            let l = self.objects(objects, start);
            let o = objects.last();
            if object_on_side(self.ents, o, self.side) {
                let top = if prev.len() == 0 {
                    start
                } else {
                    prev.last().bottom + self.metrics.column_spacing
                };
                self.lemma_object_marks(o, top);
                assert forall|i: int| 0 <= i < l.len() implies {
                    let b = #[trigger] l[i];
                    &&& b.hovered == (self.hovered == Some(b.id))
                    &&& b.inspected == (self.inspected == Some(b.id))
                } by {
                    if i < prev.len() {
                        assert(l[i] == prev[i]);
                    } else {
                        assert(l[i] == self.object(o, top));
                    }
                }
            }
        }
    }
}

/// The line drawn for an entity: a connection gets exactly one line, from the
/// recorded position of its output port to that of its input port, in its own
/// media type; any other entity gets none.
pub proof fn lemma_line_of(
    ents: Map<PipewireId, PipewireEntity>,
    positions: Map<PipewireId, PortPosition>,
    c: PipewireId,
)
    ensures
        line_of(ents, positions, c) is Some <==> ents[c] is Connection,
        ents[c] matches PipewireEntity::Connection { from_port_id, to_port_id, media_type, .. }
            ==> line_of(ents, positions, c) == Some(
            ConnectionLine {
                from: positions[from_port_id],
                to: positions[to_port_id],
                media_type: media_type,
            },
        ),
{
}

/// The lines for a sequence of entities are the lines of its connections:
/// every line is the line of one of its entities, and every connection gets
/// its line.
pub proof fn lemma_lines_of(
    ents: Map<PipewireId, PipewireEntity>,
    positions: Map<PipewireId, PortPosition>,
    order: Seq<PipewireId>,
)
    ensures
        forall|i: int|
            #![trigger lines_of(ents, positions, order)[i]]
            0 <= i < lines_of(ents, positions, order).len() ==> exists|k: int|
                0 <= k < order.len() && #[trigger] line_of(ents, positions, order[k]) == Some(
                    lines_of(ents, positions, order)[i],
                ),
        forall|k: int|
            #![trigger order[k]]
            0 <= k < order.len() && ents[order[k]] is Connection ==> exists|i: int|
                0 <= i < lines_of(ents, positions, order).len() && line_of(ents, positions, order[k])
                    == Some(#[trigger] lines_of(ents, positions, order)[i]),
        lines_of(ents, positions, order).len() <= order.len(),
    decreases order.len(),
{
    if order.len() > 0 {
        let prev = order.drop_last();
        lemma_lines_of(ents, positions, prev);
        let lp = lines_of(ents, positions, prev);
        let l = lines_of(ents, positions, order);
        assert forall|i: int|
            #![trigger l[i]]
            0 <= i < l.len() implies exists|k: int|
            0 <= k < order.len() && #[trigger] line_of(ents, positions, order[k]) == Some(l[i]) by {
            if i < lp.len() {
                assert(l[i] == lp[i]);
                let k = choose|k: int|
                    0 <= k < prev.len() && #[trigger] line_of(ents, positions, prev[k]) == Some(lp[i]);
                assert(prev[k] == order[k]);
                assert(line_of(ents, positions, order[k]) == Some(l[i]));
            } else {
                let k = order.len() - 1;
                assert(line_of(ents, positions, order[k]) == Some(l[i]));
            }
        }
        assert forall|k: int|
            #![trigger order[k]]
            0 <= k < order.len() && ents[order[k]] is Connection implies exists|i: int|
                0 <= i < l.len() && line_of(ents, positions, order[k]) == Some(#[trigger] l[i]) by {
            if k < prev.len() {
                assert(prev[k] == order[k]);
                let i = choose|i: int|
                    0 <= i < lp.len() && line_of(ents, positions, prev[k]) == Some(#[trigger] lp[i]);
                assert(l[i] == lp[i]);
            } else {
                assert(l[l.len() - 1] == line_of(ents, positions, order[k]).unwrap());
            }
        }
    }
}

/// The ids of a sequence of port rows.
pub open spec fn row_ids(rows: Seq<PortLayout>) -> Seq<PipewireId> {
    rows.map_values(|r: PortLayout| r.id)
}

/// The ids of a sequence of node boxes.
pub open spec fn node_ids(nodes: Seq<NodeLayout>) -> Seq<PipewireId> {
    nodes.map_values(|b: NodeLayout| b.id)
}

/// The ids of a sequence of object boxes.
pub open spec fn object_ids(objects: Seq<ObjectLayout>) -> Seq<PipewireId> {
    objects.map_values(|b: ObjectLayout| b.id)
}

impl Column {
    /// Whether a port belongs on this column's side.
    pub open spec fn port_shown(self) -> spec_fn(PipewireId) -> bool {
        |p: PipewireId| port_on_side(self.ents, p, self.side)
    }

    /// Whether a node has a port on this column's side.
    pub open spec fn node_shown(self) -> spec_fn(PipewireId) -> bool {
        |n: PipewireId| node_on_side(self.ents, n, self.side)
    }

    /// Whether a media object has a node on this column's side.
    pub open spec fn object_shown(self) -> spec_fn(PipewireId) -> bool {
        |o: PipewireId| object_on_side(self.ents, o, self.side)
    }

    /// The port rows carry their ports' names and the node's media type; the
    /// first is at `start` and each next one a port height and a port gap
    /// below the previous one.
    pub proof fn lemma_ports_shape(self, media: MediaType, ports: Seq<PipewireId>, start: int)
        ensures
            forall|i: int|
                #![trigger self.ports(media, ports, start)[i]]
                0 <= i < self.ports(media, ports, start).len() ==> self.ports(media, ports, start)[i].name
                    == entity_name(self.ents[self.ports(media, ports, start)[i].id])
                    && self.ports(media, ports, start)[i].media_type == media,
            self.ports(media, ports, start).len() > 0 ==> self.ports(media, ports, start)[0].top
                == start,
            forall|i: int, j: int|
                #![trigger self.ports(media, ports, start)[i], self.ports(media, ports, start)[j]]
                0 <= i && j == i + 1 && j < self.ports(media, ports, start).len() ==> self.ports(
                    media,
                    ports,
                    start,
                )[j].top == self.ports(media, ports, start)[i].top + self.metrics.port_height
                    + self.metrics.port_spacing,
        decreases ports.len(),
    {
        if ports.len() > 0 {
            self.lemma_ports_shape(media, ports.drop_last(), start);
            let prev = self.ports(media, ports.drop_last(), start);
            let rows = self.ports(media, ports, start);
            if port_on_side(self.ents, ports.last(), self.side) {
                assert forall|i: int| 0 <= i < rows.len() implies #[trigger] rows[i].name == entity_name(
                    self.ents[rows[i].id],
                ) && rows[i].media_type == media by {
                    if i < prev.len() {
                        assert(rows[i] == prev[i]);
                    }
                }
                if prev.len() > 0 {
                    assert(rows[0] == prev[0]);
                }
                assert forall|i: int, j: int|
                    #![trigger rows[i], rows[j]]
                    0 <= i && j == i + 1 && j < rows.len() implies rows[j].top == rows[i].top
                        + self.metrics.port_height + self.metrics.port_spacing by {
                    assert(rows[i] == prev[i]);
                    if j < prev.len() {
                        assert(rows[j] == prev[j]);
                    }
                }
            }
        }
    }

    /// The node boxes carry their nodes' names and media types; the first
    /// starts at `start` and each next one an object gap below the previous
    /// one's bottom. Inside a box the ports of this side follow the title, the
    /// first one the node padding, title height and title gap below the box's
    /// top, and the box ends a port height and the node padding below its
    /// last port row.
    pub proof fn lemma_nodes_shape(self, nodes: Seq<PipewireId>, start: int)
        ensures
            forall|i: int|
                #![trigger self.nodes(nodes, start)[i]]
                0 <= i < self.nodes(nodes, start).len() ==> {
                    let b = self.nodes(nodes, start)[i];
                    let m = self.metrics;
                    &&& b.name == entity_name(self.ents[b.id])
                    &&& b.media_type == node_media(self.ents[b.id])
                    &&& b.ports.len() > 0
                    &&& b.ports[0].top == b.top + m.node_padding + m.node_label_height + m.node_spacing
                    &&& b.bottom == b.ports.last().top + m.port_height + m.node_padding
                },
            self.nodes(nodes, start).len() > 0 ==> self.nodes(nodes, start)[0].top == start,
            forall|i: int, j: int|
                #![trigger self.nodes(nodes, start)[i], self.nodes(nodes, start)[j]]
                0 <= i && j == i + 1 && j < self.nodes(nodes, start).len() ==> self.nodes(
                    nodes,
                    start,
                )[j].top == self.nodes(nodes, start)[i].bottom + self.metrics.object_spacing,
        decreases nodes.len(),
    {
        if nodes.len() > 0 {
            self.lemma_nodes_shape(nodes.drop_last(), start);
            let prev = self.nodes(nodes.drop_last(), start);
            let b = self.nodes(nodes, start);
            let m = self.metrics;
            let n = nodes.last();
            if node_on_side(self.ents, n, self.side) {
                let top = if prev.len() == 0 {
                    start
                } else {
                    prev.last().bottom + m.object_spacing
                };
                self.lemma_node_span(n, top);
                self.lemma_ports_shape(node_media(self.ents[n]), node_ports(self.ents[n]), self.ports_start(top));
                assert forall|i: int| 0 <= i < b.len() implies {
                    let x = #[trigger] b[i];
                    &&& x.name == entity_name(self.ents[x.id])
                    &&& x.media_type == node_media(self.ents[x.id])
                    &&& x.ports.len() > 0
                    &&& x.ports[0].top == x.top + m.node_padding + m.node_label_height + m.node_spacing
                    &&& x.bottom == x.ports.last().top + m.port_height + m.node_padding
                } by {
                    if i < prev.len() {
                        assert(b[i] == prev[i]);
                    } else {
                        assert(b[i] == self.node(n, top));
                    }
                }
                if prev.len() > 0 {
                    assert(b[0] == prev[0]);
                }
                assert forall|i: int, j: int|
                    #![trigger b[i], b[j]]
                    0 <= i && j == i + 1 && j < b.len() implies b[j].top == b[i].bottom
                        + m.object_spacing by {
                    assert(b[i] == prev[i]);
                    if j < prev.len() {
                        assert(b[j] == prev[j]);
                    }
                }
            }
        }
    }

    /// The object boxes carry their objects' names; the first starts at
    /// `start` and each next one a column gap below the previous one's bottom.
    /// Inside a box the nodes follow the title, the first one a title height
    /// below the box's top, and the box ends the object padding below its
    /// last node box.
    pub proof fn lemma_objects_shape(self, objects: Seq<PipewireId>, start: int)
        ensures
            forall|i: int|
                #![trigger self.objects(objects, start)[i]]
                0 <= i < self.objects(objects, start).len() ==> {
                    let b = self.objects(objects, start)[i];
                    &&& b.name == entity_name(self.ents[b.id])
                    &&& b.nodes.len() > 0
                    &&& b.nodes[0].top == b.top + self.metrics.object_label_height
                    &&& b.bottom == b.nodes.last().bottom + self.metrics.object_padding
                },
            self.objects(objects, start).len() > 0 ==> self.objects(objects, start)[0].top == start,
            forall|i: int, j: int|
                #![trigger self.objects(objects, start)[i], self.objects(objects, start)[j]]
                0 <= i && j == i + 1 && j < self.objects(objects, start).len() ==> self.objects(
                    objects,
                    start,
                )[j].top == self.objects(objects, start)[i].bottom + self.metrics.column_spacing,
        decreases objects.len(),
    {
        if objects.len() > 0 {
            self.lemma_objects_shape(objects.drop_last(), start);
            let prev = self.objects(objects.drop_last(), start);
            let b = self.objects(objects, start);
            let m = self.metrics;
            let o = objects.last();
            if object_on_side(self.ents, o, self.side) {
                let top = if prev.len() == 0 {
                    start
                } else {
                    prev.last().bottom + m.column_spacing
                };
                self.lemma_object_span(o, top);
                self.lemma_nodes_shape(object_nodes(self.ents[o]), top + m.object_label_height);
                assert forall|i: int| 0 <= i < b.len() implies {
                    let x = #[trigger] b[i];
                    &&& x.name == entity_name(self.ents[x.id])
                    &&& x.nodes.len() > 0
                    &&& x.nodes[0].top == x.top + m.object_label_height
                    &&& x.bottom == x.nodes.last().bottom + m.object_padding
                } by {
                    if i < prev.len() {
                        assert(b[i] == prev[i]);
                    } else {
                        assert(b[i] == self.object(o, top));
                    }
                }
                if prev.len() > 0 {
                    assert(b[0] == prev[0]);
                }
                assert forall|i: int, j: int|
                    #![trigger b[i], b[j]]
                    0 <= i && j == i + 1 && j < b.len() implies b[j].top == b[i].bottom
                        + m.column_spacing by {
                    assert(b[i] == prev[i]);
                    if j < prev.len() {
                        assert(b[j] == prev[j]);
                    }
                }
            }
        }
    }
}

impl Column {
    /// The port rows are exactly those of the ports on this side, in the
    /// order the node lists them.
    pub proof fn lemma_ports_ids(self, media: MediaType, ports: Seq<PipewireId>, start: int)
        ensures
            row_ids(self.ports(media, ports, start)) == ports.filter(self.port_shown()),
        decreases ports.len(),
    {
        reveal_with_fuel(Seq::filter, 1);
        if ports.len() > 0 {
            self.lemma_ports_ids(media, ports.drop_last(), start);
            let prev = self.ports(media, ports.drop_last(), start);
            let rows = self.ports(media, ports, start);
            if port_on_side(self.ents, ports.last(), self.side) {
                assert(row_ids(rows) =~= row_ids(prev).push(ports.last()));
            }
        } else {
            assert(row_ids(self.ports(media, ports, start)) =~= ports);
        }
    }

    /// The node boxes are exactly those of the nodes with a port on this
    /// side, in the order the object lists them, and each holds the rows of
    /// exactly its ports on this side.
    pub proof fn lemma_nodes_ids(self, nodes: Seq<PipewireId>, start: int)
        ensures
            node_ids(self.nodes(nodes, start)) == nodes.filter(self.node_shown()),
            forall|i: int|
                #![trigger self.nodes(nodes, start)[i]]
                0 <= i < self.nodes(nodes, start).len() ==> row_ids(self.nodes(nodes, start)[i].ports)
                    == node_ports(self.ents[self.nodes(nodes, start)[i].id]).filter(self.port_shown()),
        decreases nodes.len(),
    {
        reveal_with_fuel(Seq::filter, 1);
        if nodes.len() > 0 {
            self.lemma_nodes_ids(nodes.drop_last(), start);
            let prev = self.nodes(nodes.drop_last(), start);
            let b = self.nodes(nodes, start);
            let n = nodes.last();
            if node_on_side(self.ents, n, self.side) {
                let top = if prev.len() == 0 {
                    start
                } else {
                    prev.last().bottom + self.metrics.object_spacing
                };
                self.lemma_ports_ids(node_media(self.ents[n]), node_ports(self.ents[n]), self.ports_start(top));
                assert(node_ids(b) =~= node_ids(prev).push(n));
                assert forall|i: int| 0 <= i < b.len() implies row_ids(#[trigger] b[i].ports) == node_ports(
                    self.ents[b[i].id],
                ).filter(self.port_shown()) by {
                    if i < prev.len() {
                        assert(b[i] == prev[i]);
                    } else {
                        assert(b[i] == self.node(n, top));
                    }
                }
            }
        } else {
            assert(node_ids(self.nodes(nodes, start)) =~= nodes);
        }
    }

    /// The object boxes are exactly those of the objects with a node on this
    /// side, in the graph's order, and each holds the boxes of exactly its
    /// nodes with a port on this side.
    pub proof fn lemma_objects_ids(self, objects: Seq<PipewireId>, start: int)
        ensures
            object_ids(self.objects(objects, start)) == objects.filter(self.object_shown()),
            forall|i: int|
                #![trigger self.objects(objects, start)[i]]
                0 <= i < self.objects(objects, start).len() ==> node_ids(
                    self.objects(objects, start)[i].nodes,
                ) == object_nodes(self.ents[self.objects(objects, start)[i].id]).filter(
                    self.node_shown(),
                ),
        decreases objects.len(),
    {
        reveal_with_fuel(Seq::filter, 1);
        if objects.len() > 0 {
            self.lemma_objects_ids(objects.drop_last(), start);
            let prev = self.objects(objects.drop_last(), start);
            let b = self.objects(objects, start);
            let o = objects.last();
            if object_on_side(self.ents, o, self.side) {
                let top = if prev.len() == 0 {
                    start
                } else {
                    prev.last().bottom + self.metrics.column_spacing
                };
                self.lemma_nodes_ids(object_nodes(self.ents[o]), top + self.metrics.object_label_height);
                assert(object_ids(b) =~= object_ids(prev).push(o));
                assert forall|i: int| 0 <= i < b.len() implies node_ids(#[trigger] b[i].nodes)
                    == object_nodes(self.ents[b[i].id]).filter(self.node_shown()) by {
                    if i < prev.len() {
                        assert(b[i] == prev[i]);
                    } else {
                        assert(b[i] == self.object(o, top));
                    }
                }
            }
        } else {
            assert(object_ids(self.objects(objects, start)) =~= objects);
        }
    }
}

/// Recording keeps, for each port, the row recorded last for it: a port
/// with rows gets the position of its last row in the given column, and a
/// port without rows keeps what it had.
pub proof fn lemma_record_last(
    m: Map<PipewireId, PortPosition>,
    side: PortType,
    rows: Seq<PortLayout>,
    p: PipewireId,
)
    ensures
        forall|i: int|
            #![trigger rows[i]]
            0 <= i < rows.len() && rows[i].id == p && (forall|j: int|
                i < j < rows.len() ==> rows[j].id != p) ==> record(m, side, rows).contains_key(p)
                && record(m, side, rows)[p] == (PortPosition { side, top: rows[i].top as u64 }),
        (forall|j: int| 0 <= j < rows.len() ==> rows[j].id != p) ==> record(m, side, rows).contains_key(
            p,
        ) == m.contains_key(p) && record(m, side, rows)[p] == m[p],
    decreases rows.len(),
{
    if rows.len() > 0 {
        let prev = rows.drop_last();
        lemma_record_last(m, side, prev, p);
        assert forall|i: int|
            #![trigger rows[i]]
            0 <= i < rows.len() && rows[i].id == p && (forall|j: int|
                i < j < rows.len() ==> rows[j].id != p) implies record(m, side, rows).contains_key(p)
            && record(m, side, rows)[p] == (PortPosition { side, top: rows[i].top as u64 }) by {
            if i < rows.len() - 1 {
                assert(rows.last().id != p);
                assert(prev[i] == rows[i]);
                assert forall|j: int| i < j < prev.len() implies prev[j].id != p by {
                    assert(prev[j] == rows[j]);
                }
            }
        }
        if forall|j: int| 0 <= j < rows.len() ==> rows[j].id != p {
            assert(rows.last().id != p);
            assert forall|j: int| 0 <= j < prev.len() implies prev[j].id != p by {
                assert(prev[j] == rows[j]);
            }
        }
    }
}

/// Recording rows in two batches is recording them all.
pub proof fn lemma_record_append(
    m: Map<PipewireId, PortPosition>,
    side: PortType,
    a: Seq<PortLayout>,
    b: Seq<PortLayout>,
)
    ensures
        record(m, side, a + b) == record(record(m, side, a), side, b),
    decreases b.len(),
{
    if b.len() == 0 {
        assert(a + b =~= a);
    } else {
        assert((a + b).drop_last() =~= a + b.drop_last());
        lemma_record_append(m, side, a, b.drop_last());
    }
}

/// Recording rows keeps every port already placed and places each recorded port.
pub proof fn lemma_record_places(m: Map<PipewireId, PortPosition>, side: PortType, rows: Seq<PortLayout>)
    ensures
        forall|p: PipewireId| m.contains_key(p) ==> #[trigger] record(m, side, rows).contains_key(p),
        forall|r: int| 0 <= r < rows.len() ==> record(m, side, rows).contains_key(#[trigger] rows[r].id),
    decreases rows.len(),
{
    if rows.len() > 0 {
        lemma_record_places(m, side, rows.drop_last());
        assert forall|p: PipewireId| m.contains_key(p) implies #[trigger] record(m, side, rows).contains_key(p) by {
            assert(record(m, side, rows.drop_last()).contains_key(p));
        }
        assert forall|r: int| 0 <= r < rows.len() implies record(m, side, rows).contains_key(#[trigger] rows[r].id) by {
            if r < rows.len() - 1 {
                assert(rows[r] == rows.drop_last()[r]);
            }
        }
    }
}

/// The port rows of a sequence of node boxes, in order.
pub open spec fn node_rows(nodes: Seq<NodeLayout>) -> Seq<PortLayout>
    decreases nodes.len(),
{
    if nodes.len() == 0 {
        seq![]
    } else {
        node_rows(nodes.drop_last()) + nodes.last().ports
    }
}

/// The port rows of a sequence of object boxes, in order.
pub open spec fn object_rows(objects: Seq<ObjectLayout>) -> Seq<PortLayout>
    decreases objects.len(),
{
    if objects.len() == 0 {
        seq![]
    } else {
        object_rows(objects.drop_last()) + node_rows(objects.last().nodes)
    }
}

/// The position of each port after recording the given rows one after the
/// other: a port placed twice keeps its last row.
pub open spec fn record(m: Map<PipewireId, PortPosition>, side: PortType, rows: Seq<PortLayout>) -> Map<
    PipewireId,
    PortPosition,
>
    decreases rows.len(),
{
    if rows.len() == 0 {
        m
    } else {
        record(m, side, rows.drop_last()).insert(
            rows.last().id,
            PortPosition { side, top: rows.last().top as u64 },
        )
    }
}

/// A connection to draw: from the position of its output port to the position
/// of its input port, in the colour of its media type.
#[derive(Debug, Clone, Copy, PartialEq, Eq, Structural)]
pub struct ConnectionLine {
    pub from: PortPosition,
    pub to: PortPosition,
    pub media_type: MediaType,
}

/// The connections to draw over the two columns.
#[derive(Debug, Clone)]
pub struct CanvasConnectionSet {
    pub connections: Vec<ConnectionLine>,
}

/// The line drawn for entity `c`: one for a connection, none for anything else.
pub open spec fn line_of(
    ents: Map<PipewireId, PipewireEntity>,
    positions: Map<PipewireId, PortPosition>,
    c: PipewireId,
) -> Option<ConnectionLine> {
    match ents[c] {
        PipewireEntity::Connection { from_port_id, to_port_id, media_type, .. } => Some(
            ConnectionLine { from: positions[from_port_id], to: positions[to_port_id], media_type },
        ),
        _ => None,
    }
}

/// The lines drawn for the given entities, in their order.
pub open spec fn lines_of(
    ents: Map<PipewireId, PipewireEntity>,
    positions: Map<PipewireId, PortPosition>,
    order: Seq<PipewireId>,
) -> Seq<ConnectionLine>
    decreases order.len(),
{
    if order.len() == 0 {
        seq![]
    } else {
        let prev = lines_of(ents, positions, order.drop_last());
        match line_of(ents, positions, order.last()) {
            Some(l) => prev.push(l),
            None => prev,
        }
    }
}

/// `lines` are the lines of the connections in `set`, taken in some order in
/// which each element of the set comes exactly once.
pub open spec fn draws(
    set: Set<PipewireId>,
    ents: Map<PipewireId, PipewireEntity>,
    positions: Map<PipewireId, PortPosition>,
    lines: Seq<ConnectionLine>,
) -> bool {
    exists|order: Seq<PipewireId>|
        #![trigger lines_of(ents, positions, order)]
        order.no_duplicates() && order.to_set() == set && lines == lines_of(ents, positions, order)
}

impl Default for CanvasConnectionSet {
    /// No lines.
    fn default() -> (s: Self)
        ensures
            s.connections@ == Seq::<ConnectionLine>::empty(),
    {
        CanvasConnectionSet { connections: Vec::new() }
    }
}

impl CanvasConnectionSet {
    /// The lines for the connections in `set`, between the recorded positions
    /// of their ports. Entities of the set that are not connections draw nothing.
    pub fn from(
        set: &HashSet<PipewireId>,
        entities: &HashMap<PipewireId, PipewireEntity>,
        port_positions: &HashMap<PipewireId, PortPosition>,
    ) -> (res: Self)
        requires
            forall|c: PipewireId| #[trigger]
                set@.contains(c) ==> entities@.contains_key(c) && (entities@[c] matches PipewireEntity::Connection {
                    from_port_id,
                    to_port_id,
                    ..
                } ==> port_positions@.contains_key(from_port_id) && port_positions@.contains_key(
                    to_port_id,
                )),
        ensures
            draws(set@, entities@, port_positions@, res.connections@),
    {
        let mut connections: Vec<ConnectionLine> = Vec::new();
        for link_id in it: set.iter()
            invariant
                forall|c: PipewireId| #[trigger]
                    set@.contains(c) ==> entities@.contains_key(c) && (entities@[c] matches PipewireEntity::Connection {
                        from_port_id,
                        to_port_id,
                        ..
                    } ==> port_positions@.contains_key(from_port_id)
                        && port_positions@.contains_key(to_port_id)),
                it.seq().unref().to_set() == set@,
                it.seq().unref().no_duplicates(),
                connections@ == lines_of(
                    entities@,
                    port_positions@,
                    it.seq().unref().take(it.index()),
                ),
                it.index() == it.seq().len() ==> connections@ == lines_of(
                    entities@,
                    port_positions@,
                    it.seq().unref(),
                ),
        {
            let ghost order = it.seq().unref();
            let ghost i = it.index();
            assert(order.take(i + 1).drop_last() =~= order.take(i));
            assert(set@.contains(*link_id));
            match entities.get(link_id) {
                Some(PipewireEntity::Connection { from_port_id, to_port_id, media_type, .. }) => {
                    let from = *port_positions.get(from_port_id).unwrap();
                    let to = *port_positions.get(to_port_id).unwrap();
                    connections.push(ConnectionLine { from, to, media_type: *media_type });
                },
                _ => {},
            }
            assert(order.take(order.len() as int) =~= order);
        }
        CanvasConnectionSet { connections }
    }
}

/// Whether `target` points at `id`.
fn points_at(target: Option<PipewireId>, id: PipewireId) -> (b: bool)
    ensures
        b == marked(target, id),
{
    match target {
        Some(t) => t == id,
        None => false,
    }
}

impl Graph {
    /// Whether one of `ports` is a port on `side`.
    fn has_port_on(&self, ports: &Vec<PipewireId>, side: PortType) -> (b: bool)
        ensures
            b == exists|k: int|
                0 <= k < ports@.len() && #[trigger] port_on_side(self.entities@, ports@[k], side),
    {
        let mut k: usize = 0;
        while k < ports.len()
            invariant
                k <= ports@.len(),
                forall|i: int| 0 <= i < k ==> !#[trigger] port_on_side(self.entities@, ports@[i], side),
            decreases ports@.len() - k,
        {
            match self.entities.get(&ports[k]) {
                Some(PipewireEntity::Port { port_type, .. }) => {
                    if *port_type == side {
                        assert(port_on_side(self.entities@, ports@[k as int], side));
                        return true;
                    }
                },
                _ => {},
            }
            k = k + 1;
        }
        false
    }

    /// Whether one of `nodes` has a port on `side`.
    fn has_node_on(&self, nodes: &Vec<PipewireId>, side: PortType) -> (b: bool)
        requires
            forall|j: int| 0 <= j < nodes@.len() ==> #[trigger] is_node(self.entities@, nodes@[j]),
        ensures
            b == exists|j: int|
                0 <= j < nodes@.len() && #[trigger] node_on_side(self.entities@, nodes@[j], side),
    {
        let mut j: usize = 0;
        while j < nodes.len()
            invariant
                j <= nodes@.len(),
                forall|j: int| 0 <= j < nodes@.len() ==> #[trigger] is_node(self.entities@, nodes@[j]),
                forall|i: int| 0 <= i < j ==> !#[trigger] node_on_side(self.entities@, nodes@[i], side),
            decreases nodes@.len() - j,
        {
            assert(is_node(self.entities@, nodes@[j as int]));
            match self.entities.get(&nodes[j]) {
                Some(PipewireEntity::Node { ports, .. }) => {
                    assert(ports@ == node_ports(self.entities@[nodes@[j as int]]));
                    if self.has_port_on(ports, side) {
                        assert(node_on_side(self.entities@, nodes@[j as int], side));
                        return true;
                    }
                },
                _ => {},
            }
            j = j + 1;
        }
        false
    }

    /// The rows of the ports on `side` among `ports`, the first at `start`;
    /// each placed port is recorded in `positions`. `None` when a row would
    /// lie below what a `u64` holds.
    fn layout_ports(
        &self,
        side: PortType,
        hovered: Option<PipewireId>,
        inspected: Option<PipewireId>,
        metrics: &LayoutMetrics,
        media: MediaType,
        ports: &Vec<PipewireId>,
        start: u64,
        positions: &mut HashMap<PipewireId, PortPosition>,
    ) -> (res: Option<Vec<PortView>>)
        ensures
            ({
                let col = Column { ents: self.entities@, side, hovered, inspected, metrics: *metrics };
                let rows = col.ports(media, ports@, start as int);
                match res {
                    Some(v) => {
                        &&& v@.map_values(|p: PortView| p@) == rows
                        &&& final(positions)@ == record(old(positions)@, side, rows)
                    },
                    None => rows.len() > 0 && rows.last().top > u64::MAX,
                }
            }),
    {
        let ghost col = Column { ents: self.entities@, side, hovered, inspected, metrics: *metrics };
        let ghost pos0 = positions@;
        let mut out: Vec<PortView> = Vec::new();
        let mut k: usize = 0;
        while k < ports.len()
            invariant
                k <= ports@.len(),
                col == (Column { ents: self.entities@, side, hovered, inspected, metrics: *metrics }),
                out@.map_values(|p: PortView| p@) == col.ports(media, ports@.take(k as int), start as int),
                positions@ == record(pos0, side, col.ports(media, ports@.take(k as int), start as int)),
            decreases ports@.len() - k,
        {
            let ghost prev = col.ports(media, ports@.take(k as int), start as int);
            assert(ports@.take(k + 1).drop_last() =~= ports@.take(k as int));
            let p = ports[k];
            match self.entities.get(&p) {
                Some(PipewireEntity::Port { name, port_type, .. }) => {
                    if *port_type == side {
                        let top: u64 = if out.len() == 0 {
                            start
                        } else {
                            let last = out[out.len() - 1].top;
                            assert(out@.map_values(|p: PortView| p@)[out.len() - 1] == prev.last());
                            let next = match last.checked_add(metrics.port_height as u64) {
                                Some(t) => t.checked_add(metrics.port_spacing as u64),
                                None => None,
                            };
                            match next {
                                Some(t) => t,
                                None => {
                                    proof {
                                        let rows = col.ports(media, ports@.take(k + 1), start as int);
                                        assert(port_on_side(self.entities@, ports@.take(k + 1).last(), side));
                                        assert(rows == prev.push(rows.last()));
                                        assert(rows.last().top == last + metrics.port_height + metrics.port_spacing);
                                        assert(rows.last().top > u64::MAX);
                                        col.lemma_ports_prefix(media, ports@, start as int, k + 1);
                                        col.lemma_ports_ordered(media, ports@, start as int);
                                        let all = col.ports(media, ports@, start as int);
                                        assert(all[rows.len() - 1] == rows.last());
                                        assert(all.last().top >= rows.last().top);
                                    }
                                    return None;
                                },
                            }
                        };
                        let view = PortView {
                            id: p,
                            name: name.clone(),
                            media_type: media,
                            hovered: points_at(hovered, p),
                            inspected: points_at(inspected, p),
                            top,
                        };
                        positions.insert(p, PortPosition { side, top });
                        let ghost before = out@;
                        out.push(view);
                        assert(out@.map_values(|p: PortView| p@) =~= before.map_values(|p: PortView| p@).push(view@));
                        proof {
                            let rows = col.ports(media, ports@.take(k + 1), start as int);
                            assert(port_on_side(self.entities@, ports@.take(k + 1).last(), side));
                            assert(rows == prev.push(view@));
                            assert(rows.drop_last() =~= prev);
                        }
                    }
                },
                _ => {
                    assert(!port_on_side(self.entities@, ports@.take(k + 1).last(), side));
                },
            }
            k = k + 1;
        }
        assert(ports@.take(ports@.len() as int) =~= ports@);
        Some(out)
    }
}

impl Graph {
    /// The box of node `n`, which has a port on `side`, starting at `top`; its
    /// ports are recorded in `positions`. `None` when the box would reach below
    /// what a `u64` holds.
    fn layout_node(
        &self,
        side: PortType,
        hovered: Option<PipewireId>,
        inspected: Option<PipewireId>,
        metrics: &LayoutMetrics,
        n: PipewireId,
        top: u64,
        positions: &mut HashMap<PipewireId, PortPosition>,
    ) -> (res: Option<NodeView>)
        requires
            is_node(self.entities@, n),
            node_on_side(self.entities@, n, side),
        ensures
            ({
                let col = Column { ents: self.entities@, side, hovered, inspected, metrics: *metrics };
                match res {
                    Some(v) => {
                        &&& v@ == col.node(n, top as int)
                        &&& final(positions)@ == record(old(positions)@, side, v@.ports)
                    },
                    None => col.node(n, top as int).bottom > u64::MAX,
                }
            }),
    {
        let ghost col = Column { ents: self.entities@, side, hovered, inspected, metrics: *metrics };
        proof {
            col.lemma_node_span(n, top as int);
        }
        match self.entities.get(&n) {
            Some(PipewireEntity::Node { name, media_type, ports, .. }) => {
                let start = match top.checked_add(metrics.node_padding as u64) {
                    Some(a) => match a.checked_add(metrics.node_label_height as u64) {
                        Some(b) => b.checked_add(metrics.node_spacing as u64),
                        None => None,
                    },
                    None => None,
                };
                let start = match start {
                    Some(s) => s,
                    None => {
                        return None;
                    },
                };
                let rows = match self.layout_ports(
                    side,
                    hovered,
                    inspected,
                    metrics,
                    *media_type,
                    ports,
                    start,
                    positions,
                ) {
                    Some(r) => r,
                    None => {
                        return None;
                    },
                };
                assert(rows@.map_values(|p: PortView| p@) == col.node(n, top as int).ports);
                let last = rows[rows.len() - 1].top;
                assert(last == col.node(n, top as int).ports.last().top);
                let bottom = match last.checked_add(metrics.port_height as u64) {
                    Some(a) => a.checked_add(metrics.node_padding as u64),
                    None => None,
                };
                let bottom = match bottom {
                    Some(b) => b,
                    None => {
                        return None;
                    },
                };
                let v = NodeView {
                    id: n,
                    name: name.clone(),
                    media_type: *media_type,
                    hovered: points_at(hovered, n),
                    inspected: points_at(inspected, n),
                    top,
                    bottom,
                    ports: rows,
                };
                assert(v@.ports == col.node(n, top as int).ports);
                Some(v)
            },
            _ => {
                assert(false);
                None
            },
        }
    }

    /// The box of media object `o`, which has a node on `side`, starting at
    /// `top`; its ports are recorded in `positions`. `None` when the box would
    /// reach below what a `u64` holds.
    fn layout_object(
        &self,
        side: PortType,
        hovered: Option<PipewireId>,
        inspected: Option<PipewireId>,
        metrics: &LayoutMetrics,
        o: PipewireId,
        top: u64,
        positions: &mut HashMap<PipewireId, PortPosition>,
    ) -> (res: Option<ObjectView>)
        requires
            is_object(self.entities@, o),
            object_on_side(self.entities@, o, side),
        ensures
            ({
                let col = Column { ents: self.entities@, side, hovered, inspected, metrics: *metrics };
                match res {
                    Some(v) => {
                        &&& v@ == col.object(o, top as int)
                        &&& final(positions)@ == record(old(positions)@, side, node_rows(v@.nodes))
                    },
                    None => col.object(o, top as int).bottom > u64::MAX,
                }
            }),
    {
        let ghost col = Column { ents: self.entities@, side, hovered, inspected, metrics: *metrics };
        let ghost pos0 = positions@;
        proof {
            col.lemma_object_span(o, top as int);
        }
        match self.entities.get(&o) {
            Some(PipewireEntity::MediaObject { name, nodes, .. }) => {
                let ghost full = col.object(o, top as int);
                assert(nodes@ == object_nodes(self.entities@[o]));
                let start = match top.checked_add(metrics.object_label_height as u64) {
                    Some(s) => s,
                    None => {
                        assert(full.nodes.len() > 0);
                        assert(top + metrics.object_label_height <= full.nodes[0].top);
                        assert(full.nodes[0].top <= full.nodes[0].bottom);
                        assert(full.nodes[0].bottom <= full.nodes.last().bottom);
                        return None;
                    },
                };
                proof {
                    col.lemma_nodes_within(nodes@, start as int);
                    assert(full.nodes == col.nodes(nodes@, start as int));
                    assert forall|i: int| 0 <= i < full.nodes.len() implies #[trigger] full.nodes[i].bottom
                        <= full.nodes.last().bottom by {
                        assert(col.nodes(nodes@, start as int)[i].top <= full.nodes[i].bottom);
                    }
                }
                let mut out: Vec<NodeView> = Vec::new();
                let mut j: usize = 0;
                while j < nodes.len()
                    invariant
                        j <= nodes@.len(),
                        nodes@ == object_nodes(self.entities@[o]),
                        is_object(self.entities@, o),
                        col == (Column { ents: self.entities@, side, hovered, inspected, metrics: *metrics }),
                        full == col.object(o, top as int),
                        full.nodes == col.nodes(nodes@, start as int),
                        full.nodes.last().bottom <= full.bottom,
                        forall|i: int|
                            0 <= i < full.nodes.len() ==> #[trigger] full.nodes[i].bottom
                                <= full.nodes.last().bottom,
                        out@.map_values(|v: NodeView| v@) == col.nodes(nodes@.take(j as int), start as int),
                        positions@ == record(
                            pos0,
                            side,
                            node_rows(col.nodes(nodes@.take(j as int), start as int)),
                        ),
                    decreases nodes@.len() - j,
                {
                    let ghost prev = col.nodes(nodes@.take(j as int), start as int);
                    assert(nodes@.take(j + 1).drop_last() =~= nodes@.take(j as int));
                    let n = nodes[j];
                    assert(is_node(self.entities@, n));
                    let visible = match self.entities.get(&n) {
                        Some(PipewireEntity::Node { ports, .. }) => {
                            assert(ports@ == node_ports(self.entities@[n]));
                            self.has_port_on(ports, side)
                        },
                        _ => false,
                    };
                    if visible {
                        let ghost rows = col.nodes(nodes@.take(j + 1), start as int);
                        proof {
                            assert(rows == prev.push(rows.last()));
                            col.lemma_nodes_prefix(nodes@, start as int, j + 1);
                            assert(full.nodes[rows.len() - 1] == rows.last());
                        }
                        let node_top: u64 = if out.len() == 0 {
                            start
                        } else {
                            assert(out@.map_values(|v: NodeView| v@)[out.len() - 1] == prev.last());
                            match out[out.len() - 1].bottom.checked_add(metrics.object_spacing as u64) {
                                Some(t) => t,
                                None => {
                                    proof {
                                        col.lemma_node_span(n, rows.last().top);
                                    }
                                    return None;
                                },
                            }
                        };
                        assert(rows.last() == col.node(n, node_top as int));
                        let ghost before_positions = positions@;
                        let v = match self.layout_node(
                            side,
                            hovered,
                            inspected,
                            metrics,
                            n,
                            node_top,
                            positions,
                        ) {
                            Some(v) => v,
                            None => {
                                return None;
                            },
                        };
                        let ghost before = out@;
                        out.push(v);
                        assert(out@.map_values(|v: NodeView| v@) =~= before.map_values(
                            |v: NodeView| v@,
                        ).push(v@));
                        proof {
                            assert(rows.drop_last() =~= prev);
                            lemma_record_append(pos0, side, node_rows(prev), v@.ports);
                        }
                    }
                    j = j + 1;
                }
                assert(nodes@.take(nodes@.len() as int) =~= nodes@);
                let last = out[out.len() - 1].bottom;
                assert(out@.map_values(|v: NodeView| v@)[out.len() - 1] == full.nodes.last());
                let bottom = match last.checked_add(metrics.object_padding as u64) {
                    Some(b) => b,
                    None => {
                        return None;
                    },
                };
                let v = ObjectView {
                    id: o,
                    name: name.clone(),
                    hovered: points_at(hovered, o),
                    inspected: points_at(inspected, o),
                    top,
                    bottom,
                    nodes: out,
                };
                assert(v@.nodes == full.nodes);
                Some(v)
            },
            _ => {
                assert(false);
                None
            },
        }
    }
}

/// What the patchbay shows: the two columns and the connections between them.
#[derive(Debug, Clone)]
pub struct GraphView {
    pub sources: Vec<ObjectView>,
    pub sinks: Vec<ObjectView>,
    pub connections: CanvasConnectionSet,
}

/// The position of every placed port: first the source column is recorded,
/// then the sink column.
pub open spec fn port_positions(source: Column, sink: Column, objects: Seq<PipewireId>) -> Map<
    PipewireId,
    PortPosition,
> {
    record(
        record(Map::empty(), PortType::Source, object_rows(source.layout(objects))),
        PortType::Sink,
        object_rows(sink.layout(objects)),
    )
}

/// The column of one side, given the graph's entities, what is hovered and
/// inspected, and the metrics.
pub open spec fn column(
    ents: Map<PipewireId, PipewireEntity>,
    side: PortType,
    hovered: Option<PipewireId>,
    inspected: Option<PipewireId>,
    metrics: LayoutMetrics,
) -> Column {
    Column { ents, side, hovered, inspected, metrics }
}

/// A port that hangs below the graph's objects gets a position.
pub proof fn lemma_placed_has_position(
    objects: Seq<PipewireId>,
    ents: Map<PipewireId, PipewireEntity>,
    hovered: Option<PipewireId>,
    inspected: Option<PipewireId>,
    metrics: LayoutMetrics,
    p: PipewireId,
)
    requires
        forall|i: int| 0 <= i < objects.len() ==> #[trigger] is_object(ents, objects[i]),
        port_placed(objects, ents, p),
    ensures
        port_positions(
            column(ents, PortType::Source, hovered, inspected, metrics),
            column(ents, PortType::Sink, hovered, inspected, metrics),
            objects,
        ).contains_key(p),
{
    let source = column(ents, PortType::Source, hovered, inspected, metrics);
    let sink = column(ents, PortType::Sink, hovered, inspected, metrics);
    let (i, j, k) = choose|i: int, j: int, k: int|
        #![trigger objects[i], object_nodes(ents[objects[i]])[j], node_ports(ents[object_nodes(ents[objects[i]])[j]])[k]]
        0 <= i < objects.len() && 0 <= j < object_nodes(ents[objects[i]]).len() && 0 <= k
            < node_ports(ents[object_nodes(ents[objects[i]])[j]]).len() && node_ports(
            ents[object_nodes(ents[objects[i]])[j]],
        )[k] == p;
    assert(is_object(ents, objects[i]));
    assert(is_node(ents, object_nodes(ents[objects[i]])[j]));
    assert(is_port(ents, p));
    let inner = record(Map::empty(), PortType::Source, object_rows(source.layout(objects)));
    lemma_record_places(Map::empty(), PortType::Source, object_rows(source.layout(objects)));
    lemma_record_places(inner, PortType::Sink, object_rows(sink.layout(objects)));
    match ents[p] {
        PipewireEntity::Port { port_type, .. } => {
            if port_type == PortType::Source {
                source.lemma_objects_member(objects, source.start(), i, j, k);
                let r = choose|r: int|
                    0 <= r < object_rows(source.layout(objects)).len() && #[trigger] object_rows(
                        source.layout(objects),
                    )[r].id == p;
                assert(inner.contains_key(object_rows(source.layout(objects))[r].id));
            } else {
                sink.lemma_objects_member(objects, sink.start(), i, j, k);
                let r = choose|r: int|
                    0 <= r < object_rows(sink.layout(objects)).len() && #[trigger] object_rows(
                        sink.layout(objects),
                    )[r].id == p;
                assert(record(inner, PortType::Sink, object_rows(sink.layout(objects))).contains_key(
                    object_rows(sink.layout(objects))[r].id,
                ));
            }
        },
        _ => {},
    }
}

impl Graph {
    /// The column of `side`: the boxes of the objects that have a node on
    /// that side, in the graph's order; their ports are recorded in `positions`.
    /// `None` when the column would reach below what a `u64` holds.
    fn layout_column(
        &self,
        side: PortType,
        hovered: Option<PipewireId>,
        inspected: Option<PipewireId>,
        metrics: &LayoutMetrics,
        positions: &mut HashMap<PipewireId, PortPosition>,
    ) -> (res: Option<Vec<ObjectView>>)
        requires
            forall|i: int| 0 <= i < self.objects@.len() ==> #[trigger] is_object(self.entities@, self.objects@[i]),
        ensures
            ({
                let col = column(self.entities@, side, hovered, inspected, *metrics);
                match res {
                    Some(v) => {
                        &&& object_views(v@) == col.layout(self.objects@)
                        &&& final(positions)@ == record(old(positions)@, side, object_rows(col.layout(self.objects@)))
                    },
                    None => col.extent(self.objects@) > u64::MAX,
                }
            }),
    {
        let ghost col = column(self.entities@, side, hovered, inspected, *metrics);
        let ghost pos0 = positions@;
        let objects = &self.objects;
        let start: u64 = metrics.canvas_padding as u64 + metrics.column_vertical_padding as u64;
        let ghost full = col.layout(objects@);
        proof {
            col.lemma_objects_within(objects@);
        }
        let mut out: Vec<ObjectView> = Vec::new();
        let mut i: usize = 0;
        while i < objects.len()
            invariant
                i <= objects@.len(),
                objects@ == self.objects@,
                forall|i: int| 0 <= i < objects@.len() ==> #[trigger] is_object(self.entities@, objects@[i]),
                col == column(self.entities@, side, hovered, inspected, *metrics),
                start == col.start(),
                full == col.objects(objects@, start as int),
                forall|i: int| 0 <= i < full.len() ==> #[trigger] full[i].top <= full[i].bottom <= col.extent(objects@),
                object_views(out@) == col.objects(objects@.take(i as int), start as int),
                positions@ == record(pos0, side, object_rows(col.objects(objects@.take(i as int), start as int))),
            decreases objects@.len() - i,
        {
            let ghost prev = col.objects(objects@.take(i as int), start as int);
            assert(objects@.take(i + 1).drop_last() =~= objects@.take(i as int));
            let o = objects[i];
            assert(is_object(self.entities@, o));
            let visible = match self.entities.get(&o) {
                Some(PipewireEntity::MediaObject { nodes, .. }) => {
                    assert(nodes@ == object_nodes(self.entities@[o]));
                    self.has_node_on(nodes, side)
                },
                _ => false,
            };
            if visible {
                let ghost rows = col.objects(objects@.take(i + 1), start as int);
                proof {
                    assert(rows == prev.push(rows.last()));
                    col.lemma_objects_prefix(objects@, start as int, i + 1);
                    assert(full[rows.len() - 1] == rows.last());
                }
                assert(rows.len() <= full.len());
                assert(0 <= rows.len() - 1);
                assert(full[rows.len() - 1].top <= full[rows.len() - 1].bottom);
                assert(full[rows.len() - 1].bottom <= col.extent(objects@));
                let object_top: u64 = if out.len() == 0 {
                    start
                } else {
                    assert(object_views(out@)[out.len() - 1] == prev.last());
                    match out[out.len() - 1].bottom.checked_add(metrics.column_spacing as u64) {
                        Some(t) => t,
                        None => {
                            return None;
                        },
                    }
                };
                assert(rows.last() == col.object(o, object_top as int));
                let v = match self.layout_object(side, hovered, inspected, metrics, o, object_top, positions) {
                    Some(v) => v,
                    None => {
                        return None;
                    },
                };
                let ghost before = out@;
                out.push(v);
                assert(object_views(out@) =~= object_views(before).push(v@));
                proof {
                    assert(rows.drop_last() =~= prev);
                    lemma_record_append(pos0, side, object_rows(prev), node_rows(v@.nodes));
                }
            }
            i = i + 1;
        }
        assert(objects@.take(objects@.len() as int) =~= objects@);
        Some(out)
    }

    /// Lays out the patchbay: the sources column, the sinks column, and the
    /// lines of the graph's connections between the positions of their ports.
    /// Entities equal to `hovered_object` or `inspected_object` are marked so.
    /// `None` when a column would reach below what a `u64` holds.
    pub fn view(
        &self,
        hovered_object: Option<PipewireId>,
        inspected_object: Option<PipewireId>,
        metrics: &LayoutMetrics,
    ) -> (res: Option<GraphView>)
        ensures
            ({
                let source = column(self.spec_entities(), PortType::Source, hovered_object, inspected_object, *metrics);
                let sink = column(self.spec_entities(), PortType::Sink, hovered_object, inspected_object, *metrics);
                let objects = self.spec_objects();
                match res {
                    Some(v) => {
                        &&& object_views(v.sources@) == source.layout(objects)
                        &&& object_views(v.sinks@) == sink.layout(objects)
                        &&& source.extent(objects) <= u64::MAX
                        &&& sink.extent(objects) <= u64::MAX
                        &&& draws(
                            self.spec_connections(),
                            self.spec_entities(),
                            port_positions(source, sink, objects),
                            v.connections.connections@,
                        )
                    },
                    None => source.extent(objects) > u64::MAX || sink.extent(objects) > u64::MAX,
                }
            }),
    {
        proof {
            use_type_invariant(self);
            self.lemma_model();
        }
        let ghost source = column(self.entities@, PortType::Source, hovered_object, inspected_object, *metrics);
        let ghost sink = column(self.entities@, PortType::Sink, hovered_object, inspected_object, *metrics);
        let mut positions: HashMap<PipewireId, PortPosition> = HashMap::new();
        let sources = match self.layout_column(PortType::Source, hovered_object, inspected_object, metrics, &mut positions) {
            Some(c) => c,
            None => {
                return None;
            },
        };
        let sinks = match self.layout_column(PortType::Sink, hovered_object, inspected_object, metrics, &mut positions) {
            Some(c) => c,
            None => {
                return None;
            },
        };
        proof {
            assert(positions@ == port_positions(source, sink, self.objects@));
            assert forall|c: PipewireId| #[trigger] self.connections@.contains(c) implies self.entities@.contains_key(c)
                && (self.entities@[c] matches PipewireEntity::Connection { from_port_id, to_port_id, .. }
                ==> positions@.contains_key(from_port_id) && positions@.contains_key(to_port_id)) by {
                match self.entities@[c] {
                    PipewireEntity::Connection { from_port_id, to_port_id, .. } => {
                        lemma_placed_has_position(self.objects@, self.entities@, hovered_object, inspected_object, *metrics, from_port_id);
                        lemma_placed_has_position(self.objects@, self.entities@, hovered_object, inspected_object, *metrics, to_port_id);
                    },
                    _ => {},
                }
            }
            if sources.len() > 0 {
                assert(object_views(sources@)[sources.len() - 1] == sources@[sources.len() - 1]@);
            }
            if sinks.len() > 0 {
                assert(object_views(sinks@)[sinks.len() - 1] == sinks@[sinks.len() - 1]@);
            }
        }
        let connections = CanvasConnectionSet::from(&self.connections, &self.entities, &positions);
        Some(GraphView { sources, sinks, connections })
    }
}

} // verus!
