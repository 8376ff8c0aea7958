//! The PipeWire flow graph: devices and clients ("media objects") own nodes,
//! nodes own ports, and connections join an output port to an input port.
//!
//! Besides the model this module holds the sizes the patchbay takes from the
//! desktop theme and how ports and boxes are drawn; `layout` places the
//! entities in the patchbay's two columns.
use std::collections::{HashMap, HashSet};
use vstd::prelude::*;

verus! {

broadcast use vstd::std_specs::hash::group_hash_axioms;

/// Identifier of an object in the PipeWire registry.
pub type PipewireId = u32;

#[derive(Debug, Clone, Copy, PartialEq, Eq, Hash, Structural)]
pub enum MediaType {
    Video,
    Audio,
    Midi,
    All,
}

#[derive(Debug, Clone, Copy, PartialEq, Eq, Structural)]
pub enum DeviceClass {
    Device,
    Client,
}

/// Direction of a port; it also names the column of the patchbay in which the
/// port is shown.
#[derive(Debug, Clone, Copy, PartialEq, Eq, Structural)]
pub enum PortType {
    Source,
    Sink,
}

#[derive(Debug, Clone)]
pub enum PipewireEntity {
    MediaObject { id: PipewireId, name: String, device_type: DeviceClass, nodes: Vec<PipewireId> },
    Node { id: PipewireId, name: String, media_type: MediaType, ports: Vec<PipewireId> },
    Port { id: PipewireId, name: String, port_type: PortType },
    Connection {
        id: PipewireId,
        from_port_id: PipewireId,
        to_port_id: PipewireId,
        media_type: MediaType,
    },
}

/// The id an entity carries.
pub open spec fn entity_id(e: PipewireEntity) -> PipewireId {
    match e {
        PipewireEntity::MediaObject { id, .. } => id,
        PipewireEntity::Node { id, .. } => id,
        PipewireEntity::Port { id, .. } => id,
        PipewireEntity::Connection { id, .. } => id,
    }
}

/// The display name of an entity (connections have none).
pub open spec fn entity_name(e: PipewireEntity) -> String {
    match e {
        PipewireEntity::MediaObject { name, .. } => name,
        PipewireEntity::Node { name, .. } => name,
        PipewireEntity::Port { name, .. } => name,
        PipewireEntity::Connection { .. } => arbitrary(),
    }
}

/// The nodes of a media object.
pub open spec fn object_nodes(e: PipewireEntity) -> Seq<PipewireId> {
    match e {
        PipewireEntity::MediaObject { nodes, .. } => nodes@,
        _ => seq![],
    }
}

/// The ports of a node.
pub open spec fn node_ports(e: PipewireEntity) -> Seq<PipewireId> {
    match e {
        PipewireEntity::Node { ports, .. } => ports@,
        _ => seq![],
    }
}

/// The media type of a node.
pub open spec fn node_media(e: PipewireEntity) -> MediaType {
    match e {
        PipewireEntity::Node { media_type, .. } => media_type,
        _ => MediaType::All,
    }
}

/// `id` names a port entity that carries its own id.
pub open spec fn is_port(ents: Map<PipewireId, PipewireEntity>, id: PipewireId) -> bool {
    &&& ents.contains_key(id)
    &&& ents[id] is Port
    &&& entity_id(ents[id]) == id
}

/// `id` names a node entity that carries its own id and whose ports are all ports.
pub open spec fn is_node(ents: Map<PipewireId, PipewireEntity>, id: PipewireId) -> bool {
    &&& ents.contains_key(id)
    &&& ents[id] is Node
    &&& entity_id(ents[id]) == id
    &&& forall|k: int|
        0 <= k < node_ports(ents[id]).len() ==> #[trigger] is_port(ents, node_ports(ents[id])[k])
}

/// `id` names a media object that carries its own id and whose nodes are all
/// well-formed nodes.
pub open spec fn is_object(ents: Map<PipewireId, PipewireEntity>, id: PipewireId) -> bool {
    &&& ents.contains_key(id)
    &&& ents[id] is MediaObject
    &&& entity_id(ents[id]) == id
    &&& forall|j: int|
        0 <= j < object_nodes(ents[id]).len() ==> #[trigger] is_node(
            ents,
            object_nodes(ents[id])[j],
        )
}

/// A port on the given side of the patchbay.
pub open spec fn port_on_side(
    ents: Map<PipewireId, PipewireEntity>,
    id: PipewireId,
    side: PortType,
) -> bool {
    &&& ents.contains_key(id)
    &&& (ents[id] matches PipewireEntity::Port { port_type, .. } && port_type == side)
}

/// A node is shown on a side when one of its ports belongs there.
pub open spec fn node_on_side(
    ents: Map<PipewireId, PipewireEntity>,
    id: PipewireId,
    side: PortType,
) -> bool {
    exists|k: int|
        0 <= k < node_ports(ents[id]).len() && #[trigger] port_on_side(
            ents,
            node_ports(ents[id])[k],
            side,
        )
}

/// A media object is shown on a side when one of its nodes is.
pub open spec fn object_on_side(
    ents: Map<PipewireId, PipewireEntity>,
    id: PipewireId,
    side: PortType,
) -> bool {
    exists|j: int|
        0 <= j < object_nodes(ents[id]).len() && #[trigger] node_on_side(
            ents,
            object_nodes(ents[id])[j],
            side,
        )
}

/// The port `p` hangs below one of the graph's media objects: it is the
/// `k`-th port of the `j`-th node of the `i`-th object.
pub open spec fn port_placed(
    objects: Seq<PipewireId>,
    ents: Map<PipewireId, PipewireEntity>,
    p: PipewireId,
) -> bool {
    exists|i: int, j: int, k: int|
        #![trigger objects[i], object_nodes(ents[objects[i]])[j], node_ports(ents[object_nodes(ents[objects[i]])[j]])[k]]
        0 <= i < objects.len() && 0 <= j < object_nodes(ents[objects[i]]).len() && 0 <= k
            < node_ports(ents[object_nodes(ents[objects[i]])[j]]).len() && node_ports(
            ents[object_nodes(ents[objects[i]])[j]],
        )[k] == p
}

/// What a connection in the graph needs: its entity exists, and when it is a
/// connection, both of its ports hang below the graph's media objects.
pub open spec fn connection_ok(
    objects: Seq<PipewireId>,
    ents: Map<PipewireId, PipewireEntity>,
    c: PipewireId,
) -> bool {
    &&& ents.contains_key(c)
    &&& (ents[c] matches PipewireEntity::Connection { from_port_id, to_port_id, .. } ==> {
        &&& port_placed(objects, ents, from_port_id)
        &&& port_placed(objects, ents, to_port_id)
    })
}

/// `e` is the port `id` named `name` of direction `port_type`.
pub open spec fn is_port_entity(e: PipewireEntity, id: PipewireId, name: Seq<char>, port_type: PortType) -> bool {
    e matches PipewireEntity::Port { id: i, name: n, port_type: t } && i == id && n@ == name
        && t == port_type
}

/// `e` is the node `id` named `name` of media type `media_type` with `ports`.
pub open spec fn is_node_entity(
    e: PipewireEntity,
    id: PipewireId,
    name: Seq<char>,
    media_type: MediaType,
    ports: Seq<PipewireId>,
) -> bool {
    e matches PipewireEntity::Node { id: i, name: n, media_type: t, ports: p } && i == id && n@
        == name && t == media_type && p@ == ports
}

/// `e` is the media object `id` named `name` of class `device_type` with `nodes`.
pub open spec fn is_object_entity(
    e: PipewireEntity,
    id: PipewireId,
    name: Seq<char>,
    device_type: DeviceClass,
    nodes: Seq<PipewireId>,
) -> bool {
    e matches PipewireEntity::MediaObject { id: i, name: n, device_type: t, nodes: v } && i == id
        && n@ == name && t == device_type && v@ == nodes
}

/// `e` is the connection `id` from port `from` to port `to` of `media_type`.
pub open spec fn is_connection_entity(
    e: PipewireEntity,
    id: PipewireId,
    from: PipewireId,
    to: PipewireId,
    media_type: MediaType,
) -> bool {
    e matches PipewireEntity::Connection { id: i, from_port_id: f, to_port_id: t, media_type: m }
        && i == id && f == from && t == to && m == media_type
}

/// The state of the PipeWire graph.
#[derive(Debug)]
pub struct Graph {
    pub(crate) objects: Vec<PipewireId>,
    pub(crate) connections: HashSet<PipewireId>,
    pub(crate) entities: HashMap<PipewireId, PipewireEntity>,
}

impl Graph {
    /// The media objects shown, in display order.
    pub closed spec fn spec_objects(self) -> Seq<PipewireId> {
        self.objects@
    }

    /// The ids of the connections.
    pub closed spec fn spec_connections(self) -> Set<PipewireId> {
        self.connections@
    }

    /// Every entity of the graph by its id.
    pub closed spec fn spec_entities(self) -> Map<PipewireId, PipewireEntity> {
        self.entities@
    }

    /// The example graph: three devices (1, 7, 17) with their nodes and
    /// ports, and audio connections 100 (port 5 to port 11) and 101 (port 6
    /// to port 12).
    pub open spec fn is_example(self) -> bool {
        let e = self.spec_entities();
        &&& self.spec_objects() == seq![1u32, 7, 17]
        &&& self.spec_connections() == set![100u32, 101]
        &&& e.dom() == set![1u32, 2, 3, 4, 5, 6, 7, 8, 9, 10, 11, 12, 13, 14, 15, 16, 17, 18, 19, 20, 21, 100, 101]
        &&& is_object_entity(e[1], 1, "test_device_1"@, DeviceClass::Device, seq![2u32])
        &&& is_node_entity(e[2], 2, "test_node_1"@, MediaType::Audio, seq![3u32, 4, 5, 6])
        &&& is_port_entity(e[3], 3, "test_port_1"@, PortType::Source)
        &&& is_port_entity(e[4], 4, "test_port_2"@, PortType::Source)
        &&& is_port_entity(e[5], 5, "test_port_1"@, PortType::Source)
        &&& is_port_entity(e[6], 6, "test_port_2"@, PortType::Source)
        &&& is_object_entity(e[7], 7, "test_device_2"@, DeviceClass::Device, seq![8u32, 13])
        &&& is_node_entity(e[8], 8, "test_node_1"@, MediaType::Midi, seq![9u32, 10, 18, 19])
        &&& is_port_entity(e[9], 9, "test_port_1"@, PortType::Sink)
        &&& is_port_entity(e[10], 10, "test_port_2"@, PortType::Sink)
        &&& is_port_entity(e[18], 18, "test_port_3"@, PortType::Source)
        &&& is_port_entity(e[19], 19, "test_port_4"@, PortType::Source)
        &&& is_node_entity(e[13], 13, "test_node_1"@, MediaType::Audio, seq![11u32, 12, 20, 21])
        &&& is_port_entity(e[11], 11, "test_port_1"@, PortType::Sink)
        &&& is_port_entity(e[12], 12, "test_port_2"@, PortType::Sink)
        &&& is_port_entity(e[20], 20, "test_port_3"@, PortType::Source)
        &&& is_port_entity(e[21], 21, "test_port_4"@, PortType::Source)
        &&& is_object_entity(e[17], 17, "test_device_3"@, DeviceClass::Device, seq![16u32])
        &&& is_node_entity(e[16], 16, "test_node_1"@, MediaType::Video, seq![14u32, 15])
        &&& is_port_entity(e[14], 14, "test_port_1"@, PortType::Source)
        &&& is_port_entity(e[15], 15, "test_port_2"@, PortType::Source)
        &&& is_connection_entity(e[100], 100, 5, 11, MediaType::Audio)
        &&& is_connection_entity(e[101], 101, 6, 12, MediaType::Audio)
    }

    /// A small graph to look at: three devices with four nodes between them,
    /// and two audio connections from the first device to the second.
    pub fn test() -> (g: Self)
        ensures
            g.is_example(),
    {
        let mut entities: HashMap<PipewireId, PipewireEntity> = HashMap::new();
        entities.insert(3, port(3, "test_port_1", PortType::Source));
        entities.insert(4, port(4, "test_port_2", PortType::Source));
        entities.insert(5, port(5, "test_port_1", PortType::Source));
        entities.insert(6, port(6, "test_port_2", PortType::Source));
        entities.insert(2, node(2, "test_node_1", MediaType::Audio, vec![3, 4, 5, 6]));
        entities.insert(1, media_object(1, "test_device_1", DeviceClass::Device, vec![2]));
        entities.insert(9, port(9, "test_port_1", PortType::Sink));
        entities.insert(10, port(10, "test_port_2", PortType::Sink));
        entities.insert(18, port(18, "test_port_3", PortType::Source));
        entities.insert(19, port(19, "test_port_4", PortType::Source));
        entities.insert(8, node(8, "test_node_1", MediaType::Midi, vec![9, 10, 18, 19]));
        entities.insert(11, port(11, "test_port_1", PortType::Sink));
        entities.insert(12, port(12, "test_port_2", PortType::Sink));
        entities.insert(20, port(20, "test_port_3", PortType::Source));
        entities.insert(21, port(21, "test_port_4", PortType::Source));
        entities.insert(13, node(13, "test_node_1", MediaType::Audio, vec![11, 12, 20, 21]));
        entities.insert(7, media_object(7, "test_device_2", DeviceClass::Device, vec![8, 13]));
        entities.insert(14, port(14, "test_port_1", PortType::Source));
        entities.insert(15, port(15, "test_port_2", PortType::Source));
        entities.insert(16, node(16, "test_node_1", MediaType::Video, vec![14, 15]));
        entities.insert(17, media_object(17, "test_device_3", DeviceClass::Device, vec![16]));

        let mut connections: HashSet<PipewireId> = HashSet::new();
        connections.insert(100);
        connections.insert(101);
        entities.insert(
            100,
            PipewireEntity::Connection {
                id: 100,
                from_port_id: 5,
                to_port_id: 11,
                media_type: MediaType::Audio,
            },
        );
        entities.insert(
            101,
            PipewireEntity::Connection {
                id: 101,
                from_port_id: 6,
                to_port_id: 12,
                media_type: MediaType::Audio,
            },
        );
        let objects = vec![1, 7, 17];

        let ghost ents = entities@;
        proof {
            assert(is_node(ents, 2));
            assert(is_node(ents, 8));
            assert(is_node(ents, 13));
            assert(is_node(ents, 16));
            assert(is_object(ents, 1));
            assert(is_object(ents, 7));
            assert(is_object(ents, 17));
            assert(object_nodes(ents[objects@[0]])[0] == 2);
            assert(node_ports(ents[2])[2] == 5);
            assert(node_ports(ents[2])[3] == 6);
            assert(port_placed(objects@, ents, 5));
            assert(port_placed(objects@, ents, 6));
            assert(object_nodes(ents[objects@[1]])[1] == 13);
            assert(node_ports(ents[13])[0] == 11);
            assert(node_ports(ents[13])[1] == 12);
            assert(port_placed(objects@, ents, 11));
            assert(port_placed(objects@, ents, 12));
            assert(connections@ =~= set![100u32, 101]);
            assert(ents.dom() =~= set![1u32, 2, 3, 4, 5, 6, 7, 8, 9, 10, 11, 12, 13, 14, 15, 16, 17, 18, 19, 20, 21, 100, 101]);
            assert(objects@ =~= seq![1u32, 7, 17]);
            assert(object_nodes(ents[1]) =~= seq![2u32]);
            assert(object_nodes(ents[17]) =~= seq![16u32]);
        }
        Graph { objects, entities, connections }
    }

    /// The model of the graph is its fields' contents.
    pub(crate) proof fn lemma_model(self)
        ensures
            self.spec_objects() == self.objects@,
            self.spec_connections() == self.connections@,
            self.spec_entities() == self.entities@,
    {
    }

    /// The shape every graph has: the listed objects are media objects, their
    /// nodes are nodes, the nodes' ports are ports, each of them carries the id
    /// it is stored under, and every connection's ports are ports of the graph.
    #[verifier::type_invariant]
    pub(crate) open spec fn wf(self) -> bool {
        &&& forall|i: int|
            0 <= i < self.objects@.len() ==> #[trigger] is_object(self.entities@, self.objects@[i])
        &&& forall|c: PipewireId| #[trigger]
            self.connections@.contains(c) ==> connection_ok(self.objects@, self.entities@, c)
    }
}

impl Default for Graph {
    /// The empty graph.
    fn default() -> (g: Self)
        ensures
            g.spec_objects() == Seq::<PipewireId>::empty(),
            g.spec_connections() == Set::<PipewireId>::empty(),
            g.spec_entities() == Map::<PipewireId, PipewireEntity>::empty(),
    {
        Graph { objects: Vec::new(), connections: HashSet::new(), entities: HashMap::new() }
    }
}

/// The steps of the desktop theme's spacing scale that the patchbay uses, in pixels.
#[derive(Debug, Clone, Copy, PartialEq, Eq, Structural)]
pub struct Spacing {
    pub space_none: u16,
    pub space_xxxs: u16,
    pub space_xxs: u16,
    pub space_l: u16,
    pub space_xl: u16,
}

/// A colour as its red, green and blue components.
#[derive(Debug, Clone, Copy, PartialEq, Eq, Structural)]
pub struct Rgb {
    pub r: u8,
    pub g: u8,
    pub b: u8,
}

impl MediaType {
    /// The colour of ports and connections of this media type; `All` is no
    /// media type of a port and has none.
    pub fn port_color(self) -> (c: Rgb)
        requires
            self != MediaType::All,
        ensures
            self == MediaType::Video ==> c == (Rgb { r: 66, g: 133, b: 244 }),
            self == MediaType::Audio ==> c == (Rgb { r: 232, g: 157, b: 0 }),
            self == MediaType::Midi ==> c == (Rgb { r: 0, g: 171, b: 122 }),
    {
        match self {
            MediaType::Video => Rgb { r: 66, g: 133, b: 244 },
            MediaType::Audio => Rgb { r: 232, g: 157, b: 0 },
            MediaType::Midi => Rgb { r: 0, g: 171, b: 122 },
            MediaType::All => Rgb { r: 0, g: 0, b: 0 },
        }
    }
}

/// How a device or node box is drawn.
#[derive(Debug, Clone, Copy, PartialEq, Eq, Structural)]
pub struct BoxStyle {
    /// The darker "divider" background instead of the base one.
    pub hovered_background: bool,
    /// An accent-coloured border instead of the plain one.
    pub accent_border: bool,
    pub border_width: u16,
    pub border_radius: u16,
}

impl Graph {
    /// Space around the canvas.
    pub fn canvas_padding(spacing: &Spacing) -> (r: u16)
        ensures
            r == spacing.space_xxxs,
    {
        spacing.space_xxxs
    }

    /// Space above the first object of a column.
    pub fn column_vertical_padding(spacing: &Spacing) -> (r: u16)
        ensures
            r == spacing.space_none,
    {
        spacing.space_none
    }

    /// Space left and right of a column.
    pub fn column_horizontal_padding() -> (r: u16)
        ensures
            r == 10,
    {
        10
    }

    /// Gap between two objects of a column.
    pub fn column_spacing(spacing: &Spacing) -> (r: u16)
        ensures
            r == spacing.space_xxs,
    {
        spacing.space_xxs
    }

    /// Width of a column with its side padding.
    pub fn node_area_width() -> (r: u16)
        ensures
            r == 220,
    {
        200 + 2 * Self::column_horizontal_padding()
    }

    /// Horizontal position of the centre of the source ports' markers: the
    /// right edge of the source column less the node padding and half a marker.
    pub fn source_port_x(spacing: &Spacing) -> (x: i32)
        ensures
            x == spacing.space_xxxs + 220 - 10 - spacing.space_xxs - 8,
    {
        Self::canvas_padding(spacing) as i32 + Self::node_area_width() as i32
            - Self::column_horizontal_padding() as i32 - PipewireEntity::node_padding(spacing) as i32
            - PipewireEntity::inspected_port_size() as i32 / 2
    }
}

impl PipewireEntity {
    /// Width of the border that marks the inspected entity.
    pub fn inspection_border_width() -> (r: u16)
        ensures
            r == 2,
    {
        2
    }

    pub fn object_spacing(spacing: &Spacing) -> (r: u16)
        ensures
            r == spacing.space_xxs,
    {
        spacing.space_xxs
    }

    pub fn object_padding(spacing: &Spacing) -> (r: u16)
        ensures
            r == spacing.space_xxs,
    {
        spacing.space_xxs
    }

    pub fn object_label_height(spacing: &Spacing) -> (r: u16)
        ensures
            r == spacing.space_xl,
    {
        spacing.space_xl
    }

    pub fn object_label_padding(spacing: &Spacing) -> (r: u16)
        ensures
            r == spacing.space_xxs,
    {
        spacing.space_xxs
    }

    pub fn node_spacing(spacing: &Spacing) -> (r: u16)
        ensures
            r == spacing.space_none,
    {
        spacing.space_none
    }

    pub fn node_padding(spacing: &Spacing) -> (r: u16)
        ensures
            r == spacing.space_xxs,
    {
        spacing.space_xxs
    }

    pub fn node_label_height(spacing: &Spacing) -> (r: u16)
        ensures
            r == spacing.space_l,
    {
        spacing.space_l
    }

    pub fn port_spacing(spacing: &Spacing) -> (r: u16)
        ensures
            r == spacing.space_none,
    {
        spacing.space_none
    }

    pub fn port_padding(spacing: &Spacing) -> (r: u16)
        ensures
            r == spacing.space_xxs,
    {
        spacing.space_xxs
    }

    pub fn port_height(spacing: &Spacing) -> (r: u16)
        ensures
            r == spacing.space_l,
    {
        spacing.space_l
    }

    pub fn port_spacing_to_label(spacing: &Spacing) -> (r: u16)
        ensures
            r == spacing.space_xxs,
    {
        spacing.space_xxs
    }

    /// Side of the marker of the inspected port.
    pub fn inspected_port_size() -> (r: u16)
        ensures
            r == 16,
    {
        16
    }

    pub fn port_font_size() -> (r: u16)
        ensures
            r == 12,
    {
        12
    }

    /// Side of a port's marker: full size when inspected, one border width
    /// smaller when hovered, two smaller otherwise.
    pub fn port_marker_size(hovered: bool, inspected: bool) -> (r: u16)
        ensures
            r == marker_size(hovered, inspected),
    {
        if inspected {
            Self::inspected_port_size()
        } else if hovered {
            Self::inspected_port_size() - Self::inspection_border_width()
        } else {
            Self::inspected_port_size() - 2 * Self::inspection_border_width()
        }
    }

    /// Space left and right of a port's marker.
    pub fn port_marker_padding(hovered: bool, inspected: bool) -> (r: u16)
        ensures
            r == marker_padding(hovered, inspected),
    {
        if inspected {
            0
        } else if hovered {
            Self::inspection_border_width() / 2
        } else {
            Self::inspection_border_width()
        }
    }

    /// Corner radius of a port's marker.
    pub fn port_border_radius(hovered: bool, inspected: bool) -> (r: u16)
        ensures
            r == if inspected && !hovered {
                8u16
            } else {
                6u16
            },
    {
        if hovered && inspected {
            6
        } else if inspected {
            8
        } else {
            6
        }
    }

    /// Border of a port's marker: only the inspected port has one.
    pub fn port_border_width(inspected: bool) -> (r: u16)
        ensures
            r == if inspected {
                2u16
            } else {
                0u16
            },
    {
        if inspected {
            Self::inspection_border_width()
        } else {
            0
        }
    }

    /// How a device or node box is drawn: darker when hovered, with a wider
    /// accent border when inspected.
    pub fn box_style(hovered: bool, inspected: bool) -> (st: BoxStyle)
        ensures
            st == (BoxStyle {
                hovered_background: hovered,
                accent_border: inspected,
                border_width: if inspected {
                    2u16
                } else {
                    1u16
                },
                border_radius: 8u16,
            }),
    {
        BoxStyle {
            hovered_background: hovered,
            accent_border: inspected,
            border_width: if inspected {
                Self::inspection_border_width()
            } else {
                1
            },
            border_radius: 8,
        }
    }

    /// Padding (top, right, bottom, left) around the nodes of a device box:
    /// below, and on the side away from the other column.
    pub fn object_content_padding(side: PortType, spacing: &Spacing) -> (p: [u16; 4])
        ensures
            side == PortType::Source ==> p@ == seq![0u16, 0, spacing.space_xxs, spacing.space_xxs],
            side == PortType::Sink ==> p@ == seq![0u16, spacing.space_xxs, spacing.space_xxs, 0],
    {
        let op = Self::object_padding(spacing);
        match side {
            PortType::Source => [0, 0, op, op],
            PortType::Sink => [0, op, op, 0],
        }
    }

    /// Padding (top, right, bottom, left) around the ports of a node box:
    /// everywhere but on the side facing the other column.
    pub fn node_content_padding(side: PortType, spacing: &Spacing) -> (p: [u16; 4])
        ensures
            side == PortType::Source ==> p@ == seq![spacing.space_xxs, 0, spacing.space_xxs, spacing.space_xxs],
            side == PortType::Sink ==> p@ == seq![spacing.space_xxs, spacing.space_xxs, spacing.space_xxs, 0],
    {
        let np = Self::node_padding(spacing);
        match side {
            PortType::Source => [np, 0, np, np],
            PortType::Sink => [np, np, np, 0],
        }
    }
}

/// Side of a port's marker, by whether it is hovered and inspected.
pub open spec fn marker_size(hovered: bool, inspected: bool) -> int {
    if inspected {
        16
    } else if hovered {
        14
    } else {
        12
    }
}

/// Space left and right of a port's marker, by whether it is hovered and inspected.
pub open spec fn marker_padding(hovered: bool, inspected: bool) -> int {
    if inspected {
        0
    } else if hovered {
        1
    } else {
        2
    }
}

/// The port marker with its padding always takes the room of an inspected
/// marker, so hovering or inspecting a port never moves its row's contents.
pub proof fn lemma_port_marker_room(hovered: bool, inspected: bool)
    ensures
        marker_size(hovered, inspected) + 2 * marker_padding(hovered, inspected) == marker_size(
            false,
            true,
        ),
{
}

fn port(id: PipewireId, name: &str, port_type: PortType) -> (e: PipewireEntity)
    ensures
        e matches PipewireEntity::Port { id: i, name: n, port_type: t } && i == id && n@ == name@ && t == port_type,
{
    PipewireEntity::Port { id, name: String::from_str(name), port_type }
}

fn node(id: PipewireId, name: &str, media_type: MediaType, ports: Vec<PipewireId>) -> (e: PipewireEntity)
    ensures
        e matches PipewireEntity::Node { id: i, name: n, media_type: t, ports: p } && i == id && n@ == name@ && t == media_type && p@ == ports@,
{
    PipewireEntity::Node { id, name: String::from_str(name), media_type, ports }
}

fn media_object(id: PipewireId, name: &str, device_type: DeviceClass, nodes: Vec<PipewireId>) -> (e: PipewireEntity)
    ensures
        e matches PipewireEntity::MediaObject { id: i, name: n, device_type: t, nodes: v } && i == id && n@ == name@ && t == device_type && v@ == nodes@,
{
    PipewireEntity::MediaObject { id, name: String::from_str(name), device_type, nodes }
}

} // verus!
