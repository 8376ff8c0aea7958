use switchbox::app::graph::{
    BoxStyle, Graph, MediaType, PipewireEntity, PortType, Rgb, Spacing,
};
use switchbox::app::layout::{ConnectionLine, GraphView, LayoutMetrics, PortPosition};

fn spacing() -> Spacing {
    Spacing { space_none: 0, space_xxxs: 4, space_xxs: 8, space_l: 32, space_xl: 48 }
}

fn metrics() -> LayoutMetrics {
    LayoutMetrics::from_spacing(&spacing())
}

fn port_tops(view: &GraphView, side: PortType) -> Vec<(u32, u64)> {
    let column = match side {
        PortType::Source => &view.sources,
        PortType::Sink => &view.sinks,
    };
    let mut out = Vec::new();
    for o in column {
        for n in &o.nodes {
            for p in &n.ports {
                out.push((p.id, p.top));
            }
        }
    }
    out
}

#[test]
fn metrics_follow_the_spacing_scale() {
    let m = metrics();
    assert_eq!(m.canvas_padding, 4);
    assert_eq!(m.column_vertical_padding, 0);
    assert_eq!(m.column_spacing, 8);
    assert_eq!(m.object_spacing, 8);
    assert_eq!(m.object_padding, 8);
    assert_eq!(m.object_label_height, 48);
    assert_eq!(m.node_spacing, 0);
    assert_eq!(m.node_padding, 8);
    assert_eq!(m.node_label_height, 32);
    assert_eq!(m.port_spacing, 0);
    assert_eq!(m.port_height, 32);
}

#[test]
fn fixed_sizes() {
    assert_eq!(Graph::node_area_width(), 220);
    assert_eq!(Graph::column_horizontal_padding(), 10);
    assert_eq!(PipewireEntity::inspection_border_width(), 2);
    assert_eq!(PipewireEntity::inspected_port_size(), 16);
    assert_eq!(PipewireEntity::port_font_size(), 12);
    assert_eq!(PipewireEntity::object_label_padding(&spacing()), 8);
    assert_eq!(PipewireEntity::port_padding(&spacing()), 8);
    assert_eq!(PipewireEntity::port_spacing_to_label(&spacing()), 8);
    // 4 + 220 - 10 - 8 - 8
    assert_eq!(Graph::source_port_x(&spacing()), 198);
}

#[test]
fn source_column_of_the_example_graph() {
    let g = Graph::test();
    let v = g.view(None, None, &metrics()).expect("layout fits");
    let ids: Vec<u32> = v.sources.iter().map(|o| o.id).collect();
    assert_eq!(ids, vec![1, 7, 17]);
    assert_eq!((v.sources[0].top, v.sources[0].bottom), (4, 236));
    assert_eq!((v.sources[1].top, v.sources[1].bottom), (244, 532));
    assert_eq!((v.sources[2].top, v.sources[2].bottom), (540, 708));
    let node_ids: Vec<u32> = v.sources[1].nodes.iter().map(|n| n.id).collect();
    assert_eq!(node_ids, vec![8, 13]);
    assert_eq!((v.sources[1].nodes[0].top, v.sources[1].nodes[0].bottom), (292, 404));
    assert_eq!((v.sources[1].nodes[1].top, v.sources[1].nodes[1].bottom), (412, 524));
    assert_eq!(
        port_tops(&v, PortType::Source),
        vec![(3, 92), (4, 124), (5, 156), (6, 188), (18, 332), (19, 364), (20, 452), (21, 484), (14, 628), (15, 660)]
    );
    assert_eq!(v.sources[0].name, "test_device_1");
    assert_eq!(v.sources[0].nodes[0].name, "test_node_1");
    assert_eq!(v.sources[0].nodes[0].ports[1].name, "test_port_2");
    assert_eq!(v.sources[0].nodes[0].ports[0].media_type, MediaType::Audio);
    assert_eq!(v.sources[1].nodes[0].ports[0].media_type, MediaType::Midi);
    assert_eq!(v.sources[2].nodes[0].media_type, MediaType::Video);
}

#[test]
fn sink_column_skips_objects_without_sinks() {
    let g = Graph::test();
    let v = g.view(None, None, &metrics()).expect("layout fits");
    let ids: Vec<u32> = v.sinks.iter().map(|o| o.id).collect();
    assert_eq!(ids, vec![7]);
    assert_eq!((v.sinks[0].top, v.sinks[0].bottom), (4, 292));
    assert_eq!((v.sinks[0].nodes[0].top, v.sinks[0].nodes[0].bottom), (52, 164));
    assert_eq!((v.sinks[0].nodes[1].top, v.sinks[0].nodes[1].bottom), (172, 284));
    assert_eq!(port_tops(&v, PortType::Sink), vec![(9, 92), (10, 124), (11, 212), (12, 244)]);
}

#[test]
fn connections_join_recorded_port_positions() {
    let g = Graph::test();
    let v = g.view(None, None, &metrics()).expect("layout fits");
    let mut lines = v.connections.connections.clone();
    lines.sort_by_key(|l| l.from.top);
    assert_eq!(
        lines,
        vec![
            ConnectionLine {
                from: PortPosition { side: PortType::Source, top: 156 },
                to: PortPosition { side: PortType::Sink, top: 212 },
                media_type: MediaType::Audio,
            },
            ConnectionLine {
                from: PortPosition { side: PortType::Source, top: 188 },
                to: PortPosition { side: PortType::Sink, top: 244 },
                media_type: MediaType::Audio,
            },
        ]
    );
}

#[test]
fn hovered_and_inspected_entities_are_marked() {
    let g = Graph::test();
    let v = g.view(Some(13), Some(5), &metrics()).expect("layout fits");
    assert!(v.sources[1].nodes[1].hovered);
    assert!(v.sinks[0].nodes[1].hovered);
    assert!(!v.sources[1].nodes[0].hovered);
    assert!(!v.sources[1].hovered);
    assert!(v.sources[0].nodes[0].ports[2].inspected);
    assert!(!v.sources[0].nodes[0].ports[3].inspected);
    assert!(!v.sources[0].nodes[0].ports[2].hovered);
}

#[test]
fn empty_graph_shows_nothing() {
    let g = Graph::default();
    let v = g.view(Some(1), None, &metrics()).expect("layout fits");
    assert!(v.sources.is_empty());
    assert!(v.sinks.is_empty());
    assert!(v.connections.connections.is_empty());
}

#[test]
fn zero_spacing_stacks_ports_by_their_height() {
    let sp = Spacing { space_none: 0, space_xxxs: 0, space_xxs: 0, space_l: 10, space_xl: 0 };
    let g = Graph::test();
    let v = g.view(None, None, &LayoutMetrics::from_spacing(&sp)).expect("layout fits");
    assert_eq!(&port_tops(&v, PortType::Source)[..4], &[(3, 10), (4, 20), (5, 30), (6, 40)]);
    assert_eq!(v.sources[0].bottom, 50);
    assert_eq!(v.sources[1].top, 50);
}

#[test]
fn port_colors() {
    assert_eq!(MediaType::Video.port_color(), Rgb { r: 66, g: 133, b: 244 });
    assert_eq!(MediaType::Audio.port_color(), Rgb { r: 232, g: 157, b: 0 });
    assert_eq!(MediaType::Midi.port_color(), Rgb { r: 0, g: 171, b: 122 });
}

#[test]
fn port_markers_keep_their_room() {
    for (hovered, inspected) in [(false, false), (true, false), (false, true), (true, true)] {
        let size = PipewireEntity::port_marker_size(hovered, inspected);
        let pad = PipewireEntity::port_marker_padding(hovered, inspected);
        assert_eq!(size + 2 * pad, 16);
    }
    assert_eq!(PipewireEntity::port_marker_size(true, false), 14);
    assert_eq!(PipewireEntity::port_marker_padding(false, false), 2);
    assert_eq!(PipewireEntity::port_border_radius(false, true), 8);
    assert_eq!(PipewireEntity::port_border_radius(true, true), 6);
    assert_eq!(PipewireEntity::port_border_radius(true, false), 6);
    assert_eq!(PipewireEntity::port_border_width(true), 2);
    assert_eq!(PipewireEntity::port_border_width(false), 0);
}

#[test]
fn box_styles() {
    assert_eq!(
        PipewireEntity::box_style(true, true),
        BoxStyle { hovered_background: true, accent_border: true, border_width: 2, border_radius: 8 }
    );
    assert_eq!(
        PipewireEntity::box_style(false, false),
        BoxStyle { hovered_background: false, accent_border: false, border_width: 1, border_radius: 8 }
    );
}

#[test]
fn content_padding_faces_away_from_the_other_column() {
    assert_eq!(PipewireEntity::object_content_padding(PortType::Source, &spacing()), [0, 0, 8, 8]);
    assert_eq!(PipewireEntity::object_content_padding(PortType::Sink, &spacing()), [0, 8, 8, 0]);
    assert_eq!(PipewireEntity::node_content_padding(PortType::Source, &spacing()), [8, 0, 8, 8]);
    assert_eq!(PipewireEntity::node_content_padding(PortType::Sink, &spacing()), [8, 8, 8, 0]);
}

#[test]
fn no_connections_by_default() {
    let set = switchbox::app::layout::CanvasConnectionSet::default();
    assert!(set.connections.is_empty());
}

#[test]
fn hovering_moves_nothing() {
    let g = Graph::test();
    let plain = g.view(None, None, &metrics()).expect("layout fits");
    let marked = g.view(Some(7), Some(12), &metrics()).expect("layout fits");
    assert_eq!(port_tops(&plain, PortType::Source), port_tops(&marked, PortType::Source));
    assert_eq!(port_tops(&plain, PortType::Sink), port_tops(&marked, PortType::Sink));
    assert!(marked.sinks[0].hovered);
    assert!(marked.sinks[0].nodes[1].ports[1].inspected);
    assert_eq!(plain.sinks[0].bottom, marked.sinks[0].bottom);
}

#[test]
fn hovering_moves_no_line() {
    let g = Graph::test();
    let mut plain = g.view(None, None, &metrics()).expect("layout fits").connections.connections;
    let mut marked = g.view(Some(5), Some(11), &metrics()).expect("layout fits").connections.connections;
    plain.sort_by_key(|l| l.from.top);
    marked.sort_by_key(|l| l.from.top);
    assert_eq!(plain, marked);
}
