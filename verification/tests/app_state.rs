use switchbox::app::graph::Spacing;
use switchbox::app::inspector::{Inspector, InspectorTab};
use switchbox::app::layout::LayoutMetrics;
use switchbox::app::settings::{Shown, Visibility};
use switchbox::app::{AppModel, ContextPage, Effect, HoveredItems, MenuAction, Message};

#[test]
fn start_up_state() {
    let m = AppModel::init();
    assert_eq!(m.context_page, ContextPage::About);
    assert!(!m.show_context);
    assert_eq!(m.settings.buffer_size, 0);
    assert_eq!(m.view_settings, Visibility::default());
    assert!(!m.view_settings.show_audio);
    assert_eq!(m.inspector.active_tab, InspectorTab::Info);
    assert_eq!(m.hovered_items, HoveredItems::default());
    assert_eq!(m.inspected_object, None);
    assert_eq!(m.context_drawer(), None);
    assert_eq!(m.footer(), None);
}

#[test]
fn window_title_is_the_app_title() {
    let m = AppModel::init();
    assert_eq!(m.update_title("Switchbox"), "Switchbox");
}

#[test]
fn toggling_a_kind_twice_restores_it() {
    let mut m = AppModel::init();
    assert_eq!(m.update(Message::ToggleShowMidi), Effect::Nothing);
    assert!(m.view_settings.show_midi);
    assert!(!m.view_settings.show_video && !m.view_settings.show_audio);
    m.update(Message::ToggleShowMidi);
    assert_eq!(m.view_settings, Visibility::default());
    for msg in [
        Message::ToggleShowVideo,
        Message::ToggleShowAudio,
        Message::ToggleShowDevices,
        Message::ToggleShowClients,
    ] {
        m.update(msg.clone());
        m.update(msg);
    }
    assert_eq!(m.view_settings, Visibility::default());
}

#[test]
fn visibility_toggle_flips_one_kind() {
    let mut v = Visibility::default();
    v.toggle(Shown::Clients);
    assert!(v.show_clients);
    assert!(!v.show_devices);
    v.toggle(Shown::Clients);
    assert!(!v.show_clients);
}

#[test]
fn context_page_toggling() {
    let mut m = AppModel::init();
    m.update(Message::ToggleContextPage(ContextPage::Settings));
    assert_eq!(m.context_drawer(), Some(ContextPage::Settings));
    m.update(Message::ToggleContextPage(ContextPage::About));
    assert_eq!(m.context_drawer(), Some(ContextPage::About));
    m.update(Message::ToggleContextPage(ContextPage::About));
    assert_eq!(m.context_drawer(), None);
    assert_eq!(m.context_page, ContextPage::About);
    m.update(Message::ToggleContextPage(ContextPage::About));
    assert_eq!(m.context_drawer(), Some(ContextPage::About));
}

#[test]
fn hover_prefers_the_innermost_entity() {
    let mut m = AppModel::init();
    m.update(Message::ObjectHover(1));
    assert_eq!(m.hovered_items.hovered(), Some(1));
    m.update(Message::NodeHover(2));
    assert_eq!(m.hovered_items.hovered(), Some(2));
    m.update(Message::PortHover(5));
    assert_eq!(m.hovered_items.hovered(), Some(5));
    m.update(Message::StopPortHover);
    assert_eq!(m.hovered_items.hovered(), Some(2));
    m.update(Message::StopNodeHover);
    assert_eq!(m.hovered_items.hovered(), Some(1));
    m.update(Message::StopObjectHover);
    assert_eq!(m.hovered_items.hovered(), None);
}

#[test]
fn hovered_items_methods() {
    let mut h = HoveredItems::default();
    h.enter_port(9);
    h.enter_object(7);
    assert_eq!(h.hovered(), Some(9));
    h.exit_port();
    assert_eq!(h.hovered(), Some(7));
    h.enter_node(8);
    assert_eq!(h.hovered(), Some(8));
    h.exit_node();
    h.exit_object();
    assert_eq!(h.hovered(), None);
}

#[test]
fn inspecting_shows_the_footer() {
    let mut m = AppModel::init();
    m.update(Message::Inspect(Some(13)));
    assert_eq!(m.inspected_object, Some(13));
    assert_eq!(m.footer(), Some(InspectorTab::Info));
    m.update(Message::InspectorTabSelected(InspectorTab::InternalRouting));
    assert_eq!(m.footer(), Some(InspectorTab::InternalRouting));
    m.update(Message::Inspect(None));
    assert_eq!(m.footer(), None);
}

#[test]
fn outside_effects() {
    let mut m = AppModel::init();
    assert_eq!(
        m.update(Message::LaunchUrl("https://example.org".to_string())),
        Effect::OpenUrl("https://example.org".to_string())
    );
    assert_eq!(m.update(Message::UpdateConfig), Effect::StoreConfig);
    assert_eq!(m.update(Message::Quit), Effect::Exit);
    assert_eq!(m.context_drawer(), None);
    assert_eq!(m.footer(), None);
}

#[test]
fn menu_messages() {
    assert!(matches!(MenuAction::Quit.message(), Message::Quit));
    assert!(matches!(
        MenuAction::About.message(),
        Message::ToggleContextPage(ContextPage::About)
    ));
}

#[test]
fn inspector_tabs() {
    let mut i = Inspector::new();
    assert_eq!(Inspector::tabs(), vec![InspectorTab::InternalRouting, InspectorTab::Info]);
    assert_eq!(InspectorTab::default(), InspectorTab::Info);
    assert_eq!(i.view(None), None);
    assert_eq!(i.view(Some(3)), Some(InspectorTab::Info));
    i.activate(InspectorTab::InternalRouting);
    assert_eq!(i.view(Some(3)), Some(InspectorTab::InternalRouting));
}

#[test]
fn the_graph_does_not_change_with_messages() {
    let sp = Spacing { space_none: 0, space_xxxs: 4, space_xxs: 8, space_l: 32, space_xl: 48 };
    let mut m = AppModel::init();
    let before = m.graph.view(None, None, &LayoutMetrics::from_spacing(&sp)).unwrap();
    m.update(Message::ToggleShowAudio);
    m.update(Message::PortHover(3));
    let after = m.graph.view(None, None, &LayoutMetrics::from_spacing(&sp)).unwrap();
    assert_eq!(before.sources.len(), after.sources.len());
    assert_eq!(before.sinks[0].bottom, after.sinks[0].bottom);
}
