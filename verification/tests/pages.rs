use switchbox::app::Effect;
use switchbox::pages::{AppModel, ContextPage, Message, Node, Page};

#[test]
fn page_labels() {
    assert_eq!(Page::Page1.label(), "Device - Software");
    assert_eq!(Page::Page2.label(), "Software - Device");
    assert_eq!(Page::Page3.label(), "Device - Device");
    assert_eq!(Page::default(), Page::Page3);
}

#[test]
fn title_names_the_page() {
    let mut m = AppModel::init();
    assert_eq!(m.update_title("Switchbox"), "Switchbox — Device - Device");
    m.update(Message::Select(Page::Page1));
    assert_eq!(m.update_title("Switchbox"), "Switchbox — Device - Software");
}

#[test]
fn stopwatch() {
    let mut m = AppModel::init();
    assert!(!m.subscription());
    m.update(Message::ToggleWatch);
    assert!(m.subscription());
    m.update(Message::WatchTick(3));
    assert_eq!(m.time, 3);
    m.update(Message::ToggleWatch);
    assert!(!m.subscription());
    assert_eq!(m.time, 3);
}

#[test]
fn drawer_and_inspection() {
    let mut m = AppModel::init();
    assert_eq!(m.update(Message::ToggleContextPage(ContextPage::Settings)), Effect::Nothing);
    assert!(m.show_context);
    m.update(Message::ToggleContextPage(ContextPage::Settings));
    assert!(!m.show_context);
    m.update(Message::Inspect(Some(Node { id: 1 })));
    assert_eq!(m.inspect, Some(Node { id: 1 }));
    assert_eq!(m.update(Message::UpdateConfig), Effect::StoreConfig);
    assert_eq!(
        m.update(Message::LaunchUrl("https://example.org".to_string())),
        Effect::OpenUrl("https://example.org".to_string())
    );
}

#[test]
fn stopwatch_labels() {
    let mut m = AppModel::init();
    assert_eq!(m.counter_label(), "Watch: 0");
    assert_eq!(m.watch_button_label(), "Start");
    m.update(Message::ToggleWatch);
    assert_eq!(m.watch_button_label(), "Stop");
    for t in [7u32, 10, 305, 4294967295] {
        m.update(Message::WatchTick(t));
        assert_eq!(m.counter_label(), format!("Watch: {t}"));
    }
}

#[test]
fn footer_and_drawer() {
    let mut m = AppModel::init();
    assert_eq!(m.footer(), None);
    assert_eq!(m.context_drawer(), None);
    m.update(Message::Inspect(Some(Node { id: 4 })));
    assert_eq!(m.footer(), Some(Node { id: 4 }));
    m.update(Message::ToggleContextPage(ContextPage::Settings));
    assert_eq!(m.context_drawer(), Some(ContextPage::Settings));
    m.update(Message::Inspect(None));
    assert_eq!(m.footer(), None);
}
