//! The application's state and how each message changes it.
pub mod graph;
pub mod inspector;
pub mod layout;
pub mod settings;

use crate::app::graph::{Graph, PipewireId};
use crate::app::inspector::{Inspector, InspectorTab};
use crate::app::settings::{Shown, Visibility};
use vstd::prelude::*;

verus! {

/// The page shown in the context drawer.
#[derive(Copy, Clone, Debug, Eq, PartialEq, Structural)]
pub enum ContextPage {
    About,
    Settings,
}

impl Default for ContextPage {
    fn default() -> (p: Self)
        ensures
            p == ContextPage::About,
    {
        ContextPage::About
    }
}

/// The entries of the menu bar.
#[derive(Clone, Copy, Debug, Eq, PartialEq, Structural)]
pub enum MenuAction {
    Quit,
    About,
}

/// What the application reacts to.
#[derive(Debug, Clone)]
pub enum Message {
    ObjectHover(PipewireId),
    StopObjectHover,
    NodeHover(PipewireId),
    StopNodeHover,
    PortHover(PipewireId),
    StopPortHover,
    Inspect(Option<PipewireId>),
    InspectorTabSelected(InspectorTab),
    ToggleShowVideo,
    ToggleShowAudio,
    ToggleShowMidi,
    ToggleShowDevices,
    ToggleShowClients,
    LaunchUrl(String),
    ToggleContextPage(ContextPage),
    /// A new configuration arrived; the application keeps it.
    UpdateConfig,
    Quit,
}

impl MenuAction {
    /// The message a menu entry sends.
    pub fn message(&self) -> (m: Message)
        ensures
            *self == MenuAction::Quit ==> m is Quit,
            *self == MenuAction::About ==> m == Message::ToggleContextPage(ContextPage::About),
    {
        match self {
            MenuAction::Quit => Message::Quit,
            MenuAction::About => Message::ToggleContextPage(ContextPage::About),
        }
    }
}

/// What handling a message asks of the world outside the application state.
#[derive(Debug, Clone, PartialEq, Eq)]
pub enum Effect {
    /// Nothing.
    Nothing,
    /// Open the address in the desktop's browser.
    OpenUrl(String),
    /// Keep the configuration that came with the message.
    StoreConfig,
    /// End the process.
    Exit,
}

/// Settings of the PipeWire session.
#[derive(Debug, Clone, Copy, PartialEq, Eq, Structural)]
pub struct Settings {
    pub buffer_size: u16,
}

impl Default for Settings {
    fn default() -> (s: Self)
        ensures
            s.buffer_size == 0,
    {
        Settings { buffer_size: 0 }
    }
}

/// The device, node and port under the pointer. Boxes nest, so the pointer can
/// be over a port, its node and its device at once.
#[derive(Clone, Copy, Debug, PartialEq, Eq, Structural)]
pub struct HoveredItems {
    pub hovered_object: Option<PipewireId>,
    pub hovered_node: Option<PipewireId>,
    pub hovered_port: Option<PipewireId>,
}

impl Default for HoveredItems {
    /// Nothing is hovered.
    fn default() -> (h: Self)
        ensures
            h.hovered_object is None,
            h.hovered_node is None,
            h.hovered_port is None,
    {
        HoveredItems { hovered_object: None, hovered_node: None, hovered_port: None }
    }
}

impl HoveredItems {
    /// The innermost hovered entity: the port if any, else the node if any,
    /// else the device.
    pub open spec fn innermost(self) -> Option<PipewireId> {
        if self.hovered_port is Some {
            self.hovered_port
        } else if self.hovered_node is Some {
            self.hovered_node
        } else {
            self.hovered_object
        }
    }

    pub fn enter_object(&mut self, value: PipewireId)
        ensures
            *final(self) == (HoveredItems { hovered_object: Some(value), ..*old(self) }),
    {
        self.hovered_object = Some(value);
    }

    pub fn exit_object(&mut self)
        ensures
            *final(self) == (HoveredItems { hovered_object: None, ..*old(self) }),
    {
        self.hovered_object = None;
    }

    pub fn enter_node(&mut self, value: PipewireId)
        ensures
            *final(self) == (HoveredItems { hovered_node: Some(value), ..*old(self) }),
    {
        self.hovered_node = Some(value);
    }

    pub fn exit_node(&mut self)
        ensures
            *final(self) == (HoveredItems { hovered_node: None, ..*old(self) }),
    {
        self.hovered_node = None;
    }

    pub fn enter_port(&mut self, value: PipewireId)
        ensures
            *final(self) == (HoveredItems { hovered_port: Some(value), ..*old(self) }),
    {
        self.hovered_port = Some(value);
    }

    pub fn exit_port(&mut self)
        ensures
            *final(self) == (HoveredItems { hovered_port: None, ..*old(self) }),
    {
        self.hovered_port = None;
    }

    /// The entity drawn as hovered.
    pub fn hovered(&self) -> (h: Option<PipewireId>)
        ensures
            h == self.innermost(),
    {
        if self.hovered_port.is_some() {
            self.hovered_port
        } else if self.hovered_node.is_some() {
            self.hovered_node
        } else {
            self.hovered_object
        }
    }
}

/// The application state that messages change: everything but the graph.
pub struct AppState {
    pub context_page: ContextPage,
    pub show_context: bool,
    pub settings: Settings,
    pub view_settings: Visibility,
    pub inspector: Inspector,
    pub hovered_items: HoveredItems,
    pub inspected_object: Option<PipewireId>,
}

/// The state after a message, and what the message asks of the outside.
pub open spec fn step(s: AppState, message: Message) -> (AppState, Effect) {
    match message {
        Message::ObjectHover(id) => (
            AppState { hovered_items: HoveredItems { hovered_object: Some(id), ..s.hovered_items }, ..s },
            Effect::Nothing,
        ),
        Message::StopObjectHover => (
            AppState { hovered_items: HoveredItems { hovered_object: None, ..s.hovered_items }, ..s },
            Effect::Nothing,
        ),
        Message::NodeHover(id) => (
            AppState { hovered_items: HoveredItems { hovered_node: Some(id), ..s.hovered_items }, ..s },
            Effect::Nothing,
        ),
        Message::StopNodeHover => (
            AppState { hovered_items: HoveredItems { hovered_node: None, ..s.hovered_items }, ..s },
            Effect::Nothing,
        ),
        Message::PortHover(id) => (
            AppState { hovered_items: HoveredItems { hovered_port: Some(id), ..s.hovered_items }, ..s },
            Effect::Nothing,
        ),
        Message::StopPortHover => (
            AppState { hovered_items: HoveredItems { hovered_port: None, ..s.hovered_items }, ..s },
            Effect::Nothing,
        ),
        Message::Inspect(id) => (AppState { inspected_object: id, ..s }, Effect::Nothing),
        Message::InspectorTabSelected(tab) => (
            AppState { inspector: Inspector { active_tab: tab }, ..s },
            Effect::Nothing,
        ),
        Message::ToggleShowVideo => (
            AppState { view_settings: s.view_settings.flipped(Shown::Video), ..s },
            Effect::Nothing,
        ),
        Message::ToggleShowAudio => (
            AppState { view_settings: s.view_settings.flipped(Shown::Audio), ..s },
            Effect::Nothing,
        ),
        Message::ToggleShowMidi => (
            AppState { view_settings: s.view_settings.flipped(Shown::Midi), ..s },
            Effect::Nothing,
        ),
        Message::ToggleShowDevices => (
            AppState { view_settings: s.view_settings.flipped(Shown::Devices), ..s },
            Effect::Nothing,
        ),
        Message::ToggleShowClients => (
            AppState { view_settings: s.view_settings.flipped(Shown::Clients), ..s },
            Effect::Nothing,
        ),
        Message::ToggleContextPage(page) => (
            if s.context_page == page {
                AppState { show_context: !s.show_context, ..s }
            } else {
                AppState { context_page: page, show_context: true, ..s }
            },
            Effect::Nothing,
        ),
        Message::UpdateConfig => (s, Effect::StoreConfig),
        Message::LaunchUrl(url) => (s, Effect::OpenUrl(url)),
        Message::Quit => (s, Effect::Exit),
    }
}

/// The application model: the graph and the state of the interface around it.
#[derive(Debug)]
pub struct AppModel {
    /// The page of the context drawer.
    pub context_page: ContextPage,
    /// Whether the context drawer is open.
    pub show_context: bool,
    pub settings: Settings,
    pub view_settings: Visibility,
    pub graph: Graph,
    pub inspector: Inspector,
    pub hovered_items: HoveredItems,
    pub inspected_object: Option<PipewireId>,
}

impl View for AppModel {
    type V = AppState;

    open spec fn view(&self) -> AppState {
        AppState {
            context_page: self.context_page,
            show_context: self.show_context,
            settings: self.settings,
            view_settings: self.view_settings,
            inspector: self.inspector,
            hovered_items: self.hovered_items,
            inspected_object: self.inspected_object,
        }
    }
}

impl AppModel {
    /// The model at start-up: the drawer closed on the about page, nothing
    /// shown, hovered or inspected, the inspector on its info tab, and the
    /// example graph.
    pub fn init() -> (m: Self)
        ensures
            m.context_page == ContextPage::About,
            !m.show_context,
            m.settings.buffer_size == 0,
            m.view_settings == (Visibility {
                show_video: false,
                show_audio: false,
                show_midi: false,
                show_devices: false,
                show_clients: false,
            }),
            m.inspector.active_tab == InspectorTab::Info,
            m.hovered_items == (HoveredItems {
                hovered_object: None,
                hovered_node: None,
                hovered_port: None,
            }),
            m.inspected_object is None,
            m.graph.is_example(),
    {
        AppModel {
            context_page: ContextPage::default(),
            show_context: false,
            settings: Settings::default(),
            view_settings: Visibility::default(),
            graph: Graph::test(),
            inspector: Inspector::new(),
            hovered_items: HoveredItems::default(),
            inspected_object: None,
        }
    }

    /// The window title: the application's (localized) title.
    pub fn update_title(&self, app_title: &str) -> (title: String)
        ensures
            title@ == app_title@,
    {
        String::from_str(app_title)
    }

    /// The page the context drawer shows, if it is open.
    pub fn context_drawer(&self) -> (page: Option<ContextPage>)
        ensures
            page == (if self.show_context {
                Some(self.context_page)
            } else {
                None
            }),
    {
        if !self.show_context {
            return None;
        }
        Some(self.context_page)
    }

    /// What the inspector at the bottom shows.
    pub fn footer(&self) -> (tab: Option<InspectorTab>)
        ensures
            tab == (if self.inspected_object is Some {
                Some(self.inspector.active_tab)
            } else {
                None
            }),
    {
        self.inspector.view(self.inspected_object)
    }

    /// Handles a message: changes the state as `step` says, never the graph,
    /// and returns what the message asks of the outside.
    pub fn update(&mut self, message: Message) -> (effect: Effect)
        ensures
            (final(self)@, effect) == step(old(self)@, message),
            final(self).graph == old(self).graph,
    {
        match message {
            Message::ObjectHover(pwid) => {
                self.hovered_items.enter_object(pwid);
            },
            Message::StopObjectHover => {
                self.hovered_items.exit_object();
            },
            Message::NodeHover(pwid) => {
                self.hovered_items.enter_node(pwid);
            },
            Message::StopNodeHover => {
                self.hovered_items.exit_node();
            },
            Message::PortHover(pwid) => {
                self.hovered_items.enter_port(pwid);
            },
            Message::StopPortHover => {
                self.hovered_items.exit_port();
            },
            Message::Inspect(pwid) => {
                self.inspected_object = pwid;
            },
            Message::InspectorTabSelected(tab) => {
                self.inspector.activate(tab);
            },
            Message::ToggleShowVideo => {
                self.view_settings.toggle(Shown::Video);
            },
            Message::ToggleShowAudio => {
                self.view_settings.toggle(Shown::Audio);
            },
            Message::ToggleShowMidi => {
                self.view_settings.toggle(Shown::Midi);
            },
            Message::ToggleShowDevices => {
                self.view_settings.toggle(Shown::Devices);
            },
            Message::ToggleShowClients => {
                self.view_settings.toggle(Shown::Clients);
            },
            Message::ToggleContextPage(context_page) => {
                if self.context_page == context_page {
                    self.show_context = !self.show_context;
                } else {
                    self.context_page = context_page;
                    self.show_context = true;
                }
            },
            Message::UpdateConfig => {
                return Effect::StoreConfig;
            },
            Message::LaunchUrl(url) => {
                return Effect::OpenUrl(url);
            },
            Message::Quit => {
                return Effect::Exit;
            },
        }
        Effect::Nothing
    }
}

/// Toggling one kind of entity twice gives back the state one started with.
pub proof fn lemma_toggle_twice(s: AppState, message: Message)
    requires
        message is ToggleShowVideo || message is ToggleShowAudio || message is ToggleShowMidi
            || message is ToggleShowDevices || message is ToggleShowClients,
    ensures
        step(step(s, message).0, message).0 == s,
        step(s, message).1 == Effect::Nothing,
{
    let v = s.view_settings;
    assert(v.flipped(Shown::Video).flipped(Shown::Video) == v);
    assert(v.flipped(Shown::Audio).flipped(Shown::Audio) == v);
    assert(v.flipped(Shown::Midi).flipped(Shown::Midi) == v);
    assert(v.flipped(Shown::Devices).flipped(Shown::Devices) == v);
    assert(v.flipped(Shown::Clients).flipped(Shown::Clients) == v);
}

/// Toggling a context page flips whether the drawer shows that page: it opens
/// on the page unless it was showing it, in which case it closes.
pub proof fn lemma_toggle_context_page(s: AppState, page: ContextPage)
    ensures
        ({
            let t = step(s, Message::ToggleContextPage(page)).0;
            (t.show_context && t.context_page == page) == !(s.show_context && s.context_page
                == page)
        }),
        step(s, Message::ToggleContextPage(page)).0.show_context ==> step(
            s,
            Message::ToggleContextPage(page),
        ).0.context_page == page,
{
}

/// Hovering an entity makes it the hovered one unless something inside it
/// is hovered; leaving it forgets it, whatever was hovered before.
pub proof fn lemma_hover(s: AppState, id: PipewireId)
    ensures
        step(s, Message::PortHover(id)).0.hovered_items.innermost() == Some(id),
        s.hovered_items.hovered_port is None ==> step(s, Message::NodeHover(id)).0.hovered_items.innermost() == Some(id),
        s.hovered_items.hovered_port is None && s.hovered_items.hovered_node is None ==> step(s, Message::ObjectHover(id)).0.hovered_items.innermost() == Some(id),
        step(step(s, Message::PortHover(id)).0, Message::StopPortHover).0 == step(s, Message::StopPortHover).0,
        step(step(s, Message::NodeHover(id)).0, Message::StopNodeHover).0 == step(s, Message::StopNodeHover).0,
        step(step(s, Message::ObjectHover(id)).0, Message::StopObjectHover).0 == step(s, Message::StopObjectHover).0,
{
}

/// Only the configuration, address and quit messages ask anything of the
/// outside; every other message is handled within the state.
pub proof fn lemma_effects(s: AppState, message: Message)
    ensures
        step(s, message).1 != Effect::Nothing <==> (message is UpdateConfig || message is LaunchUrl
            || message is Quit),
        message is UpdateConfig || message is LaunchUrl || message is Quit ==> step(s, message).0 == s,
        message is UpdateConfig ==> step(s, message).1 == Effect::StoreConfig,
        message is Quit ==> step(s, message).1 == Effect::Exit,
        message matches Message::LaunchUrl(url) ==> step(s, message).1 == Effect::OpenUrl(url),
{
}

/// Each visibility message flips the kind of entity it names and nothing
/// else: that flag is negated, the other four flags and the rest of the state
/// stay as they were.
pub proof fn lemma_visibility_messages(s: AppState)
    ensures
        ({
            let t = step(s, Message::ToggleShowVideo).0;
            &&& t.view_settings.show_video == !s.view_settings.show_video
            &&& t.view_settings.show_audio == s.view_settings.show_audio
            &&& t.view_settings.show_midi == s.view_settings.show_midi
            &&& t.view_settings.show_devices == s.view_settings.show_devices
            &&& t.view_settings.show_clients == s.view_settings.show_clients
            &&& t == (AppState { view_settings: t.view_settings, ..s })
        }),
        ({
            let t = step(s, Message::ToggleShowAudio).0;
            &&& t.view_settings.show_video == s.view_settings.show_video
            &&& t.view_settings.show_audio == !s.view_settings.show_audio
            &&& t.view_settings.show_midi == s.view_settings.show_midi
            &&& t.view_settings.show_devices == s.view_settings.show_devices
            &&& t.view_settings.show_clients == s.view_settings.show_clients
            &&& t == (AppState { view_settings: t.view_settings, ..s })
        }),
        ({
            let t = step(s, Message::ToggleShowMidi).0;
            &&& t.view_settings.show_video == s.view_settings.show_video
            &&& t.view_settings.show_audio == s.view_settings.show_audio
            &&& t.view_settings.show_midi == !s.view_settings.show_midi
            &&& t.view_settings.show_devices == s.view_settings.show_devices
            &&& t.view_settings.show_clients == s.view_settings.show_clients
            &&& t == (AppState { view_settings: t.view_settings, ..s })
        }),
        ({
            let t = step(s, Message::ToggleShowDevices).0;
            &&& t.view_settings.show_video == s.view_settings.show_video
            &&& t.view_settings.show_audio == s.view_settings.show_audio
            &&& t.view_settings.show_midi == s.view_settings.show_midi
            &&& t.view_settings.show_devices == !s.view_settings.show_devices
            &&& t.view_settings.show_clients == s.view_settings.show_clients
            &&& t == (AppState { view_settings: t.view_settings, ..s })
        }),
        ({
            let t = step(s, Message::ToggleShowClients).0;
            &&& t.view_settings.show_video == s.view_settings.show_video
            &&& t.view_settings.show_audio == s.view_settings.show_audio
            &&& t.view_settings.show_midi == s.view_settings.show_midi
            &&& t.view_settings.show_devices == s.view_settings.show_devices
            &&& t.view_settings.show_clients == !s.view_settings.show_clients
            &&& t == (AppState { view_settings: t.view_settings, ..s })
        }),
{
}

/// Inspecting sets the inspected entity to the one given, hovering and
/// leaving set and clear only the named level, and selecting an inspector tab
/// makes it the active one; nothing else changes.
pub proof fn lemma_pointer_messages(s: AppState, id: PipewireId, target: Option<PipewireId>, tab: InspectorTab)
    ensures
        step(s, Message::Inspect(target)).0 == (AppState { inspected_object: target, ..s }),
        step(s, Message::ObjectHover(id)).0.hovered_items.hovered_object == Some(id),
        step(s, Message::NodeHover(id)).0.hovered_items.hovered_node == Some(id),
        step(s, Message::PortHover(id)).0.hovered_items.hovered_port == Some(id),
        step(s, Message::StopObjectHover).0.hovered_items.hovered_object is None,
        step(s, Message::StopNodeHover).0.hovered_items.hovered_node is None,
        step(s, Message::StopPortHover).0.hovered_items.hovered_port is None,
        step(s, Message::InspectorTabSelected(tab)).0.inspector.active_tab == tab,
        step(s, Message::InspectorTabSelected(tab)).0 == (AppState {
            inspector: step(s, Message::InspectorTabSelected(tab)).0.inspector,
            ..s
        }),
{
}

} // verus!
