//! The page-based variant of the application: three pages to choose from, a
//! stopwatch that can be started and stopped, and an entity to inspect.
use crate::app::Effect;
use vstd::prelude::*;

verus! {

/// The page to display.
#[derive(Debug, Clone, Copy, PartialEq, Eq, Structural)]
pub enum Page {
    Page1,
    Page2,
    Page3,
}

/// The text that names a page.
pub open spec fn page_label(page: Page) -> Seq<char> {
    match page {
        Page::Page1 => "Device - Software"@,
        Page::Page2 => "Software - Device"@,
        Page::Page3 => "Device - Device"@,
    }
}

impl Default for Page {
    fn default() -> (p: Self)
        ensures
            p == Page::Page3,
    {
        Page::Page3
    }
}

impl Page {
    /// The text that names the page.
    pub fn label(&self) -> (s: String)
        ensures
            s@ == page_label(*self),
    {
        match self {
            Page::Page1 => String::from_str("Device - Software"),
            Page::Page2 => String::from_str("Software - Device"),
            Page::Page3 => String::from_str("Device - Device"),
        }
    }
}

/// An entity to inspect.
#[derive(Debug, Clone, Copy, PartialEq, Eq, Structural)]
pub struct Node {
    pub id: u32,
}

/// The page shown in the context drawer.
#[derive(Copy, Clone, Debug, Eq, PartialEq, Structural)]
pub enum ContextPage {
    Settings,
}

impl Default for ContextPage {
    fn default() -> (p: Self)
        ensures
            p == ContextPage::Settings,
    {
        ContextPage::Settings
    }
}

/// What the application reacts to.
#[derive(Debug, Clone)]
pub enum Message {
    Select(Page),
    Inspect(Option<Node>),
    LaunchUrl(String),
    ToggleContextPage(ContextPage),
    ToggleWatch,
    /// A new configuration arrived; the application keeps it.
    UpdateConfig,
    WatchTick(u32),
}

/// The application state.
#[derive(Debug, Clone, Copy, PartialEq, Eq, Structural)]
pub struct AppModel {
    /// The page of the context drawer.
    pub context_page: ContextPage,
    /// Whether the context drawer is open.
    pub show_context: bool,
    pub page_active: Page,
    pub inspect: Option<Node>,
    /// Seconds on the stopwatch.
    pub time: u32,
    /// Whether the stopwatch runs.
    pub watch_is_active: bool,
}

/// The state after a message, and what the message asks of the outside.
pub open spec fn step(s: AppModel, message: Message) -> (AppModel, Effect) {
    match message {
        Message::Select(page) => (AppModel { page_active: page, ..s }, Effect::Nothing),
        Message::Inspect(node) => (AppModel { inspect: node, ..s }, Effect::Nothing),
        Message::WatchTick(time) => (AppModel { time, ..s }, Effect::Nothing),
        Message::ToggleWatch => (AppModel { watch_is_active: !s.watch_is_active, ..s }, Effect::Nothing),
        Message::ToggleContextPage(page) => (
            if s.context_page == page {
                AppModel { show_context: !s.show_context, ..s }
            } else {
                AppModel { context_page: page, show_context: true, ..s }
            },
            Effect::Nothing,
        ),
        Message::UpdateConfig => (s, Effect::StoreConfig),
        Message::LaunchUrl(url) => (s, Effect::OpenUrl(url)),
    }
}

/// The decimal digit for `d`.
pub open spec fn digit(d: nat) -> char {
    if d == 0 {
        '0'
    } else if d == 1 {
        '1'
    } else if d == 2 {
        '2'
    } else if d == 3 {
        '3'
    } else if d == 4 {
        '4'
    } else if d == 5 {
        '5'
    } else if d == 6 {
        '6'
    } else if d == 7 {
        '7'
    } else if d == 8 {
        '8'
    } else {
        '9'
    }
}

/// `n` written in decimal, without leading zeros.
pub open spec fn decimal(n: nat) -> Seq<char>
    decreases n,
{
    if n < 10 {
        seq![digit(n)]
    } else {
        decimal(n / 10).push(digit(n % 10))
    }
}

/// The one-character text of a decimal digit.
fn digit_str(d: u32) -> (s: &'static str)
    requires
        d < 10,
    ensures
        s@ == seq![digit(d as nat)],
{
    proof {
        reveal_strlit("0");
        reveal_strlit("1");
        reveal_strlit("2");
        reveal_strlit("3");
        reveal_strlit("4");
        reveal_strlit("5");
        reveal_strlit("6");
        reveal_strlit("7");
        reveal_strlit("8");
        reveal_strlit("9");
    }
    if d == 0 {
        "0"
    } else if d == 1 {
        "1"
    } else if d == 2 {
        "2"
    } else if d == 3 {
        "3"
    } else if d == 4 {
        "4"
    } else if d == 5 {
        "5"
    } else if d == 6 {
        "6"
    } else if d == 7 {
        "7"
    } else if d == 8 {
        "8"
    } else {
        "9"
    }
}

/// Appends `n` in decimal to `s`.
fn push_decimal(s: &mut String, n: u32)
    ensures
        final(s)@ == old(s)@ + decimal(n as nat),
    decreases n,
{
    if n >= 10 {
        push_decimal(s, n / 10);
    }
    s.append(digit_str(n % 10));
    proof {
        if n >= 10 {
            assert(decimal(n as nat) == decimal((n / 10) as nat).push(digit((n % 10) as nat)));
        }
    }
}

impl AppModel {
    /// The state at start-up: the drawer closed, the default page, nothing
    /// inspected, the stopwatch stopped at zero.
    pub fn init() -> (m: Self)
        ensures
            m == (AppModel {
                context_page: ContextPage::Settings,
                show_context: false,
                page_active: Page::Page3,
                inspect: None,
                time: 0,
                watch_is_active: false,
            }),
    {
        AppModel {
            context_page: ContextPage::default(),
            show_context: false,
            page_active: Page::default(),
            inspect: None,
            time: 0,
            watch_is_active: false,
        }
    }

    /// The window title: the application's (localized) title, a dash and
    /// the active page.
    pub fn update_title(&self, app_title: &str) -> (title: String)
        ensures
            title@ == app_title@ + " — "@ + page_label(self.page_active),
    {
        let mut title = String::from_str(app_title);
        title.append(" — ");
        let label = self.page_active.label();
        title.append(label.as_str());
        title
    }

    /// The text of the stopwatch button: what pressing it does.
    pub fn watch_button_label(&self) -> (s: String)
        ensures
            s@ == (if self.watch_is_active {
                "Stop"@
            } else {
                "Start"@
            }),
    {
        if self.watch_is_active {
            String::from_str("Stop")
        } else {
            String::from_str("Start")
        }
    }

    /// The stopwatch's label: "Watch: " and the seconds in decimal.
    pub fn counter_label(&self) -> (s: String)
        ensures
            s@ == "Watch: "@ + decimal(self.time as nat),
    {
        let mut s = String::from_str("Watch: ");
        push_decimal(&mut s, self.time);
        s
    }

    /// The page the context drawer shows, if it is open.
    pub fn context_drawer(&self) -> (page: Option<ContextPage>)
        ensures
            page == (if self.show_context {
                Some(self.context_page)
            } else {
                None
            }),
    {
        if !self.show_context {
            return None;
        }
        Some(self.context_page)
    }

    /// What the footer shows: the inspected entity, and nothing while none is
    /// inspected.
    pub fn footer(&self) -> (node: Option<Node>)
        ensures
            node == self.inspect,
            node is None <==> self.inspect is None,
    {
        if self.inspect.is_none() {
            return None;
        }
        self.inspect
    }

    /// Whether the stopwatch's ticks are wanted.
    pub fn subscription(&self) -> (ticking: bool)
        ensures
            ticking == self.watch_is_active,
    {
        self.watch_is_active
    }

    /// Handles a message: changes the state as `step` says and returns what
    /// the message asks of the outside.
    pub fn update(&mut self, message: Message) -> (effect: Effect)
        ensures
            (*final(self), effect) == step(*old(self), message),
    {
        match message {
            Message::Select(page) => {
                self.page_active = page;
            },
            Message::Inspect(node) => {
                self.inspect = node;
            },
            Message::WatchTick(time) => {
                self.time = time;
            },
            Message::ToggleWatch => {
                self.watch_is_active = !self.watch_is_active;
            },
            Message::ToggleContextPage(context_page) => {
                if self.context_page == context_page {
                    self.show_context = !self.show_context;
                } else {
                    self.context_page = context_page;
                    self.show_context = true;
                }
            },
            Message::UpdateConfig => {
                return Effect::StoreConfig;
            },
            Message::LaunchUrl(url) => {
                return Effect::OpenUrl(url);
            },
        }
        Effect::Nothing
    }
}

/// Starting and stopping the stopwatch are undone by doing it again, and the
/// stopwatch shows the time of the last tick.
pub proof fn lemma_watch(s: AppModel, time: u32)
    ensures
        step(step(s, Message::ToggleWatch).0, Message::ToggleWatch).0 == s,
        step(s, Message::WatchTick(time)).0.time == time,
{
}

/// With a single context page, toggling it opens and closes the drawer in turn.
pub proof fn lemma_toggle_drawer(s: AppModel)
    ensures
        step(s, Message::ToggleContextPage(ContextPage::Settings)).0.show_context == !s.show_context,
        step(step(s, Message::ToggleContextPage(ContextPage::Settings)).0, Message::ToggleContextPage(ContextPage::Settings)).0 == s,
{
}

/// Selecting a page makes it the active page, whatever was active before,
/// and changes nothing else.
pub proof fn lemma_select(s: AppModel, page: Page)
    ensures
        step(s, Message::Select(page)).0.page_active == page,
        step(s, Message::Select(page)).0 == (AppModel { page_active: page, ..s }),
        step(step(s, Message::Select(page)).0, Message::Select(page)).0.page_active == page,
        step(s, Message::Select(page)).1 == Effect::Nothing,
{
}

/// Only the configuration and address messages ask anything of the outside,
/// and they change nothing in the state.
pub proof fn lemma_page_effects(s: AppModel, message: Message)
    ensures
        step(s, message).1 != Effect::Nothing <==> (message is UpdateConfig || message is LaunchUrl),
        message is UpdateConfig ==> step(s, message) == (s, Effect::StoreConfig),
        message matches Message::LaunchUrl(url) ==> step(s, message) == (s, Effect::OpenUrl(url)),
{
}

/// Inspecting records the entity given and changes nothing else.
pub proof fn lemma_inspect(s: AppModel, node: Option<Node>)
    ensures
        step(s, Message::Inspect(node)).0 == (AppModel { inspect: node, ..s }),
{
}

/// The value of a numeral written with decimal digits.
pub open spec fn numeral_value(s: Seq<char>) -> int
    decreases s.len(),
{
    if s.len() == 0 {
        0
    } else {
        numeral_value(s.drop_last()) * 10 + (s.last() as int - '0' as int)
    }
}

/// The digits are the standard decimal digits: the digit for `d` is the
/// character `d` places after `'0'`.
pub proof fn lemma_digit(d: nat)
    requires
        d < 10,
    ensures
        digit(d) as int == '0' as int + d,
        '0' <= digit(d) <= '9',
{
}

/// A number written in decimal reads back as that number, uses only the
/// digits '0' to '9', and starts with '0' only when it is zero.
pub proof fn lemma_decimal(n: nat)
    ensures
        numeral_value(decimal(n)) == n,
        decimal(n).len() > 0,
        forall|i: int| 0 <= i < decimal(n).len() ==> '0' <= #[trigger] decimal(n)[i] <= '9',
        n > 0 ==> decimal(n)[0] != '0',
    decreases n,
{
    if n < 10 {
        lemma_digit(n);
        assert(decimal(n).drop_last() =~= Seq::<char>::empty());
        assert(numeral_value(decimal(n)) == numeral_value(Seq::<char>::empty()) * 10 + n);
    } else {
        lemma_decimal(n / 10);
        lemma_digit(n % 10);
        let p = decimal(n / 10);
        let q = p.push(digit(n % 10));
        assert(decimal(n) == q);
        assert(q.drop_last() =~= p);
        assert(numeral_value(q) == numeral_value(p) * 10 + (n % 10));
        assert(forall|i: int| 0 <= i < p.len() ==> q[i] == p[i]);
    }
}

} // verus!
