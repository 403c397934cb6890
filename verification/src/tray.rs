//! The menu of the tray icon: what it says of the mounts and what its items do.
use crate::messages::MountStateUpdateMsg;
use crate::paths::Platform;
use crate::state::MountEvent;
use crate::text::{
    chars_of, decimal, decimal_of, join2, lemma_precedes_asymmetric, lemma_precedes_total,
    lemma_precedes_transitive, list_has, precedes, same, text_less, texts,
};
use vstd::prelude::*;

verus! {

/// First number of the items that restart a mount.
pub const IDM_RESTART_BASE: u32 = 1_000;

/// First number of the items that connect or disconnect a mount.
pub const IDM_TOGGLE_BASE: u32 = 1_100;

/// How many mounts have items that work, where an item is told apart by its number alone.
pub const ITEMS_PER_KIND: u32 = 100;

/// First number of the items of mounts on Linux, where any number of mounts has items.
pub const IDM_LINUX_BASE: u32 = 10_000;

/// How many mounts can be listed.
pub const LISTED_MAX: usize = 2_000_000_000;

pub const IDM_OPEN_UFB: u32 = 2_001;

pub const IDM_OPEN_LOG: u32 = 2_002;

pub const IDM_TOGGLE_AUTOSTART: u32 = 2_003;

pub const IDM_QUIT: u32 = 9_001;

/// What the tray asks the agent to do.
#[derive(Debug, Clone, PartialEq, Eq)]
pub enum TrayCommand {
    MountEvent(String, MountEvent),
    OpenUfb,
    OpenLog,
    Quit,
}

/// What choosing an item leads to.
#[derive(Debug, Clone, PartialEq, Eq)]
pub enum MenuAction {
    Nothing,
    ToggleAutoStart,
    Send(TrayCommand),
}

/// An item of the menu.
#[derive(Debug, Clone, PartialEq, Eq)]
pub enum MenuItem {
    Separator,
    /// A text that cannot be chosen.
    Label(String),
    Action { id: u32, text: String },
}

pub enum ItemView {
    Separator,
    Label(Seq<char>),
    Action { id: u32, text: Seq<char> },
}

impl View for MenuItem {
    type V = ItemView;

    open spec fn view(&self) -> ItemView {
        match self {
            MenuItem::Separator => ItemView::Separator,
            MenuItem::Label(t) => ItemView::Label(t@),
            MenuItem::Action { id, text } => ItemView::Action { id: *id, text: text@ },
        }
    }
}

pub open spec fn menu_items(v: Seq<MenuItem>) -> Seq<ItemView> {
    v.map_values(|i: MenuItem| i@)
}

/// What is shown of a mount.
pub struct Line {
    pub id: Seq<char>,
    pub state: Seq<char>,
    pub detail: Seq<char>,
}

pub open spec fn line_of(m: MountStateUpdateMsg) -> Line {
    Line { id: m.mount_id@, state: m.state@, detail: m.state_detail@ }
}

pub open spec fn lines(v: Seq<MountStateUpdateMsg>) -> Seq<Line> {
    v.map_values(|m: MountStateUpdateMsg| line_of(m))
}

/// The mounts stand in the order of their identifiers, each once.
pub open spec fn in_order(v: Seq<Line>) -> bool {
    forall|i: int, j: int| 0 <= i < j < v.len() ==> precedes((#[trigger] v[i]).id, (#[trigger] v[j]).id)
}

/// Whether a mount is connected or about to be.
pub open spec fn active_state(state: Seq<char>) -> bool {
    state == "mounted"@ || state == "mounting"@ || state == "initializing"@
}

fn is_active(state: &str) -> (r: bool)
    ensures
        r == active_state(state@),
{
    same(state, "mounted") || same(state, "mounting") || same(state, "initializing")
}

/// Number of mounts that are mounted.
pub open spec fn mounted_count(v: Seq<Line>) -> nat
    decreases v.len(),
{
    if v.len() == 0 {
        0
    } else {
        mounted_count(v.drop_last()) + if v.last().state == "mounted"@ {
            1nat
        } else {
            0nat
        }
    }
}

/// The text that is shown beside the icon.
pub open spec fn tooltip_text(v: Seq<Line>) -> Seq<char> {
    let total = decimal(v.len());
    let mounted = decimal(mounted_count(v));
    if v.len() == 0 {
        "MediaMount"@
    } else if mounted_count(v) == v.len() {
        "MediaMount \u{2014} all mounted ("@ + mounted + "/"@ + total + ")"@
    } else {
        "MediaMount \u{2014} "@ + mounted + "/"@ + total + " mounted"@
    }
}

/// What the status item of a mount says.
pub open spec fn status_text(l: Line) -> Seq<char> {
    l.id + " "@ + (if l.state == "mounted"@ {
        "\u{25CF}"@
    } else {
        "\u{2715}"@
    }) + " "@ + l.detail
}

/// What the item that connects or disconnects a mount says.
pub open spec fn toggle_text(l: Line) -> Seq<char> {
    if active_state(l.state) {
        "  Disconnect "@ + l.id
    } else {
        "  Connect "@ + l.id
    }
}

/// The number of the item that connects or disconnects the `i`th mount.
pub open spec fn toggle_number(platform: Platform, i: int) -> int {
    match platform {
        Platform::Linux => IDM_LINUX_BASE + 2 * i,
        _ => IDM_TOGGLE_BASE + i,
    }
}

/// The number of the item that restarts the `i`th mount.
pub open spec fn restart_number(platform: Platform, i: int) -> int {
    match platform {
        Platform::Linux => IDM_LINUX_BASE + 2 * i + 1,
        _ => IDM_RESTART_BASE + i,
    }
}

/// The items of a mount.
pub open spec fn mount_items(platform: Platform, l: Line, i: int) -> Seq<ItemView> {
    seq![
        ItemView::Label(status_text(l)),
        ItemView::Action { id: toggle_number(platform, i) as u32, text: toggle_text(l) },
        ItemView::Action { id: restart_number(platform, i) as u32, text: "  Restart "@ + l.id },
    ]
}

/// The items of all mounts.
pub open spec fn all_mount_items(platform: Platform, v: Seq<Line>) -> Seq<ItemView>
    decreases v.len(),
{
    if v.len() == 0 {
        Seq::empty()
    } else {
        all_mount_items(platform, v.drop_last()) + mount_items(platform, v.last(), v.len() - 1)
    }
}

/// What the item that turns the start at login on or off says.
pub open spec fn autostart_text(enabled: bool) -> Seq<char> {
    if enabled {
        "Disable auto-start"@
    } else {
        "Start at login"@
    }
}

/// The items below the mounts.
pub open spec fn bottom_items(autostart: bool) -> Seq<ItemView> {
    seq![
        ItemView::Separator,
        ItemView::Action { id: IDM_OPEN_UFB, text: "Open UFB"@ },
        ItemView::Action { id: IDM_OPEN_LOG, text: "Open log"@ },
        ItemView::Action { id: IDM_TOGGLE_AUTOSTART, text: autostart_text(autostart) },
        ItemView::Separator,
        ItemView::Action { id: IDM_QUIT, text: "Quit"@ },
    ]
}

/// What stands in place of mounts where there are none: nothing on Linux.
pub open spec fn empty_items(platform: Platform, v: Seq<Line>) -> Seq<ItemView> {
    if v.len() == 0 && !(platform is Linux) {
        seq![ItemView::Label("No mounts configured"@)]
    } else {
        Seq::empty()
    }
}

/// The whole menu of the mounts that are listed.
pub open spec fn whole_menu(platform: Platform, v: Seq<Line>, autostart: bool) -> Seq<ItemView> {
    seq![ItemView::Label("MediaMount"@), ItemView::Separator] + empty_items(platform, v)
        + all_mount_items(platform, v) + bottom_items(autostart)
}

/// What choosing the item with this number leads to.
pub enum Choice {
    Nothing,
    ToggleAutoStart,
    OpenUfb,
    OpenLog,
    Quit,
    Start(Seq<char>),
    Stop(Seq<char>),
    Restart(Seq<char>),
    /// Any other event of a mount; no item leads to one.
    Other(Seq<char>, MountEvent),
}

/// What choosing the item that connects or disconnects a mount leads to.
pub open spec fn toggled(l: Line) -> Choice {
    if active_state(l.state) {
        Choice::Stop(l.id)
    } else {
        Choice::Start(l.id)
    }
}

/// What choosing an item of a mount leads to.
pub open spec fn chosen_of_mount(platform: Platform, v: Seq<Line>, id: int) -> Choice {
    match platform {
        Platform::Linux => {
            let i = (id - IDM_LINUX_BASE) / 2;
            if id < IDM_LINUX_BASE || i >= v.len() {
                Choice::Nothing
            } else if (id - IDM_LINUX_BASE) % 2 == 0 {
                toggled(v[i])
            } else {
                Choice::Restart(v[i].id)
            }
        },
        _ => {
            let t = id - IDM_TOGGLE_BASE;
            let r = id - IDM_RESTART_BASE;
            if 0 <= t < ITEMS_PER_KIND && t < v.len() {
                toggled(v[t])
            } else if 0 <= r < ITEMS_PER_KIND && r < v.len() {
                Choice::Restart(v[r].id)
            } else {
                Choice::Nothing
            }
        },
    }
}

/// What choosing the item with this number leads to.
pub open spec fn chosen(platform: Platform, v: Seq<Line>, id: u32) -> Choice {
    if id == IDM_OPEN_UFB {
        Choice::OpenUfb
    } else if id == IDM_OPEN_LOG {
        Choice::OpenLog
    } else if id == IDM_TOGGLE_AUTOSTART {
        Choice::ToggleAutoStart
    } else if id == IDM_QUIT {
        Choice::Quit
    } else {
        chosen_of_mount(platform, v, id as int)
    }
}

impl View for MenuAction {
    type V = Choice;

    open spec fn view(&self) -> Choice {
        match self {
            MenuAction::Nothing => Choice::Nothing,
            MenuAction::ToggleAutoStart => Choice::ToggleAutoStart,
            MenuAction::Send(c) => match c {
                TrayCommand::OpenUfb => Choice::OpenUfb,
                TrayCommand::OpenLog => Choice::OpenLog,
                TrayCommand::Quit => Choice::Quit,
                TrayCommand::MountEvent(id, e) => match e {
                    MountEvent::Start => Choice::Start(id@),
                    MountEvent::Stop => Choice::Stop(id@),
                    MountEvent::Restart => Choice::Restart(id@),
                    _ => Choice::Other(id@, *e),
                },
            },
        }
    }
}

/// Where a mount stands among the lines.
pub open spec fn line_pos(v: Seq<Line>, id: Seq<char>) -> int
    decreases v.len(),
{
    if v.len() == 0 || v.last().id == id {
        v.len() - 1
    } else {
        line_pos(v.drop_last(), id)
    }
}

/// The identifiers in the order in which they came to be listed: new ones stand behind the others.
pub open spec fn with_new(shown: Seq<Seq<char>>, v: Seq<Line>) -> Seq<Seq<char>>
    decreases v.len(),
{
    if v.len() == 0 {
        shown
    } else {
        let before = with_new(shown, v.drop_last());
        if before.contains(v.last().id) {
            before
        } else {
            before.push(v.last().id)
        }
    }
}

/// The lines of mounts that are listed.
pub open spec fn lines_of(v: Seq<Line>, shown: Seq<Seq<char>>) -> Seq<Line> {
    shown.map_values(|id: Seq<char>| v[line_pos(v, id)])
}

/// What the tray knows of the mounts.
pub struct TrayState {
    mounts: Vec<MountStateUpdateMsg>,
    shown: Vec<String>,
}

impl View for TrayState {
    type V = Seq<Line>;

    closed spec fn view(&self) -> Seq<Line> {
        lines(self.mounts@)
    }
}

impl TrayState {
    /// The identifiers of the mounts that are listed on Linux, in the order in which they came to
    /// be.
    pub closed spec fn shown(&self) -> Seq<Seq<char>> {
        texts(self.shown@)
    }

    /// The mounts stand in order, and each one that is listed is known.
    pub open spec fn wf(&self) -> bool {
        &&& in_order(self@)
        &&& self.shown().no_duplicates()
        &&& forall|i: int|
            0 <= i < self.shown().len() ==> line_pos(self@, #[trigger] self.shown()[i]) >= 0
    }

    /// The mounts that the menu lists: on Linux in the order in which they came to be listed.
    pub open spec fn listed(&self, platform: Platform) -> Seq<Line> {
        match platform {
            Platform::Linux => lines_of(self@, self.shown()),
            _ => self@,
        }
    }

    /// No mount is known.
    pub fn new() -> (t: TrayState)
        ensures
            t.wf(),
            t@ == Seq::<Line>::empty(),
            t.shown() == Seq::<Seq<char>>::empty(),
    {
        let t = TrayState { mounts: Vec::new(), shown: Vec::new() };
        assert(t@ =~= Seq::<Line>::empty());
        assert(t.shown() =~= Seq::<Seq<char>>::empty());
        t
    }

    /// Lists the mounts that are not listed yet, behind the others.
    pub fn refresh(&mut self)
        requires
            old(self).wf(),
        ensures
            final(self).wf(),
            final(self)@ == old(self)@,
            final(self).shown() == with_new(old(self).shown(), old(self)@),
            old(self).shown().is_prefix_of(final(self).shown()),
    {
        let ghost v = self@;
        let ghost first = self.shown();
        let mut i: usize = 0;
        assert(v.take(0) =~= Seq::empty());
        while i < self.mounts.len()
            invariant
                i <= self.mounts@.len(),
                v == lines(self.mounts@),
                first.is_prefix_of(self.shown()),
                self.shown() == with_new(first, v.take(i as int)),
                self.shown().no_duplicates(),
                forall|k: int|
                    0 <= k < self.shown().len() ==> line_pos(v, #[trigger] self.shown()[k]) >= 0,
            decreases self.mounts@.len() - i,
        {
            let ghost before = self.shown();
            let ghost id = self.mounts@[i as int].mount_id@;
            assert(v.take(i + 1).drop_last() =~= v.take(i as int));
            assert(v.take(i + 1).last() == v[i as int]);
            assert(v[i as int].id == id);
            if !list_has(&self.shown, self.mounts[i].mount_id.as_str()) {
                self.shown.push(self.mounts[i].mount_id.clone());
                assert(self.shown() =~= before.push(id));
                proof {
                    lemma_line_pos(v, id, i as int);
                }
            }
            i += 1;
        }
        assert(v.take(v.len() as int) =~= v);
    }

    fn line_index(&self, id: &str) -> (k: usize)
        requires
            line_pos(self@, id@) >= 0,
        ensures
            k == line_pos(self@, id@),
            k < self.mounts@.len(),
    {
        let mut n: usize = self.mounts.len();
        let ghost v = self@;
        assert(v.take(n as int) =~= v);
        loop
            invariant
                n <= self.mounts@.len(),
                v == lines(self.mounts@),
                line_pos(v.take(n as int), id@) == line_pos(v, id@),
                line_pos(v, id@) >= 0,
            decreases n,
        {
            assert(n > 0);
            assert(v.take(n as int).last() == line_of(self.mounts@[n - 1]));
            assert(v.take(n as int).drop_last() =~= v.take(n - 1));
            n -= 1;
            if same(self.mounts[n].mount_id.as_str(), id) {
                return n;
            }
        }
    }

    /// Whether the numbers suffice for the items of all mounts.
    pub fn fits(&self) -> (r: bool)
        ensures
            r == (self@.len() <= LISTED_MAX && self.shown().len() <= LISTED_MAX),
    {
        self.mounts.len() <= LISTED_MAX && self.shown.len() <= LISTED_MAX
    }

    fn listed_len(&self, platform: Platform) -> (n: usize)
        ensures
            n == self.listed(platform).len(),
    {
        match platform {
            Platform::Linux => self.shown.len(),
            _ => self.mounts.len(),
        }
    }

    fn listed_at(&self, platform: Platform, i: usize) -> (m: &MountStateUpdateMsg)
        requires
            self.wf(),
            i < self.listed(platform).len(),
        ensures
            line_of(*m) == self.listed(platform)[i as int],
    {
        match platform {
            Platform::Linux => {
                assert(self.shown()[i as int] == self.shown@[i as int]@);
                let k: usize = self.line_index(self.shown[i].as_str());
                &self.mounts[k]
            },
            _ => &self.mounts[i],
        }
    }

    /// Takes note of the state of a mount.
    pub fn update(&mut self, msg: MountStateUpdateMsg)
        requires
            old(self).wf(),
        ensures
            final(self).wf(),
            final(self).shown() == old(self).shown(),
            forall|l: Line| #[trigger]
                final(self)@.contains(l) <==> l == line_of(msg) || (l.id != msg.mount_id@ && old(
                    self,
                )@.contains(l)),
    {
        let mut k: usize = 0;
        let ghost v0 = self@;
        let ghost new = line_of(msg);
        while k < self.mounts.len() && text_less(
            self.mounts[k].mount_id.as_str(),
            msg.mount_id.as_str(),
        )
            invariant
                k <= self.mounts@.len(),
                v0 == lines(self.mounts@),
                in_order(v0),
                forall|i: int| 0 <= i < k ==> precedes((#[trigger] v0[i]).id, msg.mount_id@),
            decreases self.mounts@.len() - k,
        {
            assert(v0[k as int].id == self.mounts@[k as int].mount_id@);
            k += 1;
        }
        let replace = k < self.mounts.len() && same(
            self.mounts[k].mount_id.as_str(),
            msg.mount_id.as_str(),
        );
        if replace {
            assert(v0[k as int].id == msg.mount_id@);
            self.mounts.set(k, msg);
            assert(self@ =~= v0.update(k as int, new));
            proof {
                lemma_replaced(v0, k as int, new);
            }
        } else {
            proof {
                if k < v0.len() {
                    assert(v0[k as int].id == self.mounts@[k as int].mount_id@);
                    lemma_precedes_total(v0[k as int].id, msg.mount_id@);
                }
            }
            self.mounts.insert(k, msg);
            assert(self@ =~= v0.insert(k as int, new));
            proof {
                lemma_inserted(v0, k as int, new);
            }
        }
        assert forall|i: int| 0 <= i < self.shown().len() implies line_pos(
            self@,
            #[trigger] self.shown()[i],
        ) >= 0 by {
            let id = self.shown()[i];
            lemma_line_found(v0, id);
            let l = if id == new.id {
                new
            } else {
                v0[line_pos(v0, id)]
            };
            assert(self@.contains(l));
            lemma_line_pos(self@, id, self@.index_of(l));
        }
    }

    fn count_mounted(&self) -> (n: usize)
        ensures
            n == mounted_count(self@),
            n <= self@.len(),
    {
        let mut n: usize = 0;
        let mut i: usize = 0;
        let ghost v = self@;
        assert(v.take(0) =~= Seq::empty());
        while i < self.mounts.len()
            invariant
                i <= self.mounts@.len(),
                v == lines(self.mounts@),
                n == mounted_count(v.take(i as int)),
                n <= i,
            decreases self.mounts@.len() - i,
        {
            assert(v.take(i + 1).drop_last() =~= v.take(i as int));
            assert(v.take(i + 1).last() == line_of(self.mounts@[i as int]));
            if same(self.mounts[i].state.as_str(), "mounted") {
                n += 1;
            }
            i += 1;
        }
        assert(v.take(v.len() as int) =~= v);
        n
    }

    /// The text that is shown beside the icon.
    pub fn tooltip(&self) -> (out: String)
        ensures
            out@ == tooltip_text(self@),
    {
        let total: usize = self.mounts.len();
        let mounted: usize = self.count_mounted();
        if total == 0 {
            return "MediaMount".to_owned();
        }
        let m = decimal_of(mounted as u64);
        let t = decimal_of(total as u64);
        if mounted == total {
            let mut out = "MediaMount \u{2014} all mounted (".to_owned();
            out.append(m.as_str());
            out.append("/");
            out.append(t.as_str());
            out.append(")");
            out
        } else {
            let mut out = "MediaMount \u{2014} ".to_owned();
            out.append(m.as_str());
            out.append("/");
            out.append(t.as_str());
            out.append(" mounted");
            out
        }
    }

    /// The menu; `autostart` is whether the agent starts at login.
    pub fn menu(&self, platform: Platform, autostart: bool) -> (out: Vec<MenuItem>)
        requires
            self.wf(),
            self@.len() <= LISTED_MAX,
            self.shown().len() <= LISTED_MAX,
        ensures
            menu_items(out@) == whole_menu(platform, self.listed(platform), autostart),
    {
        let ghost v = self.listed(platform);
        let mut out: Vec<MenuItem> = Vec::new();
        out.push(MenuItem::Label("MediaMount".to_owned()));
        out.push(MenuItem::Separator);
        let ghost top = seq![ItemView::Label("MediaMount"@), ItemView::Separator];
        assert(menu_items(out@) =~= top);
        let n: usize = self.listed_len(platform);
        let linux = match platform {
            Platform::Linux => true,
            _ => false,
        };
        if n == 0 && !linux {
            out.push(MenuItem::Label("No mounts configured".to_owned()));
        }
        let ghost middle = empty_items(platform, v);
        assert(menu_items(out@) =~= top + middle);
        let mut i: usize = 0;
        assert(v.take(0) =~= Seq::empty());
        assert(menu_items(out@) =~= top + middle + all_mount_items(platform, v.take(0)));
        while i < n
            invariant
                i <= n,
                n == v.len(),
                n <= LISTED_MAX,
                linux == (platform is Linux),
                self.wf(),
                v == self.listed(platform),
                menu_items(out@) == top + middle + all_mount_items(platform, v.take(i as int)),
            decreases n - i,
        {
            let m = self.listed_at(platform, i);
            let ghost before = menu_items(out@);
            let ghost l = line_of(*m);
            assert(v.take(i + 1).drop_last() =~= v.take(i as int));
            assert(v.take(i + 1).last() == l);
            let icon = if same(m.state.as_str(), "mounted") {
                "\u{25CF}"
            } else {
                "\u{2715}"
            };
            let mut status = m.mount_id.clone();
            status.append(" ");
            status.append(icon);
            status.append(" ");
            status.append(m.state_detail.as_str());
            let toggle = if is_active(m.state.as_str()) {
                join2("  Disconnect ", m.mount_id.as_str())
            } else {
                join2("  Connect ", m.mount_id.as_str())
            };
            let restart = join2("  Restart ", m.mount_id.as_str());
            let (first, second): (u32, u32) = if linux {
                (IDM_LINUX_BASE + 2 * i as u32, IDM_LINUX_BASE + 2 * i as u32 + 1)
            } else {
                (IDM_TOGGLE_BASE + i as u32, IDM_RESTART_BASE + i as u32)
            };
            out.push(MenuItem::Label(status));
            out.push(MenuItem::Action { id: first, text: toggle });
            out.push(MenuItem::Action { id: second, text: restart });
            assert(menu_items(out@) =~= before + mount_items(platform, l, i as int));
            assert(menu_items(out@) =~= top + middle + all_mount_items(platform, v.take(i + 1)));
            i += 1;
        }
        assert(v.take(v.len() as int) =~= v);
        let ghost before = menu_items(out@);
        let auto = if autostart {
            "Disable auto-start"
        } else {
            "Start at login"
        };
        out.push(MenuItem::Separator);
        out.push(MenuItem::Action { id: IDM_OPEN_UFB, text: "Open UFB".to_owned() });
        out.push(MenuItem::Action { id: IDM_OPEN_LOG, text: "Open log".to_owned() });
        out.push(MenuItem::Action { id: IDM_TOGGLE_AUTOSTART, text: auto.to_owned() });
        out.push(MenuItem::Separator);
        out.push(MenuItem::Action { id: IDM_QUIT, text: "Quit".to_owned() });
        assert(menu_items(out@) =~= before + bottom_items(autostart));
        out
    }

    fn toggle_at(&self, platform: Platform, i: usize) -> (a: MenuAction)
        requires
            self.wf(),
            i < self.listed(platform).len(),
        ensures
            a@ == toggled(self.listed(platform)[i as int]),
    {
        let m = self.listed_at(platform, i);
        let event = if is_active(m.state.as_str()) {
            MountEvent::Stop
        } else {
            MountEvent::Start
        };
        MenuAction::Send(TrayCommand::MountEvent(m.mount_id.clone(), event))
    }

    fn restart_at(&self, platform: Platform, i: usize) -> (a: MenuAction)
        requires
            self.wf(),
            i < self.listed(platform).len(),
        ensures
            a@ == Choice::Restart(self.listed(platform)[i as int].id),
    {
        let m = self.listed_at(platform, i);
        MenuAction::Send(TrayCommand::MountEvent(m.mount_id.clone(), MountEvent::Restart))
    }

    /// What choosing the item with this number leads to.
    pub fn handle_menu_command(&self, platform: Platform, id: u32) -> (a: MenuAction)
        requires
            self.wf(),
        ensures
            a@ == chosen(platform, self.listed(platform), id),
    {
        if id == IDM_OPEN_UFB {
            return MenuAction::Send(TrayCommand::OpenUfb);
        }
        if id == IDM_OPEN_LOG {
            return MenuAction::Send(TrayCommand::OpenLog);
        }
        if id == IDM_TOGGLE_AUTOSTART {
            return MenuAction::ToggleAutoStart;
        }
        if id == IDM_QUIT {
            return MenuAction::Send(TrayCommand::Quit);
        }
        let n: usize = self.listed_len(platform);
        let linux = match platform {
            Platform::Linux => true,
            _ => false,
        };
        if linux {
            if id >= IDM_LINUX_BASE {
                let k: u32 = id - IDM_LINUX_BASE;
                let index: usize = (k / 2) as usize;
                if index < n {
                    if k % 2 == 0 {
                        return self.toggle_at(platform, index);
                    }
                    return self.restart_at(platform, index);
                }
            }
            return MenuAction::Nothing;
        }
        if id >= IDM_TOGGLE_BASE && id < IDM_TOGGLE_BASE + ITEMS_PER_KIND {
            let index: usize = (id - IDM_TOGGLE_BASE) as usize;
            if index < n {
                return self.toggle_at(platform, index);
            }
            return MenuAction::Nothing;
        }
        if id >= IDM_RESTART_BASE && id < IDM_RESTART_BASE + ITEMS_PER_KIND {
            let index: usize = (id - IDM_RESTART_BASE) as usize;
            if index < n {
                return self.restart_at(platform, index);
            }
        }
        MenuAction::Nothing
    }
}

proof fn lemma_line_pos(v: Seq<Line>, id: Seq<char>, i: int)
    requires
        0 <= i < v.len(),
        v[i].id == id,
    ensures
        line_pos(v, id) >= 0,
    decreases v.len(),
{
    if v.last().id != id {
        assert(v.drop_last()[i].id == id);
        lemma_line_pos(v.drop_last(), id, i);
    }
}

proof fn lemma_line_found(v: Seq<Line>, id: Seq<char>)
    requires
        line_pos(v, id) >= 0,
    ensures
        line_pos(v, id) < v.len(),
        v[line_pos(v, id)].id == id,
    decreases v.len(),
{
    if v.last().id != id {
        lemma_line_found(v.drop_last(), id);
    }
}

proof fn lemma_replaced(v: Seq<Line>, k: int, new: Line)
    requires
        in_order(v),
        0 <= k < v.len(),
        v[k].id == new.id,
    ensures
        in_order(v.update(k, new)),
        forall|l: Line| #[trigger]
            v.update(k, new).contains(l) <==> l == new || (l.id != new.id && v.contains(l)),
{
    let w = v.update(k, new);
    assert forall|l: Line| #[trigger] w.contains(l) <==> l == new || (l.id != new.id && v.contains(
        l,
    )) by {
        assert(w[k] == new);
        if w.contains(l) && l != new {
            let i = w.index_of(l);
            assert(v[i] == l);
            if i < k {
                assert(precedes(v[i].id, v[k].id));
                lemma_precedes_asymmetric(v[i].id, v[k].id);
            } else {
                assert(precedes(v[k].id, v[i].id));
                lemma_precedes_asymmetric(v[k].id, v[i].id);
            }
        }
        if v.contains(l) && l.id != new.id {
            let i = v.index_of(l);
            assert(w[i] == l);
        }
    }
}

proof fn lemma_inserted(v: Seq<Line>, k: int, new: Line)
    requires
        in_order(v),
        0 <= k <= v.len(),
        forall|i: int| 0 <= i < k ==> precedes((#[trigger] v[i]).id, new.id),
        k < v.len() ==> precedes(new.id, v[k].id),
    ensures
        in_order(v.insert(k, new)),
        forall|l: Line| #[trigger]
            v.insert(k, new).contains(l) <==> l == new || (l.id != new.id && v.contains(l)),
{
    let w = v.insert(k, new);
    assert forall|i: int| k <= i < v.len() implies precedes(new.id, (#[trigger] v[i]).id) by {
        if i > k {
            assert(precedes(v[k].id, v[i].id));
            lemma_precedes_transitive(new.id, v[k].id, v[i].id);
        }
    }
    assert forall|i: int, j: int| 0 <= i < j < w.len() implies precedes(
        (#[trigger] w[i]).id,
        (#[trigger] w[j]).id,
    ) by {
        if i == k {
            assert(w[j] == v[j - 1]);
        } else if j == k {
            assert(w[i] == v[i]);
        } else {
            let a = if i < k { i } else { i - 1 };
            let b = if j < k { j } else { j - 1 };
            assert(w[i] == v[a] && w[j] == v[b]);
        }
    }
    assert forall|l: Line| #[trigger] w.contains(l) <==> l == new || (l.id != new.id && v.contains(
        l,
    )) by {
        assert(w[k] == new);
        if w.contains(l) && l != new {
            let i = w.index_of(l);
            let a = if i < k { i } else { i - 1 };
            assert(v[a] == l);
            if a < k {
                lemma_precedes_asymmetric(v[a].id, new.id);
            } else {
                lemma_precedes_asymmetric(new.id, v[a].id);
            }
        }
        if v.contains(l) && l.id != new.id {
            let a = v.index_of(l);
            let i = if a < k { a } else { a + 1 };
            assert(w[i] == l);
        }
    }
}

/// The items of a mount act on that mount: the first on its connection, the second restarts it. On
/// Linux that holds for any number of mounts.
pub proof fn law_items_act_on_their_mount(platform: Platform, v: Seq<Line>, i: int)
    requires
        0 <= i < v.len(),
        i < (if platform is Linux {
            LISTED_MAX as int
        } else {
            ITEMS_PER_KIND as int
        }),
    ensures
        mount_items(platform, v[i], i)[1] matches ItemView::Action { id, text } && chosen(
            platform,
            v,
            id,
        ) == toggled(v[i]),
        mount_items(platform, v[i], i)[2] matches ItemView::Action { id, text } && chosen(
            platform,
            v,
            id,
        ) == Choice::Restart(v[i].id),
{
}

/// Each line that the menu lists is the one of its mount.
pub proof fn law_listed_mounts_are_known(t: TrayState, i: int)
    requires
        t.wf(),
        0 <= i < t.shown().len(),
    ensures
        t.listed(Platform::Linux)[i].id == t.shown()[i],
        t@.contains(t.listed(Platform::Linux)[i]),
{
    lemma_line_found(t@, t.shown()[i]);
}

/// The UTF-16 units of a character: one below 0x10000, else a pair of surrogates.
pub open spec fn char_units(c: char) -> Seq<u16> {
    let n = c as u32;
    if n < 0x10000 {
        seq![n as u16]
    } else {
        seq![
            (0xD800 + (n - 0x10000) / 0x400) as u16,
            (0xDC00 + (n - 0x10000) % 0x400) as u16,
        ]
    }
}

/// The UTF-16 units of a text.
pub open spec fn utf16_units(s: Seq<char>) -> Seq<u16>
    decreases s.len(),
{
    if s.len() == 0 {
        Seq::empty()
    } else {
        utf16_units(s.drop_last()) + char_units(s.last())
    }
}

fn encode_utf16(s: &str) -> (v: Vec<u16>)
    ensures
        v@ == utf16_units(s@),
{
    let chars = chars_of(s);
    let mut v: Vec<u16> = Vec::new();
    let mut i: usize = 0;
    assert(chars@.take(0) =~= Seq::empty());
    while i < chars.len()
        invariant
            i <= chars@.len(),
            v@ == utf16_units(chars@.take(i as int)),
        decreases chars@.len() - i,
    {
        let c = chars[i];
        let n: u32 = c as u32;
        let ghost before = v@;
        assert(chars@.take(i + 1).drop_last() =~= chars@.take(i as int));
        assert(chars@.take(i + 1).last() == chars@[i as int]);
        proof {
            vstd::utf8::char_is_scalar(c);
        }
        if n < 0x10000 {
            v.push(n as u16);
            assert(v@ =~= before + char_units(chars@[i as int]));
        } else {
            let r: u32 = n - 0x10000;
            let high: u32 = 0xD800 + r / 0x400;
            let low: u32 = 0xDC00 + r % 0x400;
            assert(high < 0x10000 && low < 0x10000);
            v.push(high as u16);
            v.push(low as u16);
            assert(char_units(chars@[i as int]) =~= seq![high as u16, low as u16]);
            assert(v@ =~= before + char_units(chars@[i as int]));
        }
        i += 1;
    }
    assert(chars@.take(chars@.len() as int) =~= chars@);
    v
}

/// A text as Windows takes it: UTF-16 units with a zero at the end.
pub fn wide_string(s: &str) -> (v: Vec<u16>)
    ensures
        v@ == utf16_units(s@).push(0),
{
    let mut v = encode_utf16(s);
    v.push(0);
    v
}

/// The units that fit before the zero at the end of a field.
pub open spec fn fitting(units: Seq<u16>, room: int) -> int {
    if units.len() < room - 1 {
        units.len() as int
    } else {
        room - 1
    }
}

/// Writes units into a field of fixed size, as many as fit, and a zero behind them.
pub fn fill_field(field: &mut Vec<u16>, units: &Vec<u16>)
    requires
        old(field)@.len() > 0,
    ensures
        final(field)@.len() == old(field)@.len(),
        ({
            let n = fitting(units@, old(field)@.len() as int);
            &&& final(field)@.take(n) == units@.take(n)
            &&& final(field)@[n] == 0
            &&& final(field)@.skip(n + 1) == old(field)@.skip(n + 1)
        }),
{
    let room: usize = field.len();
    let n: usize = if units.len() < room - 1 {
        units.len()
    } else {
        room - 1
    };
    let ghost f0 = field@;
    let mut i: usize = 0;
    while i < n
        invariant
            i <= n,
            n < room,
            n <= units@.len(),
            room == f0.len(),
            field@.len() == f0.len(),
            forall|k: int| 0 <= k < i ==> field@[k] == units@[k],
            forall|k: int| i <= k < f0.len() ==> field@[k] == f0[k],
        decreases n - i,
    {
        field.set(i, units[i]);
        i += 1;
    }
    field.set(n, 0);
    assert(field@.take(n as int) =~= units@.take(n as int));
    assert(field@.skip(n + 1) =~= f0.skip(n + 1));
}

/// Writes a text into the field that Windows shows beside the icon.
pub fn set_tooltip(field: &mut Vec<u16>, text: &str)
    requires
        old(field)@.len() > 0,
    ensures
        final(field)@.len() == old(field)@.len(),
        ({
            let units = utf16_units(text@);
            let n = fitting(units, old(field)@.len() as int);
            &&& final(field)@.take(n) == units.take(n)
            &&& final(field)@[n] == 0
            &&& final(field)@.skip(n + 1) == old(field)@.skip(n + 1)
        }),
{
    let wide = encode_utf16(text);
    fill_field(field, &wide);
}

/// Mounts are counted as mounted by their state, and by no other.
pub proof fn law_mounted_mounts_are_counted(v: Seq<Line>, l: Line)
    ensures
        l.state == "mounted"@ ==> mounted_count(v.push(l)) == mounted_count(v) + 1,
        l.state != "mounted"@ ==> mounted_count(v.push(l)) == mounted_count(v),
        mounted_count(Seq::empty()) == 0,
        mounted_count(v) <= v.len(),
    decreases v.len(),
{
    assert(v.push(l).drop_last() =~= v);
    if v.len() > 0 {
        law_mounted_mounts_are_counted(v.drop_last(), l);
    }
}

/// The text beside the icon says how many of the mounts are mounted.
pub proof fn law_tooltip_tells_the_counts(v: Seq<Line>)
    requires
        v.len() > 0,
    ensures
        crate::text::occurs(tooltip_text(v), decimal(mounted_count(v)) + "/"@ + decimal(v.len())),
{
    let t = tooltip_text(v);
    let c = decimal(mounted_count(v)) + "/"@ + decimal(v.len());
    let lead = if mounted_count(v) == v.len() {
        "MediaMount \u{2014} all mounted ("@
    } else {
        "MediaMount \u{2014} "@
    };
    let n = lead.len() as int;
    assert(t.subrange(n, n + c.len()) =~= c);
    assert(crate::text::occurs_at(t, c, n));
}

/// The status of a mount begins with its name and ends with the detail of its state, and shows
/// whether it is mounted.
pub proof fn law_status_shows_the_mount(a: Line, b: Line)
    requires
        a.id == b.id,
        a.detail == b.detail,
        a.state == "mounted"@,
        b.state != "mounted"@,
    ensures
        a.id.is_prefix_of(status_text(a)),
        b.id.is_prefix_of(status_text(b)),
        a.detail.is_suffix_of(status_text(a)),
        b.detail.is_suffix_of(status_text(b)),
        status_text(a) != status_text(b),
{
    reveal_strlit("\u{25CF}");
    reveal_strlit("\u{2715}");
    reveal_strlit(" ");
    let s = status_text(a);
    let t = status_text(b);
    assert(s.subrange(0, a.id.len() as int) =~= a.id);
    assert(t.subrange(0, b.id.len() as int) =~= b.id);
    assert(s.subrange(s.len() - a.detail.len(), s.len() as int) =~= a.detail);
    assert(t.subrange(t.len() - b.detail.len(), t.len() as int) =~= b.detail);
    assert(s[a.id.len() as int + 1] == '\u{25CF}');
    assert(t[a.id.len() as int + 1] == '\u{2715}');
}

/// A mount that is mounted or about to be is offered to be disconnected, and choosing that stops
/// it; any other is offered to be connected, and choosing that starts it.
pub proof fn law_toggles_do_what_they_say(l: Line)
    ensures
        l.state == "mounted"@ || l.state == "mounting"@ || l.state == "initializing"@ ==> toggled(l)
            == Choice::Stop(l.id) && toggle_text(l) == "  Disconnect "@ + l.id,
        l.state != "mounted"@ && l.state != "mounting"@ && l.state != "initializing"@ ==> toggled(l)
            == Choice::Start(l.id) && toggle_text(l) == "  Connect "@ + l.id,
{
}

/// The items below the mounts do what they say, however many mounts there are.
pub proof fn law_bottom_items_do_what_they_say(platform: Platform, v: Seq<Line>, autostart: bool)
    ensures
        bottom_items(autostart)[1] matches ItemView::Action { id, text } && text == "Open UFB"@
            && chosen(platform, v, id) is OpenUfb,
        bottom_items(autostart)[2] matches ItemView::Action { id, text } && text == "Open log"@
            && chosen(platform, v, id) is OpenLog,
        bottom_items(autostart)[3] matches ItemView::Action { id, text } && chosen(platform, v, id)
            is ToggleAutoStart && text == (if autostart {
            "Disable auto-start"@
        } else {
            "Start at login"@
        }),
        bottom_items(autostart)[5] matches ItemView::Action { id, text } && text == "Quit"@
            && chosen(platform, v, id) is Quit,
{
}

/// An item that acts on a mount acts on one that is listed.
pub proof fn law_choices_are_about_listed_mounts(platform: Platform, v: Seq<Line>, id: u32)
    ensures
        match chosen(platform, v, id) {
            Choice::Start(m) | Choice::Stop(m) | Choice::Restart(m) => exists|i: int|
                0 <= i < v.len() && (#[trigger] v[i]).id == m,
            Choice::Other(_, _) => false,
            _ => true,
        },
{
    let c = chosen(platform, v, id);
    let i = if platform is Linux {
        (id - IDM_LINUX_BASE) / 2
    } else if 0 <= id - IDM_TOGGLE_BASE < ITEMS_PER_KIND && id - IDM_TOGGLE_BASE < v.len() {
        id - IDM_TOGGLE_BASE
    } else {
        id - IDM_RESTART_BASE
    };
    if c is Start || c is Stop || c is Restart {
        assert(0 <= i < v.len());
        assert(v[i].id == v[i].id);
    }
}

proof fn lemma_items_of(platform: Platform, v: Seq<Line>, i: int)
    requires
        0 <= i < v.len(),
    ensures
        all_mount_items(platform, v).len() == 3 * v.len(),
        all_mount_items(platform, v)[3 * i] == ItemView::Label(status_text(v[i])),
        all_mount_items(platform, v)[3 * i + 1] == (ItemView::Action {
            id: toggle_number(platform, i) as u32,
            text: toggle_text(v[i]),
        }),
        all_mount_items(platform, v)[3 * i + 2] == (ItemView::Action {
            id: restart_number(platform, i) as u32,
            text: "  Restart "@ + v[i].id,
        }),
    decreases v.len(),
{
    let d = v.drop_last();
    let front = all_mount_items(platform, d);
    let all = all_mount_items(platform, v);
    if i < d.len() {
        lemma_items_of(platform, d, i);
        assert(d[i] == v[i]);
        assert(all[3 * i] == front[3 * i]);
        assert(all[3 * i + 1] == front[3 * i + 1]);
        assert(all[3 * i + 2] == front[3 * i + 2]);
    } else if d.len() > 0 {
        lemma_items_of(platform, d, 0);
        assert(all[3 * i] == mount_items(platform, v.last(), i)[0]);
    } else {
        assert(front.len() == 0);
        assert(all =~= mount_items(platform, v.last(), i));
    }
}

/// The menu shows every mount that is listed: its status, the item that connects or disconnects
/// it and the one that restarts it, in this order.
pub proof fn law_menu_shows_every_mount(
    platform: Platform,
    v: Seq<Line>,
    autostart: bool,
    i: int,
)
    requires
        0 <= i < v.len(),
    ensures
        ({
            let m = whole_menu(platform, v, autostart);
            &&& m.len() == 2 + 3 * v.len() + 6
            &&& m[2 + 3 * i] == ItemView::Label(status_text(v[i]))
            &&& m[3 + 3 * i] matches ItemView::Action { id, text } && text == toggle_text(v[i])
            &&& m[4 + 3 * i] matches ItemView::Action { id, text } && text == "  Restart "@
                + v[i].id
        }),
{
    lemma_items_of(platform, v, i);
    let m = whole_menu(platform, v, autostart);
    let all = all_mount_items(platform, v);
    assert(m[2 + 3 * i] == all[3 * i]);
    assert(m[3 + 3 * i] == all[3 * i + 1]);
    assert(m[4 + 3 * i] == all[3 * i + 2]);
}

/// A mount keeps its place once it is listed, every known mount comes to be listed, and nothing
/// else does.
pub proof fn law_every_mount_comes_to_be_listed(
    shown: Seq<Seq<char>>,
    v: Seq<Line>,
    id: Seq<char>,
)
    ensures
        shown.is_prefix_of(with_new(shown, v)),
        with_new(shown, v).contains(id) <==> shown.contains(id) || exists|i: int|
            0 <= i < v.len() && (#[trigger] v[i]).id == id,
    decreases v.len(),
{
    if v.len() > 0 {
        let d = v.drop_last();
        let before = with_new(shown, d);
        let after = with_new(shown, v);
        law_every_mount_comes_to_be_listed(shown, d, id);
        assert(v[v.len() - 1] == v.last());
        if exists|i: int| 0 <= i < d.len() && (#[trigger] d[i]).id == id {
            let i = choose|i: int| 0 <= i < d.len() && (#[trigger] d[i]).id == id;
            assert(v[i] == d[i]);
        }
        if exists|i: int| 0 <= i < v.len() && (#[trigger] v[i]).id == id {
            let i = choose|i: int| 0 <= i < v.len() && (#[trigger] v[i]).id == id;
            if i < d.len() {
                assert(d[i].id == id);
            }
        }
        if !before.contains(v.last().id) {
            assert(after[before.len() as int] == v.last().id);
            if before.contains(id) {
                let k = choose|k: int| 0 <= k < before.len() && before[k] == id;
                assert(after[k] == id);
            }
            if after.contains(id) && id != v.last().id {
                let k = choose|k: int| 0 <= k < after.len() && after[k] == id;
                assert(before[k] == id);
            }
        }
    }
}

/// Of each mount the last state that was told is shown, and nothing else of it.
pub proof fn law_last_state_is_shown(t: &mut TrayState, msg: MountStateUpdateMsg, l: Line)
    requires
        old(t).wf(),
        call_ensures(TrayState::update, (t, msg), ()),
    ensures
        final(t)@.contains(line_of(msg)),
        l.id == msg.mount_id@ && final(t)@.contains(l) ==> l.state == msg.state@ && l.detail
            == msg.state_detail@,
        l.id != msg.mount_id@ ==> (final(t)@.contains(l) <==> old(t)@.contains(l)),
        line_of(msg).id == msg.mount_id@ && line_of(msg).state == msg.state@ && line_of(msg).detail
            == msg.state_detail@,
{
}

/// A field takes all units that leave room for the zero behind them, and no more.
pub proof fn law_fields_hold_what_fits(field: &mut Vec<u16>, units: &Vec<u16>, i: int)
    requires
        old(field)@.len() > 0,
        0 <= i < units@.len(),
        call_ensures(fill_field, (field, units), ()),
    ensures
        final(field)@.len() == old(field)@.len(),
        i < old(field)@.len() - 1 ==> final(field)@[i] == units@[i],
        units@.len() < old(field)@.len() ==> final(field)@[units@.len() as int] == 0,
        units@.len() >= old(field)@.len() ==> final(field)@.last() == 0,
{
    let n = fitting(units@, old(field)@.len() as int);
    if i < n {
        assert(final(field)@.take(n)[i] == units@.take(n)[i]);
    }
}

} // verus!
