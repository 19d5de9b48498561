//! The preview process: what it does about the daemon's commands, about
//! keys, and about a hit that is to be shown.

use vstd::prelude::*;

use crate::hits::SizingPreference;
use crate::model;
use crate::model::{Category, Hit};
use crate::preview_ipc::{PreviewCommand, PreviewEvent};
use crate::text;

verus! {

/// The size of the window before its first hit.
pub const DEFAULT_WIDTH: i32 = 960;

/// The size of the window before its first hit.
pub const DEFAULT_HEIGHT: i32 = 720;

/// The least width of the window.
pub const MIN_WIDTH: i32 = 600;

/// The least height of the window.
pub const MIN_HEIGHT: i32 = 400;

/// How long the process stays after the window was hidden.
pub const IDLE_TIMEOUT_SECS: u64 = 60;

/// What the process does.
#[derive(Clone, Debug, PartialEq, Eq)]
pub enum HostAction {
    /// Stop the timer that ends the process.
    CancelIdle,
    /// Start the timer that ends the process anew.
    ScheduleIdle,
    HideWindow,
    Send(PreviewEvent),
    Show { hit: Hit, monitor: Option<String> },
    /// Make the noted surface the parent of the window.
    ApplyParent,
    /// Let go of the parent.
    DropParent,
}

/// The state of the process.
#[derive(Clone, Debug, PartialEq, Eq)]
pub struct HostState {
    /// The epoch of the last hit.
    pub epoch: u64,
    /// The preview that built the content.
    pub plugin: Option<String>,
    /// There is content.
    pub content: bool,
    /// The content scrolls by itself, and stands beside the scrolled pane
    /// rather than in it.
    pub owns_scroll: bool,
    /// There is a window.
    pub window: bool,
    /// The timer that ends the process is running.
    pub idle: bool,
    /// The surface that is to be the parent of the window.
    pub parent: Option<String>,
}

/// The actions that hide the window and tell the daemon.
pub open spec fn closing(window: bool, epoch: u64) -> Seq<HostAction> {
    let told = HostAction::Send(PreviewEvent::Closed { epoch });
    if window {
        seq![HostAction::CancelIdle, HostAction::HideWindow, told, HostAction::ScheduleIdle]
    } else {
        seq![HostAction::CancelIdle, told, HostAction::ScheduleIdle]
    }
}

/// The actions that tell the daemon and hide the window.
pub open spec fn dismissing(window: bool, epoch: u64) -> Seq<HostAction> {
    let told = HostAction::Send(PreviewEvent::Closed { epoch });
    if window {
        seq![told, HostAction::HideWindow, HostAction::ScheduleIdle]
    } else {
        seq![told, HostAction::ScheduleIdle]
    }
}

/// The actions that hide the window.
pub open spec fn hiding(window: bool) -> Seq<HostAction> {
    if window {
        seq![HostAction::HideWindow, HostAction::ScheduleIdle]
    } else {
        seq![HostAction::ScheduleIdle]
    }
}

/// What a command does to the state.
pub open spec fn after_command(s: HostState, cmd: PreviewCommand) -> HostState {
    match cmd {
        PreviewCommand::ShowOrUpdate { epoch, hit, monitor } => HostState {
            epoch,
            idle: false,
            ..s
        },
        PreviewCommand::Close { epoch } => HostState { idle: true, ..s },
        PreviewCommand::Hide { epoch } => HostState { idle: true, ..s },
        PreviewCommand::Ping => s,
        PreviewCommand::SetParent { handle } => HostState { parent: Some(handle), ..s },
        PreviewCommand::ClearParent => HostState { parent: None, ..s },
    }
}

/// What is done about a command.
pub open spec fn actions_for(s: HostState, cmd: PreviewCommand) -> Seq<HostAction> {
    match cmd {
        PreviewCommand::ShowOrUpdate { epoch, hit, monitor } => seq![
            HostAction::CancelIdle,
            HostAction::Show { hit, monitor },
        ],
        PreviewCommand::Close { epoch } => closing(s.window, epoch),
        PreviewCommand::Hide { epoch } => closing(s.window, epoch),
        PreviewCommand::Ping => Seq::empty(),
        PreviewCommand::SetParent { handle } => if s.window {
            seq![HostAction::ApplyParent]
        } else {
            Seq::empty()
        },
        PreviewCommand::ClearParent => seq![HostAction::DropParent],
    }
}

/// How an import of the parent went.
#[derive(Clone, Copy, Debug, PartialEq, Eq, Structural)]
pub enum Import {
    /// There is nothing to import it with; the window has no parent.
    Unavailable,
    Done,
    Failed,
}

/// What is done after an import of the parent. `asked` says whether there
/// is a parent to import.
pub open spec fn after_import(asked: bool, import: Import) -> Seq<HostAction> {
    if asked && import == Import::Failed {
        seq![HostAction::Send(PreviewEvent::ParentLost)]
    } else {
        Seq::empty()
    }
}

/// A preview that was chosen for a hit.
#[derive(Clone, Debug, PartialEq, Eq)]
pub struct Chosen {
    pub id: String,
    pub sizing: SizingPreference,
}

/// How a hit comes to be shown.
#[derive(Clone, Copy, Debug, PartialEq, Eq, Structural)]
pub struct ShowPlan {
    /// Build the window first.
    pub build_window: bool,
    /// Ask the preview to change its content in place.
    pub try_update: bool,
}

/// Where content stands.
#[derive(Clone, Copy, Debug, PartialEq, Eq, Structural)]
pub enum Slot {
    /// Below the header, filling the window.
    Box,
    /// In the scrolled pane.
    Scroll,
}

/// Where content stands that scrolls by itself, or not.
pub open spec fn slot_of(owns_scroll: bool) -> Slot {
    if owns_scroll {
        Slot::Box
    } else {
        Slot::Scroll
    }
}

/// How content is replaced.
#[derive(Clone, Copy, Debug, PartialEq, Eq, Structural)]
pub struct MountPlan {
    /// Where the old content is taken from.
    pub detach: Option<Slot>,
    /// Where the new content is put.
    pub attach: Slot,
}

/// How content is replaced by what the chosen preview built.
pub open spec fn mount_plan(s: HostState, chosen: Chosen) -> MountPlan {
    MountPlan {
        detach: if s.content {
            Some(slot_of(s.owns_scroll))
        } else {
            None
        },
        attach: slot_of(chosen.sizing == SizingPreference::OwnsScroll),
    }
}

/// The state once content was replaced.
pub open spec fn after_mount(s: HostState, chosen: Chosen) -> HostState {
    HostState {
        plugin: Some(chosen.id),
        content: true,
        owns_scroll: chosen.sizing == SizingPreference::OwnsScroll,
        ..s
    }
}

/// The name of a category in messages.
pub open spec fn category_name(c: Category) -> Seq<char> {
    match c {
        Category::App => "App"@,
        Category::File => "File"@,
        Category::Mail => "Mail"@,
        Category::Attachment => "Attachment"@,
        Category::Calculator => "Calculator"@,
        Category::Shell => "Shell"@,
    }
}

/// The message where no preview suits a hit.
pub open spec fn no_plugin_message(hit: Hit) -> Seq<char> {
    "no plugin matches hit id="@ + hit.id.0@ + " category="@ + category_name(hit.category)
}

/// The message where there is no display.
pub open spec fn no_display_message() -> Seq<char> {
    "no default GDK display"@
}

fn name_of_category(c: Category) -> (r: &'static str)
    ensures
        r@ == category_name(c),
{
    match c {
        Category::App => "App",
        Category::File => "File",
        Category::Mail => "Mail",
        Category::Attachment => "Attachment",
        Category::Calculator => "Calculator",
        Category::Shell => "Shell",
    }
}

fn closing_actions(window: bool, epoch: u64) -> (r: Vec<HostAction>)
    ensures
        r@ == closing(window, epoch),
{
    let mut v: Vec<HostAction> = Vec::new();
    v.push(HostAction::CancelIdle);
    if window {
        v.push(HostAction::HideWindow);
    }
    v.push(HostAction::Send(PreviewEvent::Closed { epoch }));
    v.push(HostAction::ScheduleIdle);
    proof {
        assert(v@ =~= closing(window, epoch));
    }
    v
}

impl HostState {
    /// The start of the process.
    pub fn new() -> (r: HostState)
        ensures
            r == (HostState {
                epoch: 0,
                plugin: None,
                content: false,
                owns_scroll: false,
                window: false,
                idle: false,
                parent: None,
            }),
    {
        HostState {
            epoch: 0,
            plugin: None,
            content: false,
            owns_scroll: false,
            window: false,
            idle: false,
            parent: None,
        }
    }

    /// What is done about a command of the daemon.
    pub fn handle_command(&mut self, cmd: PreviewCommand) -> (r: Vec<HostAction>)
        ensures
            *final(self) == after_command(*old(self), cmd),
            r@ == actions_for(*old(self), cmd),
    {
        let mut v: Vec<HostAction> = Vec::new();
        match cmd {
            PreviewCommand::ShowOrUpdate { epoch, hit, monitor } => {
                self.epoch = epoch;
                self.idle = false;
                v.push(HostAction::CancelIdle);
                v.push(HostAction::Show { hit, monitor });
            },
            PreviewCommand::Close { epoch } => {
                self.idle = true;
                return closing_actions(self.window, epoch);
            },
            PreviewCommand::Hide { epoch } => {
                self.idle = true;
                return closing_actions(self.window, epoch);
            },
            PreviewCommand::Ping => {},
            PreviewCommand::SetParent { handle } => {
                self.parent = Some(handle);
                if self.window {
                    v.push(HostAction::ApplyParent);
                }
            },
            PreviewCommand::ClearParent => {
                self.parent = None;
                v.push(HostAction::DropParent);
            },
        }
        proof {
            assert(v@ =~= actions_for(*old(self), cmd));
        }
        v
    }

    /// The first step towards showing a hit. `chosen` is the preview that
    /// suits it best, if any does; `display` says whether there is a
    /// display.
    pub fn show_or_update(&mut self, hit: &Hit, chosen: &Option<Chosen>, display: bool) -> (r:
        Result<ShowPlan, String>)
        ensures
            match (*chosen, r) {
                (None, Err(e)) => e@ == no_plugin_message(*hit) && *final(self) == *old(self),
                (Some(c), Err(e)) => !display && e@ == no_display_message() && *final(self)
                    == *old(self),
                (Some(c), Ok(plan)) => {
                    &&& display
                    &&& *final(self) == (HostState { window: true, ..*old(self) })
                    &&& plan.build_window == !old(self).window
                    &&& plan.try_update == (old(self).content && model::opt_view(old(self).plugin)
                        == Some(c.id@))
                },
                _ => false,
            },
    {
        let c = match chosen {
            Some(c) => c,
            None => {
                let mut s = "no plugin matches hit id=".to_string();
                s.push_str(hit.id.0.as_str());
                s.push_str(" category=");
                s.push_str(name_of_category(hit.category));
                return Err(s);
            },
        };
        if !display {
            return Err("no default GDK display".to_string());
        }
        let same = match &self.plugin {
            Some(id) => text::text_eq(id.as_str(), c.id.as_str()),
            None => false,
        };
        let plan = ShowPlan { build_window: !self.window, try_update: same && self.content };
        self.window = true;
        Ok(plan)
    }

    /// Replaces the content by what the chosen preview built.
    pub fn mount(&mut self, chosen: &Chosen) -> (r: MountPlan)
        ensures
            r == mount_plan(*old(self), *chosen),
            *final(self) == after_mount(*old(self), *chosen),
    {
        let detach = if self.content {
            if self.owns_scroll {
                Some(Slot::Box)
            } else {
                Some(Slot::Scroll)
            }
        } else {
            None
        };
        let owns = match chosen.sizing {
            SizingPreference::OwnsScroll => true,
            _ => false,
        };
        self.owns_scroll = owns;
        self.content = true;
        self.plugin = Some(chosen.id.clone());
        MountPlan {
            detach,
            attach: if owns {
                Slot::Box
            } else {
                Slot::Scroll
            },
        }
    }

    /// The event for a hit that could not be shown.
    pub fn show_failed(&self, msg: String) -> (r: PreviewEvent)
        ensures
            r == (PreviewEvent::Error { epoch: self.epoch, msg }),
    {
        PreviewEvent::Error { epoch: self.epoch, msg }
    }

    /// What is done once the window was to be put under its parent: the
    /// daemon hears of a parent that could not be imported.
    pub fn try_apply_pending_parent(&self, import: Import) -> (r: Vec<HostAction>)
        ensures
            r@ == after_import(self.parent is Some, import),
    {
        let mut v: Vec<HostAction> = Vec::new();
        match (&self.parent, import) {
            (Some(_), Import::Failed) => {
                v.push(HostAction::Send(PreviewEvent::ParentLost));
            },
            _ => {},
        }
        proof {
            assert(v@ =~= after_import(self.parent is Some, import));
        }
        v
    }

    /// What is done when the user closes the window by its button: the
    /// daemon hears of it, the window is hidden, and the process stays.
    pub fn close_request(&mut self) -> (r: Vec<HostAction>)
        ensures
            r@ == dismissing(old(self).window, old(self).epoch),
            *final(self) == (HostState { idle: true, ..*old(self) }),
    {
        let mut v: Vec<HostAction> = Vec::new();
        v.push(HostAction::Send(PreviewEvent::Closed { epoch: self.epoch }));
        if self.window {
            v.push(HostAction::HideWindow);
        }
        v.push(HostAction::ScheduleIdle);
        self.idle = true;
        proof {
            assert(v@ =~= dismissing(old(self).window, old(self).epoch));
        }
        v
    }

    /// What is done when a key closes the window. The launcher leaves the
    /// preview on the same key by itself, so the daemon is told nothing.
    pub fn close_via_keyboard(&mut self) -> (r: Vec<HostAction>)
        ensures
            r@ == hiding(old(self).window),
            *final(self) == (HostState { idle: true, ..*old(self) }),
    {
        let mut v: Vec<HostAction> = Vec::new();
        if self.window {
            v.push(HostAction::HideWindow);
        }
        v.push(HostAction::ScheduleIdle);
        self.idle = true;
        proof {
            assert(v@ =~= hiding(old(self).window));
        }
        v
    }

    /// What is done once the hit was, or was not, opened: an opened hit
    /// closes the window, and the daemon hears of it.
    pub fn run_plugin_launch(&mut self, launched: bool) -> (r: Vec<HostAction>)
        ensures
            launched ==> r@ == dismissing(old(self).window, old(self).epoch) && *final(self) == (
            HostState { idle: true, ..*old(self) }),
            !launched ==> r@.len() == 0 && *final(self) == *old(self),
    {
        if launched {
            self.close_request()
        } else {
            Vec::new()
        }
    }
}

/// What is shown where a preview could not build its content.
pub fn build_failed(plugin_id: &str, why: &str) -> (r: String)
    ensures
        r@ == "Preview failed ("@ + plugin_id@ + "):\n"@ + why@,
{
    let mut s = "Preview failed (".to_string();
    s.push_str(plugin_id);
    s.push_str("):\n");
    s.push_str(why);
    s
}

/// What a key does in the window.
#[derive(Clone, Copy, Debug, PartialEq, Eq, Structural)]
pub enum KeyAction {
    Close,
    /// Open the hit.
    Launch,
    /// Nothing; others may hear of it.
    Proceed,
}

/// What a key does. `can_launch` says whether the hit can be opened; it is
/// `None` where there is no hit.
pub open spec fn key_action(sym: Seq<char>, can_launch: Option<bool>) -> KeyAction {
    if sym == "Escape"@ || sym == "space"@ {
        KeyAction::Close
    } else if sym == "Return"@ || sym == "KP_Enter"@ {
        if can_launch == Some(true) {
            KeyAction::Launch
        } else {
            KeyAction::Close
        }
    } else {
        KeyAction::Proceed
    }
}

/// What a key does.
pub fn key_pressed(sym: &str, can_launch: Option<bool>) -> (r: KeyAction)
    ensures
        r == key_action(sym@, can_launch),
{
    if text::text_eq(sym, "Escape") || text::text_eq(sym, "space") {
        KeyAction::Close
    } else if text::text_eq(sym, "Return") || text::text_eq(sym, "KP_Enter") {
        match can_launch {
            Some(true) => KeyAction::Launch,
            _ => KeyAction::Close,
        }
    } else {
        KeyAction::Proceed
    }
}

// ---------------------------------------------------------------------
// The window
// ---------------------------------------------------------------------

/// The limits on the size of the window.
#[derive(Clone, Copy, Debug, PartialEq, Eq, Structural)]
pub struct SizeLimits {
    pub width_percent: u8,
    pub height_percent: u8,
    pub max_width_px: i32,
    pub max_height_px: i32,
}

/// A part of a length in percent, rounded towards zero.
pub open spec fn percent_of(length: int, percent: int) -> int {
    if length >= 0 {
        length * percent / 100
    } else {
        -((-length) * percent / 100)
    }
}

/// The part of a length, but at most `max`, and `min` in any case.
pub open spec fn capped(length: int, percent: int, max: int, min: int) -> int {
    let p = percent_of(length, percent);
    let q = if p < max {
        p
    } else {
        max
    };
    if q > min {
        q
    } else {
        min
    }
}

fn cap(length: i32, percent: u8, max: i32, min: i32) -> (r: i32)
    requires
        i32::MIN <= length * percent <= i32::MAX,
        min >= 0,
    ensures
        r == capped(length as int, percent as int, max as int, min as int),
{
    if length < 0 {
        proof {
            assert((-length) * percent / 100 >= 0) by (nonlinear_arith)
                requires
                    length < 0,
                    percent >= 0,
            ;
        }
        return min;
    }
    proof {
        assert(0 <= length * percent) by (nonlinear_arith)
            requires
                length >= 0,
                percent >= 0,
        ;
    }
    let p: i32 = length * percent as i32 / 100;
    let q: i32 = if p < max {
        p
    } else {
        max
    };
    if q > min {
        q
    } else {
        min
    }
}

/// The largest size of the window. `monitor` is the size of the monitor
/// that it is on, if that is known.
pub fn apply_monitor_and_cap(monitor: Option<(i32, i32)>, limits: SizeLimits) -> (r: (i32, i32))
    requires
        monitor matches Some((w, h)) ==> i32::MIN <= w * limits.width_percent <= i32::MAX
            && i32::MIN <= h * limits.height_percent <= i32::MAX,
    ensures
        r == (match monitor {
            None => (MIN_WIDTH, MIN_HEIGHT),
            Some((w, h)) => (
                capped(
                    w as int,
                    limits.width_percent as int,
                    limits.max_width_px as int,
                    MIN_WIDTH as int,
                ) as i32,
                capped(
                    h as int,
                    limits.height_percent as int,
                    limits.max_height_px as int,
                    MIN_HEIGHT as int,
                ) as i32,
            ),
        }),
        r.0 >= MIN_WIDTH,
        r.1 >= MIN_HEIGHT,
{
    match monitor {
        None => (MIN_WIDTH, MIN_HEIGHT),
        Some((w, h)) => (
            cap(w, limits.width_percent, limits.max_width_px, MIN_WIDTH),
            cap(h, limits.height_percent, limits.max_height_px, MIN_HEIGHT),
        ),
    }
}

/// How the window and the scrolled pane are set up. `None` leaves a setting
/// as it is.
#[derive(Clone, Copy, Debug, PartialEq, Eq)]
pub struct SizePlan {
    pub default_size: (i32, i32),
    pub scroll_visible: bool,
    /// Whether the pane fills the window.
    pub expand: Option<bool>,
    /// The largest content that the pane grows to.
    pub max_content: Option<(i32, i32)>,
    /// Whether the pane is as large as its content.
    pub propagate: Option<bool>,
}

/// How the window and the scrolled pane are set up.
pub fn apply_sizing(sizing: SizingPreference, w_max: i32, h_max: i32) -> (r: SizePlan)
    ensures
        r == (match sizing {
            SizingPreference::FixedCap => SizePlan {
                default_size: (w_max, h_max),
                scroll_visible: true,
                expand: Some(true),
                max_content: None,
                propagate: Some(false),
            },
            SizingPreference::FitToContent => SizePlan {
                default_size: (MIN_WIDTH, MIN_HEIGHT),
                scroll_visible: true,
                expand: Some(false),
                max_content: Some((w_max, h_max)),
                propagate: Some(true),
            },
            SizingPreference::OwnsScroll => SizePlan {
                default_size: (w_max, h_max),
                scroll_visible: false,
                expand: None,
                max_content: None,
                propagate: None,
            },
        }),
{
    match sizing {
        SizingPreference::FixedCap => SizePlan {
            default_size: (w_max, h_max),
            scroll_visible: true,
            expand: Some(true),
            max_content: None,
            propagate: Some(false),
        },
        SizingPreference::FitToContent => SizePlan {
            default_size: (MIN_WIDTH, MIN_HEIGHT),
            scroll_visible: true,
            expand: Some(false),
            max_content: Some((w_max, h_max)),
            propagate: Some(true),
        },
        SizingPreference::OwnsScroll => SizePlan {
            default_size: (w_max, h_max),
            scroll_visible: false,
            expand: None,
            max_content: None,
            propagate: None,
        },
    }
}

/// The first monitor of this name is at `k`.
pub open spec fn first_named(connectors: Seq<Option<String>>, name: Seq<char>, k: int) -> bool {
    &&& 0 <= k < connectors.len()
    &&& model::opt_view(connectors[k]) == Some(name)
    &&& forall|j: int| 0 <= j < k ==> model::opt_view(#[trigger] connectors[j]) != Some(name)
}

/// The name that is asked for.
pub open spec fn asked_name(requested: Option<&str>) -> Option<Seq<char>> {
    match requested {
        Some(s) => Some(s@),
        None => None,
    }
}

/// Whether a monitor of this name is asked for and there is one.
pub open spec fn asked_for(connectors: Seq<Option<String>>, requested: Option<Seq<char>>, k: int) -> bool {
    requested matches Some(name) && name.len() > 0 && first_named(connectors, name, k)
}

/// The monitor for the window: the one that is asked for, or else the one
/// under the pointer, or else the first.
pub fn pick_monitor(
    connectors: &Vec<Option<String>>,
    requested: Option<&str>,
    pointer: Option<usize>,
) -> (r: Option<usize>)
    ensures
        ({
            let want = asked_name(requested);
            if exists|k: int| asked_for(connectors@, want, k) {
                r matches Some(k) && asked_for(connectors@, want, k as int)
            } else {
                r == (match pointer {
                    Some(p) => Some(p),
                    None => if connectors@.len() > 0 {
                        Some(0usize)
                    } else {
                        None
                    },
                })
            }
        }),
{
    let ghost want = asked_name(requested);
    match requested {
        Some(name) => {
            if name.unicode_len() > 0 {
                let mut i: usize = 0;
                while i < connectors.len()
                    invariant
                        i <= connectors@.len(),
                        name@.len() > 0,
                        want == Some(name@),
                        want == asked_name(requested),
                        forall|j: int|
                            0 <= j < i ==> model::opt_view(#[trigger] connectors@[j]) != Some(
                                name@,
                            ),
                    decreases connectors@.len() - i,
                {
                    match &connectors[i] {
                        Some(c) => {
                            if text::text_eq(c.as_str(), name) {
                                proof {
                                    assert(first_named(connectors@, name@, i as int));
                                    assert(asked_for(connectors@, want, i as int));
                                }
                                return Some(i);
                            }
                        },
                        None => {},
                    }
                    i = i + 1;
                }
                proof {
                    assert forall|k: int| !asked_for(connectors@, want, k) by {
                        if 0 <= k < connectors@.len() {
                            assert(model::opt_view(connectors@[k]) != Some(name@));
                        }
                    }
                }
            }
        },
        None => {},
    }
    match pointer {
        Some(p) => Some(p),
        None => {
            if connectors.len() > 0 {
                Some(0)
            } else {
                None
            }
        },
    }
}

/// What the header of the window shows.
#[derive(Clone, Debug, PartialEq, Eq)]
pub struct Header {
    pub title: String,
    pub subtitle: Option<String>,
    pub open_button: bool,
    pub badge: String,
}

/// What the header of the window shows for a hit.
pub fn rebuild_header(hit: &Hit, plugin_id: &str, can_launch: bool) -> (r: Header)
    ensures
        r.title@ == hit.title@,
        model::opt_view(r.subtitle) == (if hit.subtitle@.len() > 0 {
            Some(hit.subtitle@)
        } else {
            None
        }),
        r.open_button == can_launch,
        r.badge@ == plugin_id@,
{
    let subtitle = if hit.subtitle.as_str().unicode_len() > 0 {
        Some(hit.subtitle.clone())
    } else {
        None
    };
    Header {
        title: hit.title.clone(),
        subtitle,
        open_button: can_launch,
        badge: plugin_id.to_string(),
    }
}

// ---------------------------------------------------------------------
// Laws
// ---------------------------------------------------------------------

/// Law: a hit keeps the process alive, and a hidden window starts the
/// countdown, whatever the state was.
pub proof fn law_countdown_runs_only_while_hidden(s: HostState, cmd: PreviewCommand)
    ensures
        cmd is ShowOrUpdate ==> !after_command(s, cmd).idle && actions_for(s, cmd)[0]
            == HostAction::CancelIdle,
        (cmd is Close || cmd is Hide) ==> after_command(s, cmd).idle && actions_for(
            s,
            cmd,
        ).last() == HostAction::ScheduleIdle,
{
}

/// Law: the daemon hears of every close but one by a key: of its own
/// commands with their epoch, of the window's button and of an opened hit
/// with that of the hit.
pub proof fn law_daemon_hears_of_closes(s: HostState, epoch: u64)
    ensures
        actions_for(s, (PreviewCommand::Close { epoch })).contains(
            HostAction::Send(PreviewEvent::Closed { epoch }),
        ),
        actions_for(s, (PreviewCommand::Hide { epoch })).contains(
            HostAction::Send(PreviewEvent::Closed { epoch }),
        ),
        dismissing(s.window, s.epoch).contains(
            HostAction::Send(PreviewEvent::Closed { epoch: s.epoch }),
        ),
        forall|e: PreviewEvent| !#[trigger] hiding(s.window).contains(HostAction::Send(e)),
{
    let told = HostAction::Send(PreviewEvent::Closed { epoch });
    let k = if s.window {
        2int
    } else {
        1int
    };
    assert(closing(s.window, epoch)[k] == told);
    assert(dismissing(s.window, s.epoch)[0] == HostAction::Send(
        PreviewEvent::Closed { epoch: s.epoch },
    ));
}

/// Law: closing and hiding are the same to the process.
pub proof fn law_hide_is_close(s: HostState, epoch: u64)
    ensures
        actions_for(s, (PreviewCommand::Close { epoch })) == actions_for(
            s,
            (PreviewCommand::Hide { epoch }),
        ),
        after_command(s, (PreviewCommand::Close { epoch })) == after_command(
            s,
            (PreviewCommand::Hide { epoch }),
        ),
{
}

/// Law: no content is left behind. What was put somewhere is taken from
/// there when other content takes its place, also where a command came
/// between.
pub proof fn law_no_content_is_left_behind(
    s: HostState,
    first: Chosen,
    cmd: PreviewCommand,
    second: Chosen,
)
    ensures
        mount_plan(after_command(after_mount(s, first), cmd), second).detach == Some(
            mount_plan(s, first).attach,
        ),
{
}

/// Law: a command is carried out. A hit that is to be shown is shown on its
/// monitor, and its epoch is noted; a window that is to go is hidden; a
/// parent is noted, taken where there is a window, and let go of; a ping
/// changes nothing.
pub proof fn law_commands_are_carried_out(s: HostState, cmd: PreviewCommand)
    ensures
        cmd matches PreviewCommand::ShowOrUpdate { epoch, hit, monitor } ==> {
            &&& actions_for(s, cmd).contains(HostAction::Show { hit, monitor })
            &&& after_command(s, cmd).epoch == epoch
        },
        cmd is Close || cmd is Hide ==> {
            &&& s.window ==> actions_for(s, cmd).contains(HostAction::HideWindow)
            &&& actions_for(s, cmd).contains(HostAction::ScheduleIdle)
        },
        cmd matches PreviewCommand::SetParent { handle } ==> {
            &&& after_command(s, cmd).parent == Some(handle)
            &&& s.window ==> actions_for(s, cmd).contains(HostAction::ApplyParent)
            &&& !s.window ==> actions_for(s, cmd).len() == 0
        },
        cmd is ClearParent ==> {
            &&& after_command(s, cmd).parent is None
            &&& actions_for(s, cmd).contains(HostAction::DropParent)
        },
        cmd is Ping ==> after_command(s, cmd) == s && actions_for(s, cmd).len() == 0,
        !(cmd is ShowOrUpdate) ==> after_command(s, cmd).epoch == s.epoch,
        !(cmd is SetParent || cmd is ClearParent) ==> after_command(s, cmd).parent == s.parent,
        after_command(s, cmd).plugin == s.plugin,
        after_command(s, cmd).content == s.content,
        after_command(s, cmd).owns_scroll == s.owns_scroll,
        after_command(s, cmd).window == s.window,
        forall|e: PreviewEvent| #[trigger]
            actions_for(s, cmd).contains(HostAction::Send(e)) ==> cmd is Close || cmd is Hide,
{
    let acts = actions_for(s, cmd);
    match cmd {
        PreviewCommand::ShowOrUpdate { epoch, hit, monitor } => {
            assert(acts[1] == HostAction::Show { hit, monitor });
        },
        PreviewCommand::Close { epoch } => {
            assert(acts[acts.len() - 1] == HostAction::ScheduleIdle);
            if s.window {
                assert(acts[1] == HostAction::HideWindow);
            }
        },
        PreviewCommand::Hide { epoch } => {
            assert(acts[acts.len() - 1] == HostAction::ScheduleIdle);
            if s.window {
                assert(acts[1] == HostAction::HideWindow);
            }
        },
        PreviewCommand::SetParent { handle } => {
            if s.window {
                assert(acts[0] == HostAction::ApplyParent);
            }
        },
        PreviewCommand::ClearParent => {
            assert(acts[0] == HostAction::DropParent);
        },
        PreviewCommand::Ping => {},
    }
}

/// Law: a window that is dismissed or closed by a key is hidden, and the
/// process counts down from then on.
pub proof fn law_dismissed_windows_are_hidden(window: bool, epoch: u64)
    ensures
        window ==> dismissing(window, epoch).contains(HostAction::HideWindow),
        window ==> hiding(window).contains(HostAction::HideWindow),
        dismissing(window, epoch).last() == HostAction::ScheduleIdle,
        hiding(window).last() == HostAction::ScheduleIdle,
        forall|h: Hit, m: Option<String>| !#[trigger]
            dismissing(window, epoch).contains(HostAction::Show { hit: h, monitor: m }),
{
    if window {
        assert(dismissing(window, epoch)[1] == HostAction::HideWindow);
        assert(hiding(window)[0] == HostAction::HideWindow);
    }
}

/// Law: the daemon hears of a parent that could not be taken, and of no
/// other.
pub proof fn law_a_lost_parent_is_reported(asked: bool, import: Import)
    ensures
        after_import(asked, import).contains(HostAction::Send(PreviewEvent::ParentLost)) <==> asked
            && import is Failed,
        forall|a: HostAction| #[trigger]
            after_import(asked, import).contains(a) ==> a == HostAction::Send(
                PreviewEvent::ParentLost,
            ),
{
    if asked && import is Failed {
        assert(after_import(asked, import)[0] == HostAction::Send(PreviewEvent::ParentLost));
    }
}

/// Law: escape and space close the window, return and enter open the hit
/// where it can be opened and close the window else, and no other key does
/// anything.
pub proof fn law_keys_close_or_open(sym: Seq<char>, can_launch: Option<bool>)
    ensures
        sym == "Escape"@ ==> key_action(sym, can_launch) is Close,
        sym == "space"@ ==> key_action(sym, can_launch) is Close,
        sym == "Return"@ || sym == "KP_Enter"@ ==> (key_action(sym, can_launch) is Launch
            <==> can_launch == Some(true)) && !(key_action(sym, can_launch) is Proceed),
        !(key_action(sym, can_launch) is Proceed) ==> sym == "Escape"@ || sym == "space"@ || sym
            == "Return"@ || sym == "KP_Enter"@,
{
    reveal_strlit("Escape");
    reveal_strlit("space");
    reveal_strlit("Return");
    reveal_strlit("KP_Enter");
    assert("Escape"@[0] == 'E' && "space"@[0] == 's');
    assert("Return"@[0] == 'R' && "KP_Enter"@[0] == 'K');
}

/// Law: a window takes its part of the monitor, but no more than it may and
/// no less than it must.
pub proof fn law_a_window_takes_its_part(length: int, percent: int, max: int, min: int)
    requires
        length >= 0,
        percent >= 0,
    ensures
        capped(length, percent, max, min) >= min,
        capped(length, percent, max, min) > min ==> {
            &&& capped(length, percent, max, min) <= max
            &&& 100 * capped(length, percent, max, min) <= length * percent
        },
        min <= max && 100 * max <= length * percent ==> capped(length, percent, max, min) == max,
        capped(length, percent, max, min) < max && capped(length, percent, max, min) > min
            ==> length * percent < 100 * (capped(length, percent, max, min) + 1),
{
    assert(length * percent >= 0) by (nonlinear_arith)
        requires
            length >= 0,
            percent >= 0,
    ;
}

/// Law: content that scrolls by itself fills the window, other content
/// stands in the scrolled pane; the preview that built it is noted, and the
/// next content takes its place.
pub proof fn law_content_stands_where_it_scrolls(s: HostState, chosen: Chosen)
    ensures
        mount_plan(s, chosen).attach is Box <==> chosen.sizing is OwnsScroll,
        mount_plan(s, chosen).detach is Some <==> s.content,
        after_mount(s, chosen).plugin == Some(chosen.id),
        after_mount(s, chosen).content,
        after_mount(s, chosen).owns_scroll <==> chosen.sizing is OwnsScroll,
        after_mount(s, chosen).epoch == s.epoch,
        after_mount(s, chosen).window == s.window,
        after_mount(s, chosen).idle == s.idle,
        after_mount(s, chosen).parent == s.parent,
{
}

/// Law: the message about a hit without a preview names the hit.
pub proof fn law_a_hit_without_preview_is_named(hit: Hit)
    ensures
        exists|before: Seq<char>, after: Seq<char>|
            no_plugin_message(hit) == #[trigger] (before + hit.id.0@ + after),
{
    let before = "no plugin matches hit id="@;
    let after = " category="@ + category_name(hit.category);
    assert(no_plugin_message(hit) =~= before + hit.id.0@ + after);
}

/// Law: a monitor is found by its name, the first one of that name; an empty
/// name asks for none.
pub proof fn law_a_monitor_is_found_by_its_name(
    connectors: Seq<Option<String>>,
    name: Seq<char>,
    k: int,
)
    ensures
        0 <= k < connectors.len() && name.len() > 0 && (connectors[k] matches Some(c) && c@ == name)
            && (forall|j: int|
            0 <= j < k ==> !(#[trigger] connectors[j] matches Some(c) && c@ == name))
            ==> asked_for(connectors, Some(name), k),
        asked_for(connectors, Some(name), k) ==> 0 <= k < connectors.len() && (
        connectors[k] matches Some(c) && c@ == name) && name.len() > 0,
        !asked_for(connectors, None, k),
{
}

} // verus!
