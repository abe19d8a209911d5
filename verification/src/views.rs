//! Application views, menus and the small decisions of the interface: which view a transition
//! opens, when a popup closes, what an inline name editor does with keyboard and focus events.

use vstd::prelude::*;

use crate::text::str_equals;

verus! {

/// Names a destination without constructing its stateful application view.
#[derive(Debug, Clone, Copy, PartialEq, Eq, Structural)]
pub enum ViewTarget {
    Welcome,
    Operator,
    Configuration,
}

/// The welcome view.
#[derive(Debug, Clone, Copy, PartialEq, Eq, Structural)]
pub struct WelcomeView;

/// The operator view.
#[derive(Debug, Clone, Copy, PartialEq, Eq, Structural)]
pub struct OperatorView;

/// The configuration view.
#[derive(Debug, Clone, Copy, PartialEq, Eq, Structural)]
pub struct ConfigurationView {}

impl Default for ConfigurationView {
    fn default() -> (v: Self) {
        ConfigurationView {}
    }
}

/// The panes of the configuration view.
#[derive(Debug, Clone, Copy, PartialEq, Eq, Structural)]
pub struct DataflowEditorView;

#[derive(Debug, Clone, Copy, PartialEq, Eq, Structural)]
pub struct LayoutComposerView;

#[derive(Debug, Clone, Copy, PartialEq, Eq, Structural)]
pub struct LevelEditorView;

#[derive(Debug, Clone, Copy, PartialEq, Eq, Structural)]
pub struct OnlineResourcesView;

#[derive(Debug, Clone, Copy, PartialEq, Eq, Structural)]
pub struct PaneControlsView;

/// The state of whichever top-level application view is active.
#[derive(Debug, Clone, Copy, PartialEq, Eq, Structural)]
pub enum AppView {
    Welcome(WelcomeView),
    Configuration(ConfigurationView),
    Operator(OperatorView),
}

impl AppView {
    /// The target that a view belongs to.
    pub open spec fn spec_target(self) -> ViewTarget {
        match self {
            AppView::Welcome(_) => ViewTarget::Welcome,
            AppView::Configuration(_) => ViewTarget::Configuration,
            AppView::Operator(_) => ViewTarget::Operator,
        }
    }

    /// Creates the view associated with a requested transition target.
    pub fn from_target(target: ViewTarget) -> (v: Self)
        ensures
            v.spec_target() == target,
    {
        match target {
            ViewTarget::Welcome => AppView::Welcome(WelcomeView),
            ViewTarget::Operator => AppView::Operator(OperatorView),
            ViewTarget::Configuration => AppView::Configuration(ConfigurationView::default()),
        }
    }

    /// Creates the view shown at startup: the operator view when a layout is active, the welcome
    /// view otherwise.
    pub fn startup(has_active_layout: bool) -> (v: Self)
        ensures
            v.spec_target() == if has_active_layout {
                ViewTarget::Operator
            } else {
                ViewTarget::Welcome
            },
    {
        if has_active_layout {
            AppView::from_target(ViewTarget::Operator)
        } else {
            AppView::from_target(ViewTarget::Welcome)
        }
    }
}

/// The application mode: configuring layouts, or operating one of them by its slug.
#[derive(Debug, Clone, PartialEq, Eq)]
pub enum Mode {
    Configuration,
    Operator(String),
}

impl Default for Mode {
    fn default() -> (m: Self)
        ensures
            m is Configuration,
    {
        Mode::Configuration
    }
}

/// The state of the mode toggle: configuring, choosing the layout to operate, or operating the
/// layout with the given slug.
#[derive(Debug, Clone, PartialEq, Eq)]
pub enum ToggleState {
    Configuration,
    ChooseLayout,
    Operator(String),
}

/// The toggle state that shows `mode`.
pub open spec fn spec_toggle_for(mode: Mode) -> ToggleState {
    match mode {
        Mode::Configuration => ToggleState::Configuration,
        Mode::Operator(layout) => ToggleState::Operator(layout),
    }
}

impl Default for ToggleState {
    fn default() -> (s: Self)
        ensures
            s is Configuration,
    {
        ToggleState::Configuration
    }
}

impl From<Mode> for ToggleState {
    fn from(value: Mode) -> (s: Self) {
        match value {
            Mode::Configuration => ToggleState::Configuration,
            Mode::Operator(layout) => ToggleState::Operator(layout),
        }
    }
}

impl vstd::std_specs::convert::FromSpecImpl<Mode> for ToggleState {
    open spec fn obeys_from_spec() -> bool {
        true
    }

    open spec fn from_spec(v: Mode) -> Self {
        spec_toggle_for(v)
    }
}

impl From<ToggleState> for Mode {
    fn from(value: ToggleState) -> (m: Self) {
        match value {
            ToggleState::Configuration => Mode::Configuration,
            ToggleState::ChooseLayout => Mode::Configuration,
            ToggleState::Operator(layout) => Mode::Operator(layout),
        }
    }
}

impl vstd::std_specs::convert::FromSpecImpl<ToggleState> for Mode {
    open spec fn obeys_from_spec() -> bool {
        true
    }

    open spec fn from_spec(v: ToggleState) -> Self {
        match v {
            ToggleState::Configuration => Mode::Configuration,
            ToggleState::ChooseLayout => Mode::Configuration,
            ToggleState::Operator(layout) => Mode::Operator(layout),
        }
    }
}

impl ToggleState {
    /// Whether the toggle already shows `mode`: configuration while configuring or choosing a
    /// layout, or the same operated layout.
    pub open spec fn spec_in_step(&self, mode: Mode) -> bool {
        match (*self, mode) {
            (ToggleState::Configuration, Mode::Configuration) => true,
            (ToggleState::ChooseLayout, Mode::Configuration) => true,
            (ToggleState::Operator(a), Mode::Operator(b)) => a@ == b@,
            _ => false,
        }
    }

    /// Returns the state that the toggle must be forced to so that it shows the application's
    /// current `mode`; `None` when it already does.
    pub fn sync_target(&self, mode: &Mode) -> (r: Option<ToggleState>)
        ensures
            r is None <==> self.spec_in_step(*mode),
            r matches Some(t) ==> t == spec_toggle_for(*mode),
    {
        let in_step = match (self, mode) {
            (ToggleState::Configuration, Mode::Configuration) => true,
            (ToggleState::ChooseLayout, Mode::Configuration) => true,
            (ToggleState::Operator(a), Mode::Operator(b)) => str_equals(a.as_str(), b.as_str()),
            _ => false,
        };
        if in_step {
            None
        } else {
            let target = match mode {
                Mode::Configuration => ToggleState::Configuration,
                Mode::Operator(layout) => ToggleState::Operator(layout.clone()),
            };
            Some(target)
        }
    }
}

/// Synchronizing settles: a toggle forced to show a mode is in step with it, so the next
/// synchronization forces nothing; and the mode that it reports back is that mode.
pub proof fn law_forced_toggle_is_in_step(mode: Mode)
    ensures
        spec_toggle_for(mode).spec_in_step(mode),
        <Mode as vstd::std_specs::convert::FromSpec<ToggleState>>::from_spec(spec_toggle_for(mode)) == mode,
{
}

/// The entries of the configuration view's left menu.
#[derive(Debug, Clone, Copy, PartialEq, Eq, Structural)]
pub enum LeftMenuSelector {
    PaneControls,
    LayoutComposer,
    LevelEditor,
    DataflowEditor,
    OnlineResources,
    Charts,
}

impl LeftMenuSelector {
    /// The tooltip shown over the entry's button.
    pub open spec fn spec_tooltip(self) -> Seq<char> {
        match self {
            LeftMenuSelector::PaneControls => "Pane controls"@,
            LeftMenuSelector::LayoutComposer => "Layout composer"@,
            LeftMenuSelector::LevelEditor => "Level editor"@,
            LeftMenuSelector::DataflowEditor => "Dataflow editor"@,
            LeftMenuSelector::OnlineResources => "Online resources"@,
            LeftMenuSelector::Charts => "Charts"@,
        }
    }

    /// Returns the tooltip shown over the entry's button.
    pub fn tooltip(&self) -> (s: &'static str)
        ensures
            s@ == self.spec_tooltip(),
    {
        match self {
            LeftMenuSelector::PaneControls => "Pane controls",
            LeftMenuSelector::LayoutComposer => "Layout composer",
            LeftMenuSelector::LevelEditor => "Level editor",
            LeftMenuSelector::DataflowEditor => "Dataflow editor",
            LeftMenuSelector::OnlineResources => "Online resources",
            LeftMenuSelector::Charts => "Charts",
        }
    }
}

/// Which side panels are shown.
#[derive(Debug, Clone, Copy, PartialEq, Eq, Structural)]
pub struct PanelsControls {
    pub left_panel_visible: bool,
    pub right_panel_visible: bool,
    pub bottom_panel_visible: bool,
}

/// The toggles of the top bar.
#[derive(Debug, Clone, Copy, PartialEq, Eq, Structural)]
pub struct TopBarControls {
    pub lock_mode_active: bool,
    pub panels_controls: PanelsControls,
}

/// The toggles of the bottom bar.
#[derive(Debug, Clone, Copy, PartialEq, Eq, Structural)]
pub struct BottomBarControls {
    pub notifications_active: bool,
}

/// How the user resolved unsaved layout changes in the confirmation popup.
#[derive(Debug, Clone, Copy, PartialEq, Eq, Structural)]
pub enum SaveDiscardChoice {
    Save,
    Discard,
}

/// How the user resolved unsaved layout changes in the closing modal.
#[derive(Debug, Clone, Copy, PartialEq, Eq, Structural)]
pub enum SaveDiscardModalChoice {
    Save,
    Discard,
}

/// What the closing modal reports: the choice made, if any, and whether it should close.
#[derive(Debug, Clone, Copy, PartialEq, Eq, Structural)]
pub struct SaveDiscardModalResponse {
    pub choice: Option<SaveDiscardModalChoice>,
    pub should_close: bool,
}

/// What the layout manager reports: whether it should close and the view to open, if any.
#[derive(Debug, Clone, Copy, PartialEq, Eq, Structural)]
pub struct LayoutManagerModalResponse {
    pub should_close: bool,
    pub transition: Option<ViewTarget>,
}

/// How the layout manager opens a layout: to operate it, or to edit it.
#[derive(Debug, Clone, Copy, PartialEq, Eq, Structural)]
pub enum LayoutOpening {
    Operate,
    Edit,
}

/// The view that opening a layout leads to.
pub open spec fn spec_opening_target(opening: LayoutOpening) -> ViewTarget {
    match opening {
        LayoutOpening::Operate => ViewTarget::Operator,
        LayoutOpening::Edit => ViewTarget::Configuration,
    }
}

/// What the layout manager reports after opening a layout: when the layout became active, the
/// manager closes and the operator view (to operate) or the configuration view (to edit) opens;
/// otherwise the manager stays open and no view opens.
pub fn opening_response(opening: LayoutOpening, activated: bool) -> (r: LayoutManagerModalResponse)
    ensures
        r == (if activated {
            LayoutManagerModalResponse { should_close: true, transition: Some(spec_opening_target(opening)) }
        } else {
            LayoutManagerModalResponse { should_close: false, transition: None }
        }),
{
    if activated {
        let target = match opening {
            LayoutOpening::Operate => ViewTarget::Operator,
            LayoutOpening::Edit => ViewTarget::Configuration,
        };
        LayoutManagerModalResponse { should_close: true, transition: Some(target) }
    } else {
        LayoutManagerModalResponse { should_close: false, transition: None }
    }
}

/// Returns whether popup interaction should close the popup this frame: on an explicit close
/// request, or on a pointer press outside a popup that was already open in the previous frame
/// (so that the press that opened it does not close it).
pub fn should_close_popup(was_open_last_frame: bool, close_requested: bool, pointer_pressed_elsewhere: bool) -> (r:
    bool)
    ensures
        r == (close_requested || (was_open_last_frame && pointer_pressed_elsewhere)),
{
    close_requested || (was_open_last_frame && pointer_pressed_elsewhere)
}

/// The smallest number of grid rows or columns.
pub const MIN_GRID_VALUE: u32 = 1;

/// The largest number of grid rows or columns.
pub const MAX_GRID_VALUE: u32 = 100;

/// Clamps a grid row or column count to the allowed range.
pub fn clamp_count(value: u32) -> (r: u32)
    ensures
        r == (if value < MIN_GRID_VALUE {
            MIN_GRID_VALUE
        } else if value > MAX_GRID_VALUE {
            MAX_GRID_VALUE
        } else {
            value
        }),
{
    if value < MIN_GRID_VALUE {
        MIN_GRID_VALUE
    } else if value > MAX_GRID_VALUE {
        MAX_GRID_VALUE
    } else {
        value
    }
}

/// Whether the inline name editor stays open, cancels, or submits.
#[derive(Debug, Clone, Copy, PartialEq, Eq, Structural)]
pub enum InlineEditIntent {
    Continue,
    Cancel,
    Submit { explicit: bool },
}

/// Decides what the inline name editor does this frame: Escape cancels before anything else,
/// Enter submits explicitly, losing focus submits implicitly, and otherwise editing continues.
pub fn inline_edit_intent(escape: bool, enter: bool, lost_focus: bool) -> (r: InlineEditIntent)
    ensures
        r == (if escape {
            InlineEditIntent::Cancel
        } else if enter {
            InlineEditIntent::Submit { explicit: true }
        } else if lost_focus {
            InlineEditIntent::Submit { explicit: false }
        } else {
            InlineEditIntent::Continue
        }),
{
    if escape {
        InlineEditIntent::Cancel
    } else if enter {
        InlineEditIntent::Submit { explicit: true }
    } else if lost_focus {
        InlineEditIntent::Submit { explicit: false }
    } else {
        InlineEditIntent::Continue
    }
}

/// Why an inline name edit was refused: the name is invalid, or storing the layout failed.
#[derive(Debug, Clone)]
pub enum InlineEditError {
    Validation(String),
    Store(String),
}

impl InlineEditError {
    /// Returns the message shown beside the inline editor.
    pub fn message(&self) -> (s: &str)
        ensures
            s@ == match self {
                InlineEditError::Validation(m) => m@,
                InlineEditError::Store(m) => m@,
            },
    {
        match self {
            InlineEditError::Validation(message) => message.as_str(),
            InlineEditError::Store(message) => message.as_str(),
        }
    }
}

/// Returns the character position after the complete text, where a collapsed cursor is placed.
pub fn cursor_at_text_end(value: &str) -> (n: usize)
    ensures
        n == value@.len(),
{
    value.unicode_len()
}

} // verus!
