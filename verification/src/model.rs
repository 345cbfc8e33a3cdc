//! What the plugin knows of the host: tabs, panes, input modes, the per-tab
//! state file entries, the events it receives and the actions it asks for.
use vstd::prelude::*;
use vstd::string::StringExecFns;

verus! {

/// A tab of the session.
#[derive(Debug)]
pub struct Tab {
    /// 0-based position.
    pub position: usize,
    pub name: String,
    pub active: bool,
    pub is_fullscreen_active: bool,
    pub is_sync_panes_active: bool,
}

impl Clone for Tab {
    fn clone(&self) -> (r: Self)
        ensures
            r.position == self.position,
            r.name@ == self.name@,
            r.active == self.active,
            r.is_fullscreen_active == self.is_fullscreen_active,
            r.is_sync_panes_active == self.is_sync_panes_active,
    {
        Tab {
            position: self.position,
            name: self.name.clone(),
            active: self.active,
            is_fullscreen_active: self.is_fullscreen_active,
            is_sync_panes_active: self.is_sync_panes_active,
        }
    }
}

/// A pane of a tab.
#[derive(Debug)]
pub struct Pane {
    pub id: u32,
    pub is_plugin: bool,
    pub is_focused: bool,
    pub title: String,
}

/// The panes of the tab at `position`.
#[derive(Debug)]
pub struct PaneGroup {
    pub position: usize,
    pub panes: Vec<Pane>,
}

/// The host's input modes.
#[derive(Clone, Copy, Debug, PartialEq, Eq, Structural)]
pub enum InputMode {
    Normal,
    Locked,
    Resize,
    Pane,
    Tab,
    Scroll,
    EnterSearch,
    Search,
    RenameTab,
    RenamePane,
    Session,
    Move,
    Prompt,
    Tmux,
}

/// The mode's name in upper case.
pub open spec fn mode_title(m: InputMode) -> Seq<char> {
    match m {
        InputMode::Normal => "NORMAL"@,
        InputMode::Locked => "LOCKED"@,
        InputMode::Resize => "RESIZE"@,
        InputMode::Pane => "PANE"@,
        InputMode::Tab => "TAB"@,
        InputMode::Scroll => "SCROLL"@,
        InputMode::EnterSearch => "ENTERSEARCH"@,
        InputMode::Search => "SEARCH"@,
        InputMode::RenameTab => "RENAMETAB"@,
        InputMode::RenamePane => "RENAMEPANE"@,
        InputMode::Session => "SESSION"@,
        InputMode::Move => "MOVE"@,
        InputMode::Prompt => "PROMPT"@,
        InputMode::Tmux => "TMUX"@,
    }
}

impl InputMode {
    /// The mode's name in upper case.
    pub fn title(self) -> (s: String)
        ensures
            s@ == mode_title(self),
    {
        match self {
            InputMode::Normal => String::from_str("NORMAL"),
            InputMode::Locked => String::from_str("LOCKED"),
            InputMode::Resize => String::from_str("RESIZE"),
            InputMode::Pane => String::from_str("PANE"),
            InputMode::Tab => String::from_str("TAB"),
            InputMode::Scroll => String::from_str("SCROLL"),
            InputMode::EnterSearch => String::from_str("ENTERSEARCH"),
            InputMode::Search => String::from_str("SEARCH"),
            InputMode::RenameTab => String::from_str("RENAMETAB"),
            InputMode::RenamePane => String::from_str("RENAMEPANE"),
            InputMode::Session => String::from_str("SESSION"),
            InputMode::Move => String::from_str("MOVE"),
            InputMode::Prompt => String::from_str("PROMPT"),
            InputMode::Tmux => String::from_str("TMUX"),
        }
    }
}

/// The state of a tab kept in the state file: a free line ("what is going
/// on") and a list of pending items; an item starting with "▶ " is in progress.
#[derive(Debug)]
pub struct Estado {
    pub estado: String,
    pub pendientes: Vec<String>,
}

impl Clone for Estado {
    fn clone(&self) -> (r: Self)
        ensures
            r.estado@ == self.estado@,
            r.pendientes@.len() == self.pendientes@.len(),
            forall|i: int|
                0 <= i < self.pendientes@.len() ==> #[trigger] r.pendientes@[i]@
                    == self.pendientes@[i]@,
    {
        let mut p: Vec<String> = Vec::new();
        let mut i: usize = 0;
        while i < self.pendientes.len()
            invariant
                i <= self.pendientes@.len(),
                p@.len() == i,
                forall|j: int| 0 <= j < i ==> #[trigger] p@[j]@ == self.pendientes@[j]@,
            decreases self.pendientes@.len() - i,
        {
            p.push(self.pendientes[i].clone());
            i = i + 1;
        }
        Estado { estado: self.estado.clone(), pendientes: p }
    }
}


/// The output of a command the plugin ran.
///
/// The per-tab states and the attention entries are JSON that reads into the
/// library's own records, so they come already read: for the poll, from its
/// first and second parts (see [`crate::events::output_parts`]), trimmed; for the
/// state and attention files, from the whole output. Each is `None` where
/// that text is not valid JSON of that shape.
#[derive(Debug)]
pub struct CommandOutput {
    /// The value of the context key "flow", if any.
    pub flow: Option<String>,
    pub stdout: Vec<u8>,
    /// The per-tab states, by tab name.
    pub estado: Option<Vec<(String, Estado)>>,
    /// The attention entries, as (tab name, the entry's `estado`).
    pub atencion: Option<Vec<(String, String)>>,
}

/// A message sent to the plugin through a pipe.
#[derive(Debug)]
pub struct PipeMessage {
    /// The id of the command-line pipe it came through, if it came from the
    /// command line.
    pub cli_id: Option<String>,
    pub name: String,
    pub payload: Option<String>,
    /// The payload read as a request to move panes (from, to), if it is one.
    pub mudar: Option<(String, String)>,
    /// The payload read as an attention entry (tab, estado), if it is one.
    pub atencion: Option<(String, String)>,
    /// Whether the payload reads as an activity report.
    pub activity: bool,
}

/// What the host tells the plugin.
#[derive(Debug)]
pub enum Event {
    /// The answer to the permission request (`true`: granted).
    PermissionResult(bool),
    /// The input mode; `changed` says whether the host's mode information
    /// differs from what it sent last.
    ModeUpdate { mode: InputMode, changed: bool },
    /// The tabs; `changed` says whether the host's tab list differs from what
    /// it sent last.
    TabUpdate { tabs: Vec<Tab>, changed: bool },
    /// The panes of every tab.
    PaneUpdate(Vec<PaneGroup>),
    /// A left click at (row, column).
    LeftClick(isize, usize),
    ScrollUp,
    ScrollDown,
    /// Any other mouse event.
    OtherMouse,
    /// The polling timer fired.
    Timer,
    /// A command finished.
    CommandResult(CommandOutput),
    /// The sessions changed; the name of the current one, if listed.
    SessionUpdate(Option<String>),
    /// Anything else.
    Other,
}

/// What the plugin asks the host to do.
#[derive(Debug)]
pub enum Action {
    SetSelectable(bool),
    /// Switch to the tab with this 1-based index.
    SwitchTabTo(u32),
    /// Run a command; `flow` is the value of the context key "flow", if any.
    RunCommand { args: Vec<String>, flow: Option<String> },
    /// Poll again later (after six seconds).
    PollLater,
    /// Move these terminal panes to the tab at this position and focus it.
    BreakPanesToTab { panes: Vec<u32>, tab: usize },
    /// Release a pipe opened from the command line.
    UnblockCliPipe(String),
}

} // verus!
