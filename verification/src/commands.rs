//! The shell commands the plugin asks the host to run, and where the files
//! they read live.
use vstd::prelude::*;
use vstd::string::StringExecFns;
use crate::config::names_of;
use crate::model::Action;
use crate::state::{own_tab, State};
use crate::text::{chars_of, decimal, push_decimal, replace, replace_chars, string_of};

verus! {

/// What an [`Action`] asks for, with its strings as character sequences.
pub enum ActionV {
    SetSelectable(bool),
    SwitchTabTo(u32),
    RunCommand(Seq<Seq<char>>, Option<Seq<char>>),
    PollLater,
    BreakPanesToTab(Seq<u32>, usize),
    UnblockCliPipe(Seq<char>),
}

impl View for Action {
    type V = ActionV;

    open spec fn view(&self) -> ActionV {
        match self {
            Action::SetSelectable(b) => ActionV::SetSelectable(*b),
            Action::SwitchTabTo(n) => ActionV::SwitchTabTo(*n),
            Action::RunCommand { args, flow } => ActionV::RunCommand(
                names_of(args@),
                match flow {
                    Some(f) => Some(f@),
                    None => None,
                },
            ),
            Action::PollLater => ActionV::PollLater,
            Action::BreakPanesToTab { panes, tab } => ActionV::BreakPanesToTab(panes@, *tab),
            Action::UnblockCliPipe(id) => ActionV::UnblockCliPipe(id@),
        }
    }
}

/// The views of a list of actions.
pub open spec fn acts(v: Seq<Action>) -> Seq<ActionV> {
    v.map_values(|a: Action| a@)
}

// ------------------------------------------------------------ paths

/// The parent that `std::path::Path::parent` gives for the path `p`, as text,
/// or `None` where the path has no parent.
pub uninterp spec fn path_parent(p: Seq<char>) -> Option<Seq<char>>;

/// Calls `std::path::Path::parent` on `p` and turns the parent into a `String`
/// (`to_string_lossy`, which keeps a path made from a `&str` as it is). The
/// contract claims that the result depends on `p` alone ([`path_parent`]) and
/// that the empty path has no parent, as the documentation of `parent` says.
#[verifier::external_body]
pub(crate) fn parent_dir(p: &str) -> (r: Option<String>)
    ensures
        match r {
            Some(d) => path_parent(p@) == Some(d@),
            None => path_parent(p@) is None,
        },
        p@.len() == 0 ==> r is None,
{
    match std::path::Path::new(p).parent() {
        Some(d) => Some(d.to_string_lossy().to_string()),
        None => None,
    }
}

/// The directory of a file, or the empty text where the path has no parent.
pub open spec fn dir_of(p: Seq<char>) -> Seq<char> {
    match path_parent(p) {
        Some(d) => d,
        None => Seq::empty(),
    }
}

/// The directory of `p`, or the empty text where the path has no parent.
pub fn dir_string(p: &str) -> (d: String)
    ensures
        d@ == dir_of(p@),
{
    match parent_dir(p) {
        Some(d) => d,
        None => String::new(),
    }
}

// ------------------------------------------------------------ commands

/// A command run through `sh -c`.
pub open spec fn shell(cmd: Seq<char>, flow: Option<Seq<char>>) -> ActionV {
    ActionV::RunCommand(seq!["sh"@, "-c"@, cmd], flow)
}

/// The poll: one shell command that prints the state file, the attention
/// file, the archived list, the two marks, the order file, the priorities
/// and the tail of the focus log, separated by lines `@@`.
pub open spec fn poll_command(st: &State) -> Seq<char> {
    let d = dir_of(st.estado_file@);
    "cat '"@ + st.estado_file@ + "' 2>/dev/null; printf '\\n@@\\n'; cat '"@ + st.atencion_file@
        + "' 2>/dev/null; printf '\\n@@\\n'; cat '"@ + st.archivados_file@
        + "' 2>/dev/null; printf '\\n@@\\n'; [ -e '"@ + d
        + "/archivados.mostrar' ] && echo 1; printf '\\n@@\\n'; [ -e '"@ + d
        + "/filas.on' ] && echo 1; printf '\\n@@\\n'; cat '"@ + d
        + "/orden' 2>/dev/null; printf '\\n@@\\n'; cat '"@ + d
        + "/prioridades.json' 2>/dev/null; printf '\\n@@\\n'; tail -n 400 '"@ + st.tiempo_file@
        + "' 2>/dev/null"@
}

/// What the poll asks for: nothing before the permissions are granted or
/// without a state file.
pub open spec fn poll(st: &State) -> Seq<ActionV> {
    if !st.permissions_granted || st.estado_file@.len() == 0 {
        Seq::empty()
    } else {
        seq![shell(poll_command(st), Some("sondeo"@))]
    }
}

/// Reading the state file.
pub open spec fn read_estado(st: &State) -> Seq<ActionV> {
    if st.estado_file@.len() == 0 || !st.permissions_granted {
        Seq::empty()
    } else {
        seq![ActionV::RunCommand(seq!["cat"@, st.estado_file@], Some("estado"@))]
    }
}

/// Reading the archived list.
pub open spec fn read_archivados(st: &State) -> Seq<ActionV> {
    if !st.permissions_granted || st.archivados_file@.len() == 0 {
        Seq::empty()
    } else {
        seq![ActionV::RunCommand(seq!["cat"@, st.archivados_file@], Some("archivados"@))]
    }
}

/// The command that sets (`touch`) or clears (`rm -f`) the mark that shows
/// the archived tabs.
pub open spec fn mark_command(st: &State, mostrar: bool) -> Seq<char> {
    let d = dir_of(st.estado_file@);
    if mostrar {
        "touch '"@ + d + "/archivados.mostrar'"@
    } else {
        "rm -f '"@ + d + "/archivados.mostrar'"@
    }
}

/// Writing or clearing the mark that shows the archived tabs.
pub open spec fn mark_archivados(st: &State, mostrar: bool) -> Seq<ActionV> {
    if !st.permissions_granted || st.estado_file@.len() == 0 {
        Seq::empty()
    } else {
        seq![shell(mark_command(st, mostrar), None)]
    }
}

/// The command that opens the order menu as a floating pane.
pub open spec fn order_command(st: &State) -> Seq<char> {
    "zellij action new-pane --floating --close-on-exit -n '⌥O orden' -- '"@ + dir_of(
        st.estado_file@,
    ) + "/bin/flow-orden'"@
}

/// Opening the order menu.
pub open spec fn open_order(st: &State) -> Seq<ActionV> {
    if !st.permissions_granted || st.estado_file@.len() == 0 {
        Seq::empty()
    } else {
        seq![shell(order_command(st), None)]
    }
}

/// A name made safe inside single quotes.
pub open spec fn quoted(name: Seq<char>) -> Seq<char> {
    replace(name, "'"@, "'\"'\"'"@)
}

/// The 1-based position of the tab where this instance lives, 0 if unknown.
pub open spec fn own_position(st: &State) -> nat {
    match own_tab(st.panes@, st.propio_id) {
        Some(p) => (p + 1) as nat,
        None => 0,
    }
}

/// The command that notes a focus change: through `bin/flow-foco` next to the
/// log when it exists, else by appending "time<TAB>name" to the log.
pub open spec fn focus_command(st: &State, nombre: Seq<char>) -> Seq<char> {
    let d = dir_of(st.tiempo_file@);
    let s = quoted(nombre);
    "F='"@ + d + "/bin/flow-foco'; if [ -x \"$F\" ]; then \"$F\" '"@ + s + "' "@ + decimal(
        own_position(st),
    ) + "; else printf '%s\t%s\n' \"$(date +%Y-%m-%dT%H:%M:%S)\" '"@ + s + "' >> '"@
        + st.tiempo_file@ + "'; fi"@
}

/// Noting that the tab `nombre` got the focus.
pub open spec fn note_focus(st: &State, nombre: Seq<char>) -> Seq<ActionV> {
    if !st.permissions_granted || st.tiempo_file@.len() == 0 {
        Seq::empty()
    } else {
        seq![shell(focus_command(st, nombre), Some("tiempo"@))]
    }
}

fn shell_action(cmd: String, flow: Option<&str>) -> (a: Action)
    ensures
        a@ == shell(
            cmd@,
            match flow {
                Some(f) => Some(f@),
                None => None,
            },
        ),
{
    let mut args: Vec<String> = Vec::new();
    args.push(String::from_str("sh"));
    args.push(String::from_str("-c"));
    args.push(cmd);
    assert(names_of(args@) =~= seq!["sh"@, "-c"@, cmd@]);
    let flow = match flow {
        Some(f) => Some(f.to_string()),
        None => None,
    };
    Action::RunCommand { args, flow }
}

fn cat_action(file: &String, flow: &str) -> (a: Action)
    ensures
        a@ == ActionV::RunCommand(seq!["cat"@, file@], Some(flow@)),
{
    let mut args: Vec<String> = Vec::new();
    args.push(String::from_str("cat"));
    args.push(file.clone());
    assert(names_of(args@) =~= seq!["cat"@, file@]);
    Action::RunCommand { args, flow: Some(flow.to_string()) }
}

impl State {
    /// The poll command (see [`poll_command`]).
    pub fn poll_text(&self) -> (s: String)
        ensures
            s@ == poll_command(self),
    {
        let d = dir_string(self.estado_file.as_str());
        let mut s = String::new();
        s.append("cat '");
        s.append(self.estado_file.as_str());
        s.append("' 2>/dev/null; printf '\\n@@\\n'; cat '");
        s.append(self.atencion_file.as_str());
        s.append("' 2>/dev/null; printf '\\n@@\\n'; cat '");
        s.append(self.archivados_file.as_str());
        s.append("' 2>/dev/null; printf '\\n@@\\n'; [ -e '");
        s.append(d.as_str());
        s.append("/archivados.mostrar' ] && echo 1; printf '\\n@@\\n'; [ -e '");
        s.append(d.as_str());
        s.append("/filas.on' ] && echo 1; printf '\\n@@\\n'; cat '");
        s.append(d.as_str());
        s.append("/orden' 2>/dev/null; printf '\\n@@\\n'; cat '");
        s.append(d.as_str());
        s.append("/prioridades.json' 2>/dev/null; printf '\\n@@\\n'; tail -n 400 '");
        s.append(self.tiempo_file.as_str());
        s.append("' 2>/dev/null");
        assert(s@ =~= poll_command(self));
        s
    }

    /// Asks the host for the state file, the attention file, the archived list,
    /// the marks, the order, the priorities and the focus log in one command.
    pub fn sondear(&self) -> (r: Vec<Action>)
        ensures
            acts(r@) == poll(self),
    {
        let mut r: Vec<Action> = Vec::new();
        if !self.permissions_granted || self.estado_file.as_str().is_empty() {
            assert(acts(r@) =~= poll(self));
            return r;
        }
        let cmd = self.poll_text();
        r.push(shell_action(cmd, Some("sondeo")));
        assert(acts(r@) =~= poll(self));
        r
    }

    /// Asks the host for the state file.
    pub fn leer_estado(&self) -> (r: Vec<Action>)
        ensures
            acts(r@) == read_estado(self),
    {
        let mut r: Vec<Action> = Vec::new();
        if self.estado_file.as_str().is_empty() || !self.permissions_granted {
            assert(acts(r@) =~= read_estado(self));
            return r;
        }
        r.push(cat_action(&self.estado_file, "estado"));
        assert(acts(r@) =~= read_estado(self));
        r
    }

    /// Asks the host for the archived list.
    pub fn leer_archivados(&self) -> (r: Vec<Action>)
        ensures
            acts(r@) == read_archivados(self),
    {
        let mut r: Vec<Action> = Vec::new();
        if !self.permissions_granted || self.archivados_file.as_str().is_empty() {
            assert(acts(r@) =~= read_archivados(self));
            return r;
        }
        r.push(cat_action(&self.archivados_file, "archivados"));
        assert(acts(r@) =~= read_archivados(self));
        r
    }

    /// Writes (`mostrar`) or clears the mark that makes the other instances
    /// show the archived tabs.
    pub fn marcar_archivados(&self, mostrar: bool) -> (r: Vec<Action>)
        ensures
            acts(r@) == mark_archivados(self, mostrar),
    {
        let mut r: Vec<Action> = Vec::new();
        if !self.permissions_granted || self.estado_file.as_str().is_empty() {
            assert(acts(r@) =~= mark_archivados(self, mostrar));
            return r;
        }
        let d = dir_string(self.estado_file.as_str());
        let mut cmd = String::new();
        if mostrar {
            cmd.append("touch '");
        } else {
            cmd.append("rm -f '");
        }
        cmd.append(d.as_str());
        cmd.append("/archivados.mostrar'");
        assert(cmd@ =~= mark_command(self, mostrar));
        r.push(shell_action(cmd, None));
        assert(acts(r@) =~= mark_archivados(self, mostrar));
        r
    }

    /// Opens the order menu (`bin/flow-orden`) as a floating pane.
    pub fn abrir_orden(&self) -> (r: Vec<Action>)
        ensures
            acts(r@) == open_order(self),
    {
        let mut r: Vec<Action> = Vec::new();
        if !self.permissions_granted || self.estado_file.as_str().is_empty() {
            assert(acts(r@) =~= open_order(self));
            return r;
        }
        let d = dir_string(self.estado_file.as_str());
        let mut cmd = String::new();
        cmd.append("zellij action new-pane --floating --close-on-exit -n '⌥O orden' -- '");
        cmd.append(d.as_str());
        cmd.append("/bin/flow-orden'");
        assert(cmd@ =~= order_command(self));
        r.push(shell_action(cmd, None));
        assert(acts(r@) =~= open_order(self));
        r
    }

    /// Notes in the focus log that the tab `nombre` got the focus.
    pub fn anotar_tiempo(&self, nombre: &str) -> (r: Vec<Action>)
        ensures
            acts(r@) == note_focus(self, nombre@),
    {
        let mut r: Vec<Action> = Vec::new();
        if !self.permissions_granted || self.tiempo_file.as_str().is_empty() {
            assert(acts(r@) =~= note_focus(self, nombre@));
            return r;
        }
        let name = chars_of(nombre);
        let pat = chars_of("'");
        proof {
            reveal_strlit("'");
        }
        let rep = chars_of("'\"'\"'");
        let safe_chars = replace_chars(&name, &pat, &rep);
        let safe = string_of(&safe_chars);
        let d = dir_string(self.tiempo_file.as_str());
        let pos1: u128 = match self.propio_tab() {
            Some(p) => p as u128 + 1,
            None => 0,
        };
        let mut cmd = String::new();
        cmd.append("F='");
        cmd.append(d.as_str());
        cmd.append("/bin/flow-foco'; if [ -x \"$F\" ]; then \"$F\" '");
        cmd.append(safe.as_str());
        cmd.append("' ");
        push_decimal(&mut cmd, pos1);
        cmd.append("; else printf '%s\t%s\n' \"$(date +%Y-%m-%dT%H:%M:%S)\" '");
        cmd.append(safe.as_str());
        cmd.append("' >> '");
        cmd.append(self.tiempo_file.as_str());
        cmd.append("'; fi");
        assert(cmd@ =~= focus_command(self, nombre@));
        r.push(shell_action(cmd, Some("tiempo")));
        assert(acts(r@) =~= note_focus(self, nombre@));
        r
    }
}

} // verus!
