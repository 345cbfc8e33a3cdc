//! The plugin's entry points besides events: loading its configuration,
//! messages through pipes, and drawing.
use vstd::prelude::*;
use vstd::string::StringExecFns;
use crate::clicks::{move_panes, row_map_fits};
use crate::commands::{acts, dir_of, path_parent, read_archivados, read_estado, ActionV};
use crate::config::{config_get, config_of, configured, lookup, names_of, or_keep, ConfigV};
use crate::model::{Action, PipeMessage};
use crate::render::{
    archive_key, drawn, fits_counts, plan, plan_ok, row_tabs,
};
use crate::model::InputMode;
use crate::state::State;
use crate::table::{str_eq, table_get, table_insert, table_remove};

verus! {

/// What a pipe message does. A message from the command line is released
/// first. Then, by name: `set_selectable` with "true" / "false" sets whether
/// the plugin can be selected; `toggle_selectable` flips it; `estado_reload`
/// and `archivados_reload` read those files again; `mudar` moves panes (see
/// [`move_panes`]); `archivados_toggle` flips the archive view; `atencion`
/// sets a tab's attention mark (an empty one clears it); `activity` is
/// drawn when its payload reads. Only the archive view, the attention marks
/// and activity are drawn again.
pub open spec fn piped(s0: State, msg: PipeMessage, s1: State, render: bool, a: Seq<ActionV>) -> bool {
    let unblock: Seq<ActionV> = match msg.cli_id {
        Some(id) => seq![ActionV::UnblockCliPipe(id@)],
        None => Seq::empty(),
    };
    let n = msg.name@;
    if n == "set_selectable"@ {
        &&& !render
        &&& match msg.payload {
            Some(p) => if p@ == "true"@ {
                s1 == State { is_selectable: true, ..s0 } && a == unblock + seq![
                    ActionV::SetSelectable(true),
                ]
            } else if p@ == "false"@ {
                s1 == State { is_selectable: false, ..s0 } && a == unblock + seq![
                    ActionV::SetSelectable(false),
                ]
            } else {
                s1 == s0 && a == unblock
            },
            None => s1 == s0 && a == unblock,
        }
    } else if n == "toggle_selectable"@ {
        &&& !render
        &&& s1 == State { is_selectable: !s0.is_selectable, ..s0 }
        &&& a == unblock + seq![ActionV::SetSelectable(!s0.is_selectable)]
    } else if n == "estado_reload"@ {
        !render && s1 == s0 && a == unblock + read_estado(&s0)
    } else if n == "mudar"@ {
        &&& !render
        &&& s1 == s0
        &&& a == unblock + match msg.mudar {
            Some(m) => move_panes(&s0, m.0@, m.1@),
            None => Seq::empty(),
        }
    } else if n == "archivados_reload"@ {
        !render && s1 == s0 && a == unblock + read_archivados(&s0)
    } else if n == "archivados_toggle"@ {
        render && s1 == State { mostrar_archivados: !s0.mostrar_archivados, ..s0 } && a == unblock
    } else if n == "atencion"@ {
        &&& a == unblock
        &&& match msg.atencion {
            Some(e) => if e.0@.len() > 0 {
                &&& render
                &&& s1 == State { atencion: s1.atencion, ..s0 }
                &&& forall|k: Seq<char>| #[trigger]
                    table_get(s1.atencion@, k) == if k == e.0@ {
                        if e.1@.len() == 0 {
                            None
                        } else {
                            Some(e.1)
                        }
                    } else {
                        table_get(s0.atencion@, k)
                    }
            } else {
                !render && s1 == s0
            },
            None => !render && s1 == s0,
        }
    } else if n == "activity"@ {
        render == msg.activity && s1 == s0 && a == unblock
    } else {
        !render && s1 == s0 && a == unblock
    }
}

/// The files and settings after loading the configuration `cfg`: the style
/// is configured; the state, attention and focus-log files are taken from
/// their keys; when the state file has a directory, the attention file, the
/// focus log and the archived list that are still unset default to files in
/// it (joined as `dir/name`, so a bare state-file name, whose directory is
/// empty, gives `/name`); and the instance notes its own plugin id.
pub open spec fn loaded(s0: State, cfg: ConfigV, id: u32, s1: State) -> bool {
    let e = or_keep(lookup(cfg, "estado_file"@), s0.estado_file@);
    let at = or_keep(lookup(cfg, "atencion_file"@), s0.atencion_file@);
    let ti = or_keep(lookup(cfg, "tiempo_file"@), s0.tiempo_file@);
    let derive = path_parent(e) is Some && e.len() > 0;
    let d = dir_of(e);
    &&& s1 == State {
        style: s1.style,
        estado_file: s1.estado_file,
        atencion_file: s1.atencion_file,
        tiempo_file: s1.tiempo_file,
        archivados_file: s1.archivados_file,
        propio_id: id,
        ..s0
    }
    &&& configured(s0.style, cfg, s1.style)
    &&& s1.estado_file@ == e
    &&& s1.atencion_file@ == if derive && at.len() == 0 {
        in_dir(d, "atencion.json"@)
    } else {
        at
    }
    &&& s1.tiempo_file@ == if derive && ti.len() == 0 {
        in_dir(d, "tiempo.log"@)
    } else {
        ti
    }
    &&& s1.archivados_file@ == if derive && s0.archivados_file@.len() == 0 {
        in_dir(d, "archivados.json"@)
    } else {
        s0.archivados_file@
    }
}

/// The path of the file `name` in the directory `d`: `d`, a slash, and
/// `name` (so `/name` when `d` is empty).
pub open spec fn in_dir(d: Seq<char>, name: Seq<char>) -> Seq<char> {
    d + "/"@ + name
}

fn set_from(field: &mut String, v: Option<&String>)
    ensures
        final(field)@ == or_keep(
            match v {
                Some(s) => Some(s@),
                None => None,
            },
            old(field)@,
        ),
{
    if let Some(s) = v {
        *field = s.clone();
    }
}

fn file_in(dir: &String, name: &str) -> (r: String)
    ensures
        r@ == in_dir(dir@, name@),
{
    let mut r = dir.clone();
    r.push('/');
    r.append(name);
    proof {
        reveal_strlit("/");
    }
    assert(r@ =~= dir@ + "/"@ + name@);
    r
}

/// Whether the bar is drawn: the permissions are granted and there are tabs.
pub open spec fn drawable(s: &State) -> bool {
    s.permissions_granted && s.tabs@.len() > 0
}

/// Drawing `rows` rows of `cols` columns from `s0` gave `r` and left `s1`:
/// nothing is drawn unless [`drawable`]; otherwise the rows of the [`plan`]
/// are drawn, each row's tab is recorded, and (in normal mode, with room for
/// the bottom row) the columns of the bottom row's shortcuts. The number of
/// rows is kept either way.
pub open spec fn rendered(
    s0: State,
    rows: usize,
    cols: usize,
    act: Seq<Vec<String>>,
    s1: State,
    r: Option<Vec<String>>,
) -> bool {
    if !drawable(&s0) {
        r is None && s1 == State { last_rows: rows, ..s0 }
    } else {
        &&& r matches Some(lines) && names_of(lines@) == drawn(&s0, cols as nat, plan(&s0, rows as nat, act))
        &&& s1 == State {
            last_rows: rows,
            row_map: s1.row_map,
            ultimas_filas: rows,
            col_arch: s1.col_arch,
            col_orden: s1.col_orden,
            ..s0
        }
        &&& s1.row_map@ == row_tabs(plan(&s0, rows as nat, act))
        &&& if rows >= 2 && s0.mode == InputMode::Normal {
            &&& s1.col_arch == 4
            &&& s1.col_orden == 4 + archive_key(&s0).len() + 2
        } else {
            &&& s1.col_arch == s0.col_arch
            &&& s1.col_orden == s0.col_orden
        }
    }
}

impl State {
    /// Reads the configuration (see [`loaded`]); `plugin_id` is this
    /// instance's id.
    pub fn load(&mut self, cfg: &Vec<(String, String)>, plugin_id: u32)
        ensures
            loaded(*old(self), config_of(cfg@), plugin_id, *final(self)),
    {
        self.style.configure(cfg);
        set_from(&mut self.estado_file, config_get(cfg, "estado_file"));
        set_from(&mut self.atencion_file, config_get(cfg, "atencion_file"));
        set_from(&mut self.tiempo_file, config_get(cfg, "tiempo_file"));
        let parent = crate::commands::parent_dir(self.estado_file.as_str());
        if let Some(dir) = parent {
            if !self.estado_file.as_str().is_empty() {
                if self.atencion_file.as_str().is_empty() {
                    self.atencion_file = file_in(&dir, "atencion.json");
                }
                if self.tiempo_file.as_str().is_empty() {
                    self.tiempo_file = file_in(&dir, "tiempo.log");
                }
                if self.archivados_file.as_str().is_empty() {
                    self.archivados_file = file_in(&dir, "archivados.json");
                }
            }
        }
        self.propio_id = plugin_id;
    }

    /// Handles a pipe message (see [`piped`]): returns whether to draw again
    /// and what to ask the host for.
    pub fn pipe(&mut self, msg: PipeMessage) -> (r: (bool, Vec<Action>))
        ensures
            piped(*old(self), msg, *final(self), r.0, acts(r.1@)),
    {
        let ghost s0 = *self;
        let ghost m0 = msg;
        let mut a: Vec<Action> = Vec::new();
        if let Some(id) = &msg.cli_id {
            a.push(Action::UnblockCliPipe(id.clone()));
        }
        let ghost unblock = acts(a@);
        assert(unblock =~= match msg.cli_id {
            Some(id) => seq![ActionV::UnblockCliPipe(id@)],
            None => Seq::<ActionV>::empty(),
        });
        let name = msg.name.as_str();
        if str_eq(name, "set_selectable") {
            let choice: Option<bool> = match &msg.payload {
                Some(p) => if str_eq(p.as_str(), "true") {
                    Some(true)
                } else if str_eq(p.as_str(), "false") {
                    Some(false)
                } else {
                    None
                },
                None => None,
            };
            if let Some(b) = choice {
                self.is_selectable = b;
                a.push(Action::SetSelectable(b));
                assert(acts(a@) =~= unblock + seq![ActionV::SetSelectable(b)]);
            }
            return (false, a);
        }
        if str_eq(name, "toggle_selectable") {
            self.is_selectable = !self.is_selectable;
            a.push(Action::SetSelectable(self.is_selectable));
            assert(acts(a@) =~= unblock + seq![ActionV::SetSelectable(!s0.is_selectable)]);
            return (false, a);
        }
        if str_eq(name, "estado_reload") {
            let mut more = self.leer_estado();
            let ghost vm = acts(more@);
            a.append(&mut more);
            assert(acts(a@) =~= unblock + vm);
            return (false, a);
        }
        if str_eq(name, "mudar") {
            if let Some(m) = &msg.mudar {
                let mut more = self.mudar(m.0.as_str(), m.1.as_str());
                let ghost vm = acts(more@);
                a.append(&mut more);
                assert(acts(a@) =~= unblock + vm);
            } else {
                assert(acts(a@) =~= unblock + Seq::<ActionV>::empty());
            }
            return (false, a);
        }
        if str_eq(name, "archivados_reload") {
            let mut more = self.leer_archivados();
            let ghost vm = acts(more@);
            a.append(&mut more);
            assert(acts(a@) =~= unblock + vm);
            return (false, a);
        }
        if str_eq(name, "archivados_toggle") {
            self.mostrar_archivados = !self.mostrar_archivados;
            return (true, a);
        }
        if str_eq(name, "atencion") {
            let PipeMessage { cli_id: _, name: _, payload: _, mudar: _, atencion, activity: _ } = msg;
            if let Some(e) = atencion {
                let (tab, estado) = e;
                if !tab.as_str().is_empty() {
                    if estado.as_str().is_empty() {
                        table_remove(&mut self.atencion, tab.as_str());
                    } else {
                        table_insert(&mut self.atencion, tab, estado);
                    }
                    return (true, a);
                }
            }
            return (false, a);
        }
        if str_eq(name, "activity") {
            return (msg.activity, a);
        }
        (false, a)
    }

    /// Draws the bar for `rows` rows of `cols` columns (see
    /// [`State::render_vertical`]), `act` holding each tab's activity rows;
    /// nothing is drawn before the permissions are granted or without tabs.
    /// The number of rows is kept for clicks either way.
    pub fn render(&mut self, rows: usize, cols: usize, act: &Vec<Vec<String>>) -> (r: Option<
        Vec<String>,
    >)
        requires
            drawable(old(self)) ==> fits_counts(old(self)) && plan_ok(
                old(self),
                plan(old(self), rows as nat, act@),
            ),
        ensures
            rendered(*old(self), rows, cols, act@, *final(self), r),
            row_map_fits(old(self)) ==> row_map_fits(final(self)),
    {
        if !self.permissions_granted || self.tabs.len() == 0 {
            self.last_rows = rows;
            return None;
        }
        let lines = self.render_vertical(rows, cols, act);
        self.last_rows = rows;
        Some(lines)
    }
}

} // verus!
