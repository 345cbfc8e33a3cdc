//! What the plugin does with each event from the host: the new state, whether
//! to draw again, and what to ask the host for.
use vstd::prelude::*;
use vstd::string::StringExecFns;
use crate::clicks::{row_map_fits, tab_at_row};
use crate::commands::{acts, mark_archivados, note_focus, open_order, poll, ActionV};
use crate::compare::{
    dedup_names, entry_print, fingerprint, fingerprint_of, keep_set_entries, prio_map,
    same_names, same_prio_table, same_str_table, same_strings, set_entries, uniq,
};
use crate::config::names_of;
use crate::layout::sat_sub;
use crate::model::{Action, CommandOutput, Estado, Event, InputMode, PaneGroup, Tab};
use crate::poll::{
    focus_table, focus_times, json_names, json_names_bytes, json_priorities, lines_of, lossy_text,
    part_separator, poll_parts, prio_pairs, read_names, read_names_bytes, read_priorities,
    split_on, str_map, text_of_bytes,
};
use crate::state::{own_tab, State};
use crate::table::{str_eq, table_find, table_get, table_remove};
use crate::text::{chars_of, string_of, trim, trim_chars};

verus! {

/// `s1` is `s0`: nothing changed.
pub open spec fn unchanged(s0: State, s1: State) -> bool {
    s1 == s0
}

// ------------------------------------------------------------ tabs

/// Index of the first active tab.
pub open spec fn first_active(tabs: Seq<Tab>) -> Option<int>
    decreases tabs.len(),
{
    if tabs.len() == 0 {
        None
    } else if tabs[0].active {
        Some(0)
    } else {
        match first_active(tabs.drop_first()) {
            Some(i) => Some(i + 1),
            None => None,
        }
    }
}

fn first_active_of(tabs: &Vec<Tab>) -> (r: Option<usize>)
    ensures
        match r {
            Some(i) => first_active(tabs@) == Some(i as int) && i < tabs@.len(),
            None => first_active(tabs@) is None,
        },
{
    let mut i: usize = 0;
    assert(tabs@.skip(0) =~= tabs@);
    while i < tabs.len()
        invariant
            i <= tabs@.len(),
            first_active(tabs@) == match first_active(tabs@.skip(i as int)) {
                Some(k) => Some(k + i),
                None => None::<int>,
            },
        decreases tabs@.len() - i,
    {
        assert(tabs@.skip(i as int).drop_first() =~= tabs@.skip(i + 1));
        assert(tabs@.skip(i as int)[0] == tabs@[i as int]);
        if tabs[i].active {
            return Some(i);
        }
        i = i + 1;
    }
    None
}

/// The new tab list: the active tab is the first one marked active (the
/// first tab if none is); when the active tab's name changes, it is noted,
/// its "listo" attention mark is cleared, and the instance that lives in it
/// notes the focus change in the log. It is drawn again when the active tab
/// moves, the host's list changed, or a mark was cleared.
pub open spec fn tabs_done(
    s0: State,
    tabs: Vec<Tab>,
    changed: bool,
    s1: State,
    render: bool,
    a: Seq<ActionV>,
) -> bool {
    let j = first_active(tabs@);
    let idx: int = match j {
        Some(j) => j + 1,
        None => 1,
    };
    let name = tabs@[j->0].name@;
    let switched = j is Some && name != s0.ultimo_tab_activo@;
    let cleared = switched && match table_get(s0.atencion@, name) {
        Some(v) => v@ == "listo"@,
        None => false,
    };
    &&& s1 == State {
        tabs: tabs,
        active_tab_idx: idx as usize,
        ultimo_tab_activo: s1.ultimo_tab_activo,
        atencion: s1.atencion,
        ..s0
    }
    &&& if switched {
        s1.ultimo_tab_activo@ == name
    } else {
        s1.ultimo_tab_activo == s0.ultimo_tab_activo
    }
    &&& if cleared {
        forall|k: Seq<char>| #[trigger]
            table_get(s1.atencion@, k) == if k == name {
                None
            } else {
                table_get(s0.atencion@, k)
            }
    } else {
        s1.atencion == s0.atencion
    }
    &&& render == (s0.active_tab_idx != idx || changed || cleared)
    &&& a == if switched && own_tab(s0.panes@, s0.propio_id) == Some(tabs@[j->0].position) {
        note_focus(&s1, name)
    } else {
        Seq::empty()
    }
}

// ------------------------------------------------------------ clicks

/// A left click: on the bottom row, the order shortcut opens the order menu
/// and the archive shortcut toggles the archive view (and its mark); any
/// other row switches to the tab it selects (see [`tab_at_row`]).
pub open spec fn clicked(s0: State, row: isize, col: usize, s1: State, render: bool, a: Seq<ActionV>) -> bool {
    let r = row as usize;
    if s0.ultimas_filas > 0 && r + 1 == s0.ultimas_filas {
        if col >= s0.col_orden {
            unchanged(s0, s1) && !render && a == open_order(&s0)
        } else if col >= s0.col_arch {
            &&& s1 == State {
                mostrar_archivados: !s0.mostrar_archivados,
                        ..s0
            }
            &&& render
            &&& a == mark_archivados(&s1, !s0.mostrar_archivados)
        } else {
            unchanged(s0, s1) && !render && a.len() == 0
        }
    } else {
        &&& unchanged(s0, s1)
        &&& !render
        &&& a == match tab_at_row(&s0, r as nat) {
            Some(i) => seq![ActionV::SwitchTabTo(i as u32)],
            None => Seq::empty(),
        }
    }
}

/// The tab that scrolling up switches to (1-based): the one before the
/// active tab, but not before the first.
pub open spec fn scroll_up_target(s: State) -> int {
    let p = sat_sub(s.active_tab_idx as int, 1);
    if p >= 1 {
        p as int
    } else {
        1
    }
}

/// The tab that scrolling down switches to (1-based): the one after the
/// active tab, but not after the last.
pub open spec fn scroll_down_target(s: State) -> int {
    if s.active_tab_idx + 1 <= s.tabs@.len() {
        s.active_tab_idx + 1
    } else {
        s.tabs@.len() as int
    }
}

// ------------------------------------------------------------ command output

/// Whether the output came from the flow `f`.
pub open spec fn flow_is(out: CommandOutput, f: Seq<char>) -> bool {
    match out.flow {
        Some(x) => x@ == f,
        None => false,
    }
}

/// The parts of the poll output.
pub open spec fn poll_parts_of(out: CommandOutput) -> Seq<Seq<char>> {
    split_on(lossy_text(out.stdout@), part_separator())
}

/// The parts of a poll output given as bytes (read as UTF-8, invalid
/// sequences replaced).
pub fn output_parts(stdout: &Vec<u8>) -> (r: Vec<String>)
    ensures
        names_of(r@) == split_on(lossy_text(stdout@), part_separator()),
{
    let texto = text_of_bytes(stdout.as_slice());
    poll_parts(texto.as_str())
}

/// Part `i`, if there is one.
pub open spec fn part(p: Seq<Seq<char>>, i: int) -> Option<Seq<char>> {
    if 0 <= i < p.len() {
        Some(p[i])
    } else {
        None
    }
}

/// Whether part `i` holds (apart from white space) the mark "1".
pub open spec fn mark_on(p: Seq<Seq<char>>, i: int) -> bool {
    match part(p, i) {
        Some(t) => trim(t) == "1"@,
        None => false,
    }
}

/// The archived list read from part 2.
pub open spec fn archived_read(p: Seq<Seq<char>>) -> Option<Seq<Seq<char>>> {
    match part(p, 2) {
        Some(t) => json_names(trim(t)),
        None => None,
    }
}

/// The order read from part 5 (empty without it).
pub open spec fn order_read(p: Seq<Seq<char>>) -> Seq<char> {
    match part(p, 5) {
        Some(t) => trim(t),
        None => Seq::empty(),
    }
}

/// The priorities read from part 6.
pub open spec fn prio_read(p: Seq<Seq<char>>) -> Option<Seq<(Seq<char>, u8)>> {
    match part(p, 6) {
        Some(t) => json_priorities(trim(t)),
        None => None,
    }
}

/// Whether the per-tab states read differ (by fingerprint) from those held.
pub open spec fn estado_changes(s0: State, m: Option<Vec<(String, Estado)>>) -> bool {
    match m {
        Some(v) => fingerprint(v@) != fingerprint(s0.estado@),
        None => false,
    }
}

/// Whether the attention entries read (those that are set) differ from those held.
pub open spec fn atencion_changes(s0: State, m: Option<Vec<(String, String)>>) -> bool {
    match m {
        Some(v) => str_map(set_entries(v@)) != str_map(s0.atencion@),
        None => false,
    }
}

/// Whether the archived names read differ (as sets) from those held.
pub open spec fn archivados_change(s0: State, v: Option<Seq<Seq<char>>>) -> bool {
    match v {
        Some(n) => uniq(n).to_set() != names_of(s0.archivados@).to_set(),
        None => false,
    }
}

/// Whether the priorities read differ (as maps) from those held.
pub open spec fn prio_change(s0: State, m: Option<Seq<(Seq<char>, u8)>>) -> bool {
    match m {
        Some(p) => prio_map(p) != prio_map(prio_pairs(s0.prioridades@)),
        None => false,
    }
}

/// Whether the last focus times read from part 7 differ from those held.
pub open spec fn foco_change(s0: State, p: Seq<Seq<char>>) -> bool {
    match part(p, 7) {
        Some(t) => focus_table(lines_of(t)) != str_map(s0.ultimo_foco@),
        None => false,
    }
}

/// The poll output read: each part that reads and differs from what is held
/// replaces it (states, attention marks, archived names, priorities, focus
/// times); the two marks and the order are taken as read. It is drawn again
/// when anything changed, and a new poll is scheduled unless one already is.
pub open spec fn polled(s0: State, out: CommandOutput, s1: State, render: bool, a: Seq<ActionV>) -> bool {
    let p = poll_parts_of(out);
    let ce = estado_changes(s0, out.estado);
    let ca = atencion_changes(s0, out.atencion);
    let arch = archived_read(p);
    let cr = archivados_change(s0, arch);
    let mostrar = mark_on(p, 3);
    let filas = mark_on(p, 4);
    let orden = order_read(p);
    let prio = prio_read(p);
    let cp = prio_change(s0, prio);
    let cf = foco_change(s0, p);
    &&& s1 == State {
        estado: s1.estado,
        atencion: s1.atencion,
        archivados: s1.archivados,
        mostrar_archivados: mostrar,
        filas_estado: filas,
        orden: s1.orden,
        prioridades: s1.prioridades,
        ultimo_foco: s1.ultimo_foco,
        sondeo_programado: true,
        ..s0
    }
    &&& s1.estado == if ce {
        out.estado->0
    } else {
        s0.estado
    }
    &&& if ca {
        s1.atencion@ == set_entries(out.atencion->0@)
    } else {
        s1.atencion == s0.atencion
    }
    &&& if cr {
        names_of(s1.archivados@) == uniq(arch->0)
    } else {
        s1.archivados == s0.archivados
    }
    &&& if orden != s0.orden@ {
        s1.orden@ == orden
    } else {
        s1.orden == s0.orden
    }
    &&& if cp {
        prio_pairs(s1.prioridades@) == prio->0
    } else {
        s1.prioridades == s0.prioridades
    }
    &&& if cf {
        str_map(s1.ultimo_foco@) == focus_table(lines_of(p[7]))
    } else {
        s1.ultimo_foco == s0.ultimo_foco
    }
    &&& a == if s0.sondeo_programado {
        Seq::empty()
    } else {
        seq![ActionV::PollLater]
    }
    &&& render == (ce || ca || cr || mostrar != s0.mostrar_archivados || filas != s0.filas_estado
        || orden != s0.orden@ || cp || cf)
}

/// A finished command: the poll output is read (see [`polled`]); the
/// archived list, the attention file and the state file, when they read,
/// replace what is held and are drawn; other output is ignored.
pub open spec fn command_done(s0: State, out: CommandOutput, s1: State, render: bool, a: Seq<ActionV>) -> bool {
    if flow_is(out, "sondeo"@) {
        polled(s0, out, s1, render, a)
    } else if flow_is(out, "archivados"@) {
        a.len() == 0 && match json_names_bytes(out.stdout@) {
            Some(v) => {
                &&& render
                &&& s1 == State { archivados: s1.archivados, ..s0 }
                &&& names_of(s1.archivados@) == uniq(v)
            },
            None => !render && unchanged(s0, s1),
        }
    } else if flow_is(out, "atencion"@) {
        a.len() == 0 && match out.atencion {
            Some(m) => {
                &&& render
                &&& s1 == State { atencion: s1.atencion, ..s0 }
                &&& s1.atencion@ == set_entries(m@)
            },
            None => !render && unchanged(s0, s1),
        }
    } else if flow_is(out, "estado"@) {
        a.len() == 0 && match out.estado {
            Some(m) => render && s1 == State { estado: m, ..s0 },
            None => !render && unchanged(s0, s1),
        }
    } else {
        !render && unchanged(s0, s1) && a.len() == 0
    }
}

// ------------------------------------------------------------ one event

/// What an event does once the permissions are granted (the queue of pending
/// events is left as it is).
pub open spec fn handled(s0: State, ev: Event, s1: State, render: bool, a: Seq<ActionV>) -> bool {
    match ev {
        Event::ModeUpdate { mode, changed } => {
            &&& s1 == State { mode: mode, ..s0 }
            &&& render == changed
            &&& a.len() == 0
        },
        Event::TabUpdate { tabs, changed } => tabs_done(s0, tabs, changed, s1, render, a),
        Event::PaneUpdate(groups) => {
            &&& s1 == State { panes: groups, ..s0 }
            &&& render
            &&& a.len() == 0
        },
        Event::LeftClick(row, col) => clicked(s0, row, col, s1, render, a),
        Event::ScrollUp => {
            &&& unchanged(s0, s1)
            &&& !render
            &&& a == seq![ActionV::SwitchTabTo(scroll_up_target(s0) as u32)]
        },
        Event::ScrollDown => {
            &&& unchanged(s0, s1)
            &&& !render
            &&& a == seq![ActionV::SwitchTabTo(scroll_down_target(s0) as u32)]
        },
        Event::Timer => {
            &&& s1 == State { sondeo_programado: false, ..s0 }
            &&& !render
            &&& a == poll(&s1)
        },
        Event::CommandResult(out) => command_done(s0, out, s1, render, a),
        Event::SessionUpdate(name) => match name {
            Some(n) => if n@ != s0.own_session@ {
                &&& s1 == State { own_session: n, ..s0 }
                &&& render
                &&& a.len() == 0
            } else {
                unchanged(s0, s1) && !render && a.len() == 0
            },
            None => unchanged(s0, s1) && !render && a.len() == 0,
        },
        _ => unchanged(s0, s1) && !render && a.len() == 0,
    }
}

/// The events `evs`, handled in order from `s0`, lead to `s1` and ask for `a`.
pub open spec fn drained(s0: State, evs: Seq<Event>, s1: State, a: Seq<ActionV>) -> bool
    decreases evs.len(),
{
    if evs.len() == 0 {
        unchanged(s0, s1) && a.len() == 0
    } else {
        exists|mid: State, r: bool, a1: Seq<ActionV>|
            #[trigger] handled(s0, evs[0], mid, r, a1) && a1.len() <= a.len() && a.take(
                a1.len() as int,
            ) == a1 && drained(mid, evs.drop_first(), s1, a.skip(a1.len() as int))
    }
}

/// What an event does: before the permissions are granted, events wait in
/// the queue; when they are granted, the plugin stops being selectable, the
/// queued events are handled in order, the first poll is asked for, and it
/// is drawn; a refusal changes nothing.
pub open spec fn updated(s0: State, ev: Event, s1: State, render: bool, a: Seq<ActionV>) -> bool {
    match ev {
        Event::PermissionResult(granted) => if granted {
            &&& render
            &&& s1.pending_events@.len() == 0
            &&& exists|g: State, mid: Seq<ActionV>|
                g == (State {
                    permissions_granted: true,
                    is_selectable: false,
                    pending_events: g.pending_events,
                    ..s0
                }) && g.pending_events@.len() == 0 && #[trigger] drained(g, s0.pending_events@, s1, mid) && a == seq![
                    ActionV::SetSelectable(false),
                ] + mid + poll(&s1)
        } else {
            s1 == s0 && !render && a.len() == 0
        },
        _ => if !s0.permissions_granted {
            &&& s1 == State { pending_events: s1.pending_events, ..s0 }
            &&& s1.pending_events@ == s0.pending_events@.push(ev)
            &&& !render
            &&& a.len() == 0
        } else {
            handled(s0, ev, s1, render, a) && s1.pending_events == s0.pending_events
        },
    }
}

impl State {
    /// Takes a new tab list from the host (see [`tabs_done`]).
    pub fn on_tabs(&mut self, tabs: Vec<Tab>, changed: bool) -> (r: (bool, Vec<Action>))
        ensures
            final(self).pending_events == old(self).pending_events,
            final(self).row_map == old(self).row_map,
            tabs_done(*old(self), tabs, changed, *final(self), r.0, acts(r.1@)),
    {
        let ghost s0 = *self;
        let ghost tv = tabs;
        let j = first_active_of(&tabs);
        let n = tabs.len();
        let idx: usize = match j {
            Some(j) => {
                assert(j < n);
                j + 1
            },
            None => 1,
        };
        let mut render = self.active_tab_idx != idx || changed;
        self.active_tab_idx = idx;
        self.tabs = tabs;
        let mut a: Vec<Action> = Vec::new();
        assert(acts(a@) =~= Seq::<ActionV>::empty());
        if let Some(j) = j {
            let nombre = self.tabs[j].name.clone();
            let pos = self.tabs[j].position;
            if !str_eq(nombre.as_str(), self.ultimo_tab_activo.as_str()) {
                self.ultimo_tab_activo = nombre.clone();
                let listo = match table_find(&self.atencion, nombre.as_str()) {
                    Some(v) => str_eq(v.as_str(), "listo"),
                    None => false,
                };
                if listo {
                    table_remove(&mut self.atencion, nombre.as_str());
                    render = true;
                }
                let here = match self.propio_tab() {
                    Some(p) => p == pos,
                    None => false,
                };
                if here {
                    a = self.anotar_tiempo(nombre.as_str());
                }
            }
        }
        (render, a)
    }

    /// A left click at (`row`, `col`) (see [`clicked`]).
    pub fn on_click(&mut self, row: isize, col: usize) -> (r: (bool, Vec<Action>))
        requires
            row_map_fits(old(self)),
        ensures
            final(self).pending_events == old(self).pending_events,
            final(self).row_map == old(self).row_map,
            clicked(*old(self), row, col, *final(self), r.0, acts(r.1@)),
    {
        let row = row as usize;
        let mut a: Vec<Action> = Vec::new();
        if self.ultimas_filas > 0 && row < usize::MAX && row + 1 == self.ultimas_filas {
            if col >= self.col_orden {
                return (false, self.abrir_orden());
            } else if col >= self.col_arch {
                self.mostrar_archivados = !self.mostrar_archivados;
                let a = self.marcar_archivados(self.mostrar_archivados);
                return (true, a);
            }
            assert(acts(a@) =~= Seq::<ActionV>::empty());
            return (false, a);
        }
        match self.get_tab_at_row(row) {
            Some(idx) => {
                a.push(Action::SwitchTabTo(idx as u32));
                assert(acts(a@) =~= seq![ActionV::SwitchTabTo(idx as u32)]);
            },
            None => {
                assert(acts(a@) =~= Seq::<ActionV>::empty());
            },
        }
        (false, a)
    }

    /// Takes the per-tab states read from the poll, when they read and differ
    /// (by fingerprint) from those held; returns whether they were taken.
    pub fn set_estado_read(&mut self, m: Option<Vec<(String, Estado)>>) -> (ch: bool)
        ensures
            ch == estado_changes(*old(self), m),
            *final(self) == (State { estado: final(self).estado, ..*old(self) }),
            final(self).estado == if ch {
                m->0
            } else {
                old(self).estado
            },
    {
        match m {
            Some(v) => {
                let a = fingerprint_of(&v);
                let b = fingerprint_of(&self.estado);
                if same_strings(&a, &b) {
                    false
                } else {
                    self.estado = v;
                    true
                }
            },
            None => false,
        }
    }

    /// Takes the attention entries read from the poll (those that are set),
    /// when they read and differ from those held; returns whether they were taken.
    pub fn set_atencion_read(&mut self, m: Option<Vec<(String, String)>>) -> (ch: bool)
        ensures
            ch == atencion_changes(*old(self), m),
            *final(self) == (State { atencion: final(self).atencion, ..*old(self) }),
            if ch {
                final(self).atencion@ == set_entries(m->0@)
            } else {
                final(self).atencion == old(self).atencion
            },
    {
        match m {
            Some(v) => {
                let nuevo = keep_set_entries(v);
                if same_str_table(&nuevo, &self.atencion) {
                    false
                } else {
                    self.atencion = nuevo;
                    true
                }
            },
            None => false,
        }
    }

    /// Takes the archived names read from the poll (without repetitions),
    /// when they read and differ as a set from those held; returns whether
    /// they were taken.
    pub fn set_archivados_read(&mut self, v: Option<Vec<String>>) -> (ch: bool)
        ensures
            ch == archivados_change(
                *old(self),
                match v {
                    Some(x) => Some(names_of(x@)),
                    None => None,
                },
            ),
            *final(self) == (State { archivados: final(self).archivados, ..*old(self) }),
            if ch {
                names_of(final(self).archivados@) == uniq(names_of(v->0@))
            } else {
                final(self).archivados == old(self).archivados
            },
    {
        match v {
            Some(x) => {
                let u = dedup_names(x);
                if same_names(&u, &self.archivados) {
                    false
                } else {
                    self.archivados = u;
                    true
                }
            },
            None => false,
        }
    }

    /// Takes the priorities read from the poll, when they read and differ as
    /// a map from those held; returns whether they were taken.
    pub fn set_prio_read(&mut self, m: Option<Vec<(String, u8)>>) -> (ch: bool)
        ensures
            ch == prio_change(
                *old(self),
                match m {
                    Some(x) => Some(prio_pairs(x@)),
                    None => None,
                },
            ),
            *final(self) == (State { prioridades: final(self).prioridades, ..*old(self) }),
            if ch {
                final(self).prioridades == m->0
            } else {
                final(self).prioridades == old(self).prioridades
            },
    {
        match m {
            Some(x) => {
                if same_prio_table(&x, &self.prioridades) {
                    false
                } else {
                    self.prioridades = x;
                    true
                }
            },
            None => false,
        }
    }

    /// Takes the last focus times read from the tail of the focus log `log`,
    /// when there is one and they differ from those held; returns whether
    /// they were taken.
    pub fn set_foco_read(&mut self, log: Option<&String>) -> (ch: bool)
        ensures
            ch == match log {
                Some(t) => focus_table(lines_of(t@)) != str_map(old(self).ultimo_foco@),
                None => false,
            },
            *final(self) == (State { ultimo_foco: final(self).ultimo_foco, ..*old(self) }),
            if ch {
                str_map(final(self).ultimo_foco@) == focus_table(lines_of(log->0@))
            } else {
                final(self).ultimo_foco == old(self).ultimo_foco
            },
    {
        match log {
            Some(t) => {
                let uf = focus_times(t.as_str());
                if same_str_table(&uf, &self.ultimo_foco) {
                    false
                } else {
                    self.ultimo_foco = uf;
                    true
                }
            },
            None => false,
        }
    }
}

fn trimmed_part(partes: &Vec<String>, i: usize) -> (r: Option<String>)
    ensures
        match r {
            Some(t) => part(names_of(partes@), i as int) matches Some(x) && t@ == trim(x),
            None => part(names_of(partes@), i as int) is None,
        },
{
    if i < partes.len() {
        let c = chars_of(partes[i].as_str());
        Some(string_of(&trim_chars(&c)))
    } else {
        None
    }
}

fn is_one(t: &Option<String>) -> (b: bool)
    ensures
        b == match t {
            Some(x) => x@ == "1"@,
            None => false,
        },
{
    match t {
        Some(x) => str_eq(x.as_str(), "1"),
        None => false,
    }
}

impl State {
    /// Takes the archived list read from its file (without repetitions),
    /// when it reads; returns whether it was taken.
    pub fn replace_archivados(&mut self, v: Option<Vec<String>>) -> (r: bool)
        ensures
            r == v is Some,
            match v {
                Some(x) => {
                    &&& *final(self) == (State { archivados: final(self).archivados, ..*old(self) })
                    &&& names_of(final(self).archivados@) == uniq(names_of(x@))
                },
                None => *final(self) == *old(self),
            },
    {
        match v {
            Some(x) => {
                self.archivados = dedup_names(x);
                true
            },
            None => false,
        }
    }

    /// Reads the poll output (see [`polled`]).
    pub fn on_poll(&mut self, out: CommandOutput) -> (r: (bool, Vec<Action>))
        ensures
            final(self).pending_events == old(self).pending_events,
            final(self).row_map == old(self).row_map,
            polled(*old(self), out, *final(self), r.0, acts(r.1@)),
    {
        let ghost s0 = *self;
        let ghost o = out;
        let texto = text_of_bytes(out.stdout.as_slice());
        let partes = poll_parts(texto.as_str());
        let ghost p = names_of(partes@);
        assert(p == poll_parts_of(o));
        let CommandOutput { flow: _, stdout: _, estado, atencion } = out;
        let ce = self.set_estado_read(estado);
        let ca = self.set_atencion_read(atencion);
        let arch_text = trimmed_part(&partes, 2);
        let arch = match &arch_text {
            Some(t) => read_names(t.as_str()),
            None => None,
        };
        let cr = self.set_archivados_read(arch);
        let mostrar = is_one(&trimmed_part(&partes, 3));
        let filas = is_one(&trimmed_part(&partes, 4));
        let orden = match trimmed_part(&partes, 5) {
            Some(t) => t,
            None => String::new(),
        };
        let mut render = ce || ca || cr;
        if mostrar != self.mostrar_archivados {
            self.mostrar_archivados = mostrar;
            render = true;
        }
        if filas != self.filas_estado {
            self.filas_estado = filas;
            render = true;
        }
        if !str_eq(orden.as_str(), self.orden.as_str()) {
            self.orden = orden;
            render = true;
        }
        let prio_text = trimmed_part(&partes, 6);
        let prio = match &prio_text {
            Some(t) => read_priorities(t.as_str()),
            None => None,
        };
        let cp = self.set_prio_read(prio);
        let log = if 7 < partes.len() {
            Some(&partes[7])
        } else {
            None
        };
        let cf = self.set_foco_read(log);
        render = render || cp || cf;
        let mut a: Vec<Action> = Vec::new();
        if !self.sondeo_programado {
            self.sondeo_programado = true;
            a.push(Action::PollLater);
        }
        assert(acts(a@) =~= if s0.sondeo_programado {
            Seq::<ActionV>::empty()
        } else {
            seq![ActionV::PollLater]
        });
        (render, a)
    }

    /// Reads the output of a finished command (see [`command_done`]).
    pub fn on_command(&mut self, out: CommandOutput) -> (r: (bool, Vec<Action>))
        ensures
            final(self).pending_events == old(self).pending_events,
            final(self).row_map == old(self).row_map,
            command_done(*old(self), out, *final(self), r.0, acts(r.1@)),
    {
        let a: Vec<Action> = Vec::new();
        assert(acts(a@) =~= Seq::<ActionV>::empty());
        let flow: &str = match &out.flow {
            Some(f) => f.as_str(),
            None => "",
        };
        let is_sondeo = out.flow.is_some() && str_eq(flow, "sondeo");
        let is_archivados = out.flow.is_some() && str_eq(flow, "archivados");
        let is_atencion = out.flow.is_some() && str_eq(flow, "atencion");
        let is_estado = out.flow.is_some() && str_eq(flow, "estado");
        if is_sondeo {
            return self.on_poll(out);
        }
        if is_archivados {
            let r = self.replace_archivados(read_names_bytes(out.stdout.as_slice()));
            return (r, a);
        }
        if is_atencion {
            match out.atencion {
                Some(m) => {
                    self.atencion = keep_set_entries(m);
                    return (true, a);
                },
                None => {
                    return (false, a);
                },
            }
        }
        if is_estado {
            match out.estado {
                Some(m) => {
                    self.estado = m;
                    return (true, a);
                },
                None => {
                    return (false, a);
                },
            }
        }
        (false, a)
    }

    /// Handles an event once the permissions are granted (see [`handled`]).
    fn handle(&mut self, ev: Event) -> (r: (bool, Vec<Action>))
        requires
            row_map_fits(old(self)),
        ensures
            handled(*old(self), ev, *final(self), r.0, acts(r.1@)),
            final(self).pending_events == old(self).pending_events,
            final(self).row_map == old(self).row_map,
    {
        let none: Vec<Action> = Vec::new();
        assert(acts(none@) =~= Seq::<ActionV>::empty());
        match ev {
            Event::ModeUpdate { mode, changed } => {
                self.mode = mode;
                (changed, none)
            },
            Event::TabUpdate { tabs, changed } => self.on_tabs(tabs, changed),
            Event::PaneUpdate(groups) => {
                self.panes = groups;
                (true, none)
            },
            Event::LeftClick(row, col) => self.on_click(row, col),
            Event::ScrollUp => {
                let p = self.active_tab_idx.saturating_sub(1);
                let prev = if p >= 1 {
                    p
                } else {
                    1
                };
                let mut a: Vec<Action> = Vec::new();
                a.push(Action::SwitchTabTo(prev as u32));
                assert(acts(a@) =~= seq![ActionV::SwitchTabTo(scroll_up_target(*old(self)) as u32)]);
                (false, a)
            },
            Event::ScrollDown => {
                let next = if self.active_tab_idx < self.tabs.len() {
                    self.active_tab_idx + 1
                } else {
                    self.tabs.len()
                };
                let mut a: Vec<Action> = Vec::new();
                a.push(Action::SwitchTabTo(next as u32));
                assert(acts(a@) =~= seq![ActionV::SwitchTabTo(scroll_down_target(*old(self)) as u32)]);
                (false, a)
            },
            Event::Timer => {
                self.sondeo_programado = false;
                (false, self.sondear())
            },
            Event::CommandResult(out) => self.on_command(out),
            Event::SessionUpdate(name) => match name {
                Some(n) => {
                    if !str_eq(n.as_str(), self.own_session.as_str()) {
                        self.own_session = n;
                        (true, none)
                    } else {
                        (false, none)
                    }
                },
                None => (false, none),
            },
            _ => (false, none),
        }
    }

    fn drain(&mut self, queue: Vec<Event>) -> (r: Vec<Action>)
        requires
            row_map_fits(old(self)),
        ensures
            drained(*old(self), queue@, *final(self), acts(r@)),
            final(self).pending_events == old(self).pending_events,
            final(self).row_map == old(self).row_map,
        decreases queue@.len(),
    {
        let mut queue = queue;
        if queue.len() == 0 {
            let r: Vec<Action> = Vec::new();
            assert(acts(r@) =~= Seq::<ActionV>::empty());
            return r;
        }
        let ghost s0 = *self;
        let ghost q = queue@;
        let e = queue.remove(0);
        let (rend, mut a1) = self.handle(e);
        let ghost mid = *self;
        let ghost v1 = acts(a1@);
        let mut a2 = self.drain(queue);
        let ghost v2 = acts(a2@);
        a1.append(&mut a2);
        proof {
            assert(acts(a1@) =~= v1 + v2);
            assert(q.drop_first() =~= queue@);
            assert(handled(s0, q[0], mid, rend, v1));
            assert(drained(mid, q.drop_first(), *self, v2));
            assert(acts(a1@).take(v1.len() as int) =~= v1);
            assert(acts(a1@).skip(v1.len() as int) =~= v2);
        }
        a1
    }

    /// Handles an event from the host (see [`updated`]): returns whether to
    /// draw again and what to ask the host for.
    pub fn update(&mut self, event: Event) -> (r: (bool, Vec<Action>))
        requires
            row_map_fits(old(self)),
        ensures
            updated(*old(self), event, *final(self), r.0, acts(r.1@)),
            row_map_fits(final(self)),
    {
        match event {
            Event::PermissionResult(granted) => {
                let mut a: Vec<Action> = Vec::new();
                if !granted {
                    assert(acts(a@) =~= Seq::<ActionV>::empty());
                    return (false, a);
                }
                let ghost s0 = *self;
                self.permissions_granted = true;
                self.is_selectable = false;
                a.push(Action::SetSelectable(false));
                let mut queue: Vec<Event> = Vec::new();
                std::mem::swap(&mut queue, &mut self.pending_events);
                let ghost gq = *self;
                let mut mid = self.drain(queue);
                let ghost vm = acts(mid@);
                let mut p = self.sondear();
                let ghost vp = acts(p@);
                a.append(&mut mid);
                a.append(&mut p);
                proof {
                    assert(acts(a@) =~= seq![ActionV::SetSelectable(false)] + vm + vp);
                    assert(drained(gq, s0.pending_events@, *self, vm));
                }
                (true, a)
            },
            _ => {
                if !self.permissions_granted {
                    self.pending_events.push(event);
                    let a: Vec<Action> = Vec::new();
                    assert(acts(a@) =~= Seq::<ActionV>::empty());
                    return (false, a);
                }
                self.handle(event)
            },
        }
    }
}

} // verus!
