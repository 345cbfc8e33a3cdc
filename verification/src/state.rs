//! The plugin's state and what it shows: tab labels, extra rows under them,
//! the list window and the line for each row.
use vstd::prelude::*;
use vstd::string::StringExecFns;
use crate::color::ColorSpec;
use crate::config::{default_style, StyleConfig};
use crate::model::{Estado, Event, InputMode, Pane, PaneGroup, Tab};
use crate::table::{table_find, table_get};
use crate::text::{chars_of, decimal, push_decimal, replace, replace_chars, starts_with, string_of};

verus! {

/// Everything the plugin keeps between events.
#[derive(Debug)]
pub struct State {
    pub tabs: Vec<Tab>,
    /// 1-based index of the active tab.
    pub active_tab_idx: usize,
    pub mode: InputMode,
    pub panes: Vec<PaneGroup>,
    pub style: StyleConfig,
    pub last_rows: usize,
    pub permissions_granted: bool,
    pub is_selectable: bool,
    /// Events that arrived before the permissions were granted.
    pub pending_events: Vec<Event>,
    pub own_session: String,
    /// Per-tab state (from the state file), by tab name.
    pub estado: Vec<(String, Estado)>,
    pub estado_file: String,
    /// Attention light per tab: "trabajando" | "espera" | "listo".
    pub atencion: Vec<(String, String)>,
    pub atencion_file: String,
    /// Focus log: every change of active tab is noted by that tab's instance.
    pub tiempo_file: String,
    /// Archived tabs, hidden unless shown on purpose.
    pub archivados: Vec<String>,
    pub archivados_file: String,
    pub mostrar_archivados: bool,
    /// Whether the state rows under each tab are shown.
    pub filas_estado: bool,
    /// Order of the numbered list: "" (host order), "alfa", "reciente", "prioridad".
    pub orden: String,
    /// Manual priority per tab: 1 high … 3 low.
    pub prioridades: Vec<(String, u8)>,
    /// Last focus time per tab ("YYYY-MM-DDTHH:MM:SS").
    pub ultimo_foco: Vec<(String, String)>,
    /// A polling timer is pending.
    pub sondeo_programado: bool,
    /// Bottom row: columns where the archive and order shortcuts start, and
    /// the number of rows last drawn.
    pub col_arch: usize,
    pub col_orden: usize,
    pub ultimas_filas: usize,
    pub propio_id: u32,
    pub ultimo_tab_activo: String,
    /// Drawn row -> index (0-based) of the tab it belongs to.
    pub row_map: Vec<Option<usize>>,
}

impl State {
    /// A state with the default style, no tabs, no permissions yet, empty
    /// tables and file names, every flag off and every counter at zero.
    pub fn new() -> (s: Self)
        ensures
            default_style(s.style),
            s.tabs@.len() == 0,
            s.active_tab_idx == 0,
            s.mode == InputMode::Normal,
            s.panes@.len() == 0,
            s.last_rows == 0,
            !s.permissions_granted,
            !s.is_selectable,
            s.pending_events@.len() == 0,
            s.own_session@.len() == 0,
            s.estado@.len() == 0,
            s.estado_file@.len() == 0,
            s.atencion@.len() == 0,
            s.atencion_file@.len() == 0,
            s.tiempo_file@.len() == 0,
            s.archivados@.len() == 0,
            s.archivados_file@.len() == 0,
            !s.mostrar_archivados,
            !s.filas_estado,
            s.orden@.len() == 0,
            s.prioridades@.len() == 0,
            s.ultimo_foco@.len() == 0,
            !s.sondeo_programado,
            s.col_arch == 0,
            s.col_orden == 0,
            s.ultimas_filas == 0,
            s.propio_id == 0,
            s.ultimo_tab_activo@.len() == 0,
            s.row_map@.len() == 0,
    {
        State {
            tabs: Vec::new(),
            active_tab_idx: 0,
            mode: InputMode::Normal,
            panes: Vec::new(),
            style: StyleConfig::new(),
            last_rows: 0,
            permissions_granted: false,
            is_selectable: false,
            pending_events: Vec::new(),
            own_session: String::new(),
            estado: Vec::new(),
            estado_file: String::new(),
            atencion: Vec::new(),
            atencion_file: String::new(),
            tiempo_file: String::new(),
            archivados: Vec::new(),
            archivados_file: String::new(),
            mostrar_archivados: false,
            filas_estado: false,
            orden: String::new(),
            prioridades: Vec::new(),
            ultimo_foco: Vec::new(),
            sondeo_programado: false,
            col_arch: 0,
            col_orden: 0,
            ultimas_filas: 0,
            propio_id: 0,
            ultimo_tab_activo: String::new(),
            row_map: Vec::new(),
        }
    }
}

// ------------------------------------------------------------ panes

/// Whether the panes include the plugin pane `id`.
pub open spec fn holds_plugin(panes: Seq<Pane>, id: u32) -> bool {
    exists|j: int| 0 <= j < panes.len() && (#[trigger] panes[j]).is_plugin && panes[j].id == id
}

/// The position of the first tab whose panes include the plugin pane `id`.
pub open spec fn own_tab(groups: Seq<PaneGroup>, id: u32) -> Option<usize>
    decreases groups.len(),
{
    if groups.len() == 0 {
        None
    } else if holds_plugin(groups[0].panes@, id) {
        Some(groups[0].position)
    } else {
        own_tab(groups.drop_first(), id)
    }
}

/// The panes of the tab at `pos` (the first group listed for it).
pub open spec fn group_at(groups: Seq<PaneGroup>, pos: usize) -> Option<Seq<Pane>>
    decreases groups.len(),
{
    if groups.len() == 0 {
        None
    } else if groups[0].position == pos {
        Some(groups[0].panes@)
    } else {
        group_at(groups.drop_first(), pos)
    }
}

/// The first focused terminal pane.
pub open spec fn focused_pane(panes: Seq<Pane>) -> Option<Pane>
    decreases panes.len(),
{
    if panes.len() == 0 {
        None
    } else if panes[0].is_focused && !panes[0].is_plugin {
        Some(panes[0])
    } else {
        focused_pane(panes.drop_first())
    }
}

/// The title of the focused terminal pane of the tab at `pos`, unless it is a
/// default title ("Pane #…", "Tab #…") or empty.
pub open spec fn focused_title(groups: Seq<PaneGroup>, pos: usize) -> Option<Seq<char>> {
    match group_at(groups, pos) {
        None => None,
        Some(panes) => match focused_pane(panes) {
            None => None,
            Some(p) => if starts_with(p.title@, "Pane #"@) || starts_with(p.title@, "Tab #"@)
                || p.title@.len() == 0 {
                None
            } else {
                Some(p.title@)
            },
        },
    }
}

/// Whether `s` begins with the literal `p`.
pub fn starts_with_str(s: &str, p: &str) -> (b: bool)
    ensures
        b == starts_with(s@, p@),
{
    let a = chars_of(s);
    let b = chars_of(p);
    crate::text::has_prefix(&a, &b)
}

fn plugin_in(panes: &Vec<Pane>, id: u32) -> (b: bool)
    ensures
        b == holds_plugin(panes@, id),
{
    let mut j: usize = 0;
    while j < panes.len()
        invariant
            j <= panes@.len(),
            forall|k: int| 0 <= k < j ==> !((#[trigger] panes@[k]).is_plugin && panes@[k].id == id),
        decreases panes@.len() - j,
    {
        if panes[j].is_plugin && panes[j].id == id {
            return true;
        }
        j = j + 1;
    }
    false
}

impl State {
    /// Position of the tab where this plugin instance lives.
    pub fn propio_tab(&self) -> (r: Option<usize>)
        ensures
            r == own_tab(self.panes@, self.propio_id),
    {
        let mut i: usize = 0;
        assert(self.panes@.skip(0) =~= self.panes@);
        while i < self.panes.len()
            invariant
                i <= self.panes@.len(),
                own_tab(self.panes@.skip(i as int), self.propio_id) == own_tab(
                    self.panes@,
                    self.propio_id,
                ),
            decreases self.panes@.len() - i,
        {
            assert(self.panes@.skip(i as int).drop_first() =~= self.panes@.skip(i + 1));
            assert(self.panes@.skip(i as int)[0] == self.panes@[i as int]);
            if plugin_in(&self.panes[i].panes, self.propio_id) {
                return Some(self.panes[i].position);
            }
            i = i + 1;
        }
        None
    }

    fn group_index(&self, pos: usize) -> (r: Option<usize>)
        ensures
            match r {
                Some(i) => i < self.panes@.len() && group_at(self.panes@, pos) == Some(
                    self.panes@[i as int].panes@,
                ),
                None => group_at(self.panes@, pos) is None,
            },
    {
        let mut i: usize = 0;
        assert(self.panes@.skip(0) =~= self.panes@);
        while i < self.panes.len()
            invariant
                i <= self.panes@.len(),
                group_at(self.panes@.skip(i as int), pos) == group_at(self.panes@, pos),
            decreases self.panes@.len() - i,
        {
            assert(self.panes@.skip(i as int).drop_first() =~= self.panes@.skip(i + 1));
            assert(self.panes@.skip(i as int)[0] == self.panes@[i as int]);
            if self.panes[i].position == pos {
                return Some(i);
            }
            i = i + 1;
        }
        None
    }

    /// Title of the focused terminal pane of the tab at `tab_position` (see [`focused_title`]).
    pub fn get_focused_pane_title(&self, tab_position: usize) -> (r: Option<String>)
        ensures
            match r {
                Some(t) => focused_title(self.panes@, tab_position) == Some(t@),
                None => focused_title(self.panes@, tab_position) is None,
            },
    {
        if let Some(g) = self.group_index(tab_position) {
            let panes = &self.panes[g].panes;
            let mut j: usize = 0;
            assert(panes@.skip(0) =~= panes@);
            while j < panes.len()
                invariant
                    j <= panes@.len(),
                    group_at(self.panes@, tab_position) == Some(panes@),
                    focused_pane(panes@.skip(j as int)) == focused_pane(panes@),
                decreases panes@.len() - j,
            {
                assert(panes@.skip(j as int).drop_first() =~= panes@.skip(j + 1));
                assert(panes@.skip(j as int)[0] == panes@[j as int]);
                let pane = &panes[j];
                if pane.is_focused && !pane.is_plugin {
                    let title = &pane.title;
                    if starts_with_str(title.as_str(), "Pane #") || starts_with_str(
                        title.as_str(),
                        "Tab #",
                    ) || title.as_str().is_empty() {
                        return None;
                    }
                    return Some(title.clone());
                }
                j = j + 1;
            }
        }
        None
    }
}

// ------------------------------------------------------------ attention

/// Symbol and colour of a tab's attention light.
pub open spec fn attention(a: Option<String>) -> (Seq<char>, ColorSpec) {
    match a {
        Some(s) => if s@ == "trabajando"@ {
            ("●"@, ColorSpec::EightBit(4))
        } else if s@ == "espera"@ {
            ("○"@, ColorSpec::EightBit(3))
        } else if s@ == "listo"@ {
            ("✓"@, ColorSpec::EightBit(2))
        } else {
            (Seq::empty(), ColorSpec::Default)
        },
        None => (Seq::empty(), ColorSpec::Default),
    }
}

impl State {
    /// Symbol and colour of the attention light of tab `tab`.
    pub fn atencion_de(&self, tab: &str) -> (r: (String, ColorSpec))
        ensures
            (r.0@, r.1) == attention(table_get(self.atencion@, tab@)),
    {
        match table_find(&self.atencion, tab) {
            Some(s) => if crate::table::str_eq(s.as_str(), "trabajando") {
                (String::from_str("●"), ColorSpec::EightBit(4))
            } else if crate::table::str_eq(s.as_str(), "espera") {
                (String::from_str("○"), ColorSpec::EightBit(3))
            } else if crate::table::str_eq(s.as_str(), "listo") {
                (String::from_str("✓"), ColorSpec::EightBit(2))
            } else {
                (String::new(), ColorSpec::Default)
            },
            None => (String::new(), ColorSpec::Default),
        }
    }

    /// The overflow marker text with `{count}` replaced by the count.
    pub fn expand_overflow_format(&self, format: &str, count: usize) -> (r: String)
        ensures
            r@ == replace(format@, "{count}"@, decimal(count as nat)),
    {
        let f = chars_of(format);
        let pat = chars_of("{count}");
        proof {
            reveal_strlit("{count}");
        }
        let n = crate::text::decimal_string(count);
        let rep = chars_of(n.as_str());
        let r = replace_chars(&f, &pat, &rep);
        string_of(&r)
    }
}

} // verus!
