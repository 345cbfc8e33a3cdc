//! Which tab a click on a row means, and moving panes between tabs.
use vstd::prelude::*;
use crate::commands::{acts, ActionV};
use crate::layout::{calculate_visible_range, sat_sub, up_steps, visible_range};
use crate::model::{Action, Pane};
use crate::panel::{first_named, first_named_exec};
use crate::state::{group_at, own_tab, State};

verus! {

/// Every tab recorded for a drawn row can be numbered from 1.
pub open spec fn row_map_fits(st: &State) -> bool {
    forall|k: int|
        0 <= k < st.row_map@.len() ==> match #[trigger] st.row_map@[k] {
            Some(i) => i < usize::MAX,
            None => true,
        }
}

impl State {
    /// Whether every tab recorded for a drawn row can be numbered from 1 (see [`row_map_fits`]).
    pub fn row_map_ok(&self) -> (b: bool)
        ensures
            b == row_map_fits(self),
    {
        let mut k: usize = 0;
        while k < self.row_map.len()
            invariant
                k <= self.row_map@.len(),
                forall|j: int|
                    0 <= j < k ==> match #[trigger] self.row_map@[j] {
                        Some(i) => i < usize::MAX,
                        None => true,
                    },
            decreases self.row_map@.len() - k,
        {
            if let Some(i) = self.row_map[k] {
                if i == usize::MAX {
                    return false;
                }
            }
            k = k + 1;
        }
        true
    }
}

/// The 1-based index of the tab that a click on `row` selects.
///
/// A row that the last drawing recorded as belonging to a tab selects that
/// tab. Otherwise the row is read against the plain window of the list (as
/// drawn with no extra rows): the "more above" marker selects the tab just
/// above the window, a row of the window selects its tab, and a row below the
/// window selects the tab just below it (or the last tab).
pub open spec fn tab_at_row(st: &State, row: nat) -> Option<int> {
    let count = st.tabs@.len();
    if count == 0 {
        None
    } else if row < st.row_map@.len() && st.row_map@[row as int] is Some {
        Some(st.row_map@[row as int]->0 + 1)
    } else {
        let w = visible_range(count, st.last_rows as nat, sat_sub(st.active_tab_idx as int, 1));
        row_in_window(row, count, w.0, w.1, w.2)
    }
}

/// The 1-based index of the tab that `row` selects in a window showing tabs
/// `start..end` of `count`, with `above` tabs hidden above it.
pub open spec fn row_in_window(row: nat, count: nat, start: nat, end: nat, above: nat) -> Option<
    int,
> {
    if above > 0 && row == 0 {
        Some(sat_sub(start as int, 1) + 1int)
    } else {
        let in_content = sat_sub(
            row as int,
            if above > 0 {
                1
            } else {
                0
            },
        );
        if start + in_content < end && start + in_content < count {
            Some(start + in_content + 1int)
        } else if in_content >= end - start {
            Some(
                if end <= sat_sub(count as int, 1) {
                    end as int
                } else {
                    sat_sub(count as int, 1) as int
                } + 1,
            )
        } else {
            None
        }
    }
}

fn pick_row(row: usize, tab_count: usize, start_index: usize, end_index: usize, tabs_above: usize) -> (r:
    Option<usize>)
    requires
        start_index <= end_index,
        tab_count > 0,
    ensures
        match r {
            Some(i) => row_in_window(
                row as nat,
                tab_count as nat,
                start_index as nat,
                end_index as nat,
                tabs_above as nat,
            ) == Some(i as int),
            None => row_in_window(
                row as nat,
                tab_count as nat,
                start_index as nat,
                end_index as nat,
                tabs_above as nat,
            ) is None,
        },
{
    let content_start_row: usize = if tabs_above > 0 {
        1
    } else {
        0
    };
    if tabs_above > 0 && row == 0 {
        let target = start_index.saturating_sub(1);
        return Some(target + 1);
    }
    let row_in_content = row.saturating_sub(content_start_row);
    let span = end_index - start_index;
    if row_in_content < span && start_index < tab_count && row_in_content < tab_count
        - start_index {
        return Some(start_index + row_in_content + 1);
    }
    if row_in_content >= span {
        let last = tab_count - 1;
        let target = if end_index <= last {
            end_index
        } else {
            last
        };
        return Some(target + 1);
    }
    None
}

proof fn lemma_window_ordered(count: nat, rows: nat, active: nat)
    ensures
        ({
            let (start, end, above, below) = visible_range(count, rows, active);
            start <= end
        }),
{
    if count > rows {
        let max_visible = sat_sub(rows as int, 2);
        if max_visible > 0 {
            let up_cap = active;
            let down_cap = sat_sub(count as int, active as int + 1);
            let n = if max_visible - 1 <= up_cap + down_cap {
                (max_visible - 1) as nat
            } else {
                up_cap + down_cap
            };
            let up = up_steps(n, up_cap, down_cap);
            assert(up <= up_cap);
        }
    }
}

impl State {
    /// The 1-based index of the tab that a click on `row` selects (see [`tab_at_row`]).
    pub fn get_tab_at_row(&self, row: usize) -> (r: Option<usize>)
        requires
            row_map_fits(self),
        ensures
            match r {
                Some(i) => tab_at_row(self, row as nat) == Some(i as int),
                None => tab_at_row(self, row as nat) is None,
            },
    {
        if self.tabs.len() == 0 {
            return None;
        }
        if row < self.row_map.len() {
            if let Some(i) = self.row_map[row] {
                assert(self.row_map@[row as int] is Some);
                return Some(i + 1);
            }
        }
        let tab_count = self.tabs.len();
        let active_index = self.active_tab_idx.saturating_sub(1);
        let (start_index, end_index, tabs_above, _tabs_below) = calculate_visible_range(
            tab_count,
            self.last_rows,
            active_index,
        );
        proof {
            lemma_window_ordered(tab_count as nat, self.last_rows as nat, active_index as nat);
        }
        pick_row(row, tab_count, start_index, end_index, tabs_above)
    }
}

// ------------------------------------------------------------ moving panes

/// The ids of the terminal (non-plugin) panes, in order.
pub open spec fn terminal_ids(ps: Seq<Pane>) -> Seq<u32>
    decreases ps.len(),
{
    if ps.len() == 0 {
        Seq::empty()
    } else {
        let rest = terminal_ids(ps.drop_last());
        if ps.last().is_plugin {
            rest
        } else {
            rest.push(ps.last().id)
        }
    }
}

/// Moving the terminal panes of the tab named `desde` to the tab named
/// `hacia`: only the instance that lives in `desde` acts (so it happens once,
/// however many instances there are), and only when both tabs exist and
/// `desde` has terminal panes; the panes go to `hacia`, which gets the focus.
pub open spec fn move_panes(st: &State, desde: Seq<char>, hacia: Seq<char>) -> Seq<ActionV> {
    match (own_tab(st.panes@, st.propio_id), first_named(st.tabs@, desde), first_named(st.tabs@, hacia)) {
        (Some(propio), Some(o), Some(j)) => {
            let origen = st.tabs@[o].position;
            let ids = match group_at(st.panes@, origen) {
                Some(ps) => terminal_ids(ps),
                None => Seq::empty(),
            };
            if origen != propio || ids.len() == 0 {
                Seq::empty()
            } else {
                seq![ActionV::BreakPanesToTab(ids, st.tabs@[j].position)]
            }
        },
        _ => Seq::empty(),
    }
}

fn terminal_ids_of(ps: &Vec<Pane>) -> (r: Vec<u32>)
    ensures
        r@ == terminal_ids(ps@),
{
    let mut r: Vec<u32> = Vec::new();
    let mut i: usize = 0;
    while i < ps.len()
        invariant
            i <= ps@.len(),
            r@ == terminal_ids(ps@.take(i as int)),
        decreases ps@.len() - i,
    {
        assert(ps@.take(i + 1).drop_last() =~= ps@.take(i as int));
        if !ps[i].is_plugin {
            r.push(ps[i].id);
        }
        i = i + 1;
    }
    assert(ps@.take(i as int) =~= ps@);
    r
}

impl State {
    fn panes_at(&self, pos: usize) -> (r: Vec<u32>)
        ensures
            r@ == match group_at(self.panes@, pos) {
                Some(ps) => terminal_ids(ps),
                None => Seq::empty(),
            },
    {
        let mut i: usize = 0;
        assert(self.panes@.skip(0) =~= self.panes@);
        while i < self.panes.len()
            invariant
                i <= self.panes@.len(),
                group_at(self.panes@.skip(i as int), pos) == group_at(self.panes@, pos),
            decreases self.panes@.len() - i,
        {
            assert(self.panes@.skip(i as int).drop_first() =~= self.panes@.skip(i + 1));
            assert(self.panes@.skip(i as int)[0] == self.panes@[i as int]);
            if self.panes[i].position == pos {
                return terminal_ids_of(&self.panes[i].panes);
            }
            i = i + 1;
        }
        Vec::new()
    }

    /// Moves the terminal panes of the tab `desde` to the tab `hacia` when
    /// this instance lives in `desde` (see [`move_panes`]).
    pub fn mudar(&self, desde: &str, hacia: &str) -> (r: Vec<Action>)
        ensures
            acts(r@) == move_panes(self, desde@, hacia@),
    {
        let mut r: Vec<Action> = Vec::new();
        assert(acts(r@) =~= Seq::<ActionV>::empty());
        let propio = match self.propio_tab() {
            Some(p) => p,
            None => {
                return r;
            },
        };
        let origen = match first_named_exec(&self.tabs, desde) {
            Some(o) => self.tabs[o].position,
            None => {
                return r;
            },
        };
        let destino = match first_named_exec(&self.tabs, hacia) {
            Some(j) => self.tabs[j].position,
            None => {
                return r;
            },
        };
        if origen != propio {
            return r;
        }
        let ids = self.panes_at(origen);
        if ids.len() > 0 {
            r.push(Action::BreakPanesToTab { panes: ids, tab: destino });
            assert(acts(r@) =~= move_panes(self, desde@, hacia@));
        }
        r
    }
}

} // verus!
