//! The rows of the bar, from top to bottom: what each row shows, and the row
//! drawn from it.
use vstd::prelude::*;
use vstd::string::StringExecFns;
use crate::config::names_of;
use crate::format::{format_is_ok, format_ok, parse_styled_string, styled_string};
use crate::label::label;
use crate::layout::{calculate_visible_range, is_meeting, sat_sub, visible_range};
use crate::lines::{empty_line, row_line};
use crate::model::{mode_title, InputMode};
use crate::panel::{archived_tabs, fixed_tabs, ints, listed_tabs, ordered_tabs, orden_of, Orden};
use crate::rows::{extra_rows, replace_str};
use crate::clicks::row_map_fits;
use crate::state::State;
use crate::text::{decimal, push_decimal, replace};

verus! {

/// What a row shows.
#[derive(Debug)]
pub enum LineSource {
    /// Nothing (only the border).
    Blank,
    /// The label of tab `tab` drawn with `format` and numbered `number`.
    Label { format: String, tab: usize, number: usize },
    /// A styled string.
    Styled(String),
}

/// What a row shows, as values.
pub enum Src {
    Blank,
    Label(Seq<char>, int, usize),
    Styled(Seq<char>),
}

impl View for LineSource {
    type V = Src;

    open spec fn view(&self) -> Src {
        match self {
            LineSource::Blank => Src::Blank,
            LineSource::Label { format, tab, number } => Src::Label(format@, *tab as int, *number),
            LineSource::Styled(t) => Src::Styled(t@),
        }
    }
}

/// A row and the tab it belongs to, if any.
pub type Entry = (Src, Option<usize>);

/// The rows of a plan.
pub open spec fn entries_of(v: Seq<(LineSource, Option<usize>)>) -> Seq<Entry> {
    v.map_values(|e: (LineSource, Option<usize>)| (e.0@, e.1))
}

/// The separator under the fixed tabs.
pub open spec fn separator() -> Seq<char> {
    "#[fg=dim]──────────────────────────"@
}

/// The heading of the archive view: how many tabs it holds.
pub open spec fn archive_heading(n: nat) -> Seq<char> {
    "#[fg=3,bold]ARCHIVO #[fg=dim]"@ + decimal(n) + " tab"@ + if n == 1 {
        Seq::empty()
    } else {
        "s"@
    }
}

/// The archive shortcut: with the number of archived tabs and ▾ while they are shown.
pub open spec fn archive_key(st: &State) -> Seq<char> {
    if st.archivados@.len() == 0 {
        "⌥A"@
    } else {
        "⌥A "@ + decimal(st.archivados@.len()) + if st.mostrar_archivados {
            " ▾"@
        } else {
            Seq::empty()
        }
    }
}

/// The mark of the list order after the order shortcut.
pub open spec fn order_mark(st: &State) -> Seq<char> {
    match orden_of(st.orden@) {
        Orden::Alfa => " a-z"@,
        Orden::Reciente => " ◷"@,
        Orden::Prioridad => " !"@,
        Orden::Host => Seq::empty(),
    }
}

/// The bottom row: the shortcuts in normal mode, else the mode's name.
pub open spec fn bottom_row(st: &State) -> Seq<char> {
    if st.mode == InputMode::Normal {
        "#[fg=dim]⌥?  "@ + archive_key(st) + "  ⌥O"@ + order_mark(st)
    } else {
        "#[fg=3,bold]"@ + mode_title(st.mode) + " #[fg=dim]· ⎋ vuelve"@
    }
}

/// The format of a fixed tab: meeting tabs in their own colour, else the
/// `format_arriba` settings.
pub open spec fn fixed_format(st: &State, i: int) -> Seq<char> {
    let tab = st.tabs@[i];
    if is_meeting(tab.name@) {
        if tab.active {
            "#[bg=237,fill]     #[fg=13,bg=237]{name}{indicators}{atencion}"@
        } else {
            "     #[fg=13]{name}{atencion}"@
        }
    } else if tab.active {
        st.style.format_arriba_active@
    } else {
        st.style.format_arriba@
    }
}

/// The format of a tab of the numbered list: dimmed in the archive view,
/// else the `format` settings.
pub open spec fn list_format(st: &State, i: int) -> Seq<char> {
    let tab = st.tabs@[i];
    if st.mostrar_archivados {
        if tab.active {
            "#[bg=237,fill]#[fg=dim,bg=237]{num} {prio} {name}{atencion}"@
        } else {
            "#[fg=dim]{num} {prio} {name}{atencion}"@
        }
    } else if tab.active {
        st.style.format_active@
    } else {
        st.style.format@
    }
}

/// The number shown for tab `i`.
pub open spec fn number_of(st: &State, i: int) -> usize {
    (i + st.style.start_index) as usize
}

/// The activity rows given for tab `i` (none when not given).
pub open spec fn act_rows(act: Seq<Vec<String>>, i: int) -> Seq<Seq<char>> {
    if 0 <= i < act.len() {
        names_of(act[i]@)
    } else {
        Seq::empty()
    }
}

/// `n` blank rows.
pub open spec fn blanks(n: nat) -> Seq<Entry> {
    Seq::new(n, |k: int| (Src::Blank, None::<usize>))
}

/// The rows of the fixed tabs.
pub open spec fn fixed_entries(st: &State, fijos: Seq<int>) -> Seq<Entry> {
    fijos.map_values(
        |i: int| (Src::Label(fixed_format(st, i), i, number_of(st, i)), Some(i as usize)),
    )
}

/// `acc` followed by the extra rows of tab `i`, stopping when `rows` are reached.
pub open spec fn extra_entries(acc: Seq<Entry>, rows: nat, i: int, filas: Seq<Seq<char>>) -> Seq<
    Entry,
>
    decreases filas.len(),
{
    if filas.len() == 0 || acc.len() >= rows {
        acc
    } else {
        extra_entries(
            acc.push((Src::Styled(filas[0]), Some(i as usize))),
            rows,
            i,
            filas.drop_first(),
        )
    }
}

/// `acc` followed by the rows of the listed tabs `ids` and their extra rows,
/// stopping when `rows` are reached.
pub open spec fn tab_entries(
    st: &State,
    acc: Seq<Entry>,
    rows: nat,
    ids: Seq<int>,
    act: Seq<Vec<String>>,
) -> Seq<Entry>
    decreases ids.len(),
{
    if ids.len() == 0 || acc.len() >= rows {
        acc
    } else {
        let i = ids[0];
        let with_label = acc.push(
            (Src::Label(list_format(st, i), i, number_of(st, i)), Some(i as usize)),
        );
        tab_entries(
            st,
            extra_entries(with_label, rows, i, extra_rows(st, &st.tabs@[i], act_rows(act, i))),
            rows,
            ids.drop_first(),
            act,
        )
    }
}

/// Position of the first `x` in `xs`.
pub open spec fn first_index(xs: Seq<int>, x: int) -> Option<int>
    decreases xs.len(),
{
    if xs.len() == 0 {
        None
    } else if xs[0] == x {
        Some(0)
    } else {
        match first_index(xs.drop_first(), x) {
            Some(i) => Some(i + 1),
            None => None,
        }
    }
}

/// The rows above the numbered list: top padding, the fixed tabs and a
/// separator, the archive heading and separator when the archive is shown,
/// and the "more above" marker when tabs are hidden above.
pub open spec fn head_entries(st: &State, fijos: Seq<int>, arch_len: nat, above: nat) -> Seq<Entry> {
    blanks(st.style.padding_top as nat) + fixed_entries(st, fijos) + (if fijos.len() > 0 {
        seq![(Src::Styled(separator()), None::<usize>)]
    } else {
        Seq::empty()
    }) + (if st.mostrar_archivados {
        seq![
            (Src::Styled(archive_heading(arch_len)), None::<usize>),
            (Src::Styled(separator()), None::<usize>),
        ]
    } else {
        Seq::empty()
    }) + (if above > 0 {
        seq![
            (
                Src::Styled(replace(st.style.overflow_above@, "{count}"@, decimal(above))),
                None::<usize>,
            ),
        ]
    } else {
        Seq::empty()
    })
}

/// The rows after the numbered list: the "more below" marker, blank rows up
/// to `rows`, and the bottom row in the last row.
pub open spec fn finish_entries(st: &State, e2: Seq<Entry>, rows: nat, below: nat) -> Seq<Entry> {
    let e3 = e2 + if below > 0 {
        seq![
            (
                Src::Styled(replace(st.style.overflow_below@, "{count}"@, decimal(below))),
                None::<usize>,
            ),
        ]
    } else {
        Seq::empty()
    };
    let e4 = if e3.len() < rows {
        e3 + blanks((rows - e3.len()) as nat)
    } else {
        e3
    };
    if rows >= 2 {
        e4.update(rows - 1, (Src::Styled(bottom_row(st)), None::<usize>))
    } else {
        e4
    }
}

/// The rows of the bar for `rows` rows, `act` being the activity rows of
/// each tab: top padding, the fixed tabs and a separator, the archive heading
/// when the archive is shown, a "more above" marker, the window of the
/// numbered list around the active tab (each tab followed by its extra rows),
/// a "more below" marker, blank rows up to `rows`, and the bottom row last.
pub open spec fn plan(st: &State, rows: nat, act: Seq<Vec<String>>) -> Seq<Entry> {
    let fijos0 = fixed_tabs(st);
    let arch = archived_tabs(st, fijos0);
    let vista = st.mostrar_archivados;
    let fijos = if vista {
        Seq::empty()
    } else {
        fijos0
    };
    let resto = ordered_tabs(st, listed_tabs(st, fijos0, arch));
    let filas_fijas: nat = if fijos.len() == 0 {
        0
    } else {
        fijos.len() + 1
    };
    let cab: nat = if vista {
        2
    } else {
        0
    };
    let available = sat_sub(rows as int, st.style.padding_top + filas_fijas + cab + 1);
    let active_real = sat_sub(st.active_tab_idx as int, 1);
    let active_index: nat = match first_index(resto, active_real as int) {
        Some(p) => p as nat,
        None => 0,
    };
    let (start, end, above, below) = visible_range(resto.len(), available, active_index);
    finish_entries(
        st,
        tab_entries(
            st,
            head_entries(st, fijos, arch.len(), above),
            rows,
            resto.subrange(start as int, end as int),
            act,
        ),
        rows,
        below,
    )
}

proof fn lemma_named_tabs_len(tabs: Seq<crate::model::Tab>, names: Seq<Seq<char>>)
    ensures
        crate::panel::named_tabs(tabs, names).len() <= names.len(),
    decreases names.len(),
{
    if names.len() > 0 {
        lemma_named_tabs_len(tabs, names.drop_first());
    }
}

proof fn lemma_with_meetings_len(tabs: Seq<crate::model::Tab>, base: Seq<int>, n: nat)
    ensures
        crate::panel::with_meetings(tabs, base, n).len() <= base.len() + n,
    decreases n,
{
    if n > 0 {
        lemma_with_meetings_len(tabs, base, (n - 1) as nat);
    }
}

/// Whether every label row names an existing tab, and every row that
/// belongs to a tab belongs to an existing one.
pub open spec fn labels_valid(st: &State, es: Seq<Entry>) -> bool {
    forall|k: int|
        0 <= k < es.len() ==> row_valid(st, #[trigger] es[k])
}

/// Whether a row names only existing tabs.
pub open spec fn row_valid(st: &State, e: Entry) -> bool {
    &&& match e.0 {
        Src::Label(_, i, _) => 0 <= i < st.tabs@.len(),
        _ => true,
    }
    &&& match e.1 {
        Some(i) => i < st.tabs@.len(),
        None => true,
    }
}

/// The fixed tabs number at most the names in `arriba` plus the tabs.
pub proof fn lemma_fixed_len(st: &State)
    ensures
        fixed_tabs(st).len() <= st.style.arriba@.len() + st.tabs@.len(),
{
    lemma_named_tabs_len(st.tabs@, names_of(st.style.arriba@));
    lemma_with_meetings_len(
        st.tabs@,
        crate::panel::named_tabs(st.tabs@, names_of(st.style.arriba@)),
        st.tabs@.len(),
    );
}

/// Whether the row counts and tab numbers of the bar fit in a `usize`.
pub open spec fn fits_counts(st: &State) -> bool {
    &&& st.style.padding_top + st.style.arriba@.len() + st.tabs@.len() + 4 <= usize::MAX
    &&& st.style.start_index + st.tabs@.len() <= usize::MAX
}

fn first_index_exec(xs: &Vec<usize>, x: usize) -> (r: usize)
    ensures
        r as nat == match first_index(ints(xs@), x as int) {
            Some(p) => p as nat,
            None => 0,
        },
        r == 0 || r < xs@.len(),
{
    let ghost v = ints(xs@);
    let mut i: usize = 0;
    assert(v.skip(0) =~= v);
    while i < xs.len()
        invariant
            i <= xs@.len(),
            v == ints(xs@),
            first_index(v, x as int) == match first_index(v.skip(i as int), x as int) {
                Some(k) => Some(k + i),
                None => None::<int>,
            },
        decreases xs@.len() - i,
    {
        assert(v.skip(i as int).drop_first() =~= v.skip(i + 1));
        assert(v.skip(i as int)[0] == xs@[i as int] as int);
        if xs[i] == x {
            return i;
        }
        i = i + 1;
    }
    assert(v.skip(i as int).len() == 0);
    0
}

impl State {
    /// Whether the row counts and tab numbers of the bar fit in a `usize` (see [`fits_counts`]).
    pub fn counts_fit(&self) -> (b: bool)
        ensures
            b == fits_counts(self),
    {
        let a = self.style.padding_top.checked_add(self.style.arriba.len());
        let a = match a {
            Some(x) => x.checked_add(self.tabs.len()),
            None => None,
        };
        let a = match a {
            Some(x) => x.checked_add(4),
            None => None,
        };
        let b = self.style.start_index.checked_add(self.tabs.len());
        a.is_some() && b.is_some()
    }
}

impl State {
    /// The bottom row's text (see [`bottom_row`]) and the width of its archive shortcut.
    pub fn bottom_text(&self) -> (r: (String, usize))
        ensures
            r.0@ == bottom_row(self),
            r.1 as nat == archive_key(self).len(),
    {
        let mut arch = String::from_str("⌥A");
        proof {
            reveal_strlit("⌥A");
        }
        if self.archivados.len() > 0 {
            arch.push(' ');
            push_decimal(&mut arch, self.archivados.len() as u128);
            if self.mostrar_archivados {
                arch.append(" ▾");
            }
            proof {
                reveal_strlit("⌥A ");
                reveal_strlit(" ▾");
            }
        }
        assert(arch@ =~= archive_key(self));
        let arch_len = crate::text::chars_of(arch.as_str()).len();
        if self.mode == InputMode::Normal {
            let mut f = String::from_str("#[fg=dim]⌥?  ");
            f.append(arch.as_str());
            f.append("  ⌥O");
            let mark = if crate::table::str_eq(self.orden.as_str(), "alfa") {
                " a-z"
            } else if crate::table::str_eq(self.orden.as_str(), "reciente") {
                " ◷"
            } else if crate::table::str_eq(self.orden.as_str(), "prioridad") {
                " !"
            } else {
                ""
            };
            proof {
                reveal_strlit("");
            }
            f.append(mark);
            assert(f@ =~= bottom_row(self));
            (f, arch_len)
        } else {
            let mut f = String::from_str("#[fg=3,bold]");
            let t = self.mode.title();
            f.append(t.as_str());
            f.append(" #[fg=dim]· ⎋ vuelve");
            assert(f@ =~= bottom_row(self));
            (f, arch_len)
        }
    }

    fn fixed_format_of(&self, i: usize) -> (f: String)
        requires
            i < self.tabs@.len(),
        ensures
            f@ == fixed_format(self, i as int),
    {
        let tab = &self.tabs[i];
        if crate::layout::es_reunion(tab.name.as_str()) {
            if tab.active {
                String::from_str("#[bg=237,fill]     #[fg=13,bg=237]{name}{indicators}{atencion}")
            } else {
                String::from_str("     #[fg=13]{name}{atencion}")
            }
        } else if tab.active {
            self.style.format_arriba_active.clone()
        } else {
            self.style.format_arriba.clone()
        }
    }

    fn list_format_of(&self, i: usize) -> (f: String)
        requires
            i < self.tabs@.len(),
        ensures
            f@ == list_format(self, i as int),
    {
        let tab = &self.tabs[i];
        if self.mostrar_archivados {
            if tab.active {
                String::from_str("#[bg=237,fill]#[fg=dim,bg=237]{num} {prio} {name}{atencion}")
            } else {
                String::from_str("#[fg=dim]{num} {prio} {name}{atencion}")
            }
        } else if tab.active {
            self.style.format_active.clone()
        } else {
            self.style.format.clone()
        }
    }

    fn push_head(
        &self,
        out: &mut Vec<(LineSource, Option<usize>)>,
        fijos0: &Vec<usize>,
        n_arch: usize,
        above: usize,
    )
        requires
            old(out)@.len() == 0,
            fits_counts(self),
            forall|q: int| 0 <= q < fijos0@.len() ==> fijos0@[q] < self.tabs@.len(),
        ensures
            entries_of(final(out)@) == head_entries(
                self,
                if self.mostrar_archivados {
                    Seq::empty()
                } else {
                    ints(fijos0@)
                },
                n_arch as nat,
                above as nat,
            ),
            labels_valid(self, entries_of(final(out)@)),
    {
        let top = self.style.padding_top;
        let mut k: usize = 0;
        assert(entries_of(out@) =~= Seq::<Entry>::empty());
        while k < top
            invariant
                k <= top,
                entries_of(out@) == blanks(k as nat),
            decreases top - k,
        {
            let ghost before = entries_of(out@);
            out.push((LineSource::Blank, None));
            assert(entries_of(out@) =~= before.push((Src::Blank, None::<usize>)));
            assert(blanks((k + 1) as nat) =~= blanks(k as nat).push((Src::Blank, None::<usize>)));
            k = k + 1;
        }
        let ghost e0 = entries_of(out@);
        let ghost fijos: Seq<int> = if self.mostrar_archivados {
            Seq::empty()
        } else {
            ints(fijos0@)
        };
        if !self.mostrar_archivados {
            let mut j: usize = 0;
            assert(fixed_entries(self, ints(fijos0@).take(0)) =~= Seq::<Entry>::empty());
            assert(e0 + Seq::<Entry>::empty() =~= e0);
            while j < fijos0.len()
                invariant
                    j <= fijos0@.len(),
                    fits_counts(self),
                    forall|q: int| 0 <= q < fijos0@.len() ==> fijos0@[q] < self.tabs@.len(),
                    entries_of(out@) == e0 + fixed_entries(self, ints(fijos0@).take(j as int)),
                    labels_valid(self, entries_of(out@)),
                decreases fijos0@.len() - j,
            {
                let i = fijos0[j];
                let f = self.fixed_format_of(i);
                let number = i + self.style.start_index;
                let ghost before = entries_of(out@);
                out.push((LineSource::Label { format: f, tab: i, number }, Some(i)));
                assert(ints(fijos0@).take(j + 1) =~= ints(fijos0@).take(j as int).push(i as int));
                assert(fixed_entries(self, ints(fijos0@).take(j + 1)) =~= fixed_entries(
                    self,
                    ints(fijos0@).take(j as int),
                ).push((Src::Label(fixed_format(self, i as int), i as int, number), Some(i))));
                assert(entries_of(out@) =~= before.push(
                    (Src::Label(fixed_format(self, i as int), i as int, number), Some(i)),
                ));
                j = j + 1;
            }
            assert(ints(fijos0@).take(j as int) =~= ints(fijos0@));
            if fijos0.len() > 0 {
                out.push(
                    (
                        LineSource::Styled(String::from_str("#[fg=dim]──────────────────────────")),
                        None,
                    ),
                );
            }
        } else {
            assert(fixed_entries(self, fijos) =~= Seq::<Entry>::empty());
        }
        let ghost e_fixed = entries_of(out@);
        assert(e_fixed =~= blanks(top as nat) + fixed_entries(self, fijos) + (if fijos.len() > 0 {
            seq![(Src::Styled(separator()), None::<usize>)]
        } else {
            Seq::empty()
        }));
        if self.mostrar_archivados {
            let mut cab_text = String::from_str("#[fg=3,bold]ARCHIVO #[fg=dim]");
            push_decimal(&mut cab_text, n_arch as u128);
            cab_text.append(" tab");
            if n_arch != 1 {
                cab_text.append("s");
            }
            proof {
                reveal_strlit("s");
            }
            assert(cab_text@ =~= archive_heading(n_arch as nat));
            out.push((LineSource::Styled(cab_text), None));
            out.push(
                (LineSource::Styled(String::from_str("#[fg=dim]──────────────────────────")), None),
            );
        }
        let ghost e_arch = entries_of(out@);
        if above > 0 {
            proof {
                reveal_strlit("{count}");
            }
            let t = self.expand_overflow_format(self.style.overflow_above.as_str(), above);
            out.push((LineSource::Styled(t), None));
        }
        assert(entries_of(out@) =~= head_entries(self, fijos, n_arch as nat, above as nat));
    }

    fn push_tabs(
        &self,
        out: &mut Vec<(LineSource, Option<usize>)>,
        rows: usize,
        resto: &Vec<usize>,
        start: usize,
        end: usize,
        act: &Vec<Vec<String>>,
    )
        requires
            start <= end <= resto@.len(),
            fits_counts(self),
            forall|z: int| 0 <= z < resto@.len() ==> resto@[z] < self.tabs@.len(),
        ensures
            entries_of(final(out)@) == tab_entries(
                self,
                entries_of(old(out)@),
                rows as nat,
                ints(resto@).subrange(start as int, end as int),
                act@,
            ),
            labels_valid(self, entries_of(old(out)@)) ==> labels_valid(self, entries_of(final(out)@)),
    {
        let ghost ids = ints(resto@).subrange(start as int, end as int);
        let ghost e1 = entries_of(out@);
        let mut q: usize = start;
        let empty: Vec<String> = Vec::new();
        assert(ids.skip(0) =~= ids);
        while q < end
            invariant
                start <= q <= end,
                end <= resto@.len(),
                ids == ints(resto@).subrange(start as int, end as int),
                e1 == entries_of(old(out)@),
                labels_valid(self, e1) ==> labels_valid(self, entries_of(out@)),
                fits_counts(self),
                empty@.len() == 0,
                forall|z: int| 0 <= z < resto@.len() ==> resto@[z] < self.tabs@.len(),
                tab_entries(self, entries_of(out@), rows as nat, ids.skip(q - start), act@)
                    == tab_entries(self, e1, rows as nat, ids, act@),
            decreases end - q,
        {
            let ghost rest = ids.skip(q - start);
            assert(rest[0] == resto@[q as int] as int);
            assert(rest.drop_first() =~= ids.skip(q + 1 - start));
            if out.len() >= rows {
                assert(tab_entries(self, entries_of(out@), rows as nat, rest, act@) == entries_of(
                    out@,
                ));
                return;
            }
            let i = resto[q];
            let f = self.list_format_of(i);
            let number = i + self.style.start_index;
            let ghost before_label = entries_of(out@);
            out.push((LineSource::Label { format: f, tab: i, number }, Some(i)));
            let ghost with_label = entries_of(out@);
            assert(with_label =~= before_label.push(
                (Src::Label(list_format(self, i as int), i as int, number), Some(i)),
            ));
            let acts: &Vec<String> = if i < act.len() {
                &act[i]
            } else {
                &empty
            };
            assert(names_of(acts@) =~= act_rows(act@, i as int));
            let filas = self.filas_extra(&self.tabs[i], acts);
            let ghost fv = names_of(filas@);
            let mut w: usize = 0;
            assert(fv.skip(0) =~= fv);
            while w < filas.len() && out.len() < rows
                invariant
                    w <= filas@.len(),
                    i < self.tabs@.len(),
                    fv == names_of(filas@),
                    labels_valid(self, e1) ==> labels_valid(self, entries_of(out@)),
                    extra_entries(entries_of(out@), rows as nat, i as int, fv.skip(w as int))
                        == extra_entries(with_label, rows as nat, i as int, fv),
                decreases filas@.len() - w,
            {
                assert(fv.skip(w as int)[0] == filas@[w as int]@);
                assert(fv.skip(w as int).drop_first() =~= fv.skip(w + 1));
                let ghost before = entries_of(out@);
                out.push((LineSource::Styled(filas[w].clone()), Some(i)));
                assert(entries_of(out@) =~= before.push((Src::Styled(fv[w as int]), Some(i))));
                w = w + 1;
            }
            assert(w == filas@.len() ==> fv.skip(w as int) =~= Seq::<Seq<char>>::empty());
            assert(extra_entries(entries_of(out@), rows as nat, i as int, fv.skip(w as int))
                == entries_of(out@));
            q = q + 1;
        }
        assert(ids.skip(q - start) =~= Seq::<int>::empty());
    }

    fn push_finish(&self, out: &mut Vec<(LineSource, Option<usize>)>, rows: usize, below: usize)
        ensures
            labels_valid(self, entries_of(old(out)@)) ==> labels_valid(self, entries_of(final(out)@)),
            entries_of(final(out)@) == finish_entries(
                self,
                entries_of(old(out)@),
                rows as nat,
                below as nat,
            ),
    {
        if below > 0 {
            proof {
                reveal_strlit("{count}");
            }
            let t = self.expand_overflow_format(self.style.overflow_below.as_str(), below);
            let ghost before = entries_of(out@);
            out.push((LineSource::Styled(t), None));
            assert(labels_valid(self, before) ==> labels_valid(self, entries_of(out@))) by {
                if labels_valid(self, before) {
                    assert forall|k: int| 0 <= k < entries_of(out@).len() implies row_valid(
                        self,
                        #[trigger] entries_of(out@)[k],
                    ) by {
                        if k < before.len() {
                            assert(entries_of(out@)[k] == before[k]);
                        }
                    }
                }
            }
        }
        let ghost e3 = entries_of(out@);
        if out.len() < rows {
            let need = rows - out.len();
            let mut k: usize = 0;
            while k < need
                invariant
                    k <= need,
                    need == rows - e3.len(),
                    labels_valid(self, e3) ==> labels_valid(self, entries_of(out@)),
                    entries_of(out@) == e3 + blanks(k as nat),
                decreases need - k,
            {
                let ghost before = entries_of(out@);
                out.push((LineSource::Blank, None));
                assert(entries_of(out@) =~= before.push((Src::Blank, None::<usize>)));
                assert(blanks((k + 1) as nat) =~= blanks(k as nat).push((Src::Blank, None::<usize>)));
                assert(e3 + blanks((k + 1) as nat) =~= (e3 + blanks(k as nat)).push(
                    (Src::Blank, None::<usize>),
                ));
                k = k + 1;
            }
        } else {
            assert(entries_of(out@) == e3);
        }
        let ghost e4 = entries_of(out@);
        if rows >= 2 {
            let (bottom, _) = self.bottom_text();
            out.set(rows - 1, (LineSource::Styled(bottom), None));
            assert(entries_of(out@) =~= e4.update(
                rows - 1,
                (Src::Styled(bottom_row(self)), None::<usize>),
            ));
            assert(labels_valid(self, e4) ==> labels_valid(self, entries_of(out@))) by {
                if labels_valid(self, e4) {
                    assert forall|k: int| 0 <= k < entries_of(out@).len() implies row_valid(
                        self,
                        #[trigger] entries_of(out@)[k],
                    ) by {
                        if k != rows - 1 {
                            assert(entries_of(out@)[k] == e4[k]);
                        }
                    }
                }
            }
        }
    }

    /// What each row of the bar shows (see [`plan`]); `act` holds the
    /// activity rows of each tab, already rendered for the width.
    pub fn render_plan(&self, rows: usize, act: &Vec<Vec<String>>) -> (r: Vec<
        (LineSource, Option<usize>),
    >)
        requires
            fits_counts(self),
        ensures
            entries_of(r@) == plan(self, rows as nat, act@),
            labels_valid(self, entries_of(r@)),
    {
        proof {
            lemma_fixed_len(self);
        }
        let fijos0 = self.fijos();
        let archivados = self.archivados_idx(&fijos0);
        let vista = self.mostrar_archivados;
        let resto0 = self.resto_idx(&fijos0, &archivados);
        let resto = self.ordenar(resto0);
        let n_fijos: usize = if vista {
            0
        } else {
            fijos0.len()
        };
        let filas_fijas: usize = if n_fijos == 0 {
            0
        } else {
            n_fijos + 1
        };
        let cab: usize = if vista {
            2
        } else {
            0
        };
        let available = rows.saturating_sub(self.style.padding_top + filas_fijas + cab + 1);
        let active_real = self.active_tab_idx.saturating_sub(1);
        let active_index = first_index_exec(&resto, active_real);
        let (start, end, above, below) = calculate_visible_range(
            resto.len(),
            available,
            active_index,
        );
        proof {
            if resto@.len() > 0 {
                crate::layout::lemma_active_tab_visible(
                    resto@.len() as nat,
                    available as nat,
                    active_index as nat,
                );
            }
        }
        let mut out: Vec<(LineSource, Option<usize>)> = Vec::new();
        self.push_head(&mut out, &fijos0, archivados.len(), above);
        self.push_tabs(&mut out, rows, &resto, start, end, act);
        self.push_finish(&mut out, rows, below);
        out
    }
}

/// Whether a row's format string parses without panicking.
pub open spec fn entry_ok(e: Entry) -> bool {
    match e.0 {
        Src::Blank => true,
        Src::Label(f, _, _) => format_ok(f),
        Src::Styled(t) => format_ok(t),
    }
}

/// Whether the border and every row of a plan parse without panicking.
pub open spec fn plan_ok(st: &State, es: Seq<Entry>) -> bool {
    format_ok(st.style.border@) && forall|k: int| 0 <= k < es.len() ==> entry_ok(#[trigger] es[k])
}

/// The row drawn for an entry.
pub open spec fn draw(st: &State, cols: nat, e: Entry) -> Seq<char> {
    let border = styled_string(st.style.border@);
    match e.0 {
        Src::Blank => empty_line(border, cols),
        Src::Label(f, i, n) => row_line(border, label(st, f, &st.tabs@[i], n), cols, st.tabs@[i].active),
        Src::Styled(t) => row_line(border, styled_string(t), cols, false),
    }
}

/// The rows drawn for a plan.
pub open spec fn drawn(st: &State, cols: nat, es: Seq<Entry>) -> Seq<Seq<char>> {
    es.map_values(|e: Entry| draw(st, cols, e))
}

/// The tab each row of a plan belongs to.
pub open spec fn row_tabs(es: Seq<Entry>) -> Seq<Option<usize>> {
    es.map_values(|e: Entry| e.1)
}

impl State {
    /// Whether the border and every row of `plan` parse without panicking.
    pub fn plan_is_ok(&self, plan: &Vec<(LineSource, Option<usize>)>) -> (b: bool)
        ensures
            b == plan_ok(self, entries_of(plan@)),
    {
        if !format_is_ok(self.style.border.as_str()) {
            return false;
        }
        let mut k: usize = 0;
        while k < plan.len()
            invariant
                k <= plan@.len(),
                forall|j: int| 0 <= j < k ==> entry_ok(#[trigger] entries_of(plan@)[j]),
            decreases plan@.len() - k,
        {
            let ok = match &plan[k].0 {
                LineSource::Blank => true,
                LineSource::Label { format, .. } => format_is_ok(format.as_str()),
                LineSource::Styled(t) => format_is_ok(t.as_str()),
            };
            if !ok {
                assert(!entry_ok(entries_of(plan@)[k as int]));
                return false;
            }
            k = k + 1;
        }
        true
    }

    /// Draws the rows of the bar for `rows` rows of `cols` columns (see
    /// [`plan`] and [`draw`]), and records for each row the tab it belongs to,
    /// the number of rows, and (in normal mode) where the shortcuts of the
    /// bottom row start.
    pub fn render_vertical(&mut self, rows: usize, cols: usize, act: &Vec<Vec<String>>) -> (lines:
        Vec<String>)
        requires
            fits_counts(old(self)),
            plan_ok(old(self), plan(old(self), rows as nat, act@)),
        ensures
            names_of(lines@) == drawn(old(self), cols as nat, plan(old(self), rows as nat, act@)),
            final(self).row_map@ == row_tabs(plan(old(self), rows as nat, act@)),
            final(self).ultimas_filas == rows,
            rows >= 2 && old(self).mode == InputMode::Normal ==> {
                &&& final(self).col_arch == 4
                &&& final(self).col_orden == 4 + archive_key(old(self)).len() + 2
            },
            !(rows >= 2 && old(self).mode == InputMode::Normal) ==> {
                &&& final(self).col_arch == old(self).col_arch
                &&& final(self).col_orden == old(self).col_orden
            },
            *final(self) == (State {
                row_map: final(self).row_map,
                ultimas_filas: rows,
                col_arch: final(self).col_arch,
                col_orden: final(self).col_orden,
                ..*old(self)
            }),
            row_map_fits(final(self)),
    {
        let sources = self.render_plan(rows, act);
        let ghost es = entries_of(sources@);
        let mut lines: Vec<String> = Vec::new();
        let mut row_map: Vec<Option<usize>> = Vec::new();
        let mut k: usize = 0;
        while k < sources.len()
            invariant
                k <= sources@.len(),
                es == entries_of(sources@),
                es == plan(self, rows as nat, act@),
                plan_ok(self, es),
                labels_valid(self, es),
                names_of(lines@) == drawn(self, cols as nat, es.take(k as int)),
                row_map@ == row_tabs(es.take(k as int)),
            decreases sources@.len() - k,
        {
            assert(entry_ok(es[k as int]));
            let line = match &sources[k].0 {
                LineSource::Blank => self.build_empty_line(cols),
                LineSource::Label { format, tab, number } => {
                    let t = &self.tabs[*tab];
                    let styled = self.expand_tmux_format(format.as_str(), t, *number);
                    self.build_line(&styled, cols, t.active)
                },
                LineSource::Styled(text) => {
                    let styled = parse_styled_string(text.as_str());
                    self.build_line(&styled, cols, false)
                },
            };
            let ghost before = names_of(lines@);
            let ghost rm = row_map@;
            lines.push(line);
            row_map.push(sources[k].1);
            assert(es.take(k + 1) =~= es.take(k as int).push(es[k as int]));
            assert(names_of(lines@) =~= before.push(draw(self, cols as nat, es[k as int])));
            assert(drawn(self, cols as nat, es.take(k + 1)) =~= drawn(self, cols as nat, es.take(k as int)).push(draw(self, cols as nat, es[k as int])));
            assert(row_tabs(es.take(k + 1)) =~= row_tabs(es.take(k as int)).push(es[k as int].1));
            assert(row_map@ =~= rm.push(es[k as int].1));
            k = k + 1;
        }
        assert(es.take(k as int) =~= es);
        if rows >= 2 && self.mode == InputMode::Normal {
            let (_, arch_len) = self.bottom_text();
            let n_arch = self.archivados.len();
            proof {
                crate::text::lemma_decimal_short(n_arch as nat);
                reveal_strlit("⌥A");
                reveal_strlit("⌥A ");
                reveal_strlit(" ▾");
                assert(archive_key(self).len() <= 25);
            }
            self.col_arch = 4;
            self.col_orden = 4 + arch_len + 2;
        }
        let ntabs = self.tabs.len();
        assert forall|j: int| 0 <= j < row_map@.len() implies match #[trigger] row_map@[j] {
            Some(i) => i < usize::MAX,
            None => true,
        } by {
            assert(row_valid(self, es[j]));
            assert(row_map@[j] == es[j].1);
        }
        self.row_map = row_map;
        self.ultimas_filas = rows;
        lines
    }
}

} // verus!
