//! The extra rows under a tab: its state line, its pending items and its
//! live activity.
use vstd::prelude::*;
use vstd::string::StringExecFns;
use crate::config::names_of;
use crate::layout::{norm_session_name, normalized_name};
use crate::model::{Estado, Tab};
use crate::state::{focused_title, starts_with_str, State};
use crate::table::{table_find, table_get};
use crate::text::{chars_of, replace, replace_chars, string_of};

verus! {

/// How many pending items are listed under a tab.
pub const MAX_PENDIENTES: usize = 6;

/// `format` with every `pat` replaced by `rep`.
pub fn replace_str(format: &str, pat: &str, rep: &str) -> (r: String)
    requires
        pat@.len() > 0,
    ensures
        r@ == replace(format@, pat@, rep@),
{
    let f = chars_of(format);
    let p = chars_of(pat);
    let r = chars_of(rep);
    let out = replace_chars(&f, &p, &r);
    string_of(&out)
}

/// The row of a pending item: ▣ for one in progress (marked "▶ "), ☐ otherwise.
pub open spec fn pending_row(fmt: Seq<char>, p: Seq<char>) -> Seq<char> {
    let (caja, texto) = if crate::text::starts_with(p, "▶ "@) {
        ("▣"@, p.skip(2))
    } else {
        ("☐"@, p)
    };
    replace(fmt, "{activity}"@, "  "@ + caja + " "@ + texto)
}

/// The rows of the pending items.
pub open spec fn pending_rows(fmt: Seq<char>, ps: Seq<Seq<char>>) -> Seq<Seq<char>> {
    ps.map_values(|p: Seq<char>| pending_row(fmt, p))
}

/// The rows from a tab's entry in the state file: its state line, its first
/// pending items, and "…" when there are more.
pub open spec fn estado_rows(st: &State, e: Estado) -> Seq<Seq<char>> {
    let ps = names_of(e.pendientes@);
    (if e.estado@.len() > 0 {
        seq![replace(st.style.estado_format@, "{estado}"@, "  › "@ + e.estado@)]
    } else {
        Seq::empty()
    }) + pending_rows(
        st.style.activity_format@,
        if ps.len() <= MAX_PENDIENTES {
            ps
        } else {
            ps.take(MAX_PENDIENTES as int)
        },
    ) + if ps.len() > MAX_PENDIENTES {
        seq![replace(st.style.activity_format@, "{activity}"@, "  …"@)]
    } else {
        Seq::empty()
    }
}

/// The extra rows under a tab (when they are switched on): its state-file
/// rows, then its activity rows `act` in the activity format. The rows are
/// format strings still to be parsed.
pub open spec fn extra_rows(st: &State, tab: &Tab, act: Seq<Seq<char>>) -> Seq<Seq<char>> {
    if !st.filas_estado {
        Seq::empty()
    } else {
        (match table_get(st.estado@, tab.name@) {
            Some(e) => estado_rows(st, e),
            None => Seq::empty(),
        }) + act.map_values(|a: Seq<char>| replace(st.style.activity_format@, "{activity}"@, a))
    }
}

/// The key under which a session's activity for `name` is stored.
pub open spec fn activity_key(session: Seq<char>, name: Seq<char>) -> Seq<char> {
    session + seq!['\u{1}'] + name
}

/// The key under which a session's activity for `name` is stored.
pub fn activity_key_of(session: &str, name: &str) -> (k: String)
    ensures
        k@ == activity_key(session@, name@),
{
    let mut k = String::from_str(session);
    k.push('\u{1}');
    k.append(name);
    assert(k@ =~= activity_key(session@, name@));
    k
}

impl State {
    /// The keys under which the live activity of `tab` is looked up, in
    /// order: by the tab's normalised name, then by its focused pane's
    /// normalised title (or again the tab name when there is no title).
    pub fn activity_keys(&self, tab: &Tab) -> (r: (String, String))
        ensures
            r.0@ == activity_key(self.own_session@, normalized_name(tab.name@)),
            r.1@ == activity_key(
                self.own_session@,
                match focused_title(self.panes@, tab.position) {
                    Some(t) => normalized_name(t),
                    None => normalized_name(tab.name@),
                },
            ),
    {
        let por_tab = activity_key_of(self.own_session.as_str(), norm_session_name(tab.name.as_str()).as_str());
        let pane = match self.get_focused_pane_title(tab.position) {
            Some(t) => norm_session_name(t.as_str()),
            None => norm_session_name(tab.name.as_str()),
        };
        let otro = activity_key_of(self.own_session.as_str(), pane.as_str());
        (por_tab, otro)
    }

    /// The extra rows under `tab` (see [`extra_rows`]); `act` are the rows of
    /// its live activity, already rendered for the width.
    pub fn filas_extra(&self, tab: &Tab, act: &Vec<String>) -> (rows: Vec<String>)
        ensures
            names_of(rows@) == extra_rows(self, tab, names_of(act@)),
    {
        let mut extra: Vec<String> = Vec::new();
        if !self.filas_estado {
            assert(names_of(extra@) =~= Seq::<Seq<char>>::empty());
            return extra;
        }
        proof {
            reveal_strlit("{estado}");
            reveal_strlit("{activity}");
        }
        let ghost head: Seq<Seq<char>> = match table_get(self.estado@, tab.name@) {
            Some(e) => estado_rows(self, e),
            None => Seq::empty(),
        };
        match table_find(&self.estado, tab.name.as_str()) {
            Some(e) => {
                if !e.estado.as_str().is_empty() {
                    let mut fila = String::from_str("  › ");
                    fila.append(e.estado.as_str());
                    extra.push(replace_str(self.style.estado_format.as_str(), "{estado}", fila.as_str()));
                }
                let ghost ps = names_of(e.pendientes@);
                let ghost shown = if ps.len() <= MAX_PENDIENTES {
                    ps
                } else {
                    ps.take(MAX_PENDIENTES as int)
                };
                let ghost first = names_of(extra@);
                assert(first =~= (if e.estado@.len() > 0 {
                    seq![replace(self.style.estado_format@, "{estado}"@, "  › "@ + e.estado@)]
                } else {
                    Seq::<Seq<char>>::empty()
                }));
                let limit = if e.pendientes.len() < MAX_PENDIENTES {
                    e.pendientes.len()
                } else {
                    MAX_PENDIENTES
                };
                let mut k: usize = 0;
                while k < limit
                    invariant
                        k <= limit,
                        limit == shown.len(),
                        ps == names_of(e.pendientes@),
                        shown == (if ps.len() <= MAX_PENDIENTES {
                            ps
                        } else {
                            ps.take(MAX_PENDIENTES as int)
                        }),
                        limit <= e.pendientes@.len(),
                        names_of(extra@) == first + pending_rows(
                            self.style.activity_format@,
                            shown.take(k as int),
                        ),
                    decreases limit - k,
                {
                    let p = &e.pendientes[k];
                    assert(shown[k as int] == p@);
                    proof {
                        reveal_strlit("▶ ");
                        reveal_strlit("{activity}");
                    }
                    let row = if starts_with_str(p.as_str(), "▶ ") {
                        let cs = chars_of(p.as_str());
                        let rest = crate::text::sub_chars(&cs, 2, cs.len());
                        let mut fila = String::from_str("  ▣ ");
                        fila.append(string_of(&rest).as_str());
                        proof {
                            reveal_strlit("▶ ");
                            reveal_strlit("▣");
                            reveal_strlit("  ▣ ");
                            reveal_strlit("  ");
                            reveal_strlit(" ");
                            assert(p@.len() >= 2);
                            assert(rest@ =~= p@.skip(2));
                            assert(fila@ =~= "  "@ + "▣"@ + " "@ + p@.skip(2));
                        }
                        replace_str(self.style.activity_format.as_str(), "{activity}", fila.as_str())
                    } else {
                        let mut fila = String::from_str("  ☐ ");
                        fila.append(p.as_str());
                        proof {
                            reveal_strlit("☐");
                            reveal_strlit("  ☐ ");
                            reveal_strlit("  ");
                            reveal_strlit(" ");
                            assert(fila@ =~= "  "@ + "☐"@ + " "@ + p@);
                        }
                        replace_str(self.style.activity_format.as_str(), "{activity}", fila.as_str())
                    };
                    let ghost before = names_of(extra@);
                    extra.push(row);
                    assert(shown.take(k + 1) =~= shown.take(k as int).push(shown[k as int]));
                    assert(names_of(extra@) =~= before.push(row@));
                    assert(pending_rows(self.style.activity_format@, shown.take(k + 1))
                        =~= pending_rows(self.style.activity_format@, shown.take(k as int)).push(
                        pending_row(self.style.activity_format@, shown[k as int]),
                    ));
                    k = k + 1;
                }
                assert(shown.take(limit as int) =~= shown);
                let ghost mid = names_of(extra@);
                if e.pendientes.len() > MAX_PENDIENTES {
                    extra.push(replace_str(self.style.activity_format.as_str(), "{activity}", "  …"));
                    assert(names_of(extra@) =~= mid.push(
                        replace(self.style.activity_format@, "{activity}"@, "  …"@),
                    ));
                }
                assert(head == estado_rows(self, *e));
                assert(names_of(extra@) =~= head);
            },
            None => {
                assert(names_of(extra@) =~= head);
            },
        }
        let ghost first = names_of(extra@);
        let ghost acts = names_of(act@).map_values(
            |a: Seq<char>| replace(self.style.activity_format@, "{activity}"@, a),
        );
        let mut j: usize = 0;
        while j < act.len()
            invariant
                j <= act@.len(),
                acts == names_of(act@).map_values(
                    |a: Seq<char>| replace(self.style.activity_format@, "{activity}"@, a),
                ),
                names_of(extra@) == first + acts.take(j as int),
            decreases act@.len() - j,
        {
            proof {
                reveal_strlit("{activity}");
            }
            let ghost before = names_of(extra@);
            extra.push(replace_str(self.style.activity_format.as_str(), "{activity}", act[j].as_str()));
            assert(acts.take(j + 1) =~= acts.take(j as int).push(acts[j as int]));
            assert(names_of(extra@) =~= before.push(acts[j as int]));
            j = j + 1;
        }
        assert(acts.take(j as int) =~= acts);
        extra
    }
}

} // verus!
