//! Which tabs go where: the fixed section at the top, the archive, the
//! numbered list and its order.
use vstd::prelude::*;
use crate::color::{lowercase, to_lowercase};
use crate::config::names_of;
use crate::layout::{es_reunion, is_meeting};
use crate::model::Tab;
use crate::state::State;
use crate::table::{str_eq, table_find, table_get};

verus! {

/// Index of the first tab named `name`.
pub open spec fn first_named(tabs: Seq<Tab>, name: Seq<char>) -> Option<int>
    decreases tabs.len(),
{
    if tabs.len() == 0 {
        None
    } else if tabs[0].name@ == name {
        Some(0)
    } else {
        match first_named(tabs.drop_first(), name) {
            Some(i) => Some(i + 1),
            None => None,
        }
    }
}

/// The tabs named in `names` (the first tab of each name), in that order.
pub open spec fn named_tabs(tabs: Seq<Tab>, names: Seq<Seq<char>>) -> Seq<int>
    decreases names.len(),
{
    if names.len() == 0 {
        Seq::empty()
    } else {
        (match first_named(tabs, names[0]) {
            Some(i) => seq![i],
            None => Seq::empty(),
        }) + named_tabs(tabs, names.drop_first())
    }
}

/// `base` followed by the meeting tabs among the first `n` tabs that it does not hold yet.
pub open spec fn with_meetings(tabs: Seq<Tab>, base: Seq<int>, n: nat) -> Seq<int>
    decreases n,
{
    if n == 0 {
        base
    } else {
        let acc = with_meetings(tabs, base, (n - 1) as nat);
        if is_meeting(tabs[n - 1].name@) && !acc.contains(n - 1) {
            acc.push(n - 1)
        } else {
            acc
        }
    }
}

/// The fixed tabs at the top: those named in the `arriba` setting, then the
/// meeting tabs that hang below them.
pub open spec fn fixed_tabs(st: &State) -> Seq<int> {
    with_meetings(
        st.tabs@,
        named_tabs(st.tabs@, names_of(st.style.arriba@)),
        st.tabs@.len(),
    )
}

/// The indices `i < n` with `keep(i)`, in order.
pub open spec fn indices_where(n: nat, keep: spec_fn(int) -> bool) -> Seq<int>
    decreases n,
{
    if n == 0 {
        Seq::empty()
    } else {
        indices_where((n - 1) as nat, keep) + if keep(n - 1) {
            seq![n - 1]
        } else {
            Seq::empty()
        }
    }
}

/// The archived tabs that are not fixed, in order.
pub open spec fn archived_tabs(st: &State, fijos: Seq<int>) -> Seq<int> {
    indices_where(
        st.tabs@.len(),
        |i: int| names_of(st.archivados@).contains(st.tabs@[i].name@) && !fijos.contains(i),
    )
}

/// The tabs of the numbered list before ordering: the archived ones when the
/// archive is shown, else those neither fixed nor archived.
pub open spec fn listed_tabs(st: &State, fijos: Seq<int>, archived: Seq<int>) -> Seq<int> {
    if st.mostrar_archivados {
        archived
    } else {
        indices_where(st.tabs@.len(), |i: int| !fijos.contains(i) && !archived.contains(i))
    }
}

pub(crate) fn first_named_exec(tabs: &Vec<Tab>, name: &str) -> (r: Option<usize>)
    ensures
        match r {
            Some(i) => first_named(tabs@, name@) == Some(i as int) && i < tabs@.len(),
            None => first_named(tabs@, name@) is None,
        },
{
    let mut i: usize = 0;
    assert(tabs@.skip(0) =~= tabs@);
    while i < tabs.len()
        invariant
            i <= tabs@.len(),
            first_named(tabs@, name@) == match first_named(tabs@.skip(i as int), name@) {
                Some(k) => Some(k + i),
                None => None::<int>,
            },
        decreases tabs@.len() - i,
    {
        assert(tabs@.skip(i as int).drop_first() =~= tabs@.skip(i + 1));
        assert(tabs@.skip(i as int)[0] == tabs@[i as int]);
        if str_eq(tabs[i].name.as_str(), name) {
            return Some(i);
        }
        i = i + 1;
    }
    None
}

/// Whether `v` holds `x`.
pub fn vec_contains(v: &Vec<usize>, x: usize) -> (b: bool)
    ensures
        b == v@.contains(x),
{
    let mut i: usize = 0;
    while i < v.len()
        invariant
            i <= v@.len(),
            forall|j: int| 0 <= j < i ==> v@[j] != x,
        decreases v@.len() - i,
    {
        if v[i] == x {
            return true;
        }
        i = i + 1;
    }
    false
}

/// The indices as integers.
pub open spec fn ints(v: Seq<usize>) -> Seq<int> {
    v.map_values(|x: usize| x as int)
}

proof fn lemma_ints_push(v: Seq<usize>, x: usize)
    ensures
        ints(v.push(x)) == ints(v).push(x as int),
{
    assert(ints(v.push(x)) =~= ints(v).push(x as int));
}

proof fn lemma_ints_contains(v: Seq<usize>, x: usize)
    ensures
        ints(v).contains(x as int) == v.contains(x),
{
    if v.contains(x) {
        let j = choose|j: int| 0 <= j < v.len() && v[j] == x;
        assert(ints(v)[j] == x as int);
    }
    if ints(v).contains(x as int) {
        let j = choose|j: int| 0 <= j < ints(v).len() && ints(v)[j] == x as int;
        assert(v[j] == x);
    }
}

/// Whether `names` holds `name`.
pub fn names_contain(names: &Vec<String>, name: &str) -> (b: bool)
    ensures
        b == names_of(names@).contains(name@),
{
    let mut i: usize = 0;
    while i < names.len()
        invariant
            i <= names@.len(),
            forall|j: int| 0 <= j < i ==> names_of(names@)[j] != name@,
        decreases names@.len() - i,
    {
        if str_eq(names[i].as_str(), name) {
            assert(names_of(names@)[i as int] == name@);
            return true;
        }
        i = i + 1;
    }
    false
}

impl State {
    /// The fixed tabs at the top (see [`fixed_tabs`]).
    pub fn fijos(&self) -> (r: Vec<usize>)
        ensures
            ints(r@) == fixed_tabs(self),
            forall|k: int| 0 <= k < r@.len() ==> r@[k] < self.tabs@.len(),
    {
        let mut out: Vec<usize> = Vec::new();
        let ghost names = names_of(self.style.arriba@);
        let mut a: usize = 0;
        assert(names.skip(0) =~= names);
        assert(ints(out@) =~= Seq::<int>::empty());
        while a < self.style.arriba.len()
            invariant
                a <= self.style.arriba@.len(),
                names == names_of(self.style.arriba@),
                ints(out@) + named_tabs(self.tabs@, names.skip(a as int)) == named_tabs(
                    self.tabs@,
                    names,
                ),
                forall|k: int| 0 <= k < out@.len() ==> out@[k] < self.tabs@.len(),
            decreases self.style.arriba@.len() - a,
        {
            assert(names.skip(a as int).drop_first() =~= names.skip(a + 1));
            assert(names.skip(a as int)[0] == self.style.arriba@[a as int]@);
            let ghost before = ints(out@);
            let ghost pre = out@;
            if let Some(i) = first_named_exec(&self.tabs, self.style.arriba[a].as_str()) {
                out.push(i);
                proof {
                    lemma_ints_push(pre, i);
                }
            }
            assert(ints(out@) + named_tabs(self.tabs@, names.skip(a + 1)) =~= before
                + named_tabs(self.tabs@, names.skip(a as int)));
            a = a + 1;
        }
        assert(names.skip(a as int) =~= Seq::<Seq<char>>::empty());
        assert(ints(out@) + Seq::<int>::empty() =~= ints(out@));
        let ghost base = ints(out@);
        let mut i: usize = 0;
        while i < self.tabs.len()
            invariant
                i <= self.tabs@.len(),
                base == named_tabs(self.tabs@, names_of(self.style.arriba@)),
                ints(out@) == with_meetings(self.tabs@, base, i as nat),
                forall|k: int| 0 <= k < out@.len() ==> out@[k] < self.tabs@.len(),
            decreases self.tabs@.len() - i,
        {
            if es_reunion(self.tabs[i].name.as_str()) && !vec_contains(&out, i) {
                proof {
                    lemma_ints_contains(out@, i);
                    lemma_ints_push(out@, i);
                }
                out.push(i);
            } else {
                proof {
                    lemma_ints_contains(out@, i);
                }
            }
            i = i + 1;
        }
        out
    }
}


impl State {
    /// The archived tabs that are not fixed (see [`archived_tabs`]).
    pub fn archivados_idx(&self, fijos: &Vec<usize>) -> (r: Vec<usize>)
        ensures
            ints(r@) == archived_tabs(self, ints(fijos@)),
            forall|k: int| 0 <= k < r@.len() ==> r@[k] < self.tabs@.len(),
    {
        let ghost keep = |i: int|
            names_of(self.archivados@).contains(self.tabs@[i].name@) && !ints(fijos@).contains(i);
        let mut out: Vec<usize> = Vec::new();
        let mut i: usize = 0;
        assert(ints(out@) =~= Seq::<int>::empty());
        while i < self.tabs.len()
            invariant
                i <= self.tabs@.len(),
                keep == (|i: int|
                    names_of(self.archivados@).contains(self.tabs@[i].name@) && !ints(
                        fijos@,
                    ).contains(i)),
                ints(out@) == indices_where(i as nat, keep),
                forall|k: int| 0 <= k < out@.len() ==> out@[k] < self.tabs@.len(),
            decreases self.tabs@.len() - i,
        {
            proof {
                lemma_ints_contains(fijos@, i);
            }
            let ghost pre = out@;
            if names_contain(&self.archivados, self.tabs[i].name.as_str()) && !vec_contains(
                fijos,
                i,
            ) {
                out.push(i);
                proof {
                    lemma_ints_push(pre, i);
                }
            }
            assert(ints(out@) =~= indices_where((i + 1) as nat, keep));
            i = i + 1;
        }
        out
    }

    /// The tabs of the numbered list before ordering (see [`listed_tabs`]).
    pub fn resto_idx(&self, fijos: &Vec<usize>, archivados: &Vec<usize>) -> (r: Vec<usize>)
        requires
            forall|k: int| 0 <= k < archivados@.len() ==> archivados@[k] < self.tabs@.len(),
        ensures
            ints(r@) == listed_tabs(self, ints(fijos@), ints(archivados@)),
            forall|k: int| 0 <= k < r@.len() ==> r@[k] < self.tabs@.len(),
    {
        if self.mostrar_archivados {
            let mut out: Vec<usize> = Vec::new();
            let mut j: usize = 0;
            while j < archivados.len()
                invariant
                    j <= archivados@.len(),
                    ints(out@) == ints(archivados@.take(j as int)),
                    out@ == archivados@.take(j as int),
                    forall|k: int| 0 <= k < archivados@.len() ==> archivados@[k] < self.tabs@.len(),
                decreases archivados@.len() - j,
            {
                out.push(archivados[j]);
                j = j + 1;
                assert(out@ =~= archivados@.take(j as int));
                assert(ints(out@) =~= ints(archivados@.take(j as int)));
            }
            assert(archivados@.take(j as int) =~= archivados@);
            return out;
        }
        let ghost keep = |i: int| !ints(fijos@).contains(i) && !ints(archivados@).contains(i);
        let mut out: Vec<usize> = Vec::new();
        let mut i: usize = 0;
        assert(ints(out@) =~= Seq::<int>::empty());
        while i < self.tabs.len()
            invariant
                i <= self.tabs@.len(),
                keep == (|i: int| !ints(fijos@).contains(i) && !ints(archivados@).contains(i)),
                ints(out@) == indices_where(i as nat, keep),
                forall|k: int| 0 <= k < out@.len() ==> out@[k] < self.tabs@.len(),
            decreases self.tabs@.len() - i,
        {
            proof {
                lemma_ints_contains(fijos@, i);
                lemma_ints_contains(archivados@, i);
            }
            let ghost pre = out@;
            if !vec_contains(fijos, i) && !vec_contains(archivados, i) {
                out.push(i);
                proof {
                    lemma_ints_push(pre, i);
                }
            }
            assert(ints(out@) =~= indices_where((i + 1) as nat, keep));
            i = i + 1;
        }
        out
    }
}

// ------------------------------------------------------------ order

/// `a` comes before `b` in the order `String`s compare by (code point by code point).
pub open spec fn lex_lt(a: Seq<char>, b: Seq<char>) -> bool
    decreases a.len(),
{
    if a.len() == 0 {
        b.len() > 0
    } else if b.len() == 0 {
        false
    } else if (a[0] as u32) < (b[0] as u32) {
        true
    } else if a[0] == b[0] {
        lex_lt(a.drop_first(), b.drop_first())
    } else {
        false
    }
}

/// Whether `a` comes before `b`.
pub fn lex_less(a: &[char], b: &[char]) -> (r: bool)
    ensures
        r == lex_lt(a@, b@),
{
    let mut i: usize = 0;
    assert(a@.skip(0) =~= a@);
    assert(b@.skip(0) =~= b@);
    while i < a.len() && i < b.len()
        invariant
            i <= a@.len(),
            i <= b@.len(),
            forall|j: int| 0 <= j < i ==> a@[j] == b@[j],
            lex_lt(a@.skip(i as int), b@.skip(i as int)) == lex_lt(a@, b@),
        decreases a@.len() - i,
    {
        let ghost x = a@.skip(i as int);
        let ghost y = b@.skip(i as int);
        assert(x[0] == a@[i as int] && y[0] == b@[i as int]);
        if (a[i] as u32) < (b[i] as u32) {
            return true;
        }
        if a[i] != b[i] {
            return false;
        }
        assert(x.drop_first() =~= a@.skip(i + 1));
        assert(y.drop_first() =~= b@.skip(i + 1));
        i = i + 1;
    }
    a.len() < b.len()
}

/// The order the list is drawn in ("alfa", "reciente", "prioridad", or as the host lists them).
pub enum Orden {
    Host,
    Alfa,
    Reciente,
    Prioridad,
}

/// The order that the setting `s` names.
pub open spec fn orden_of(s: Seq<char>) -> Orden {
    if s == "alfa"@ {
        Orden::Alfa
    } else if s == "reciente"@ {
        Orden::Reciente
    } else if s == "prioridad"@ {
        Orden::Prioridad
    } else {
        Orden::Host
    }
}

/// The tab's name in lower case.
pub open spec fn lower_name(st: &State, i: int) -> Seq<char> {
    lowercase(st.tabs@[i].name@)
}

/// The last time the tab had the focus ("" if never).
pub open spec fn focus_of(st: &State, i: int) -> Seq<char> {
    match table_get(st.ultimo_foco@, st.tabs@[i].name@) {
        Some(s) => s@,
        None => Seq::empty(),
    }
}

/// The tab's priority (9 if it has none).
pub open spec fn prio_of(st: &State, i: int) -> nat {
    match table_get(st.prioridades@, st.tabs@[i].name@) {
        Some(p) => p as nat,
        None => 9,
    }
}

/// Whether tab `a` is drawn before tab `b`: by lower-case name ("alfa"), most
/// recent focus first ("reciente"), or priority then lower-case name
/// ("prioridad"); ties keep the host's order.
pub open spec fn goes_before(st: &State, a: int, b: int) -> bool {
    match orden_of(st.orden@) {
        Orden::Alfa => lex_lt(lower_name(st, a), lower_name(st, b)) || (lower_name(st, a)
            == lower_name(st, b) && a < b),
        Orden::Reciente => lex_lt(focus_of(st, b), focus_of(st, a)) || (focus_of(st, a)
            == focus_of(st, b) && a < b),
        Orden::Prioridad => prio_of(st, a) < prio_of(st, b) || (prio_of(st, a) == prio_of(st, b)
            && (lex_lt(lower_name(st, a), lower_name(st, b)) || (lower_name(st, a) == lower_name(
            st,
            b,
        ) && a < b))),
        Orden::Host => a < b,
    }
}

/// `s` with `x` placed before the first element that it goes before.
pub open spec fn insert_sorted(s: Seq<int>, x: int, before: spec_fn(int, int) -> bool) -> Seq<int>
    decreases s.len(),
{
    if s.len() == 0 {
        seq![x]
    } else if before(x, s[0]) {
        seq![x] + s
    } else {
        seq![s[0]] + insert_sorted(s.drop_first(), x, before)
    }
}

/// `xs` sorted by insertion with `before`.
pub open spec fn sort_by(xs: Seq<int>, before: spec_fn(int, int) -> bool) -> Seq<int>
    decreases xs.len(),
{
    if xs.len() == 0 {
        Seq::empty()
    } else {
        insert_sorted(sort_by(xs.drop_last(), before), xs.last(), before)
    }
}

/// The numbered list in drawing order (the numbers stay the tabs' own).
pub open spec fn ordered_tabs(st: &State, xs: Seq<int>) -> Seq<int> {
    match orden_of(st.orden@) {
        Orden::Host => xs,
        _ => sort_by(xs, |a: int, b: int| goes_before(st, a, b)),
    }
}

proof fn lemma_insert_at(s: Seq<int>, x: int, before: spec_fn(int, int) -> bool, p: int)
    requires
        0 <= p <= s.len(),
        forall|j: int| 0 <= j < p ==> !before(x, #[trigger] s[j]),
        p < s.len() ==> before(x, s[p]),
    ensures
        insert_sorted(s, x, before) == s.take(p).push(x) + s.skip(p),
    decreases s.len(),
{
    if s.len() == 0 {
        assert(s.take(p).push(x) + s.skip(p) =~= seq![x]);
    } else if p == 0 {
        assert(s.take(p).push(x) + s.skip(p) =~= seq![x] + s);
    } else {
        assert forall|j: int| 0 <= j < p - 1 implies !before(x, #[trigger] s.drop_first()[j]) by {
            assert(s.drop_first()[j] == s[j + 1]);
        }
        lemma_insert_at(s.drop_first(), x, before, p - 1);
        assert(seq![s[0]] + (s.drop_first().take(p - 1).push(x) + s.drop_first().skip(p - 1))
            =~= s.take(p).push(x) + s.skip(p));
    }
}

impl State {
    fn goes_before_exec(
        &self,
        kind: &Orden,
        lower: &Vec<Vec<char>>,
        focus: &Vec<Vec<char>>,
        prio: &Vec<u8>,
        a: usize,
        b: usize,
    ) -> (r: bool)
        requires
            a < self.tabs@.len(),
            b < self.tabs@.len(),
            *kind == orden_of(self.orden@),
            lower@.len() == self.tabs@.len(),
            focus@.len() == self.tabs@.len(),
            prio@.len() == self.tabs@.len(),
            forall|i: int| 0 <= i < self.tabs@.len() ==> #[trigger] lower@[i]@ == lower_name(self, i),
            forall|i: int| 0 <= i < self.tabs@.len() ==> #[trigger] focus@[i]@ == focus_of(self, i),
            forall|i: int| 0 <= i < self.tabs@.len() ==> #[trigger] prio@[i] as nat == prio_of(self, i),
        ensures
            r == goes_before(self, a as int, b as int),
    {
        match kind {
            Orden::Alfa => lex_less(&lower[a], &lower[b]) || (crate::text::chars_eq(&lower[a], &lower[b]) && a < b),
            Orden::Reciente => lex_less(&focus[b], &focus[a]) || (crate::text::chars_eq(&focus[a], &focus[b]) && a < b),
            Orden::Prioridad => prio[a] < prio[b] || (prio[a] == prio[b] && (lex_less(&lower[a], &lower[b])
                || (crate::text::chars_eq(&lower[a], &lower[b]) && a < b))),
            Orden::Host => a < b,
        }
    }

    /// The numbered list in drawing order (see [`ordered_tabs`]).
    pub fn ordenar(&self, resto: Vec<usize>) -> (r: Vec<usize>)
        requires
            forall|k: int| 0 <= k < resto@.len() ==> resto@[k] < self.tabs@.len(),
        ensures
            ints(r@) == ordered_tabs(self, ints(resto@)),
            forall|k: int| 0 <= k < r@.len() ==> r@[k] < self.tabs@.len(),
    {
        let kind = if crate::table::str_eq(self.orden.as_str(), "alfa") {
            Orden::Alfa
        } else if crate::table::str_eq(self.orden.as_str(), "reciente") {
            Orden::Reciente
        } else if crate::table::str_eq(self.orden.as_str(), "prioridad") {
            Orden::Prioridad
        } else {
            Orden::Host
        };
        if let Orden::Host = kind {
            return resto;
        }
        let mut lower: Vec<Vec<char>> = Vec::new();
        let mut focus: Vec<Vec<char>> = Vec::new();
        let mut prio: Vec<u8> = Vec::new();
        let mut t: usize = 0;
        while t < self.tabs.len()
            invariant
                t <= self.tabs@.len(),
                lower@.len() == t,
                focus@.len() == t,
                prio@.len() == t,
                forall|i: int| 0 <= i < t ==> #[trigger] lower@[i]@ == lower_name(self, i),
                forall|i: int| 0 <= i < t ==> #[trigger] focus@[i]@ == focus_of(self, i),
                forall|i: int| 0 <= i < t ==> #[trigger] prio@[i] as nat == prio_of(self, i),
            decreases self.tabs@.len() - t,
        {
            let name = self.tabs[t].name.as_str();
            let l = to_lowercase(name);
            lower.push(crate::text::chars_of(l.as_str()));
            match table_find(&self.ultimo_foco, name) {
                Some(f) => focus.push(crate::text::chars_of(f.as_str())),
                None => focus.push(Vec::new()),
            }
            match table_find(&self.prioridades, name) {
                Some(p) => prio.push(*p),
                None => prio.push(9),
            }
            t = t + 1;
        }
        let ghost before = |a: int, b: int| goes_before(self, a, b);
        let mut out: Vec<usize> = Vec::new();
        let mut i: usize = 0;
        assert(ints(out@) =~= sort_by(ints(resto@.take(0)), before));
        while i < resto.len()
            invariant
                i <= resto@.len(),
                kind == orden_of(self.orden@),
                kind != Orden::Host,
                before == (|a: int, b: int| goes_before(self, a, b)),
                lower@.len() == self.tabs@.len(),
                focus@.len() == self.tabs@.len(),
                prio@.len() == self.tabs@.len(),
                forall|i: int| 0 <= i < self.tabs@.len() ==> #[trigger] lower@[i]@ == lower_name(self, i),
                forall|i: int| 0 <= i < self.tabs@.len() ==> #[trigger] focus@[i]@ == focus_of(self, i),
                forall|i: int| 0 <= i < self.tabs@.len() ==> #[trigger] prio@[i] as nat == prio_of(self, i),
                forall|k: int| 0 <= k < resto@.len() ==> resto@[k] < self.tabs@.len(),
                forall|k: int| 0 <= k < out@.len() ==> out@[k] < self.tabs@.len(),
                ints(out@) == sort_by(ints(resto@.take(i as int)), before),
            decreases resto@.len() - i,
        {
            let x = resto[i];
            let mut p: usize = 0;
            while p < out.len() && !self.goes_before_exec(&kind, &lower, &focus, &prio, x, out[p])
                invariant
                    p <= out@.len(),
                    x < self.tabs@.len(),
                    kind == orden_of(self.orden@),
                    before == (|a: int, b: int| goes_before(self, a, b)),
                    lower@.len() == self.tabs@.len(),
                    focus@.len() == self.tabs@.len(),
                    prio@.len() == self.tabs@.len(),
                    forall|i: int| 0 <= i < self.tabs@.len() ==> #[trigger] lower@[i]@ == lower_name(self, i),
                    forall|i: int| 0 <= i < self.tabs@.len() ==> #[trigger] focus@[i]@ == focus_of(self, i),
                    forall|i: int| 0 <= i < self.tabs@.len() ==> #[trigger] prio@[i] as nat == prio_of(self, i),
                    forall|k: int| 0 <= k < out@.len() ==> out@[k] < self.tabs@.len(),
                    forall|j: int| 0 <= j < p ==> !before(x as int, #[trigger] ints(out@)[j]),
                decreases out@.len() - p,
            {
                p = p + 1;
            }
            let ghost pre = ints(out@);
            proof {
                lemma_insert_at(pre, x as int, before, p as int);
                assert(ints(resto@.take(i + 1)).drop_last() =~= ints(resto@.take(i as int)));
                assert(ints(resto@.take(i + 1)).last() == x as int);
            }
            out.insert(p, x);
            assert(ints(out@) =~= pre.take(p as int).push(x as int) + pre.skip(p as int));
            i = i + 1;
        }
        assert(resto@.take(i as int) =~= resto@);
        out
    }
}

} // verus!
