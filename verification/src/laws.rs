//! What holds of the plugin across calls and inputs: events wait for the
//! permissions and are then handled in order, no command runs before the
//! permissions, a poll read twice changes nothing the second time, each part
//! of a poll reply lands where it belongs, clicks select the tab a row was
//! drawn for, the toggles and marks behave as switches, the list is drawn in
//! the chosen order, rows fill the panel's width with filled rows drawn with
//! swapped colours, and labels and style directives mean what they say.
use vstd::prelude::*;
use crate::clicks::{move_panes, tab_at_row};
use crate::color::{
    ascii_lower, ascii_lowered, dec_byte, named_color, parse_ascii_color, parse_color,
    parse_color_with, color_code, rgb_inner, rgb_open, ColorSpec,
};
use crate::commands::{poll, read_archivados, read_estado, ActionV};
use crate::compare::uniq;
use crate::config::names_of;
use crate::events::{
    command_done, drained, first_active, flow_is, handled, polled, unchanged, updated,
};
use crate::model::{CommandOutput, Event, PipeMessage, Tab};
use crate::panel::{
    first_named, focus_of, goes_before, insert_sorted, lex_lt, lower_name, ordered_tabs, orden_of,
    prio_of, sort_by, Orden,
};
use crate::color::lowercase;
use crate::plugin::{piped, rendered};
use crate::render::{plan, row_tabs};
use crate::state::{attention, own_tab, State};
use crate::style::{
    bold_code, dim_code, fit_chars, fit_segs, no_empty, plain, push_seg, reset_code, truncated,
    text_ansi, width_sum, InlineStyle, Seg,
};
use crate::table::table_get;
use crate::text::{
    decimal, digit_char, digit_value, digits_value, find, is_white, lemma_find, lemma_find_first, split, starts_with,
    trim, trim_end, trim_start,
};
use crate::poll::{focus_table, json_names, json_priorities, lines_of, lossy_text, prio_pairs, split_on, str_map};
use crate::compare::prio_map;
use crate::format::{apply_part, apply_parts, bg_eq, directive_style, fg_eq};
use crate::label::{indicators, pad2, var_segs, var_value};
use crate::lines::{fill_seg, fill_segs, reverse_code, row_line, spaces};

verus! {

/// Whether an action runs a command.
pub open spec fn runs_command(a: ActionV) -> bool {
    a is RunCommand
}

/// The pipe names are different from each other.
proof fn lemma_pipe_names()
    ensures
        "set_selectable"@ != "toggle_selectable"@,
        "set_selectable"@ != "estado_reload"@,
        "set_selectable"@ != "mudar"@,
        "set_selectable"@ != "archivados_reload"@,
        "set_selectable"@ != "archivados_toggle"@,
        "set_selectable"@ != "atencion"@,
        "toggle_selectable"@ != "estado_reload"@,
        "toggle_selectable"@ != "mudar"@,
        "toggle_selectable"@ != "archivados_reload"@,
        "toggle_selectable"@ != "archivados_toggle"@,
        "toggle_selectable"@ != "atencion"@,
        "estado_reload"@ != "mudar"@,
        "estado_reload"@ != "archivados_reload"@,
        "estado_reload"@ != "archivados_toggle"@,
        "estado_reload"@ != "atencion"@,
        "mudar"@ != "archivados_reload"@,
        "mudar"@ != "archivados_toggle"@,
        "mudar"@ != "atencion"@,
        "archivados_reload"@ != "archivados_toggle"@,
        "archivados_reload"@ != "atencion"@,
        "archivados_toggle"@ != "atencion"@,
{
    reveal_strlit("set_selectable");
    reveal_strlit("toggle_selectable");
    reveal_strlit("estado_reload");
    reveal_strlit("mudar");
    reveal_strlit("archivados_reload");
    reveal_strlit("archivados_toggle");
    reveal_strlit("atencion");
    assert("set_selectable"@[0] != "toggle_selectable"@[0]);
    assert("set_selectable"@[0] != "estado_reload"@[0]);
    assert("set_selectable"@[0] != "mudar"@[0]);
    assert("set_selectable"@[0] != "archivados_reload"@[0]);
    assert("set_selectable"@[0] != "archivados_toggle"@[0]);
    assert("set_selectable"@[0] != "atencion"@[0]);
    assert("toggle_selectable"@[0] != "estado_reload"@[0]);
    assert("toggle_selectable"@[0] != "mudar"@[0]);
    assert("toggle_selectable"@[0] != "archivados_reload"@[0]);
    assert("toggle_selectable"@[0] != "archivados_toggle"@[0]);
    assert("toggle_selectable"@[0] != "atencion"@[0]);
    assert("estado_reload"@[0] != "mudar"@[0]);
    assert("estado_reload"@[0] != "archivados_reload"@[0]);
    assert("estado_reload"@[0] != "archivados_toggle"@[0]);
    assert("estado_reload"@[0] != "atencion"@[0]);
    assert("mudar"@[0] != "archivados_reload"@[0]);
    assert("mudar"@[0] != "archivados_toggle"@[0]);
    assert("mudar"@[0] != "atencion"@[0]);
    assert("archivados_reload"@[11] != "archivados_toggle"@[11]);
    assert("archivados_reload"@[1] != "atencion"@[1]);
    assert("archivados_toggle"@[1] != "atencion"@[1]);
}

/// The flow names are different from each other.
proof fn lemma_flow_names()
    ensures
        "estado"@ != "sondeo"@,
        "estado"@ != "archivados"@,
        "estado"@ != "atencion"@,
{
    reveal_strlit("estado");
    reveal_strlit("sondeo");
    reveal_strlit("archivados");
    reveal_strlit("atencion");
    assert("estado"@[0] != "sondeo"@[0]);
    assert("estado"@[0] != "archivados"@[0]);
    assert("estado"@[0] != "atencion"@[0]);
}

/// Before the permissions are granted, an event (other than the answer to
/// the permission request) asks the host for nothing: it waits in the queue.
pub proof fn law_nothing_asked_before_grant(s0: State, ev: Event, s1: State, render: bool, a: Seq<ActionV>)
    requires
        !s0.permissions_granted,
        !(ev is PermissionResult),
        updated(s0, ev, s1, render, a),
    ensures
        a.len() == 0,
        !render,
        s1.pending_events@ == s0.pending_events@.push(ev),
{
}

/// Before the permissions are granted, no pipe message runs a command.
pub proof fn law_no_command_before_grant(s0: State, msg: PipeMessage, s1: State, render: bool, a: Seq<ActionV>)
    requires
        !s0.permissions_granted,
        piped(s0, msg, s1, render, a),
    ensures
        forall|i: int| 0 <= i < a.len() ==> !runs_command(#[trigger] a[i]),
{
    let unblock: Seq<ActionV> = match msg.cli_id {
        Some(id) => seq![ActionV::UnblockCliPipe(id@)],
        None => Seq::empty(),
    };
    lemma_pipe_names();
    assert(read_estado(&s0).len() == 0);
    assert(read_archivados(&s0).len() == 0);
    if msg.name@ == "mudar"@ {
        match msg.mudar {
            Some(m) => {
                let mv = move_panes(&s0, m.0@, m.1@);
                assert forall|i: int| 0 <= i < mv.len() implies !runs_command(#[trigger] mv[i]) by {
                }
                assert forall|i: int| 0 <= i < a.len() implies !runs_command(#[trigger] a[i]) by {
                    if i >= unblock.len() {
                        assert(a[i] == mv[i - unblock.len()]);
                    }
                }
            },
            None => {},
        }
    }
}

/// The queue of events waiting for the permissions never holds an answer to
/// the permission request: such answers are acted on when they arrive.
pub proof fn law_queue_holds_no_permission_answer(
    s0: State,
    ev: Event,
    s1: State,
    render: bool,
    a: Seq<ActionV>,
)
    requires
        forall|i: int| 0 <= i < s0.pending_events@.len() ==> !(#[trigger] s0.pending_events@[i] is PermissionResult),
        updated(s0, ev, s1, render, a),
    ensures
        forall|i: int| 0 <= i < s1.pending_events@.len() ==> !(#[trigger] s1.pending_events@[i] is PermissionResult),
{
    if !(ev is PermissionResult) && !s0.permissions_granted {
        assert forall|i: int| 0 <= i < s1.pending_events@.len() implies !(#[trigger] s1.pending_events@[i] is PermissionResult) by {
            if i < s0.pending_events@.len() {
                assert(s1.pending_events@[i] == s0.pending_events@[i]);
            }
        }
    }
}

/// The events `evs`, each passed to [`updated`] in turn from `s0`, lead to
/// `s1` and ask for `a`.
pub open spec fn replayed(s0: State, evs: Seq<Event>, s1: State, a: Seq<ActionV>) -> bool
    decreases evs.len(),
{
    if evs.len() == 0 {
        s1 == s0 && a.len() == 0
    } else {
        exists|mid: State, r: bool, a1: Seq<ActionV>|
            #[trigger] updated(s0, evs[0], mid, r, a1) && a1.len() <= a.len() && a.take(
                a1.len() as int,
            ) == a1 && replayed(mid, evs.drop_first(), s1, a.skip(a1.len() as int))
    }
}

proof fn lemma_drained_replayed(s0: State, evs: Seq<Event>, s1: State, a: Seq<ActionV>)
    requires
        s0.permissions_granted,
        forall|i: int| 0 <= i < evs.len() ==> !(#[trigger] evs[i] is PermissionResult),
        drained(s0, evs, s1, a),
    ensures
        replayed(s0, evs, s1, a),
        s1.permissions_granted,
        s1.is_selectable == s0.is_selectable,
        s1.pending_events == s0.pending_events,
    decreases evs.len(),
{
    if evs.len() > 0 {
        let (mid, r, a1) = choose|mid: State, r: bool, a1: Seq<ActionV>|
            #[trigger] handled(s0, evs[0], mid, r, a1) && a1.len() <= a.len() && a.take(
                a1.len() as int,
            ) == a1 && drained(mid, evs.drop_first(), s1, a.skip(a1.len() as int));
        assert(!(evs[0] is PermissionResult));
        assert(mid.permissions_granted && mid.is_selectable == s0.is_selectable
            && mid.pending_events == s0.pending_events);
        assert(updated(s0, evs[0], mid, r, a1));
        let rest = evs.drop_first();
        assert forall|i: int| 0 <= i < rest.len() implies !(#[trigger] rest[i] is PermissionResult) by {
            assert(rest[i] == evs[i + 1]);
        }
        lemma_drained_replayed(mid, rest, s1, a.skip(a1.len() as int));
    }
}

/// When the permissions are granted, the events that waited are handled in
/// the order they arrived, as if each had just arrived, from the state with
/// the permissions granted and the plugin not selectable; then the first
/// poll is asked for, the queue is empty and the bar is drawn.
pub proof fn law_grant_replays_queue(s0: State, s1: State, r: bool, a: Seq<ActionV>)
    requires
        forall|i: int| 0 <= i < s0.pending_events@.len() ==> !(#[trigger] s0.pending_events@[i] is PermissionResult),
        updated(s0, Event::PermissionResult(true), s1, r, a),
    ensures
        r,
        s1.permissions_granted,
        !s1.is_selectable,
        s1.pending_events@.len() == 0,
        exists|g: State, mid: Seq<ActionV>|
            g == (State {
                permissions_granted: true,
                is_selectable: false,
                pending_events: g.pending_events,
                ..s0
            }) && g.pending_events@.len() == 0 && #[trigger] replayed(g, s0.pending_events@, s1, mid)
                && a == seq![ActionV::SetSelectable(false)] + mid + poll(&s1),
{
    let (g, mid) = choose|g: State, mid: Seq<ActionV>|
        g == (State {
            permissions_granted: true,
            is_selectable: false,
            pending_events: g.pending_events,
            ..s0
        }) && g.pending_events@.len() == 0 && #[trigger] drained(g, s0.pending_events@, s1, mid)
            && a == seq![ActionV::SetSelectable(false)] + mid + poll(&s1);
    lemma_drained_replayed(g, s0.pending_events@, s1, mid);
}

/// An event that arrives before the permissions is handled once they are
/// granted: the plugin stops being selectable, handles the event as if it had
/// just arrived, and asks for the first poll.
pub proof fn law_queued_event_replayed(
    s0: State,
    ev: Event,
    s1: State,
    r1: bool,
    a1: Seq<ActionV>,
    s2: State,
    r2: bool,
    a2: Seq<ActionV>,
)
    requires
        !s0.permissions_granted,
        s0.pending_events@.len() == 0,
        !(ev is PermissionResult),
        updated(s0, ev, s1, r1, a1),
        updated(s1, Event::PermissionResult(true), s2, r2, a2),
    ensures
        exists|g: State, m: State, r: bool, ae: Seq<ActionV>|
            g == (State {
                permissions_granted: true,
                is_selectable: false,
                pending_events: g.pending_events,
                ..s0
            }) && #[trigger] handled(g, ev, m, r, ae) && unchanged(m, s2) && a2 == seq![
                ActionV::SetSelectable(false),
            ] + ae + poll(&s2),
        s2.pending_events@.len() == 0,
        r2,
{
    assert(s1.pending_events@ =~= seq![ev]);
    let (g, mid) = choose|g: State, mid: Seq<ActionV>|
        g == (State {
            permissions_granted: true,
            is_selectable: false,
            pending_events: g.pending_events,
            ..s1
        }) && #[trigger] drained(g, s1.pending_events@, s2, mid) && a2 == seq![
            ActionV::SetSelectable(false),
        ] + mid + poll(&s2);
    let q = s1.pending_events@;
    assert(q[0] == ev);
    let (m, r, ae) = choose|m: State, r: bool, ae: Seq<ActionV>|
        #[trigger] handled(g, q[0], m, r, ae) && ae.len() <= mid.len() && mid.take(ae.len() as int)
            == ae && drained(m, q.drop_first(), s2, mid.skip(ae.len() as int));
    assert(q.drop_first().len() == 0);
    assert(mid =~= ae);
    let g0 = State { permissions_granted: true, is_selectable: false, pending_events: g.pending_events, ..s0 };
    assert(g0 == g);
}

/// Reading the same poll output twice: the second reading changes nothing,
/// draws nothing and schedules no second poll.
pub proof fn law_poll_idempotent(
    s0: State,
    out: CommandOutput,
    s1: State,
    r1: bool,
    a1: Seq<ActionV>,
    s2: State,
    r2: bool,
    a2: Seq<ActionV>,
)
    requires
        flow_is(out, "sondeo"@),
        polled(s0, out, s1, r1, a1),
        polled(s1, out, s2, r2, a2),
    ensures
        unchanged(s1, s2),
        !r2,
        a2.len() == 0,
{
    let p = crate::events::poll_parts_of(out);
    assert(!crate::events::estado_changes(s1, out.estado));
    assert(!crate::events::atencion_changes(s1, out.atencion));
    assert(!crate::events::prio_change(s1, crate::events::prio_read(p)));
    assert(!crate::events::foco_change(s1, p));
    assert(s1.orden@ == crate::events::order_read(p));
    match crate::events::archived_read(p) {
        Some(v) => {
            if crate::events::archivados_change(s0, Some(v)) {
                assert(names_of(s1.archivados@) == uniq(v));
                crate::compare::lemma_dedup_same_set(uniq(v));
            }
        },
        None => {},
    }
    assert(!crate::events::archivados_change(s1, crate::events::archived_read(p)));
    assert(s2.estado == s1.estado);
    assert(s2.atencion == s1.atencion);
    assert(s2.archivados == s1.archivados);
    assert(s2.orden == s1.orden);
    assert(s2.prioridades == s1.prioridades);
    assert(s2.ultimo_foco == s1.ultimo_foco);
}

/// After the bar is drawn, a click on a row that belongs to a tab selects
/// that tab (numbered from 1).
pub proof fn law_click_selects_drawn_tab(
    s0: State,
    rows: usize,
    cols: usize,
    act: Seq<Vec<String>>,
    s1: State,
    lines: Option<Vec<String>>,
    row: nat,
)
    requires
        rendered(s0, rows, cols, act, s1, lines),
        s0.permissions_granted,
        s0.tabs@.len() > 0,
        row < plan(&s0, rows as nat, act).len(),
        plan(&s0, rows as nat, act)[row as int].1 is Some,
    ensures
        tab_at_row(&s1, row) == Some(plan(&s0, rows as nat, act)[row as int].1->0 + 1),
{
    assert(s1.row_map@[row as int] == row_tabs(plan(&s0, rows as nat, act))[row as int]);
}

/// Toggling the archive view twice leaves the state as it was.
pub proof fn law_archive_toggle_twice(
    s0: State,
    m1: PipeMessage,
    s1: State,
    r1: bool,
    a1: Seq<ActionV>,
    m2: PipeMessage,
    s2: State,
    r2: bool,
    a2: Seq<ActionV>,
)
    requires
        m1.name@ == "archivados_toggle"@,
        m2.name@ == "archivados_toggle"@,
        piped(s0, m1, s1, r1, a1),
        piped(s1, m2, s2, r2, a2),
    ensures
        s2 == s0,
        r1 && r2,
{
    lemma_pipe_names();
}

/// An attention message for a tab sets what that tab shows (an empty state
/// clears it) and leaves the other tabs as they were.
pub proof fn law_attention_set(
    s0: State,
    msg: PipeMessage,
    s1: State,
    r: bool,
    a: Seq<ActionV>,
    tab: String,
    estado: String,
    k: Seq<char>,
)
    requires
        msg.name@ == "atencion"@,
        msg.atencion == Some((tab, estado)),
        tab@.len() > 0,
        piped(s0, msg, s1, r, a),
    ensures
        r,
        attention(table_get(s1.atencion@, tab@)) == attention(
            if estado@.len() == 0 {
                None
            } else {
                Some(estado)
            },
        ),
        k != tab@ ==> table_get(s1.atencion@, k) == table_get(s0.atencion@, k),
{
    lemma_pipe_names();
    assert(table_get(s1.atencion@, tab@) == if estado@.len() == 0 {
        None
    } else {
        Some(estado)
    });
    assert(table_get(s1.atencion@, k) == if k == tab@ {
        if estado@.len() == 0 {
            None
        } else {
            Some(estado)
        }
    } else {
        table_get(s0.atencion@, k)
    });
}

/// Entering a tab whose work was marked "listo" clears the mark.
pub proof fn law_done_mark_cleared_on_entry(
    s0: State,
    tabs: Vec<Tab>,
    changed: bool,
    s1: State,
    r: bool,
    a: Seq<ActionV>,
)
    requires
        handled(s0, Event::TabUpdate { tabs, changed }, s1, r, a),
        first_active(tabs@) is Some,
        tabs@[first_active(tabs@)->0].name@ != s0.ultimo_tab_activo@,
        table_get(s0.atencion@, tabs@[first_active(tabs@)->0].name@) matches Some(v) && v@ == "listo"@,
    ensures
        table_get(s1.atencion@, tabs@[first_active(tabs@)->0].name@) is None,
        r,
{
}

/// A change of active tab is noted in the focus log at most once: a second
/// tab list with the same active tab notes nothing.
pub proof fn law_focus_noted_once(
    s0: State,
    t1: Vec<Tab>,
    c1: bool,
    s1: State,
    r1: bool,
    a1: Seq<ActionV>,
    t2: Vec<Tab>,
    c2: bool,
    s2: State,
    r2: bool,
    a2: Seq<ActionV>,
)
    requires
        handled(s0, Event::TabUpdate { tabs: t1, changed: c1 }, s1, r1, a1),
        handled(s1, Event::TabUpdate { tabs: t2, changed: c2 }, s2, r2, a2),
        first_active(t1@) is Some,
        first_active(t2@) is Some,
        t1@[first_active(t1@)->0].name@ == t2@[first_active(t2@)->0].name@,
    ensures
        a2.len() == 0,
{
}

/// Only the instance that lives in the source tab moves panes, and it moves
/// them to the destination tab.
pub proof fn law_only_source_moves(st: State, desde: Seq<char>, hacia: Seq<char>)
    requires
        move_panes(&st, desde, hacia).len() > 0,
    ensures
        first_named(st.tabs@, desde) matches Some(o) && own_tab(st.panes@, st.propio_id) == Some(
            st.tabs@[o].position,
        ),
        first_named(st.tabs@, hacia) matches Some(j) && move_panes(&st, desde, hacia)[0] matches ActionV::BreakPanesToTab(_, t) && t == st.tabs@[j].position,
{
}

/// A state file that does not read as JSON leaves the last good states in
/// place.
pub proof fn law_broken_state_file_kept(
    s0: State,
    out: CommandOutput,
    s1: State,
    r: bool,
    a: Seq<ActionV>,
)
    requires
        flow_is(out, "estado"@),
        out.estado is None,
        command_done(s0, out, s1, r, a),
    ensures
        s1.estado == s0.estado,
        !r,
{
    lemma_flow_names();
}

proof fn lemma_decimal_value(n: nat)
    ensures
        digits_value(decimal(n), 10) == Some(n),
        decimal(n).len() > 0,
        forall|i: int| 0 <= i < decimal(n).len() ==> '0' <= #[trigger] decimal(n)[i] <= '9',
    decreases n,
{
    if n >= 10 {
        lemma_decimal_value(n / 10);
        let d = decimal(n);
        assert(d.drop_last() =~= decimal(n / 10));
        assert(d.last() == digit_char(n % 10));
        assert(digit_value(digit_char(n % 10), 10) == Some(n % 10));
        assert((n / 10) * 10 + n % 10 == n) by (nonlinear_arith);
        assert forall|i: int| 0 <= i < d.len() implies '0' <= #[trigger] d[i] <= '9' by {
            if i < d.len() - 1 {
                assert(d[i] == decimal(n / 10)[i]);
            }
        }
    } else {
        assert(digit_value(digit_char(n), 10) == Some(n));
        assert(decimal(n).drop_last() =~= Seq::<char>::empty());
        assert(decimal(n).last() == digit_char(n));
        assert(digits_value(Seq::<char>::empty(), 10) == Some(0nat));
    }
}

/// A palette number from 0 to 255, written in decimal, names that colour of
/// the palette.
pub proof fn law_palette_number(n: u8)
    ensures
        parse_color(decimal(n as nat)) == ColorSpec::EightBit(n),
{
    let t = decimal(n as nat);
    lemma_decimal_value(n as nat);
    assert('0' <= t[0] <= '9');
    assert('0' <= t.last() <= '9');
    assert(!is_white(t[0]));
    assert(!is_white(t.last()));
    assert(trim_start(t) == t);
    assert(trim_end(t) == t);
    assert(trim(t) == t);
    assert(t.take(1)[0] == t[0]);
    assert(t.take(1) != seq!['#']);
    assert(!starts_with(t, rgb_open())) by {
        if t.len() >= 4 {
            assert(t.take(4)[0] == t[0]);
        }
    }
}

/// Whether `a` is the beginning of `b`.
pub open spec fn prefix_of(a: Seq<char>, b: Seq<char>) -> bool {
    a.len() <= b.len() && b.take(a.len() as int) == a
}

/// Whether `r` is made of the segments of `segs` in order, each whole or cut
/// short, with its style, and all but the last whole.
pub open spec fn cut_from(r: Seq<Seg>, segs: Seq<Seg>) -> bool {
    &&& r.len() <= segs.len()
    &&& forall|i: int|
        0 <= i < r.len() ==> (#[trigger] r[i]).1 == segs[i].1 && prefix_of(r[i].0, segs[i].0)
    &&& forall|i: int| 0 <= i < r.len() - 1 ==> #[trigger] r[i] == segs[i]
}

proof fn lemma_fit_chars_prefix(t: Seq<char>, room: nat)
    ensures
        prefix_of(fit_chars(t, room), t),
    decreases t.len(),
{
    if t.len() > 0 && crate::width::text_width(seq![t[0]]) <= room {
        let rest = (room - crate::width::text_width(seq![t[0]])) as nat;
        lemma_fit_chars_prefix(t.drop_first(), rest);
        let f = fit_chars(t.drop_first(), rest);
        assert(t.take(f.len() + 1int) =~= seq![t[0]] + t.drop_first().take(f.len() as int));
    } else {
        assert(t.take(0) =~= Seq::<char>::empty());
        assert(t.take(t.len() as int) =~= t);
    }
}

proof fn lemma_fit_segs_cut(segs: Seq<Seg>, room: nat)
    requires
        no_empty(segs),
    ensures
        cut_from(fit_segs(segs, room), segs),
    decreases segs.len(),
{
    if segs.len() > 0 && room > 0 {
        let w = crate::width::text_width(segs[0].0);
        if w <= room {
            let rest = segs.drop_first();
            assert(no_empty(rest)) by {
                assert forall|i: int| 0 <= i < rest.len() implies (#[trigger] rest[i]).0.len() > 0 by {
                    assert(rest[i] == segs[i + 1]);
                }
            }
            lemma_fit_segs_cut(rest, (room - w) as nat);
            let tail = fit_segs(rest, (room - w) as nat);
            assert(segs[0].0.len() > 0);
            assert(push_seg(Seq::empty(), segs[0]) =~= seq![segs[0]]);
            let r = seq![segs[0]] + tail;
            assert(segs[0].0.take(segs[0].0.len() as int) =~= segs[0].0);
            assert forall|i: int| 0 <= i < r.len() implies (#[trigger] r[i]).1 == segs[i].1
                && prefix_of(r[i].0, segs[i].0) by {
                if i > 0 {
                    assert(r[i] == tail[i - 1]);
                    assert(segs[i] == rest[i - 1]);
                }
            }
            assert forall|i: int| 0 <= i < r.len() - 1 implies #[trigger] r[i] == segs[i] by {
                if i > 0 {
                    assert(r[i] == tail[i - 1]);
                    assert(segs[i] == rest[i - 1]);
                }
            }
        } else {
            lemma_fit_chars_prefix(segs[0].0, room);
        }
    }
}

/// Cutting a styled text to a width keeps a text that fits exactly as it is:
/// the same segments, texts and styles.
pub proof fn law_truncate_keeps_fitting_text(segs: Seq<Seg>, max: nat)
    ensures
        width_sum(segs) <= max ==> truncated(segs, max) == segs,
{
}

/// Cutting a styled text whose segments all hold text keeps its segments in
/// order, each whole or cut short, with their styles, all but the last whole.
pub proof fn law_truncate_keeps_a_prefix(segs: Seq<Seg>, max: nat)
    requires
        no_empty(segs),
    ensures
        cut_from(truncated(segs, max), segs),
{
    if width_sum(segs) > max {
        lemma_fit_segs_cut(segs, max);
    } else {
        assert forall|i: int| 0 <= i < segs.len() implies prefix_of(#[trigger] segs[i].0, segs[i].0) by {
            assert(segs[i].0.take(segs[i].0.len() as int) =~= segs[i].0);
        }
    }
}

/// The sum of the widths of the characters of `t`, taken one by one.
pub open spec fn char_sum(t: Seq<char>) -> nat
    decreases t.len(),
{
    if t.len() == 0 {
        0
    } else {
        crate::width::text_width(seq![t[0]]) as nat + char_sum(t.drop_first())
    }
}

/// Whether no beginning of a segment's text is wider than its characters
/// taken one by one (no emoji or ligature sequence widens it).
pub open spec fn no_wide_sequences(segs: Seq<Seg>) -> bool {
    forall|i: int, k: int|
        0 <= i < segs.len() && 0 <= k <= segs[i].0.len() ==> crate::width::text_width(
            #[trigger] segs[i].0.take(k),
        ) <= char_sum(segs[i].0.take(k))
}

proof fn lemma_fit_chars_sum(t: Seq<char>, room: nat)
    ensures
        char_sum(fit_chars(t, room)) <= room,
    decreases t.len(),
{
    if t.len() > 0 && crate::width::text_width(seq![t[0]]) <= room {
        let w = crate::width::text_width(seq![t[0]]);
        let rest = (room - w) as nat;
        lemma_fit_chars_sum(t.drop_first(), rest);
        let f = fit_chars(t.drop_first(), rest);
        let g = seq![t[0]] + f;
        assert(g.drop_first() =~= f);
        assert(g[0] == t[0]);
    }
}

proof fn lemma_width_sum_concat(a: Seq<Seg>, b: Seq<Seg>)
    ensures
        width_sum(a + b) == width_sum(a) + width_sum(b),
    decreases b.len(),
{
    if b.len() == 0 {
        assert(a + b =~= a);
    } else {
        assert((a + b).drop_last() =~= a + b.drop_last());
        assert((a + b).last() == b.last());
        lemma_width_sum_concat(a, b.drop_last());
    }
}

proof fn lemma_width_sum_single(x: Seg)
    ensures
        width_sum(seq![x]) == crate::width::text_width(x.0) as nat,
{
    assert(seq![x].drop_last() =~= Seq::<Seg>::empty());
    assert(seq![x].last() == x);
    assert(width_sum(Seq::<Seg>::empty()) == 0);
    assert(width_sum(seq![x]) == width_sum(seq![x].drop_last()) + crate::width::text_width(
        seq![x].last().0,
    ) as nat);
}

proof fn lemma_fit_segs_width(segs: Seq<Seg>, room: nat)
    requires
        no_wide_sequences(segs),
    ensures
        width_sum(fit_segs(segs, room)) <= room,
    decreases segs.len(),
{
    if segs.len() > 0 && room > 0 {
        let w = crate::width::text_width(segs[0].0);
        if w <= room {
            let rest = segs.drop_first();
            assert(no_wide_sequences(rest)) by {
                assert forall|i: int, k: int|
                    0 <= i < rest.len() && 0 <= k <= rest[i].0.len() implies crate::width::text_width(
                    #[trigger] rest[i].0.take(k),
                ) <= char_sum(rest[i].0.take(k)) by {
                    assert(rest[i] == segs[i + 1]);
                }
            }
            lemma_fit_segs_width(rest, (room - w) as nat);
            let head = push_seg(Seq::empty(), segs[0]);
            let tail = fit_segs(rest, (room - w) as nat);
            lemma_width_sum_concat(head, tail);
            if segs[0].0.len() > 0 {
                assert(head =~= seq![segs[0]]);
                lemma_width_sum_single(segs[0]);
            } else {
                assert(head =~= Seq::<Seg>::empty());
            }
        } else {
            let f = fit_chars(segs[0].0, room);
            lemma_fit_chars_prefix(segs[0].0, room);
            lemma_fit_chars_sum(segs[0].0, room);
            assert(segs[0].0.take(f.len() as int) == f);
            assert(crate::width::text_width(segs[0].0.take(f.len() as int)) <= char_sum(
                segs[0].0.take(f.len() as int),
            ));
            if f.len() > 0 {
                assert(push_seg(Seq::empty(), (f, segs[0].1)) =~= seq![(f, segs[0].1)]);
                lemma_width_sum_single((f, segs[0].1));
            } else {
                assert(push_seg(Seq::empty(), (f, segs[0].1)) =~= Seq::<Seg>::empty());
            }
        }
    }
}

/// A styled text cut to a width fits in it, provided no part of its segments
/// is wider than its characters taken one by one (the cut measures the last
/// segment character by character).
pub proof fn law_truncate_fits(segs: Seq<Seg>, max: nat)
    requires
        no_wide_sequences(segs),
    ensures
        width_sum(truncated(segs, max)) <= max,
{
    if width_sum(segs) > max {
        lemma_fit_segs_width(segs, max);
    }
}

/// Whether `c` is an ASCII letter.
pub open spec fn ascii_letter(c: char) -> bool {
    ('a' <= c <= 'z') || ('A' <= c <= 'Z')
}

/// Whether `t` is made of ASCII letters only.
pub open spec fn letters(t: Seq<char>) -> bool {
    forall|i: int| 0 <= i < t.len() ==> ascii_letter(#[trigger] t[i])
}

proof fn lemma_letters_are_a_name(n: Seq<char>, l: Seq<char>)
    requires
        letters(trim(n)),
    ensures
        parse_color_with(n, l) == named_color(l),
{
    let t = trim(n);
    if t.len() > 0 {
        assert(ascii_letter(t[0]));
        assert(t.take(1)[0] == t[0]);
        assert(!starts_with(t, seq!['#']));
        assert(!starts_with(t, rgb_open())) by {
            if t.len() >= 4 {
                assert(ascii_letter(t[3]));
                assert(t.take(4)[3] == t[3]);
                assert(rgb_open()[3] == '(');
            }
        }
        assert(ascii_letter(t.last()));
        assert(digit_value(t.last(), 10) is None);
        assert(digits_value(t, 10) is None);
        assert(t[0] != '+');
    } else {
        assert(!starts_with(t, seq!['#']));
        assert(!starts_with(t, rgb_open()));
    }
    assert(rgb_inner(t) is None);
    assert(dec_byte(t) is None);
}

/// Colour names ignore case and surrounding white space: a name made of ASCII
/// letters, in any case and with white space around it, describes the colour
/// its lower-case form names.
pub proof fn law_color_names_ignore_case_and_space(n: Seq<char>)
    requires
        letters(trim(n)),
    ensures
        parse_ascii_color(n) == named_color(ascii_lowered(trim(n))),
        parse_ascii_color(n) == parse_ascii_color(ascii_lowered(trim(n))),
{
    let t = trim(n);
    let x = ascii_lowered(t);
    lemma_letters_are_a_name(n, x);
    assert forall|i: int| 0 <= i < x.len() implies 'a' <= #[trigger] x[i] <= 'z' by {
        assert(ascii_letter(t[i]));
        assert(x[i] == ascii_lower(t[i]));
    }
    assert(letters(x));
    if x.len() > 0 {
        assert('a' <= x[0] <= 'z');
        assert('a' <= x.last() <= 'z');
    }
    assert(trim_start(x) == x);
    assert(trim_end(x) == x);
    assert(trim(x) == x);
    lemma_letters_are_a_name(x, ascii_lowered(x));
    assert(ascii_lowered(x) =~= x);
}

/// Cutting a styled text to a width twice gives what cutting it once gives,
/// provided no part of its segments is wider than its characters taken one
/// by one (so the first cut already fits).
pub proof fn law_truncate_twice(segs: Seq<Seg>, max: nat)
    requires
        no_wide_sequences(segs),
    ensures
        truncated(truncated(segs, max), max) == truncated(segs, max),
{
    law_truncate_fits(segs, max);
}

// ------------------------------------------------------------ drawing order

/// `before` never puts first an element that `le` would put second.
spec fn follows(before: spec_fn(int, int) -> bool, le: spec_fn(int, int) -> bool) -> bool {
    forall|a: int, b: int| (#[trigger] before(a, b) ==> le(a, b)) && (!before(a, b) ==> le(b, a))
}

/// `le` is transitive.
spec fn chains(le: spec_fn(int, int) -> bool) -> bool {
    forall|a: int, b: int, c: int| #[trigger] le(a, b) && #[trigger] le(b, c) ==> le(a, c)
}

/// Every element of `s` comes, by `le`, no later than the ones after it.
spec fn in_order(s: Seq<int>, le: spec_fn(int, int) -> bool) -> bool {
    forall|i: int, j: int| 0 <= i < j < s.len() ==> le(#[trigger] s[i], #[trigger] s[j])
}

proof fn lemma_insert_bounded(
    s: Seq<int>,
    x: int,
    before: spec_fn(int, int) -> bool,
    le: spec_fn(int, int) -> bool,
    m: int,
)
    requires
        le(m, x),
        forall|j: int| 0 <= j < s.len() ==> le(m, #[trigger] s[j]),
    ensures
        insert_sorted(s, x, before).len() == s.len() + 1,
        forall|j: int|
            0 <= j < insert_sorted(s, x, before).len() ==> le(
                m,
                #[trigger] insert_sorted(s, x, before)[j],
            ),
    decreases s.len(),
{
    if s.len() > 0 && !before(x, s[0]) {
        let t = s.drop_first();
        assert forall|j: int| 0 <= j < t.len() implies le(m, #[trigger] t[j]) by {
            assert(t[j] == s[j + 1]);
        }
        lemma_insert_bounded(t, x, before, le, m);
        let r = insert_sorted(s, x, before);
        assert forall|j: int| 0 <= j < r.len() implies le(m, #[trigger] r[j]) by {
            if j > 0 {
                assert(r[j] == insert_sorted(t, x, before)[j - 1]);
            }
        }
    }
}

proof fn lemma_insert_in_order(
    s: Seq<int>,
    x: int,
    before: spec_fn(int, int) -> bool,
    le: spec_fn(int, int) -> bool,
)
    requires
        follows(before, le),
        chains(le),
        in_order(s, le),
    ensures
        in_order(insert_sorted(s, x, before), le),
    decreases s.len(),
{
    let r = insert_sorted(s, x, before);
    if s.len() == 0 {
    } else if before(x, s[0]) {
        assert forall|i: int, j: int| 0 <= i < j < r.len() implies le(
            #[trigger] r[i],
            #[trigger] r[j],
        ) by {
            if i == 0 {
                assert(r[j] == s[j - 1]);
                if j > 1 {
                    assert(le(s[0], s[j - 1]));
                }
            } else {
                assert(r[i] == s[i - 1] && r[j] == s[j - 1]);
            }
        }
    } else {
        let t = s.drop_first();
        assert(in_order(t, le)) by {
            assert forall|i: int, j: int| 0 <= i < j < t.len() implies le(
                #[trigger] t[i],
                #[trigger] t[j],
            ) by {
                assert(t[i] == s[i + 1] && t[j] == s[j + 1]);
            }
        }
        lemma_insert_in_order(t, x, before, le);
        assert(le(s[0], x));
        assert forall|j: int| 0 <= j < t.len() implies le(s[0], #[trigger] t[j]) by {
            assert(t[j] == s[j + 1]);
        }
        lemma_insert_bounded(t, x, before, le, s[0]);
        let u = insert_sorted(t, x, before);
        assert forall|i: int, j: int| 0 <= i < j < r.len() implies le(
            #[trigger] r[i],
            #[trigger] r[j],
        ) by {
            assert(r[j] == u[j - 1]);
            if i > 0 {
                assert(r[i] == u[i - 1]);
            }
        }
    }
}

proof fn lemma_sort_in_order(xs: Seq<int>, before: spec_fn(int, int) -> bool, le: spec_fn(int, int) -> bool)
    requires
        follows(before, le),
        chains(le),
    ensures
        in_order(sort_by(xs, before), le),
    decreases xs.len(),
{
    if xs.len() > 0 {
        lemma_sort_in_order(xs.drop_last(), before, le);
        lemma_insert_in_order(sort_by(xs.drop_last(), before), xs.last(), before, le);
    }
}

proof fn lemma_insert_multiset(s: Seq<int>, x: int, before: spec_fn(int, int) -> bool)
    ensures
        insert_sorted(s, x, before).to_multiset() =~= s.to_multiset().insert(x),
    decreases s.len(),
{
    broadcast use vstd::seq_lib::group_to_multiset_ensures;

    if s.len() == 0 || before(x, s[0]) {
        assert(insert_sorted(s, x, before) =~= s.insert(0, x));
    } else {
        let t = s.drop_first();
        let u = insert_sorted(t, x, before);
        lemma_insert_multiset(t, x, before);
        assert(insert_sorted(s, x, before) =~= u.insert(0, s[0]));
        assert(s =~= t.insert(0, s[0]));
    }
}

proof fn lemma_sort_multiset(xs: Seq<int>, before: spec_fn(int, int) -> bool)
    ensures
        sort_by(xs, before).to_multiset() =~= xs.to_multiset(),
    decreases xs.len(),
{
    broadcast use vstd::seq_lib::group_to_multiset_ensures;

    if xs.len() > 0 {
        lemma_sort_multiset(xs.drop_last(), before);
        lemma_insert_multiset(sort_by(xs.drop_last(), before), xs.last(), before);
        assert(xs =~= xs.drop_last().push(xs.last()));
    }
}

proof fn lemma_lex_irreflexive(a: Seq<char>)
    ensures
        !lex_lt(a, a),
    decreases a.len(),
{
    if a.len() > 0 {
        lemma_lex_irreflexive(a.drop_first());
    }
}

proof fn lemma_lex_transitive(a: Seq<char>, b: Seq<char>, c: Seq<char>)
    requires
        lex_lt(a, b),
        lex_lt(b, c),
    ensures
        lex_lt(a, c),
    decreases a.len(),
{
    if a.len() > 0 && b.len() > 0 && c.len() > 0 && a[0] == b[0] && b[0] == c[0] {
        lemma_lex_transitive(a.drop_first(), b.drop_first(), c.drop_first());
    }
}

proof fn lemma_lex_total(a: Seq<char>, b: Seq<char>)
    requires
        a != b,
    ensures
        lex_lt(a, b) || lex_lt(b, a),
    decreases a.len(),
{
    if a.len() == 0 || b.len() == 0 {
        if a.len() == 0 && b.len() == 0 {
            assert(a =~= b);
        }
    } else if a[0] == b[0] {
        if a.drop_first() == b.drop_first() {
            assert(a.drop_first().len() == a.len() - 1);
            assert(b.drop_first().len() == b.len() - 1);
            assert(a.len() == b.len());
            assert(a =~= b) by {
                assert forall|i: int| 0 <= i < a.len() implies a[i] == b[i] by {
                    if i > 0 {
                        assert(a[i] == a.drop_first()[i - 1]);
                        assert(b[i] == b.drop_first()[i - 1]);
                    }
                }
            }
        }
        lemma_lex_total(a.drop_first(), b.drop_first());
    } else {
        lemma_char_code(a[0], b[0]);
    }
}

proof fn lemma_char_code(c: char, d: char)
    requires
        c != d,
    ensures
        (c as u32) != (d as u32),
{
    assert((c as int) <= 0x10FFFF && (d as int) <= 0x10FFFF);
    assert((c as u32) as int == c as int);
    assert((d as u32) as int == d as int);
}

/// "Not after" in the order of `lex_lt` is transitive.
proof fn lemma_lex_not_lt_chain(a: Seq<char>, b: Seq<char>, c: Seq<char>)
    requires
        !lex_lt(b, a),
        !lex_lt(c, b),
    ensures
        !lex_lt(c, a),
{
    if lex_lt(c, a) {
        if b == c {
        } else {
            lemma_lex_total(b, c);
            lemma_lex_transitive(b, c, a);
        }
    }
}

proof fn lemma_lex_asymmetric(a: Seq<char>, b: Seq<char>)
    requires
        lex_lt(a, b),
    ensures
        !lex_lt(b, a),
{
    if lex_lt(b, a) {
        lemma_lex_transitive(a, b, a);
        lemma_lex_irreflexive(a);
    }
}

proof fn lemma_orders_named(s: Seq<char>)
    ensures
        s == "alfa"@ ==> orden_of(s) == Orden::Alfa,
        s == "reciente"@ ==> orden_of(s) == Orden::Reciente,
        s == "prioridad"@ ==> orden_of(s) == Orden::Prioridad,
        s != "alfa"@ && s != "reciente"@ && s != "prioridad"@ ==> orden_of(s) == Orden::Host,
{
    reveal_strlit("alfa");
    reveal_strlit("reciente");
    reveal_strlit("prioridad");
    assert("prioridad"@.len() == 9);
    assert("alfa"@.len() == 4);
    assert("reciente"@.len() == 8);
}

/// Whatever the order, the drawn list holds the same tabs as the list given,
/// each as many times.
pub proof fn law_drawing_order_keeps_tabs(st: State, xs: Seq<int>)
    ensures
        ordered_tabs(&st, xs).to_multiset() == xs.to_multiset(),
{
    if orden_of(st.orden@) != Orden::Host {
        lemma_sort_multiset(xs, |a: int, b: int| goes_before(&st, a, b));
    }
}

/// With an order other than "alfa", "reciente" and "prioridad", the list is
/// drawn as the host gives it.
pub proof fn law_host_order(st: State, xs: Seq<int>)
    requires
        st.orden@ != "alfa"@,
        st.orden@ != "reciente"@,
        st.orden@ != "prioridad"@,
    ensures
        ordered_tabs(&st, xs) == xs,
{
    lemma_orders_named(st.orden@);
}

/// Under the "alfa" order, the tabs are drawn by their names in lower case,
/// in alphabetical (code point) order.
pub proof fn law_alphabetical_order(st: State, xs: Seq<int>)
    requires
        st.orden@ == "alfa"@,
    ensures
        forall|i: int, j: int|
            0 <= i < j < ordered_tabs(&st, xs).len() ==> !lex_lt(
                lowercase(st.tabs@[#[trigger] ordered_tabs(&st, xs)[j]].name@),
                lowercase(st.tabs@[#[trigger] ordered_tabs(&st, xs)[i]].name@),
            ),
{
    lemma_orders_named(st.orden@);
    let before = |a: int, b: int| goes_before(&st, a, b);
    let le = |a: int, b: int| !lex_lt(lower_name(&st, b), lower_name(&st, a));
    assert forall|a: int, b: int| #[trigger] before(a, b) implies le(a, b) by {
        if lex_lt(lower_name(&st, a), lower_name(&st, b)) {
            lemma_lex_asymmetric(lower_name(&st, a), lower_name(&st, b));
        } else {
            lemma_lex_irreflexive(lower_name(&st, a));
        }
    }
    assert(follows(before, le));
    assert forall|a: int, b: int, c: int| #[trigger] le(a, b) && #[trigger] le(b, c) implies le(a, c) by {
        lemma_lex_not_lt_chain(lower_name(&st, a), lower_name(&st, b), lower_name(&st, c));
    }
    lemma_sort_in_order(xs, before, le);
    let r = ordered_tabs(&st, xs);
    assert(r == sort_by(xs, before));
    assert forall|i: int, j: int| 0 <= i < j < r.len() implies le(#[trigger] r[i], #[trigger] r[j]) by {}
}

/// Under the "reciente" order, the tabs are drawn by the time they last had
/// the focus, most recent first (times compared as text; a tab never
/// focused counts as the empty text, so it comes last).
pub proof fn law_recent_order(st: State, xs: Seq<int>)
    requires
        st.orden@ == "reciente"@,
    ensures
        forall|i: int, j: int|
            0 <= i < j < ordered_tabs(&st, xs).len() ==> !lex_lt(
                match table_get(st.ultimo_foco@, st.tabs@[#[trigger] ordered_tabs(&st, xs)[i]].name@) {
                    Some(t) => t@,
                    None => Seq::<char>::empty(),
                },
                match table_get(st.ultimo_foco@, st.tabs@[#[trigger] ordered_tabs(&st, xs)[j]].name@) {
                    Some(t) => t@,
                    None => Seq::<char>::empty(),
                },
            ),
{
    lemma_orders_named(st.orden@);
    let before = |a: int, b: int| goes_before(&st, a, b);
    let le = |a: int, b: int| !lex_lt(focus_of(&st, a), focus_of(&st, b));
    assert forall|a: int, b: int| #[trigger] before(a, b) implies le(a, b) by {
        if lex_lt(focus_of(&st, b), focus_of(&st, a)) {
            lemma_lex_asymmetric(focus_of(&st, b), focus_of(&st, a));
        } else {
            lemma_lex_irreflexive(focus_of(&st, a));
        }
    }
    assert(follows(before, le));
    assert forall|a: int, b: int, c: int| #[trigger] le(a, b) && #[trigger] le(b, c) implies le(a, c) by {
        lemma_lex_not_lt_chain(focus_of(&st, c), focus_of(&st, b), focus_of(&st, a));
    }
    lemma_sort_in_order(xs, before, le);
    let r = ordered_tabs(&st, xs);
    assert(r == sort_by(xs, before));
    assert forall|i: int, j: int| 0 <= i < j < r.len() implies le(#[trigger] r[i], #[trigger] r[j]) by {}
}

/// Under the "prioridad" order, the tabs are drawn by priority, 1 (high)
/// first; a tab without a priority counts as 9, so it is drawn after every
/// tab with a priority below 9.
pub proof fn law_priority_order(st: State, xs: Seq<int>)
    requires
        st.orden@ == "prioridad"@,
    ensures
        forall|i: int, j: int|
            0 <= i < j < ordered_tabs(&st, xs).len() ==> match (
                table_get(st.prioridades@, st.tabs@[#[trigger] ordered_tabs(&st, xs)[i]].name@),
                table_get(st.prioridades@, st.tabs@[#[trigger] ordered_tabs(&st, xs)[j]].name@),
            ) {
                (Some(a), Some(b)) => a <= b,
                (None, Some(b)) => 9 <= b,
                (Some(a), None) => a <= 9,
                (None, None) => true,
            },
{
    lemma_orders_named(st.orden@);
    let before = |a: int, b: int| goes_before(&st, a, b);
    let le = |a: int, b: int| prio_of(&st, a) <= prio_of(&st, b);
    assert(follows(before, le));
    assert(chains(le));
    lemma_sort_in_order(xs, before, le);
    let r = ordered_tabs(&st, xs);
    assert(r == sort_by(xs, before));
    assert forall|i: int, j: int| 0 <= i < j < r.len() implies le(#[trigger] r[i], #[trigger] r[j]) by {}
}

// ------------------------------------------------------------ drawing a row

/// In a selected row that is filled, a segment is drawn in reverse video with
/// its colours exchanged: the code sets as foreground the colour the segment
/// has as background and as background its foreground, so that on screen the
/// row shows the segment's background; attributes stay, and a segment with
/// no colour and no attribute is drawn as plain text.
pub proof fn law_fill_swaps_colours(seg: Seg)
    ensures
        fill_seg(seg) == (if seg.1.fg != ColorSpec::Default || seg.1.bg != ColorSpec::Default
            || seg.1.bold || seg.1.dim {
            reset_code() + reverse_code() + (if seg.1.bold {
                bold_code()
            } else {
                Seq::empty()
            }) + (if seg.1.dim {
                dim_code()
            } else {
                Seq::empty()
            }) + color_code(seg.1.bg, '3') + color_code(seg.1.fg, '4')
        } else {
            Seq::empty()
        }) + seg.0,
        fill_segs(seq![seg]) == fill_seg(seg),
{
    assert(seq![seg].drop_last() =~= Seq::<Seg>::empty());
    assert(seq![seg].last() == seg);
    assert(fill_segs(Seq::<Seg>::empty()) == Seq::<char>::empty());
    assert(Seq::<char>::empty() + fill_seg(seg) =~= fill_seg(seg));
}

/// A row is exactly as wide as the panel: the content cut to the columns
/// left of the border, then as many spaces as the cut content leaves free of
/// those columns, then the border. In a selected row whose content asks for
/// fill, the content and the spaces are drawn in reverse video, which is
/// switched off before the border. (The cut measures characters one by one,
/// so this holds of content with no wider sequences.)
#[verifier::rlimit(50)]
pub proof fn law_row_fills_width(border: Seq<Seg>, content: Seq<Seg>, cols: nat, selected: bool)
    requires
        width_sum(border) <= cols <= usize::MAX,
        no_wide_sequences(content),
    ensures
        ({
            let room = (cols - width_sum(border)) as nat;
            let c = truncated(content, room);
            let n = (room - width_sum(c)) as nat;
            &&& width_sum(c) <= room
            &&& row_line(border, content, cols, selected) == (if selected && exists|i: int|
                0 <= i < c.len() && (#[trigger] c[i]).1.fill {
                reverse_code() + fill_segs(c) + spaces(n) + reset_code()
            } else {
                text_ansi(c) + spaces(n)
            }) + (if width_sum(border) > 0 {
                text_ansi(border)
            } else {
                Seq::empty()
            })
        }),
{
    let room = (cols - width_sum(border)) as nat;
    law_truncate_fits(content, room);
}

// ------------------------------------------------------------ labels

/// The `{indicators}` variable of a tab: the fullscreen indicator first when
/// the tab is fullscreen, then the synchronised-panes indicator, then the
/// active indicator last when the tab is active; nothing else.
#[verifier::rlimit(50)]
pub proof fn law_indicators(st: State, tab: Tab, index: usize)
    ensures
        ({
            let v = var_value(&st, &tab, index, "indicators"@);
            let f = if tab.is_fullscreen_active {
                st.style.indicator_fullscreen@.len()
            } else {
                0
            };
            let y = if tab.is_sync_panes_active {
                st.style.indicator_sync@.len()
            } else {
                0
            };
            let z = if tab.active {
                st.style.indicator_active@.len()
            } else {
                0
            };
            &&& v.len() == f + y + z
            &&& tab.is_fullscreen_active ==> starts_with(v, st.style.indicator_fullscreen@)
            &&& tab.is_sync_panes_active ==> v.subrange(f as int, (f + y) as int) == st.style.indicator_sync@
            &&& tab.active ==> v.skip((f + y) as int) == st.style.indicator_active@
        }),
{
    reveal_strlit("indicators");
    reveal_strlit("index");
    reveal_strlit("i");
    reveal_strlit("name");
    reveal_strlit("n");
    reveal_strlit("title");
    reveal_strlit("t");
    reveal_strlit("pane_title");
    assert("indicators"@.len() == 10);
    assert("index"@.len() == 5);
    assert("i"@.len() == 1);
    assert("name"@.len() == 4);
    assert("n"@.len() == 1);
    assert("title"@.len() == 5);
    assert("t"@.len() == 1);
    assert("indicators"@[0] != "pane_title"@[0]);
    let v = var_value(&st, &tab, index, "indicators"@);
    assert(v == indicators(&st, &tab));
    let a = if tab.is_fullscreen_active {
        st.style.indicator_fullscreen@
    } else {
        Seq::empty()
    };
    let b = if tab.is_sync_panes_active {
        st.style.indicator_sync@
    } else {
        Seq::empty()
    };
    let c = if tab.active {
        st.style.indicator_active@
    } else {
        Seq::empty()
    };
    assert(v == a + b + c);
    assert((a + b + c).take(a.len() as int) =~= a);
    assert((a + b + c).subrange(a.len() as int, (a.len() + b.len()) as int) =~= b);
    assert((a + b + c).skip((a.len() + b.len()) as int) =~= c);
}

/// The `{fullscreen}`, `{sync}` and `{active}` variables: the configured
/// indicator when the tab is in that state, nothing otherwise.
#[verifier::rlimit(50)]
pub proof fn law_single_indicators(st: State, tab: Tab, index: usize)
    ensures
        var_value(&st, &tab, index, "fullscreen"@) == if tab.is_fullscreen_active {
            st.style.indicator_fullscreen@
        } else {
            Seq::empty()
        },
        var_value(&st, &tab, index, "sync"@) == if tab.is_sync_panes_active {
            st.style.indicator_sync@
        } else {
            Seq::empty()
        },
        var_value(&st, &tab, index, "active"@) == if tab.active {
            st.style.indicator_active@
        } else {
            Seq::empty()
        },
{
    reveal_strlit("fullscreen");
    reveal_strlit("sync");
    reveal_strlit("active");
    reveal_strlit("indicators");
    reveal_strlit("index");
    reveal_strlit("i");
    reveal_strlit("name");
    reveal_strlit("n");
    reveal_strlit("title");
    reveal_strlit("t");
    reveal_strlit("pane_title");
    assert("fullscreen"@.len() == 10 && "sync"@.len() == 4 && "active"@.len() == 6);
    assert("indicators"@.len() == 10 && "pane_title"@.len() == 10);
    assert("index"@.len() == 5 && "title"@.len() == 5 && "name"@.len() == 4);
    assert("i"@.len() == 1 && "n"@.len() == 1 && "t"@.len() == 1);
    assert("fullscreen"@[0] != "indicators"@[0] && "fullscreen"@[0] != "pane_title"@[0]);
    assert("sync"@[0] != "name"@[0]);
}

/// The `{num}` variable: the tab's number right-aligned in two columns (a
/// space before a single digit), in the style in force.
#[verifier::rlimit(50)]
pub proof fn law_number_variable(
    st: State,
    tab: Tab,
    index: usize,
    w: Option<usize>,
    cur: InlineStyle,
    acc: Seq<Seg>,
)
    ensures
        var_segs(&st, &tab, index, "num"@, w, cur, acc) == acc.push(
            (
                if index < 10 {
                    seq![' ', digit_char(index as nat)]
                } else {
                    decimal(index as nat)
                },
                cur,
            ),
        ),
{
    if index < 10 {
        assert(pad2(decimal(index as nat)) =~= seq![' ', digit_char(index as nat)]);
    } else {
        assert(decimal((index / 10) as nat).len() >= 1);
        assert(decimal(index as nat).len() >= 2);
    }
}

// ------------------------------------------------------------ directives

/// A directive `bg=C` (with no comma in `C`; white space around `C` does not
/// matter) gives a style whose background
/// is the colour `C` names, with no foreground and no attributes.
/// A directive `bg=C` (with no comma in `C`; white space around `C` does not
/// matter) gives a style whose background is the colour `C` names, with no
/// foreground and no attributes.
#[verifier::rlimit(50)]
pub proof fn law_directive_background(c: Seq<char>)
    requires
        forall|i: int| 0 <= i < c.len() ==> c[i] != ',',
    ensures
        directive_style(seq!['b', 'g', '='] + c) == (InlineStyle {
            fg: ColorSpec::Default,
            bg: parse_color(c),
            bold: false,
            dim: false,
            fill: false,
        }),
{
    let s = seq!['b', 'g', '='] + c;
    lemma_single_colour_part(seq!['b', 'g', '='], c);
    lemma_one_part(s);
    let p = seq!['b', 'g', '='] + trim_end(c);
    lemma_colour_part(s, p);
}

/// A directive `fg=C` (with no comma in `C`; white space around `C` does not
/// matter) gives a style whose foreground is the colour `C` names, with no
/// background and no attributes.
#[verifier::rlimit(50)]
pub proof fn law_directive_foreground(c: Seq<char>)
    requires
        forall|i: int| 0 <= i < c.len() ==> c[i] != ',',
    ensures
        directive_style(seq!['f', 'g', '='] + c) == (InlineStyle {
            fg: parse_color(c),
            bg: ColorSpec::Default,
            bold: false,
            dim: false,
            fill: false,
        }),
{
    let s = seq!['f', 'g', '='] + c;
    lemma_single_colour_part(seq!['f', 'g', '='], c);
    lemma_one_part(s);
    let p = seq!['f', 'g', '='] + trim_end(c);
    lemma_colour_part(s, p);
}

/// The directives "bold", "dim" and "fill" each turn on that one attribute
/// and nothing else.
pub proof fn law_directive_attributes()
    ensures
        directive_style("bold"@) == (InlineStyle { bold: true, ..plain() }),
        directive_style("dim"@) == (InlineStyle { dim: true, ..plain() }),
        directive_style("fill"@) == (InlineStyle { fill: true, ..plain() }),
{
    lemma_bold_part();
    lemma_dim_part();
    lemma_fill_part();
}

#[verifier::rlimit(50)]
proof fn lemma_bold_part()
    ensures
        directive_style("bold"@) == (InlineStyle { bold: true, ..plain() }),
{
    reveal_strlit("bold");
    let k = "bold"@;
    lemma_keyword_part(k);
    assert(!starts_with(k, fg_eq())) by {
        assert(k.take(3)[0] != fg_eq()[0]);
    }
    assert(!starts_with(k, bg_eq())) by {
        assert(k.take(3)[1] != bg_eq()[1]);
    }
}

#[verifier::rlimit(50)]
proof fn lemma_dim_part()
    ensures
        directive_style("dim"@) == (InlineStyle { dim: true, ..plain() }),
{
    reveal_strlit("dim");
    reveal_strlit("bold");
    let k = "dim"@;
    lemma_keyword_part(k);
    assert(!starts_with(k, fg_eq())) by {
        assert(k.take(3)[0] != fg_eq()[0]);
    }
    assert(!starts_with(k, bg_eq())) by {
        assert(k.take(3)[0] != bg_eq()[0]);
    }
    assert(k != "bold"@) by {
        assert(k.len() != "bold"@.len());
    }
}

#[verifier::rlimit(50)]
proof fn lemma_fill_part()
    ensures
        directive_style("fill"@) == (InlineStyle { fill: true, ..plain() }),
{
    reveal_strlit("fill");
    reveal_strlit("bold");
    reveal_strlit("dim");
    let k = "fill"@;
    lemma_keyword_part(k);
    assert(!starts_with(k, fg_eq())) by {
        assert(k.take(3)[1] != fg_eq()[1]);
    }
    assert(!starts_with(k, bg_eq())) by {
        assert(k.take(3)[0] != bg_eq()[0]);
    }
    assert(k != "bold"@) by {
        assert(k[0] != "bold"@[0]);
    }
    assert(k != "dim"@) by {
        assert(k.len() != "dim"@.len());
    }
}

/// A part "default" (or "none", or "reset") at the end of a directive clears
/// whatever the parts before it set.
pub proof fn law_directive_reset(x: Seq<char>, k: Seq<char>)
    requires
        forall|i: int| 0 <= i < x.len() ==> x[i] != ',',
        k == "default"@ || k == "none"@ || k == "reset"@,
    ensures
        directive_style(x + seq![','] + k) == plain(),
{
    lemma_reset_word(k);
    lemma_split_two(x, k);
    lemma_reset_last(plain(), x, k);
}

/// The reset keywords are free of commas and white space, and none is a
/// colour part or an attribute.
#[verifier::rlimit(50)]
proof fn lemma_reset_word(k: Seq<char>)
    requires
        k == "default"@ || k == "none"@ || k == "reset"@,
    ensures
        k.len() >= 3,
        forall|i: int| 0 <= i < k.len() ==> k[i] != ',' && !is_white(#[trigger] k[i]),
        k.take(3) != fg_eq(),
        k.take(3) != bg_eq(),
        k != "bold"@,
        k != "dim"@,
        k != "fill"@,
{
    reveal_strlit("default");
    reveal_strlit("none");
    reveal_strlit("reset");
    reveal_strlit("bold");
    reveal_strlit("dim");
    reveal_strlit("fill");
    assert(k.take(3)[0] != fg_eq()[0]);
    assert(k.take(3)[0] != bg_eq()[0]);
    assert(k[0] != "bold"@[0] && k[0] != "fill"@[0]);
    assert(k.len() != "dim"@.len());
}

/// `x,k` splits into `x` and `k` when neither holds a comma.
proof fn lemma_split_two(x: Seq<char>, k: Seq<char>)
    requires
        forall|i: int| 0 <= i < x.len() ==> x[i] != ',',
        forall|i: int| 0 <= i < k.len() ==> k[i] != ',' && !is_white(#[trigger] k[i]),
    ensures
        split(x + seq![','] + k, ',') == seq![x, k],
{
    let s = x + seq![','] + k;
    lemma_find_first(s, ',', x.len() as int);
    assert(s.take(x.len() as int) =~= x);
    assert(s.skip((x.len() + 1) as int) =~= k);
    lemma_find(k, ',');
    assert(split(k, ',') == seq![k]);
    assert(split(s, ',') =~= seq![x, k]);
}

/// A reset keyword as the last of two parts leaves no style.
#[verifier::rlimit(50)]
proof fn lemma_reset_last(st: InlineStyle, x: Seq<char>, k: Seq<char>)
    requires
        k.len() >= 3,
        forall|i: int| 0 <= i < k.len() ==> k[i] != ',' && !is_white(#[trigger] k[i]),
        k.take(3) != fg_eq(),
        k.take(3) != bg_eq(),
        k != "bold"@,
        k != "dim"@,
        k != "fill"@,
        k == "default"@ || k == "none"@ || k == "reset"@,
    ensures
        apply_parts(st, seq![x, k]) == plain(),
{
    let q = apply_part(st, x);
    assert(seq![x, k].drop_first() =~= seq![k]);
    assert(seq![k].drop_first() =~= Seq::<Seq<char>>::empty());
    assert(!is_white(k[0]));
    assert(trim_start(k) == k);
    assert(!is_white(k.last()));
    assert(trim_end(k) == k);
    assert(apply_part(q, k) == plain());
    assert(apply_parts(apply_part(q, k), Seq::<Seq<char>>::empty()) == apply_part(q, k));
    assert(apply_parts(q, seq![k]) == apply_part(q, k));
    assert(seq![x, k][0] == x);
}

/// A keyword with no comma and no surrounding white space is one part, kept
/// as it is.
#[verifier::rlimit(50)]
proof fn lemma_keyword_part(k: Seq<char>)
    requires
        k.len() >= 3,
        forall|i: int| 0 <= i < k.len() ==> k[i] != ',' && !is_white(#[trigger] k[i]),
    ensures
        split(k, ',') == seq![k],
        trim(k) == k,
        directive_style(k) == apply_part(plain(), k),
{
    lemma_find(k, ',');
    assert(find(k, ',') is None);
    assert(!is_white(k[0]));
    assert(trim_start(k) == k);
    assert(!is_white(k.last()));
    assert(trim_end(k) == k);
    lemma_one_part(k);
}

/// A directive with no comma is one part.
#[verifier::rlimit(50)]
proof fn lemma_one_part(s: Seq<char>)
    requires
        split(s, ',') == seq![s],
    ensures
        directive_style(s) == apply_part(plain(), s),
{
    let q = apply_part(plain(), s);
    assert(seq![s].drop_first() =~= Seq::<Seq<char>>::empty());
    assert(apply_parts(q, Seq::<Seq<char>>::empty()) == q);
    assert(seq![s][0] == s);
}

/// What a trimmed part "fg=..." or "bg=..." does to a plain style.
#[verifier::rlimit(50)]
proof fn lemma_colour_part(s: Seq<char>, p: Seq<char>)
    requires
        p.len() >= 3,
        trim(s) == p,
        p.take(3) == seq!['b', 'g', '='] || p.take(3) == seq!['f', 'g', '='],
    ensures
        p.take(3) == seq!['b', 'g', '='] ==> apply_part(plain(), s) == (InlineStyle {
            bg: parse_color(p.skip(3)),
            ..plain()
        }),
        p.take(3) == seq!['f', 'g', '='] ==> apply_part(plain(), s) == (InlineStyle {
            fg: parse_color(p.skip(3)),
            ..plain()
        }),
{
    if p.take(3) == seq!['b', 'g', '='] {
        assert(p.take(3) != fg_eq()) by {
            assert(p.take(3)[0] != fg_eq()[0]);
        }
        assert(p.take(3) =~= bg_eq());
    } else {
        assert(p.take(3) =~= fg_eq());
    }
}

proof fn lemma_single_colour_part(head: Seq<char>, c: Seq<char>)
    requires
        head == seq!['b', 'g', '='] || head == seq!['f', 'g', '='],
        forall|i: int| 0 <= i < c.len() ==> c[i] != ',',
    ensures
        split(head + c, ',') == seq![head + c],
        trim(head + c) == head + trim_end(c),
        (head + trim_end(c)).take(3) == head,
        (head + trim_end(c)).skip(3) == trim_end(c),
        parse_color(trim_end(c)) == parse_color(c),
{
    let s = head + c;
    assert forall|i: int| 0 <= i < s.len() implies s[i] != ',' by {
        if i >= 3 {
            assert(s[i] == c[i - 3]);
        }
    }
    lemma_find(s, ',');
    assert(find(s, ',') is None);
    assert(!is_white(s[0]));
    assert(trim_start(s) == s);
    lemma_trim_end_after(head, c);
    lemma_trim_of_trim_end(c);
    assert((head + trim_end(c)).take(3) =~= head);
    assert((head + trim_end(c)).skip(3) =~= trim_end(c));
    assert(seq![s].drop_first() =~= Seq::<Seq<char>>::empty());
}

/// Trailing white space after a head that ends in '=' is that of the tail.
proof fn lemma_trim_end_after(head: Seq<char>, c: Seq<char>)
    requires
        head.len() == 3,
        head[2] == '=',
    ensures
        trim_end(head + c) == head + trim_end(c),
    decreases c.len(),
{
    assert(!is_white('='));
    if c.len() == 0 {
        assert(head + c =~= head);
        assert((head + c).last() == '=');
    } else {
        assert((head + c).last() == c.last());
        if is_white(c.last()) {
            assert((head + c).drop_last() =~= head + c.drop_last());
            lemma_trim_end_after(head, c.drop_last());
        }
    }
}

/// Dropping a white last character does not change the trimmed text.
proof fn lemma_trim_drop_white_last(s: Seq<char>)
    requires
        s.len() > 0,
        is_white(s.last()),
    ensures
        trim(s) == trim(s.drop_last()),
    decreases s.len(),
{
    if is_white(s[0]) {
        if s.len() == 1 {
            assert(s.drop_first() =~= Seq::<char>::empty());
            assert(s.drop_last() =~= Seq::<char>::empty());
            assert(trim_start(Seq::<char>::empty()) == Seq::<char>::empty());
            assert(trim_end(Seq::<char>::empty()) == Seq::<char>::empty());
        } else {
            let t = s.drop_first();
            assert(t.last() == s.last());
            lemma_trim_drop_white_last(t);
            assert(s.drop_last()[0] == s[0]);
            assert(s.drop_last().drop_first() =~= t.drop_last());
            assert(trim_start(s.drop_last()) == trim_start(t.drop_last()));
        }
    } else {
        assert(s.len() >= 2);
        assert(s.drop_last()[0] == s[0]);
        assert(trim_start(s.drop_last()) == s.drop_last());
        assert(trim_start(s) == s);
    }
}

/// Trimming what `trim_end` left gives what trimming the whole gives.
proof fn lemma_trim_of_trim_end(c: Seq<char>)
    ensures
        trim(trim_end(c)) == trim(c),
    decreases c.len(),
{
    if c.len() > 0 && is_white(c.last()) {
        lemma_trim_of_trim_end(c.drop_last());
        lemma_trim_drop_white_last(c);
    }
}

// ------------------------------------------------------------ poll marks

/// After a poll reply (flow "sondeo"), split into parts at the lines `@@`:
/// the archive view is shown exactly when the fourth part (index 3), trimmed,
/// is "1"; the extra rows are on exactly when the fifth part (index 4),
/// trimmed, is "1"; the order is the sixth part (index 5) trimmed, or empty
/// when there is none; and a change of any of these redraws the bar.
#[verifier::rlimit(50)]
pub proof fn law_poll_marks(s0: State, out: CommandOutput, s1: State, r: bool, a: Seq<ActionV>)
    requires
        s0.permissions_granted,
        match out.flow {
            Some(f) => f@ == "sondeo"@,
            None => false,
        },
        updated(s0, Event::CommandResult(out), s1, r, a),
    ensures
        ({
            let p = split_on(lossy_text(out.stdout@), "\n@@\n"@);
            &&& s1.mostrar_archivados == (p.len() > 3 && trim(p[3]) == "1"@)
            &&& s1.filas_estado == (p.len() > 4 && trim(p[4]) == "1"@)
            &&& s1.orden@ == if p.len() > 5 {
                trim(p[5])
            } else {
                Seq::<char>::empty()
            }
        }),
        s1.mostrar_archivados != s0.mostrar_archivados ==> r,
        s1.filas_estado != s0.filas_estado ==> r,
        s1.orden@ != s0.orden@ ==> r,
{
    assert(flow_is(out, "sondeo"@));
    assert(handled(s0, Event::CommandResult(out), s1, r, a));
    assert(polled(s0, out, s1, r, a));
}

/// After a poll reply (flow "sondeo"), what the parts that read say is what
/// is held: the archived names (index 2, a JSON list, trimmed) as a set, the
/// priorities (index 6, a JSON object, trimmed) as a map, and the last focus
/// times (index 7, one "name time" per line) as a map; a part that does not
/// read leaves the names or priorities as they were.
#[verifier::rlimit(50)]
pub proof fn law_poll_reads_parts(s0: State, out: CommandOutput, s1: State, r: bool, a: Seq<ActionV>)
    requires
        s0.permissions_granted,
        match out.flow {
            Some(f) => f@ == "sondeo"@,
            None => false,
        },
        updated(s0, Event::CommandResult(out), s1, r, a),
    ensures
        ({
            let p = split_on(lossy_text(out.stdout@), "\n@@\n"@);
            &&& match (if p.len() > 2 {
                json_names(trim(p[2]))
            } else {
                None
            }) {
                Some(v) => names_of(s1.archivados@).to_set() == v.to_set(),
                None => s1.archivados == s0.archivados,
            }
            &&& match (if p.len() > 6 {
                json_priorities(trim(p[6]))
            } else {
                None
            }) {
                Some(m) => prio_map(prio_pairs(s1.prioridades@)) == prio_map(m),
                None => s1.prioridades == s0.prioridades,
            }
            &&& p.len() > 7 ==> str_map(s1.ultimo_foco@) == focus_table(lines_of(p[7]))
        }),
{
    assert(flow_is(out, "sondeo"@));
    assert(handled(s0, Event::CommandResult(out), s1, r, a));
    assert(polled(s0, out, s1, r, a));
    let p = crate::events::poll_parts_of(out);
    match crate::events::archived_read(p) {
        Some(v) => {
            crate::compare::lemma_dedup_same_set(v);
        },
        None => {},
    }
}

} // verus!
