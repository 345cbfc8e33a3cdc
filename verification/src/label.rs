//! Tab labels: a format string expanded with what is known of a tab.
use vstd::prelude::*;
use vstd::string::StringExecFns;
use crate::color::{is_word, ColorSpec};
use crate::format::{format_ok, parse_tmux_format, tokens, toks_of, FormatToken, Tok};
use crate::layout::{shortened, truncate_string};
use crate::model::{InputMode, Tab};
use crate::state::{attention, focused_title, starts_with_str, State};
use crate::style::{plain, push_seg, InlineStyle, Seg, StyledText};
use crate::table::{table_find, table_get};
use crate::text::{chars_of, decimal, push_decimal, starts_with};

verus! {

/// The title shown for a tab: its focused pane's title, else its name unless
/// that is a default name ("Tab #…"), else "...".
pub open spec fn pane_title(st: &State, tab: &Tab) -> Seq<char> {
    match focused_title(st.panes@, tab.position) {
        Some(t) => t,
        None => if !starts_with(tab.name@, "Tab #"@) {
            tab.name@
        } else {
            "..."@
        },
    }
}

/// The indicators of a tab: fullscreen, synchronised panes, active.
pub open spec fn indicators(st: &State, tab: &Tab) -> Seq<char> {
    (if tab.is_fullscreen_active {
        st.style.indicator_fullscreen@
    } else {
        Seq::empty()
    }) + (if tab.is_sync_panes_active {
        st.style.indicator_sync@
    } else {
        Seq::empty()
    }) + (if tab.active {
        st.style.indicator_active@
    } else {
        Seq::empty()
    })
}

/// `s` right-aligned in two columns (`format!("{:>2}", ..)` for a number).
pub open spec fn pad2(s: Seq<char>) -> Seq<char> {
    if s.len() < 2 {
        Seq::new((2 - s.len()) as nat, |i: int| ' ') + s
    } else {
        s
    }
}

/// The priority mark of a tab: ● high, ◐ medium, ○ low (in greys), a space if none.
pub open spec fn prio_mark(p: Option<u8>) -> (Seq<char>, ColorSpec) {
    match p {
        Some(1) => ("●"@, ColorSpec::EightBit(252)),
        Some(2) => ("◐"@, ColorSpec::EightBit(246)),
        Some(3) => ("○"@, ColorSpec::EightBit(240)),
        _ => (" "@, ColorSpec::Default),
    }
}

/// The tab's name for the `name` variable: a prompt while it is being renamed
/// with an empty name, its own name unless that is empty or a default name,
/// else the pane title.
pub open spec fn name_value(st: &State, tab: &Tab) -> Seq<char> {
    if tab.active && st.mode == InputMode::RenameTab && tab.name@.len() == 0 {
        "Enter name..."@
    } else if !starts_with(tab.name@, "Tab #"@) && tab.name@.len() != 0 {
        tab.name@
    } else {
        pane_title(st, tab)
    }
}

/// The text of a plain variable (every variable but `num`, `prio`, `atencion`).
pub open spec fn var_value(st: &State, tab: &Tab, index: usize, name: Seq<char>) -> Seq<char> {
    if name == "index"@ || name == "i"@ {
        decimal(index as nat)
    } else if name == "name"@ || name == "n"@ {
        name_value(st, tab)
    } else if name == "title"@ || name == "t"@ || name == "pane_title"@ {
        pane_title(st, tab)
    } else if name == "indicators"@ {
        indicators(st, tab)
    } else if name == "fullscreen"@ {
        if tab.is_fullscreen_active {
            st.style.indicator_fullscreen@
        } else {
            Seq::empty()
        }
    } else if name == "sync"@ {
        if tab.is_sync_panes_active {
            st.style.indicator_sync@
        } else {
            Seq::empty()
        }
    } else if name == "active"@ {
        if tab.active {
            st.style.indicator_active@
        } else {
            Seq::empty()
        }
    } else {
        crate::format::braced(name)
    }
}

/// The segments that one variable adds after `acc`, in style `cur`.
pub open spec fn var_segs(
    st: &State,
    tab: &Tab,
    index: usize,
    name: Seq<char>,
    width: Option<usize>,
    cur: InlineStyle,
    acc: Seq<Seg>,
) -> Seq<Seg> {
    if name == "num"@ {
        push_seg(acc, (pad2(decimal(index as nat)), cur))
    } else if name == "prio"@ {
        let (mark, color) = prio_mark(table_get(st.prioridades@, tab.name@));
        push_seg(acc, (mark, InlineStyle { fg: color, ..cur }))
    } else if name == "atencion"@ || name == "a"@ {
        let (mark, color) = attention(table_get(st.atencion@, tab.name@));
        if mark.len() == 0 {
            acc
        } else {
            push_seg(acc, (seq![' '] + mark, InlineStyle { fg: color, dim: false, ..cur }))
        }
    } else {
        let w = match width {
            Some(w) => w,
            None => st.style.max_name_length,
        };
        push_seg(acc, (shortened(var_value(st, tab, index, name), w as nat), cur))
    }
}

/// The label segments the tokens produce after `acc` when `cur` is in force.
pub open spec fn expand_from(
    st: &State,
    tab: &Tab,
    index: usize,
    toks: Seq<Tok>,
    cur: InlineStyle,
    acc: Seq<Seg>,
) -> Seq<Seg>
    decreases toks.len(),
{
    if toks.len() == 0 {
        acc
    } else {
        match toks[0] {
            Tok::Style(s) => expand_from(st, tab, index, toks.drop_first(), s, acc),
            Tok::Literal(t) => expand_from(
                st,
                tab,
                index,
                toks.drop_first(),
                cur,
                push_seg(acc, (t, cur)),
            ),
            Tok::Variable(n, w) => expand_from(
                st,
                tab,
                index,
                toks.drop_first(),
                cur,
                var_segs(st, tab, index, n, w, cur, acc),
            ),
        }
    }
}

/// The label of `tab`, numbered `index`, drawn with `format`.
pub open spec fn label(st: &State, format: Seq<char>, tab: &Tab, index: usize) -> Seq<Seg> {
    expand_from(st, tab, index, tokens(format), plain(), Seq::empty())
}

fn pad2_exec(n: usize) -> (s: String)
    ensures
        s@ == pad2(decimal(n as nat)),
{
    let mut s = String::new();
    if n < 10 {
        s.push(' ');
    }
    push_decimal(&mut s, n as u128);
    proof {
        lemma_decimal_len(n as nat);
    }
    assert(s@ =~= pad2(decimal(n as nat)));
    s
}

proof fn lemma_decimal_len(n: nat)
    ensures
        decimal(n).len() >= 1,
        n < 10 <==> decimal(n).len() == 1,
    decreases n,
{
    if n >= 10 {
        lemma_decimal_len(n / 10);
    }
}

impl State {
    /// The title shown for `tab` (see [`pane_title`]).
    pub fn pane_title_of(&self, tab: &Tab) -> (r: String)
        ensures
            r@ == pane_title(self, tab),
    {
        match self.get_focused_pane_title(tab.position) {
            Some(t) => t,
            None => if !starts_with_str(tab.name.as_str(), "Tab #") {
                tab.name.clone()
            } else {
                String::from_str("...")
            },
        }
    }

    fn indicators_of(&self, tab: &Tab) -> (r: String)
        ensures
            r@ == indicators(self, tab),
    {
        let mut s = String::new();
        if tab.is_fullscreen_active {
            s.append(self.style.indicator_fullscreen.as_str());
        }
        if tab.is_sync_panes_active {
            s.append(self.style.indicator_sync.as_str());
        }
        if tab.active {
            s.append(self.style.indicator_active.as_str());
        }
        assert(s@ =~= indicators(self, tab));
        s
    }

    fn var_value_of(&self, tab: &Tab, index: usize, name: &String) -> (r: String)
        ensures
            r@ == var_value(self, tab, index, name@),
    {
        let n = chars_of(name.as_str());
        if is_word(&n, "index") || is_word(&n, "i") {
            crate::text::decimal_string(index)
        } else if is_word(&n, "name") || is_word(&n, "n") {
            if tab.active && self.mode == InputMode::RenameTab && tab.name.as_str().is_empty() {
                String::from_str("Enter name...")
            } else if !starts_with_str(tab.name.as_str(), "Tab #") && !tab.name.as_str().is_empty() {
                tab.name.clone()
            } else {
                self.pane_title_of(tab)
            }
        } else if is_word(&n, "title") || is_word(&n, "t") || is_word(&n, "pane_title") {
            self.pane_title_of(tab)
        } else if is_word(&n, "indicators") {
            self.indicators_of(tab)
        } else if is_word(&n, "fullscreen") {
            if tab.is_fullscreen_active {
                self.style.indicator_fullscreen.clone()
            } else {
                String::new()
            }
        } else if is_word(&n, "sync") {
            if tab.is_sync_panes_active {
                self.style.indicator_sync.clone()
            } else {
                String::new()
            }
        } else if is_word(&n, "active") {
            if tab.active {
                self.style.indicator_active.clone()
            } else {
                String::new()
            }
        } else {
            let mut t = String::new();
            t.push('{');
            t.append(name.as_str());
            t.push('}');
            assert(t@ =~= crate::format::braced(name@));
            t
        }
    }

    /// Expands a tab label format: style directives, the variables `num`,
    /// `prio`, `atencion`/`a`, `index`/`i`, `name`/`n`, `title`/`t`/`pane_title`,
    /// `indicators`, `fullscreen`, `sync`, `active` (others are kept as
    /// `{name}`), each cut to its width or to the configured name length.
    pub fn expand_tmux_format(&self, format: &str, tab: &Tab, index: usize) -> (t: StyledText)
        requires
            format_ok(format@),
        ensures
            t@ == label(self, format@, tab, index),
    {
        let toks = parse_tmux_format(format);
        let mut result = StyledText::new();
        let mut current = InlineStyle::default();
        let mut i: usize = 0;
        let ghost all = toks_of(toks@);
        assert(all.skip(0) =~= all);
        while i < toks.len()
            invariant
                i <= toks@.len(),
                all == toks_of(toks@),
                all == tokens(format@),
                expand_from(self, tab, index, all.skip(i as int), current, result@) == label(
                    self,
                    format@,
                    tab,
                    index,
                ),
            decreases toks@.len() - i,
        {
            assert(all.skip(i as int).drop_first() =~= all.skip(i + 1));
            assert(all.skip(i as int)[0] == toks@[i as int]@);
            match &toks[i] {
                FormatToken::Style(st) => {
                    current = *st;
                },
                FormatToken::Literal(text) => {
                    result.push(text.clone(), current);
                },
                FormatToken::Variable { name, width } => {
                    let n = chars_of(name.as_str());
                    if is_word(&n, "num") {
                        result.push(pad2_exec(index), current);
                    } else if is_word(&n, "prio") {
                        let (mark, color) = match table_find(&self.prioridades, tab.name.as_str()) {
                            Some(1) => (String::from_str("●"), ColorSpec::EightBit(252)),
                            Some(2) => (String::from_str("◐"), ColorSpec::EightBit(246)),
                            Some(3) => (String::from_str("○"), ColorSpec::EightBit(240)),
                            _ => (String::from_str(" "), ColorSpec::Default),
                        };
                        let st = InlineStyle { fg: color, ..current };
                        result.push(mark, st);
                    } else if is_word(&n, "atencion") || is_word(&n, "a") {
                        let (mark, color) = self.atencion_de(tab.name.as_str());
                        if !mark.as_str().is_empty() {
                            let mut t = String::new();
                            t.push(' ');
                            t.append(mark.as_str());
                            let st = InlineStyle { fg: color, dim: false, ..current };
                            assert(t@ =~= seq![' '] + mark@);
                            result.push(t, st);
                        }
                    } else {
                        let value = self.var_value_of(tab, index, name);
                        let w = match width {
                            Some(w) => *w,
                            None => self.style.max_name_length,
                        };
                        let text = truncate_string(value.as_str(), w);
                        result.push(text, current);
                    }
                },
            }
            i = i + 1;
        }
        assert(all.skip(i as int) =~= Seq::<Tok>::empty());
        result
    }
}

} // verus!
