//! Whole rows of the bar: content cut and padded to the width, with the
//! border after it; the selected row may be filled with its background.
use vstd::prelude::*;
use vstd::string::StringExecFns;
use crate::format::{format_ok, parse_styled_string, styled_string};
use crate::layout::sat_sub;
use crate::state::State;
use crate::style::{
    push_reset, reset_code, style_code, styled, text_ansi, truncated, width_sum, InlineStyle, Seg,
    StyledText,
};

verus! {

/// `n` spaces.
pub open spec fn spaces(n: nat) -> Seq<char> {
    Seq::new(n, |i: int| ' ')
}

/// `ESC [ 7 m`: reverse video.
pub open spec fn reverse_code() -> Seq<char> {
    seq!['\x1b', '[', '7', 'm']
}

/// A width sum as `display_width` returns it: capped at `usize::MAX`.
pub open spec fn capped(n: nat) -> nat {
    if n <= usize::MAX {
        n
    } else {
        usize::MAX as nat
    }
}

/// A style with foreground and background swapped and fill off: with reverse
/// video on, the background colour then fills the row.
pub open spec fn swapped(st: InlineStyle) -> InlineStyle {
    InlineStyle { fg: st.bg, bg: st.fg, fill: false, ..st }
}

/// A segment drawn in a filled row.
pub open spec fn fill_seg(seg: Seg) -> Seq<char> {
    (if styled(swapped(seg.1)) {
        reset_code() + reverse_code() + style_code(swapped(seg.1))
    } else {
        Seq::empty()
    }) + seg.0
}

/// The segments drawn in a filled row.
pub open spec fn fill_segs(segs: Seq<Seg>) -> Seq<char>
    decreases segs.len(),
{
    if segs.len() == 0 {
        Seq::empty()
    } else {
        fill_segs(segs.drop_last()) + fill_seg(segs.last())
    }
}

/// Whether some segment asks for the row to be filled.
pub open spec fn any_fill(segs: Seq<Seg>) -> bool {
    exists|i: int| 0 <= i < segs.len() && (#[trigger] segs[i]).1.fill
}

/// A row: the content cut to the columns left of the border and padded with
/// spaces, then the border. A selected row whose content asks for fill is
/// drawn in reverse video with the colours swapped, so that the background
/// fills the whole row up to the border.
pub open spec fn row_line(border: Seq<Seg>, content: Seq<Seg>, cols: nat, selected: bool) -> Seq<
    char,
> {
    let bw = capped(width_sum(border));
    let eff = sat_sub(cols as int, bw as int);
    let c = truncated(content, eff);
    let pad = sat_sub(eff as int, capped(width_sum(c)) as int);
    let body = if selected && any_fill(c) {
        reverse_code() + fill_segs(c) + spaces(pad) + reset_code()
    } else {
        text_ansi(c) + spaces(pad)
    };
    body + if bw > 0 {
        text_ansi(border)
    } else {
        Seq::empty()
    }
}

/// An empty row: spaces, then the border.
pub open spec fn empty_line(border: Seq<Seg>, cols: nat) -> Seq<char> {
    let bw = capped(width_sum(border));
    if bw == 0 {
        spaces(cols)
    } else {
        spaces(sat_sub(cols as int, bw as int)) + text_ansi(border)
    }
}

fn push_spaces(s: &mut String, n: usize)
    ensures
        final(s)@ == old(s)@ + spaces(n as nat),
{
    let mut i: usize = 0;
    while i < n
        invariant
            i <= n,
            s@ == old(s)@ + spaces(i as nat),
        decreases n - i,
    {
        s.push(' ');
        i = i + 1;
        assert(s@ =~= old(s)@ + spaces(i as nat));
    }
}

impl State {
    /// A row with `content`, padding and the border (see [`row_line`]).
    pub fn build_line(&self, content: &StyledText, cols: usize, is_selected: bool) -> (line:
        String)
        requires
            format_ok(self.style.border@),
        ensures
            line@ == row_line(styled_string(self.style.border@), content@, cols as nat, is_selected),
    {
        let border = parse_styled_string(self.style.border.as_str());
        let border_width = border.display_width();
        let effective_cols = cols.saturating_sub(border_width);
        let cut = content.truncate(effective_cols);
        let content_width = cut.display_width();
        let padding_needed = effective_cols.saturating_sub(content_width);
        let mut line = String::new();
        let mut has_fill = false;
        if is_selected {
            let mut k: usize = 0;
            while k < cut.segments.len()
                invariant
                    k <= cut.segments@.len(),
                    cut@.len() == cut.segments@.len(),
                    has_fill == exists|j: int| 0 <= j < k && (#[trigger] cut@[j]).1.fill,
                decreases cut.segments@.len() - k,
            {
                assert(cut@[k as int] == cut.segments@[k as int]@);
                if cut.segments[k].style.fill {
                    has_fill = true;
                }
                k = k + 1;
            }
        }
        assert(has_fill == (is_selected && any_fill(cut@)));
        if has_fill {
            line.push('\x1b');
            line.push('[');
            line.push('7');
            line.push('m');
            let mut i: usize = 0;
            while i < cut.segments.len()
                invariant
                    i <= cut.segments@.len(),
                    cut@.len() == cut.segments@.len(),
                    line@ == reverse_code() + fill_segs(cut@.take(i as int)),
                decreases cut.segments@.len() - i,
            {
                let segment = &cut.segments[i];
                assert(cut@.take(i + 1).drop_last() =~= cut@.take(i as int));
                assert(cut@.take(i + 1).last() == segment@);
                let mut sw = segment.style;
                let tmp = sw.fg;
                sw.fg = sw.bg;
                sw.bg = tmp;
                sw.fill = false;
                assert(sw == swapped(segment.style));
                if sw.has_any_style() {
                    push_reset(&mut line);
                    line.push('\x1b');
                    line.push('[');
                    line.push('7');
                    line.push('m');
                    let code = sw.to_ansi();
                    line.append(code.as_str());
                }
                line.append(segment.text.as_str());
                assert(line@ =~= reverse_code() + fill_segs(cut@.take(i + 1)));
                i = i + 1;
            }
            assert(cut@.take(i as int) =~= cut@);
            push_spaces(&mut line, padding_needed);
            push_reset(&mut line);
        } else {
            let a = cut.to_ansi();
            line.append(a.as_str());
            push_spaces(&mut line, padding_needed);
        }
        if border_width > 0 {
            let b = border.to_ansi();
            line.append(b.as_str());
        }
        assert(line@ =~= row_line(
            styled_string(self.style.border@),
            content@,
            cols as nat,
            is_selected,
        ));
        line
    }

    /// A row with only the border (see [`empty_line`]).
    pub fn build_empty_line(&self, cols: usize) -> (line: String)
        requires
            format_ok(self.style.border@),
        ensures
            line@ == empty_line(styled_string(self.style.border@), cols as nat),
    {
        let border = parse_styled_string(self.style.border.as_str());
        let border_width = border.display_width();
        let mut line = String::new();
        if border_width == 0 {
            push_spaces(&mut line, cols);
            assert(line@ =~= spaces(cols as nat));
            return line;
        }
        let effective_cols = cols.saturating_sub(border_width);
        push_spaces(&mut line, effective_cols);
        let b = border.to_ansi();
        line.append(b.as_str());
        assert(line@ =~= empty_line(styled_string(self.style.border@), cols as nat));
        line
    }
}

} // verus!
