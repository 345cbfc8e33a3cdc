//! Styled text: runs of characters, each with colours and attributes, and how
//! they are rendered to terminal escape codes or cut to a width.
use vstd::prelude::*;
use vstd::string::StringExecFns;
use crate::color::{color_code, ColorSpec};
use crate::width::{char_width, str_width, text_width};

verus! {

/// The style of a run of text, as a `#[...]` directive sets it.
#[derive(Clone, Copy, Debug, PartialEq, Eq, Structural)]
pub struct InlineStyle {
    pub fg: ColorSpec,
    pub bg: ColorSpec,
    pub bold: bool,
    pub dim: bool,
    pub fill: bool,
}

/// No colours and no attributes.
pub open spec fn plain() -> InlineStyle {
    InlineStyle { fg: ColorSpec::Default, bg: ColorSpec::Default, bold: false, dim: false, fill: false }
}

impl Default for InlineStyle {
    fn default() -> (r: Self)
        ensures
            r == plain(),
    {
        InlineStyle {
            fg: ColorSpec::Default,
            bg: ColorSpec::Default,
            bold: false,
            dim: false,
            fill: false,
        }
    }
}

/// `ESC [ 0 m`: reset all attributes.
pub open spec fn reset_code() -> Seq<char> {
    seq!['\x1b', '[', '0', 'm']
}

/// `ESC [ 1 m`: bold.
pub open spec fn bold_code() -> Seq<char> {
    seq!['\x1b', '[', '1', 'm']
}

/// `ESC [ 2 m`: dim.
pub open spec fn dim_code() -> Seq<char> {
    seq!['\x1b', '[', '2', 'm']
}

/// The escape codes of a style: attributes first, then foreground and background.
pub open spec fn style_code(st: InlineStyle) -> Seq<char> {
    (if st.bold {
        bold_code()
    } else {
        Seq::empty()
    }) + (if st.dim {
        dim_code()
    } else {
        Seq::empty()
    }) + color_code(st.fg, '3') + color_code(st.bg, '4')
}

/// Whether a style changes anything (a colour, an attribute, or fill).
pub open spec fn styled(st: InlineStyle) -> bool {
    st.fg != ColorSpec::Default || st.bg != ColorSpec::Default || st.bold || st.dim || st.fill
}

pub(crate) fn push_reset(s: &mut String)
    ensures
        final(s)@ == old(s)@ + reset_code(),
{
    s.push('\x1b');
    s.push('[');
    s.push('0');
    s.push('m');
    assert(s@ =~= old(s)@ + reset_code());
}

impl InlineStyle {
    /// The escape codes for this style (reverse video is handled per line).
    pub fn to_ansi(&self) -> (s: String)
        ensures
            s@ == style_code(*self),
    {
        let mut result = String::new();
        if self.bold {
            result.push('\x1b');
            result.push('[');
            result.push('1');
            result.push('m');
        }
        if self.dim {
            result.push('\x1b');
            result.push('[');
            result.push('2');
            result.push('m');
        }
        let fg = self.fg.to_ansi_fg();
        result.append(fg.as_str());
        let bg = self.bg.to_ansi_bg();
        result.append(bg.as_str());
        assert(result@ =~= style_code(*self));
        result
    }

    /// Whether this style changes anything.
    pub fn has_any_style(&self) -> (b: bool)
        ensures
            b == styled(*self),
    {
        !self.fg.is_default() || !self.bg.is_default() || self.bold || self.dim || self.fill
    }
}

/// A run of text in one style.
#[derive(Debug)]
pub struct StyledSegment {
    pub text: String,
    pub style: InlineStyle,
}

/// A segment as its characters and its style.
pub type Seg = (Seq<char>, InlineStyle);

impl View for StyledSegment {
    type V = Seg;

    open spec fn view(&self) -> Seg {
        (self.text@, self.style)
    }
}

impl Clone for StyledSegment {
    fn clone(&self) -> (r: Self)
        ensures
            r@ == self@,
    {
        StyledSegment { text: self.text.clone(), style: self.style }
    }
}

impl StyledSegment {
    /// Width of the text in terminal columns.
    pub fn display_width(&self) -> (w: usize)
        ensures
            w == text_width(self.text@),
    {
        str_width(self.text.as_str())
    }
}

/// Text made of styled segments.
#[derive(Debug)]
pub struct StyledText {
    pub segments: Vec<StyledSegment>,
}

/// The segments of a styled text.
pub open spec fn segs_of(v: Seq<StyledSegment>) -> Seq<Seg> {
    v.map_values(|s: StyledSegment| s@)
}

impl View for StyledText {
    type V = Seq<Seg>;

    open spec fn view(&self) -> Seq<Seg> {
        segs_of(self.segments@)
    }
}

/// Sum of the widths of the segments.
pub open spec fn width_sum(segs: Seq<Seg>) -> nat
    decreases segs.len(),
{
    if segs.len() == 0 {
        0
    } else {
        width_sum(segs.drop_last()) + text_width(segs.last().0) as nat
    }
}

/// A segment rendered: a reset and its style codes when it is styled, then its text.
pub open spec fn seg_ansi(seg: Seg) -> Seq<char> {
    (if styled(seg.1) {
        reset_code() + style_code(seg.1)
    } else {
        Seq::empty()
    }) + seg.0
}

/// The segments rendered one after the other.
pub open spec fn segs_ansi(segs: Seq<Seg>) -> Seq<char>
    decreases segs.len(),
{
    if segs.len() == 0 {
        Seq::empty()
    } else {
        segs_ansi(segs.drop_last()) + seg_ansi(segs.last())
    }
}

/// Whether some segment is styled.
pub open spec fn any_styled(segs: Seq<Seg>) -> bool {
    exists|i: int| 0 <= i < segs.len() && styled(#[trigger] segs[i].1)
}

/// A styled text rendered: its segments, then a reset if any segment was styled.
pub open spec fn text_ansi(segs: Seq<Seg>) -> Seq<char> {
    segs_ansi(segs) + if any_styled(segs) {
        reset_code()
    } else {
        Seq::empty()
    }
}

/// Whether every segment holds some text.
pub open spec fn no_empty(segs: Seq<Seg>) -> bool {
    forall|i: int| 0 <= i < segs.len() ==> (#[trigger] segs[i]).0.len() > 0
}

/// `segs` with `seg` appended, unless its text is empty.
pub open spec fn push_seg(segs: Seq<Seg>, seg: Seg) -> Seq<Seg> {
    if seg.0.len() == 0 {
        segs
    } else {
        segs.push(seg)
    }
}

/// The longest prefix of `t` that fits in `room` columns, adding the widths of
/// the characters one by one and stopping at the first that does not fit.
pub open spec fn fit_chars(t: Seq<char>, room: nat) -> Seq<char>
    decreases t.len(),
{
    if t.len() == 0 {
        t
    } else if text_width(seq![t[0]]) > room {
        Seq::empty()
    } else {
        seq![t[0]] + fit_chars(t.drop_first(), (room - text_width(seq![t[0]])) as nat)
    }
}

/// The segments that fit in `room` columns: whole segments while they fit,
/// then the part of the first one that does not fit that does.
pub open spec fn fit_segs(segs: Seq<Seg>, room: nat) -> Seq<Seg>
    decreases segs.len(),
{
    if segs.len() == 0 || room == 0 {
        Seq::empty()
    } else if text_width(segs[0].0) <= room {
        push_seg(Seq::empty(), segs[0]) + fit_segs(
            segs.drop_first(),
            (room - text_width(segs[0].0)) as nat,
        )
    } else {
        push_seg(Seq::empty(), (fit_chars(segs[0].0, room), segs[0].1))
    }
}

/// A styled text cut to `max` columns: unchanged when it fits.
pub open spec fn truncated(segs: Seq<Seg>, max: nat) -> Seq<Seg> {
    if width_sum(segs) <= max {
        segs
    } else {
        fit_segs(segs, max)
    }
}

proof fn lemma_segs_push(v: Seq<StyledSegment>, s: StyledSegment)
    ensures
        segs_of(v.push(s)) == segs_of(v).push(s@),
{
    assert(segs_of(v.push(s)) =~= segs_of(v).push(s@));
}

impl StyledText {
    /// No segments.
    pub fn new() -> (t: Self)
        ensures
            t@ == Seq::<Seg>::empty(),
    {
        let t = StyledText { segments: Vec::new() };
        assert(t@ =~= Seq::<Seg>::empty());
        t
    }

    /// Appends `text` in `style`; empty text is dropped.
    pub fn push(&mut self, text: String, style: InlineStyle)
        ensures
            final(self)@ == push_seg(old(self)@, (text@, style)),
    {
        if !text.as_str().is_empty() {
            let seg = StyledSegment { text, style };
            proof {
                lemma_segs_push(self.segments@, seg);
            }
            self.segments.push(seg);
        }
    }

    /// Width in columns: the sum of the segments' widths, or `usize::MAX` if
    /// that sum does not fit in a `usize`.
    pub fn display_width(&self) -> (w: usize)
        ensures
            w as nat == if width_sum(self@) <= usize::MAX {
                width_sum(self@)
            } else {
                usize::MAX as nat
            },
    {
        let mut total: usize = 0;
        let mut i: usize = 0;
        while i < self.segments.len()
            invariant
                i <= self.segments@.len(),
                self@.len() == self.segments@.len(),
                total as nat == if width_sum(self@.take(i as int)) <= usize::MAX {
                    width_sum(self@.take(i as int))
                } else {
                    usize::MAX as nat
                },
            decreases self.segments@.len() - i,
        {
            let w = self.segments[i].display_width();
            assert(self@.take(i + 1).drop_last() =~= self@.take(i as int));
            if w > usize::MAX - total {
                total = usize::MAX;
            } else {
                total = total + w;
            }
            i = i + 1;
        }
        assert(self@.take(i as int) =~= self@);
        total
    }

    /// The text with escape codes: each styled segment starts with a reset and
    /// its style; a final reset closes the line if anything was styled.
    pub fn to_ansi(&self) -> (s: String)
        ensures
            s@ == text_ansi(self@),
    {
        let mut result = String::new();
        let mut any = false;
        let mut i: usize = 0;
        while i < self.segments.len()
            invariant
                i <= self.segments@.len(),
                self@.len() == self.segments@.len(),
                result@ == segs_ansi(self@.take(i as int)),
                any == any_styled(self@.take(i as int)),
            decreases self.segments@.len() - i,
        {
            let seg = &self.segments[i];
            let ghost pre = self@.take(i as int);
            assert(self@.take(i + 1).drop_last() =~= pre);
            assert(self@.take(i + 1).last() == seg@);
            if seg.style.has_any_style() {
                push_reset(&mut result);
                let code = seg.style.to_ansi();
                result.append(code.as_str());
                any = true;
            }
            result.append(seg.text.as_str());
            assert(result@ =~= segs_ansi(self@.take(i + 1)));
            assert(any == any_styled(self@.take(i + 1))) by {
                if any_styled(pre) {
                    let k = choose|k: int| 0 <= k < pre.len() && styled(#[trigger] pre[k].1);
                    assert(self@.take(i + 1)[k] == pre[k]);
                }
                if any_styled(self@.take(i + 1)) && !styled(seg.style) {
                    let k = choose|k: int|
                        0 <= k < i + 1 && styled(#[trigger] self@.take(i + 1)[k].1);
                    assert(pre[k] == self@.take(i + 1)[k]);
                }
            }
            i = i + 1;
        }
        assert(self@.take(i as int) =~= self@);
        if any {
            push_reset(&mut result);
        }
        assert(result@ =~= text_ansi(self@));
        result
    }

    /// A copy of the text.
    pub fn clone_text(&self) -> (t: StyledText)
        ensures
            t@ == self@,
    {
        let mut segments: Vec<StyledSegment> = Vec::new();
        let mut i: usize = 0;
        while i < self.segments.len()
            invariant
                i <= self.segments@.len(),
                segs_of(segments@) == self@.take(i as int),
            decreases self.segments@.len() - i,
        {
            let s = self.segments[i].clone();
            proof {
                lemma_segs_push(segments@, s);
            }
            segments.push(s);
            i = i + 1;
            assert(segs_of(segments@) =~= self@.take(i as int));
        }
        assert(self@.take(i as int) =~= self@);
        StyledText { segments }
    }

    /// Whether the widths of the segments add up to at most `max` columns.
    pub fn fits_in(&self, max: usize) -> (b: bool)
        ensures
            b == (width_sum(self@) <= max),
    {
        let mut total: usize = 0;
        let mut i: usize = 0;
        while i < self.segments.len()
            invariant
                i <= self.segments@.len(),
                self@.len() == self.segments@.len(),
                total == width_sum(self@.take(i as int)),
                total <= max,
            decreases self.segments@.len() - i,
        {
            let w = self.segments[i].display_width();
            assert(self@.take(i + 1).drop_last() =~= self@.take(i as int));
            if w > max - total {
                proof {
                    lemma_width_sum_grows(self@, i + 1);
                }
                return false;
            }
            total = total + w;
            i = i + 1;
        }
        assert(self@.take(i as int) =~= self@);
        true
    }

    /// The text cut to `max_width` columns: whole segments while they fit, then
    /// as many characters of the next one as fit; unchanged when it all fits.
    pub fn truncate(&self, max_width: usize) -> (t: StyledText)
        ensures
            t@ == truncated(self@, max_width as nat),
    {
        if self.fits_in(max_width) {
            return self.clone_text();
        }
        let mut result = StyledText::new();
        let mut remaining = max_width;
        let mut i: usize = 0;
        assert(self@.skip(0) =~= self@);
        while i < self.segments.len()
            invariant
                i <= self.segments@.len(),
                self@.len() == self.segments@.len(),
                remaining <= max_width,
                width_sum(self@) > max_width,
                result@ + fit_segs(self@.skip(i as int), remaining as nat) == fit_segs(
                    self@,
                    max_width as nat,
                ),
            decreases self.segments@.len() - i,
        {
            let ghost rest = self@.skip(i as int);
            assert(rest[0] == self.segments@[i as int]@);
            if remaining == 0 {
                assert(result@ + Seq::<Seg>::empty() =~= result@);
                return result;
            }
            let seg = &self.segments[i];
            let seg_width = seg.display_width();
            if seg_width <= remaining {
                let ghost before = result@;
                result.push(seg.text.clone(), seg.style);
                remaining = remaining - seg_width;
                assert(rest.drop_first() =~= self@.skip(i + 1));
                assert(push_seg(before, rest[0]) =~= before + push_seg(Seq::empty(), rest[0]));
                assert(result@ + fit_segs(self@.skip(i + 1), remaining as nat) =~= before
                    + fit_segs(rest, (remaining + seg_width) as nat));
            } else {
                let cut = fit_text(&seg.text, remaining);
                let ghost before = result@;
                result.push(cut, seg.style);
                assert(push_seg(before, (cut@, seg.style)) =~= before + push_seg(
                    Seq::empty(),
                    (cut@, seg.style),
                ));
                return result;
            }
            i = i + 1;
        }
        assert(self@.skip(i as int) =~= Seq::<Seg>::empty());
        assert(result@ + Seq::<Seg>::empty() =~= result@);
        result
    }
}

proof fn lemma_width_sum_grows(segs: Seq<Seg>, k: int)
    requires
        0 <= k <= segs.len(),
    ensures
        width_sum(segs) >= width_sum(segs.take(k)),
    decreases segs.len() - k,
{
    if k < segs.len() {
        assert(segs.drop_last().take(k) =~= segs.take(k));
        lemma_width_sum_grows(segs.drop_last(), k);
    } else {
        assert(segs.take(k) =~= segs);
    }
}

/// The longest prefix of `text` that fits in `room` columns (see [`fit_chars`]).
pub fn fit_text(text: &String, room: usize) -> (r: String)
    ensures
        r@ == fit_chars(text@, room as nat),
{
    let chars = crate::text::chars_of(text.as_str());
    let mut out = String::new();
    let mut width: usize = 0;
    let mut i: usize = 0;
    assert(chars@.skip(0) =~= chars@);
    while i < chars.len()
        invariant
            i <= chars@.len(),
            chars@ == text@,
            width <= room,
            out@ + fit_chars(chars@.skip(i as int), (room - width) as nat) == fit_chars(
                text@,
                room as nat,
            ),
        decreases chars@.len() - i,
    {
        let c = chars[i];
        let ghost t = chars@.skip(i as int);
        assert(t[0] == c);
        let w = char_width(c);
        if w > room - width {
            assert(out@ + Seq::<char>::empty() =~= out@);
            return out;
        }
        let ghost before = out@;
        out.push(c);
        assert(t.drop_first() =~= chars@.skip(i + 1));
        assert(out@ + fit_chars(chars@.skip(i + 1), (room - (width + w)) as nat) =~= before
            + fit_chars(t, (room - width) as nat));
        width = width + w;
        i = i + 1;
    }
    assert(chars@.skip(i as int) =~= Seq::<char>::empty());
    assert(out@ + Seq::<char>::empty() =~= out@);
    out
}

} // verus!
