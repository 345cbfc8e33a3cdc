//! Which tabs of a long list are visible, and how names are shortened.
use vstd::prelude::*;
use crate::text::{chars_of, string_of, sub_chars, trim_start, trim_start_chars};
use crate::width::{char_width, str_width, text_width};

verus! {

/// `a - b`, or 0 when `b` is larger.
pub open spec fn sat_sub(a: int, b: int) -> nat {
    if a > b {
        (a - b) as nat
    } else {
        0
    }
}

/// The window of a list of `count` tabs shown in `rows` rows around tab
/// `active` (0-based): `(start, end, above, below)`, where tabs `start..end`
/// are shown and `above` / `below` are hidden before / after them.
///
/// When everything fits it is all shown. Otherwise two rows go to the
/// "more above" / "more below" markers and the rest is filled around the
/// active tab, one row above, then one below, and so on; once one side runs
/// out, the other side takes the remaining rows.
pub open spec fn visible_range(count: nat, rows: nat, active: nat) -> (nat, nat, nat, nat) {
    if count == 0 {
        (0, 0, 0, 0)
    } else if count <= rows {
        (0, count, 0, 0)
    } else {
        let max_visible = sat_sub(rows as int, 2);
        if max_visible == 0 {
            (0, 0, count, 0)
        } else {
            let up_cap = active;
            let down_cap = sat_sub(count as int, active as int + 1);
            let n = if max_visible - 1 <= up_cap + down_cap {
                (max_visible - 1) as nat
            } else {
                up_cap + down_cap
            };
            let up = up_steps(n, up_cap, down_cap);
            let start = (active - up) as nat;
            let end = (active + 1 + (n - up)) as nat;
            (start, end, start, sat_sub(count as int, end as int))
        }
    }
}

/// Of `n` rows handed out alternately (above first) to two sides that can
/// take `up_cap` and `down_cap` rows, how many go above.
pub open spec fn up_steps(n: nat, up_cap: nat, down_cap: nat) -> nat {
    let half = (n + 1) / 2;
    let want: int = if half >= n - down_cap {
        half as int
    } else {
        n - down_cap
    };
    if up_cap <= want {
        up_cap
    } else {
        want as nat
    }
}

/// Computes [`visible_range`].
pub fn calculate_visible_range(tab_count: usize, available_rows: usize, active_index: usize) -> (r: (
    usize,
    usize,
    usize,
    usize,
))
    requires
        active_index < usize::MAX,
    ensures
        (r.0 as nat, r.1 as nat, r.2 as nat, r.3 as nat) == visible_range(
            tab_count as nat,
            available_rows as nat,
            active_index as nat,
        ),
{
    if tab_count == 0 {
        return (0, 0, 0, 0);
    }
    if tab_count <= available_rows {
        return (0, tab_count, 0, 0);
    }
    let max_visible = available_rows.saturating_sub(2);
    if max_visible == 0 {
        return (0, 0, tab_count, 0);
    }
    let ghost up_cap = active_index as nat;
    let ghost down_cap = sat_sub(tab_count as int, active_index as int + 1);
    let mut start_index = active_index;
    let mut end_index = active_index + 1;
    let mut room_left = max_visible.saturating_sub(1);
    let mut alternate = false;
    let ghost mut k: nat = 0;
    while room_left > 0
        invariant_except_break
            k + room_left == max_visible - 1,
        invariant
            max_visible >= 1,
            k <= up_cap + down_cap,
            alternate == (k % 2 == 1),
            start_index == active_index - up_steps(k, up_cap, down_cap),
            end_index == active_index + 1 + (k - up_steps(k, up_cap, down_cap)),
            up_steps(k, up_cap, down_cap) <= k,
            up_cap == active_index,
            down_cap == sat_sub(tab_count as int, active_index as int + 1),
            end_index <= usize::MAX,
        ensures
            k == if max_visible - 1 <= up_cap + down_cap {
                (max_visible - 1) as nat
            } else {
                up_cap + down_cap
            },
        decreases room_left,
    {
        if !alternate && start_index > 0 {
            start_index -= 1;
            room_left -= 1;
        } else if alternate && end_index < tab_count {
            end_index += 1;
            room_left -= 1;
        } else if start_index > 0 {
            start_index -= 1;
            room_left -= 1;
        } else if end_index < tab_count {
            end_index += 1;
            room_left -= 1;
        } else {
            break;
        }
        alternate = !alternate;
        proof {
            k = k + 1;
        }
    }
    (start_index, end_index, start_index, tab_count.saturating_sub(end_index))
}


/// The window of [`visible_range`] always shows the active tab: when the list
/// fits in the rows all tabs are shown; otherwise, with room for at least one
/// tab besides the two markers, exactly `rows - 2` consecutive tabs are shown,
/// the active one among them, and `above` / `below` count the tabs hidden on
/// either side; with no such room nothing is shown and all count as above.
pub proof fn lemma_active_tab_visible(count: nat, rows: nat, active: nat)
    requires
        active < count,
    ensures
        ({
            let (start, end, above, below) = visible_range(count, rows, active);
            &&& start <= end <= count
            &&& count <= rows ==> start == 0 && end == count && above == 0 && below == 0
            &&& count > rows && rows > 2 ==> {
                &&& start <= active < end
                &&& end - start == rows - 2
                &&& above == start
                &&& below == count - end
            }
            &&& count > rows && rows <= 2 ==> start == end && above == count && below == 0
        }),
{
    if count > rows {
        let max_visible = sat_sub(rows as int, 2);
        if max_visible > 0 {
            let up_cap = active;
            let down_cap = sat_sub(count as int, active as int + 1);
            assert(up_cap + down_cap == count - 1);
            let n = if max_visible - 1 <= up_cap + down_cap {
                (max_visible - 1) as nat
            } else {
                up_cap + down_cap
            };
            assert(n == max_visible - 1);
            let up = up_steps(n, up_cap, down_cap);
            assert(up <= up_cap);
            assert(n - up <= down_cap);
        }
    }
}

// ------------------------------------------------------------ names

/// `s` cut to `room` columns with "..." after it: characters are taken while
/// their widths (plus the three dots) fit; if every character fits the dots
/// are left out.
pub open spec fn ellipsize(s: Seq<char>, room: nat) -> Seq<char>
    decreases s.len(),
{
    if s.len() == 0 {
        s
    } else if text_width(seq![s[0]]) > room {
        seq!['.', '.', '.']
    } else {
        seq![s[0]] + ellipsize(s.drop_first(), (room - text_width(seq![s[0]])) as nat)
    }
}

/// `s` shortened to `max` columns: unchanged when it fits, only dots when
/// `max` is 3 or less, otherwise its beginning followed by "...".
pub open spec fn shortened(s: Seq<char>, max: nat) -> Seq<char> {
    if text_width(s) <= max {
        s
    } else if max <= 3 {
        Seq::new(max, |i: int| '.')
    } else {
        ellipsize(s, (max - 3) as nat)
    }
}

/// Shortens `s` to at most `max_width` columns (see [`shortened`]).
pub fn truncate_string(s: &str, max_width: usize) -> (r: String)
    ensures
        r@ == shortened(s@, max_width as nat),
{
    if str_width(s) <= max_width {
        let mut r = String::new();
        let cs = chars_of(s);
        return string_of(&cs);
    }
    if max_width <= 3 {
        let mut r = String::new();
        let mut i: usize = 0;
        while i < max_width
            invariant
                i <= max_width,
                r@ == Seq::new(i as nat, |j: int| '.'),
            decreases max_width - i,
        {
            r.push('.');
            i = i + 1;
            assert(r@ =~= Seq::new(i as nat, |j: int| '.'));
        }
        return r;
    }
    let chars = chars_of(s);
    let room = max_width - 3;
    let mut out = String::new();
    let mut width: usize = 0;
    let mut i: usize = 0;
    assert(chars@.skip(0) =~= chars@);
    while i < chars.len()
        invariant
            i <= chars@.len(),
            chars@ == s@,
            width <= room,
            room == max_width - 3,
            max_width > 3,
            text_width(s@) > max_width,
            out@ + ellipsize(chars@.skip(i as int), (room - width) as nat) == ellipsize(
                s@,
                room as nat,
            ),
        decreases chars@.len() - i,
    {
        let c = chars[i];
        let ghost t = chars@.skip(i as int);
        assert(t[0] == c);
        let w = char_width(c);
        let ghost before = out@;
        if w > room - width {
            out.push('.');
            out.push('.');
            out.push('.');
            assert(out@ =~= before + seq!['.', '.', '.']);
            return out;
        }
        out.push(c);
        assert(t.drop_first() =~= chars@.skip(i + 1));
        assert(out@ + ellipsize(chars@.skip(i + 1), (room - (width + w)) as nat) =~= before
            + ellipsize(t, (room - width) as nat));
        width = width + w;
        i = i + 1;
    }
    assert(chars@.skip(i as int) =~= Seq::<char>::empty());
    assert(out@ + Seq::<char>::empty() =~= out@);
    out
}

/// The first three characters are the marks of meeting-like tabs (◷ ⚑ ⏱),
/// which hang below the fixed tabs at the top.
pub open spec fn is_meeting(name: Seq<char>) -> bool {
    name.len() > 0 && (name[0] == '\u{25F7}' || name[0] == '\u{2691}' || name[0] == '\u{23F1}')
}

/// Whether a tab is a meeting / triage / capacity tab (its name starts with ◷, ⚑ or ⏱).
pub fn es_reunion(nombre: &str) -> (b: bool)
    ensures
        b == is_meeting(nombre@),
{
    let cs = chars_of(nombre);
    cs.len() > 0 && (cs[0] == '\u{25F7}' || cs[0] == '\u{2691}' || cs[0] == '\u{23F1}')
}

/// Whether `c` is alphabetic or numeric by Unicode rules (`char::is_alphanumeric`).
pub uninterp spec fn alphanumeric(c: char) -> bool;

/// Calls `char::is_alphanumeric` (std). The contract claims that the answer
/// is a function of `c` ([`alphanumeric`]) and, for an ASCII character, that
/// it holds exactly of the letters and digits; the Unicode tables for other
/// characters are not stated.
#[verifier::external_body]
fn is_alphanumeric(c: char) -> (b: bool)
    ensures
        b == alphanumeric(c),
        (c as u32) < 0x80 ==> b == ('0' <= c <= '9' || 'a' <= c <= 'z' || 'A' <= c <= 'Z'),
{
    c.is_alphanumeric()
}

/// A session or tab name normalised for lookups: leading white space removed,
/// and a leading symbol (a non-alphanumeric first character, such as an icon)
/// removed together with the white space after it.
pub open spec fn normalized_name(s: Seq<char>) -> Seq<char> {
    let t = trim_start(s);
    if t.len() > 0 && !alphanumeric(t[0]) {
        trim_start(t.drop_first())
    } else {
        t
    }
}

/// Normalises a name (see [`normalized_name`]).
pub fn norm_session_name(s: &str) -> (r: String)
    ensures
        r@ == normalized_name(s@),
{
    let all = chars_of(s);
    let t = trim_start_chars(&all);
    if t.len() > 0 && !is_alphanumeric(t[0]) {
        let rest = sub_chars(&t, 1, t.len());
        assert(rest@ =~= t@.drop_first());
        let r = trim_start_chars(&rest);
        return string_of(&r);
    }
    string_of(&t)
}

} // verus!
