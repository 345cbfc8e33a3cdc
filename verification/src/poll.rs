//! Reading the output of the poll: its parts, its lines, the focus log, and
//! the JSON parts that hold plain values (read with `serde_json`).
use vstd::prelude::*;
use crate::config::names_of;
use crate::table::{table_get, table_insert};
use crate::text::{
    chars_of, find, has_prefix, lemma_find, lemma_find_first, occurs_at, starts_with, string_of,
    sub_chars, trim, trim_chars,
};

verus! {

// ------------------------------------------------------------ separators

/// Index of the first occurrence of `p` in `s`.
pub open spec fn find_str(s: Seq<char>, p: Seq<char>) -> Option<int>
    decreases s.len(),
{
    if s.len() < p.len() {
        None
    } else if starts_with(s, p) {
        Some(0)
    } else if s.len() == 0 {
        None
    } else {
        match find_str(s.drop_first(), p) {
            Some(i) => Some(i + 1),
            None => None,
        }
    }
}

/// The pieces of `s` between the occurrences of `sep` (found from the left,
/// not overlapping), as `str::split` with a string pattern gives them: always
/// at least one piece, empty pieces kept.
pub open spec fn split_on(s: Seq<char>, sep: Seq<char>) -> Seq<Seq<char>>
    decreases s.len(),
{
    if sep.len() == 0 {
        seq![s]
    } else {
        match find_str(s, sep) {
            Some(i) => if 0 <= i && i + sep.len() <= s.len() {
                seq![s.take(i)] + split_on(s.skip(i + sep.len()), sep)
            } else {
                seq![s]
            },
            None => seq![s],
        }
    }
}

/// An index moved `d` places on.
pub open spec fn shifted(o: Option<int>, d: int) -> Option<int> {
    match o {
        Some(k) => Some(k + d),
        None => None,
    }
}

proof fn lemma_find_str_step(s: Seq<char>, p: Seq<char>, i: int)
    requires
        0 <= i < s.len(),
        p.len() > 0,
        !starts_with(s.skip(i), p),
    ensures
        find_str(s.skip(i), p) == shifted(find_str(s.skip(i + 1), p), 1),
{
    assert(s.skip(i).drop_first() =~= s.skip(i + 1));
}

/// The pieces of `s` between the occurrences of `sep`.
pub fn split_on_chars(s: &[char], sep: &[char]) -> (r: Vec<Vec<char>>)
    requires
        sep@.len() > 0,
    ensures
        r@.len() == split_on(s@, sep@).len(),
        forall|i: int| 0 <= i < r@.len() ==> #[trigger] r@[i]@ == split_on(s@, sep@)[i],
{
    let mut parts: Vec<Vec<char>> = Vec::new();
    let mut start: usize = 0;
    let mut i: usize = 0;
    let ghost mut done: Seq<Seq<char>> = Seq::empty();
    assert(s@.skip(0) =~= s@);
    while i < s.len()
        invariant
            sep@.len() > 0,
            start <= i <= s@.len(),
            parts@.len() == done.len(),
            forall|k: int| 0 <= k < parts@.len() ==> #[trigger] parts@[k]@ == done[k],
            done + split_on(s@.skip(start as int), sep@) == split_on(s@, sep@),
            find_str(s@.skip(start as int), sep@) == shifted(
                find_str(s@.skip(i as int), sep@),
                i - start,
            ),
        decreases s@.len() - i,
    {
        if occurs_at(s, i, sep) {
            let ghost t = s@.skip(start as int);
            assert(find_str(s@.skip(i as int), sep@) == Some(0int));
            assert(t.skip(i - start + sep@.len()) =~= s@.skip(i + sep@.len()));
            assert(t.take(i - start) =~= s@.subrange(start as int, i as int));
            let piece = sub_chars(s, start, i);
            parts.push(piece);
            proof {
                done = done.push(s@.subrange(start as int, i as int));
                assert(done + split_on(s@.skip(i + sep@.len()), sep@) =~= done.drop_last()
                    + split_on(t, sep@));
            }
            start = i + sep.len();
            i = start;
        } else {
            proof {
                lemma_find_str_step(s@, sep@, i as int);
            }
            i = i + 1;
        }
    }
    let ghost t = s@.skip(start as int);
    assert(find_str(s@.skip(i as int), sep@) is None);
    let last = sub_chars(s, start, s.len());
    parts.push(last);
    proof {
        assert(last@ =~= t);
        done = done.push(t);
    }
    parts
}

/// The separator between the parts of the poll output: a line `@@`.
pub open spec fn part_separator() -> Seq<char> {
    "\n@@\n"@
}

/// The parts of the poll output.
pub fn poll_parts(texto: &str) -> (r: Vec<String>)
    ensures
        names_of(r@) == split_on(texto@, part_separator()),
{
    let s = chars_of(texto);
    let sep = chars_of("\n@@\n");
    proof {
        reveal_strlit("\n@@\n");
    }
    let pieces = split_on_chars(&s, &sep);
    let mut r: Vec<String> = Vec::new();
    let mut k: usize = 0;
    while k < pieces.len()
        invariant
            k <= pieces@.len(),
            pieces@.len() == split_on(s@, sep@).len(),
            forall|i: int| 0 <= i < pieces@.len() ==> #[trigger] pieces@[i]@ == split_on(s@, sep@)[i],
            names_of(r@) == split_on(s@, sep@).take(k as int),
        decreases pieces@.len() - k,
    {
        let piece = string_of(&pieces[k]);
        assert(piece@ == split_on(s@, sep@)[k as int]);
        let ghost before = r@;
        r.push(piece);
        assert(names_of(r@) =~= names_of(before).push(piece@));
        assert(names_of(r@) =~= split_on(s@, sep@).take(k + 1));
        k = k + 1;
    }
    assert(split_on(s@, sep@).take(k as int) =~= split_on(s@, sep@));
    r
}

// ------------------------------------------------------------ lines

/// A line without the `'\r'` of a `"\r\n"` ending.
pub open spec fn strip_cr(l: Seq<char>) -> Seq<char> {
    if l.len() > 0 && l.last() == '\r' {
        l.drop_last()
    } else {
        l
    }
}

/// The lines of `s`, as `str::lines` gives them: split at `'\n'` (a `'\r'`
/// just before it is dropped too); a final line ending adds no empty line.
pub open spec fn lines_of(s: Seq<char>) -> Seq<Seq<char>>
    decreases s.len(),
{
    if s.len() == 0 {
        Seq::empty()
    } else {
        match find(s, '\n') {
            Some(i) => if 0 <= i < s.len() {
                seq![strip_cr(s.take(i))] + lines_of(s.skip(i + 1))
            } else {
                seq![s]
            },
            None => seq![s],
        }
    }
}

fn strip_cr_chars(l: &mut Vec<char>)
    ensures
        final(l)@ == strip_cr(old(l)@),
{
    let n = l.len();
    if n > 0 && l[n - 1] == '\r' {
        l.pop();
    }
}

/// The lines of `s`.
pub fn lines_chars(s: &[char]) -> (r: Vec<Vec<char>>)
    ensures
        r@.len() == lines_of(s@).len(),
        forall|i: int| 0 <= i < r@.len() ==> #[trigger] r@[i]@ == lines_of(s@)[i],
{
    let mut parts: Vec<Vec<char>> = Vec::new();
    let mut start: usize = 0;
    let mut i: usize = 0;
    let ghost mut done: Seq<Seq<char>> = Seq::empty();
    assert(s@.skip(0) =~= s@);
    while i < s.len()
        invariant
            start <= i <= s@.len(),
            parts@.len() == done.len(),
            forall|k: int| 0 <= k < parts@.len() ==> #[trigger] parts@[k]@ == done[k],
            done + lines_of(s@.skip(start as int)) == lines_of(s@),
            forall|j: int| start <= j < i ==> s@[j] != '\n',
        decreases s@.len() - i,
    {
        if s[i] == '\n' {
            let ghost t = s@.skip(start as int);
            proof {
                lemma_find_first(t, '\n', i - start);
                assert(t.skip(i - start + 1) =~= s@.skip(i + 1));
                assert(t.take(i - start) =~= s@.subrange(start as int, i as int));
            }
            let mut piece = sub_chars(s, start, i);
            strip_cr_chars(&mut piece);
            parts.push(piece);
            proof {
                done = done.push(strip_cr(s@.subrange(start as int, i as int)));
                assert(done + lines_of(s@.skip(i + 1)) =~= done.drop_last() + lines_of(t));
            }
            start = i + 1;
        }
        i = i + 1;
    }
    let ghost t = s@.skip(start as int);
    proof {
        lemma_find(t, '\n');
        assert forall|j: int| 0 <= j < t.len() implies t[j] != '\n' by {
            assert(t[j] == s@[start + j]);
        }
    }
    if start < s.len() {
        let last = sub_chars(s, start, s.len());
        parts.push(last);
        proof {
            assert(last@ =~= t);
            done = done.push(t);
        }
    } else {
        assert(t.len() == 0);
        assert(done + lines_of(t) =~= done);
    }
    parts
}

// ------------------------------------------------------------ focus log

/// What the tail of the focus log says of each tab: every line
/// "time<TAB>name" sets the tab's last focus time (both trimmed); later lines
/// win, and lines without a tab are skipped.
pub open spec fn focus_table(ls: Seq<Seq<char>>) -> Map<Seq<char>, Seq<char>>
    decreases ls.len(),
{
    if ls.len() == 0 {
        Map::empty()
    } else {
        let m = focus_table(ls.drop_last());
        let l = ls.last();
        match find(l, '\t') {
            Some(i) => m.insert(trim(l.skip(i + 1)), trim(l.take(i))),
            None => m,
        }
    }
}

/// The map that a table of strings stands for.
pub open spec fn str_map(t: Seq<(String, String)>) -> Map<Seq<char>, Seq<char>> {
    Map::new(|k: Seq<char>| table_get(t, k) is Some, |k: Seq<char>| table_get(t, k)->0@)
}

/// The last focus time of each tab, from the tail of the focus log.
pub fn focus_times(log: &str) -> (t: Vec<(String, String)>)
    ensures
        str_map(t@) == focus_table(lines_of(log@)),
{
    let s = chars_of(log);
    let ls = lines_chars(&s);
    let ghost lv = lines_of(s@);
    let mut t: Vec<(String, String)> = Vec::new();
    let mut k: usize = 0;
    assert(str_map(t@) =~= focus_table(lv.take(0)));
    while k < ls.len()
        invariant
            k <= ls@.len(),
            lv == lines_of(s@),
            ls@.len() == lv.len(),
            forall|i: int| 0 <= i < ls@.len() ==> #[trigger] ls@[i]@ == lv[i],
            str_map(t@) == focus_table(lv.take(k as int)),
        decreases ls@.len() - k,
    {
        let l = &ls[k];
        assert(lv.take(k + 1).drop_last() =~= lv.take(k as int));
        assert(l@ == lv.take(k + 1).last());
        proof {
            lemma_find(l@, '\t');
        }
        match crate::text::find_char(l, '\t') {
            Some(i) => {
                assert(find(l@, '\t') == Some(i as int));
                let len = l.len();
                assert(i < len);
                let h = sub_chars(l, 0, i);
                let n = sub_chars(l, i + 1, len);
                assert(h@ =~= l@.take(i as int));
                assert(n@ =~= l@.skip(i + 1));
                let key = string_of(&trim_chars(&n));
                let val = string_of(&trim_chars(&h));
                let ghost before = t@;
                table_insert(&mut t, key, val);
                assert(str_map(t@) =~= str_map(before).insert(trim(l@.skip(i + 1)), trim(l@.take(i as int))));
            },
            None => {},
        }
        k = k + 1;
    }
    assert(lv.take(k as int) =~= lv);
    t
}

// ------------------------------------------------------------ outside readers

/// The text that `String::from_utf8_lossy` makes of `b` (invalid sequences
/// become U+FFFD).
pub uninterp spec fn lossy_text(b: Seq<u8>) -> Seq<char>;

/// Calls `String::from_utf8_lossy` on `b`. The contract claims that the text
/// depends on the bytes alone ([`lossy_text`]) and that valid UTF-8 is
/// decoded as it is, as the documentation says; how invalid sequences are
/// replaced is not stated.
#[verifier::external_body]
pub(crate) fn text_of_bytes(b: &[u8]) -> (r: String)
    ensures
        r@ == lossy_text(b@),
        vstd::utf8::valid_utf8(b@) ==> r@ == vstd::utf8::decode_utf8(b@),
{
    String::from_utf8_lossy(b).to_string()
}

/// The list of strings that `serde_json::from_str::<Vec<String>>` reads from
/// `s`, or `None` where it fails.
pub uninterp spec fn json_names(s: Seq<char>) -> Option<Seq<Seq<char>>>;

/// Calls `serde_json::from_str::<Vec<String>>` on `s`. The contract claims
/// only that the outcome depends on the text alone ([`json_names`]).
#[verifier::external_body]
pub(crate) fn read_names(s: &str) -> (r: Option<Vec<String>>)
    ensures
        match r {
            Some(v) => json_names(s@) == Some(names_of(v@)),
            None => json_names(s@) is None,
        },
{
    match serde_json::from_str::<Vec<String>>(s) {
        Ok(v) => Some(v),
        Err(_) => None,
    }
}

/// The list of strings that `serde_json::from_slice::<Vec<String>>` reads
/// from `b`, or `None` where it fails.
pub uninterp spec fn json_names_bytes(b: Seq<u8>) -> Option<Seq<Seq<char>>>;

/// Calls `serde_json::from_slice::<Vec<String>>` on `b`. The contract claims
/// only that the outcome depends on the bytes alone ([`json_names_bytes`]).
#[verifier::external_body]
pub(crate) fn read_names_bytes(b: &[u8]) -> (r: Option<Vec<String>>)
    ensures
        match r {
            Some(v) => json_names_bytes(b@) == Some(names_of(v@)),
            None => json_names_bytes(b@) is None,
        },
{
    match serde_json::from_slice::<Vec<String>>(b) {
        Ok(v) => Some(v),
        Err(_) => None,
    }
}

/// The pairs of a table of priorities, with the names as character sequences.
pub open spec fn prio_pairs(t: Seq<(String, u8)>) -> Seq<(Seq<char>, u8)> {
    t.map_values(|p: (String, u8)| (p.0@, p.1))
}

/// The entries, in key order, of the map that
/// `serde_json::from_str::<BTreeMap<String, u8>>` reads from `s`, or `None`
/// where it fails.
pub uninterp spec fn json_priorities(s: Seq<char>) -> Option<Seq<(Seq<char>, u8)>>;

/// Calls `serde_json::from_str::<BTreeMap<String, u8>>` on `s` and lists the
/// entries of the map in its order. The contract claims only that the outcome
/// depends on the text alone ([`json_priorities`]).
#[verifier::external_body]
pub(crate) fn read_priorities(s: &str) -> (r: Option<Vec<(String, u8)>>)
    ensures
        match r {
            Some(v) => json_priorities(s@) == Some(prio_pairs(v@)),
            None => json_priorities(s@) is None,
        },
{
    match serde_json::from_str::<std::collections::BTreeMap<String, u8>>(s) {
        Ok(m) => Some(m.into_iter().collect()),
        Err(_) => None,
    }
}

} // verus!
