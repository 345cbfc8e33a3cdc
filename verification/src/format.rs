//! tmux-style format strings: `#[fg=..,bg=..,bold,dim,fill]` style
//! directives, `{var}`, `{=width:var}` and `#{var}` variables, and literal text.
use vstd::prelude::*;
use vstd::string::StringExecFns;
use crate::color::{color_ok, parse_color, parse_color_spec};
use crate::style::{plain, push_seg, InlineStyle, Seg, StyledText};
use crate::text::{
    chars_of, find, find_char, has_prefix, lemma_find, parse_number, parse_unsigned, split,
    split_chars, starts_with, string_of, sub_chars, trim, trim_chars,
};

verus! {

/// A piece of a parsed format string.
#[derive(Debug)]
pub enum FormatToken {
    /// A style directive `#[...]`.
    Style(InlineStyle),
    /// A variable `{name}` or `{=width:name}`.
    Variable { name: String, width: Option<usize> },
    /// Plain text.
    Literal(String),
}

/// A token as values.
pub enum Tok {
    Style(InlineStyle),
    Variable(Seq<char>, Option<usize>),
    Literal(Seq<char>),
}

impl View for FormatToken {
    type V = Tok;

    open spec fn view(&self) -> Tok {
        match self {
            FormatToken::Style(st) => Tok::Style(*st),
            FormatToken::Variable { name, width } => Tok::Variable(name@, *width),
            FormatToken::Literal(t) => Tok::Literal(t@),
        }
    }
}

/// The tokens of a sequence of format tokens.
pub open spec fn toks_of(v: Seq<FormatToken>) -> Seq<Tok> {
    v.map_values(|t: FormatToken| t@)
}

// ------------------------------------------------------------ directives

/// "fg=" as characters.
pub open spec fn fg_eq() -> Seq<char> {
    seq!['f', 'g', '=']
}

/// "bg=" as characters.
pub open spec fn bg_eq() -> Seq<char> {
    seq!['b', 'g', '=']
}

/// The effect of one comma-separated part of a directive on a style.
pub open spec fn apply_part(st: InlineStyle, part: Seq<char>) -> InlineStyle {
    let p = trim(part);
    if p.len() == 0 {
        st
    } else if starts_with(p, fg_eq()) {
        InlineStyle { fg: parse_color(p.skip(3)), ..st }
    } else if starts_with(p, bg_eq()) {
        InlineStyle { bg: parse_color(p.skip(3)), ..st }
    } else if p == "bold"@ {
        InlineStyle { bold: true, ..st }
    } else if p == "dim"@ {
        InlineStyle { dim: true, ..st }
    } else if p == "fill"@ {
        InlineStyle { fill: true, ..st }
    } else if p == "default"@ || p == "none"@ || p == "reset"@ {
        plain()
    } else {
        st
    }
}

/// The parts applied in order.
pub open spec fn apply_parts(st: InlineStyle, parts: Seq<Seq<char>>) -> InlineStyle
    decreases parts.len(),
{
    if parts.len() == 0 {
        st
    } else {
        apply_parts(apply_part(st, parts[0]), parts.drop_first())
    }
}

/// The style a directive "fg=color,bg=color,bold,dim,fill" describes, starting
/// from no style; "default", "none" and "reset" clear what came before.
pub open spec fn directive_style(content: Seq<char>) -> InlineStyle {
    apply_parts(plain(), split(content, ','))
}

/// Whether the colours of a directive part parse without panicking.
pub open spec fn part_ok(part: Seq<char>) -> bool {
    let p = trim(part);
    (starts_with(p, fg_eq()) || starts_with(p, bg_eq())) ==> color_ok(p.skip(3))
}

/// Whether every colour in a directive parses without panicking.
pub open spec fn directive_ok(content: Seq<char>) -> bool {
    forall|i: int| 0 <= i < split(content, ',').len() ==> part_ok(#[trigger] split(content, ',')[i])
}

/// Parses a style directive's content: "fg=color,bg=color,bold,dim".
pub fn parse_style_directive(content: &[char]) -> (st: InlineStyle)
    requires
        directive_ok(content@),
    ensures
        st == directive_style(content@),
{
    let parts = split_chars(content, ',');
    let ghost ps = split(content@, ',');
    let mut style = InlineStyle::default();
    let mut i: usize = 0;
    assert(ps.skip(0) =~= ps);
    let fg = vec!['f', 'g', '='];
    let bg = vec!['b', 'g', '='];
    assert(fg@ =~= fg_eq());
    assert(bg@ =~= bg_eq());
    while i < parts.len()
        invariant
            i <= parts@.len(),
            parts@.len() == ps.len(),
            forall|k: int| 0 <= k < parts@.len() ==> #[trigger] parts@[k]@ == ps[k],
            ps == split(content@, ','),
            directive_ok(content@),
            fg@ == fg_eq(),
            bg@ == bg_eq(),
            apply_parts(style, ps.skip(i as int)) == directive_style(content@),
        decreases parts@.len() - i,
    {
        assert(ps.skip(i as int).drop_first() =~= ps.skip(i + 1));
        assert(ps.skip(i as int)[0] == ps[i as int]);
        assert(part_ok(ps[i as int]));
        let part = trim_chars(&parts[i]);
        if part.len() == 0 {
        } else if has_prefix(&part, &fg) {
            let c = sub_chars(&part, 3, part.len());
            assert(c@ =~= part@.skip(3));
            let cs = string_of(&c);
            style.fg = parse_color_spec(cs.as_str());
        } else if has_prefix(&part, &bg) {
            let c = sub_chars(&part, 3, part.len());
            assert(c@ =~= part@.skip(3));
            let cs = string_of(&c);
            style.bg = parse_color_spec(cs.as_str());
        } else if crate::color::is_word(&part, "bold") {
            style.bold = true;
        } else if crate::color::is_word(&part, "dim") {
            style.dim = true;
        } else if crate::color::is_word(&part, "fill") {
            style.fill = true;
        } else if crate::color::is_word(&part, "default") || crate::color::is_word(&part, "none")
            || crate::color::is_word(&part, "reset") {
            style = InlineStyle::default();
        }
        i = i + 1;
    }
    assert(ps.skip(i as int) =~= Seq::<Seq<char>>::empty());
    style
}

// ------------------------------------------------------------ variables

/// The variable token for the content between the braces: `=12:name` gives
/// a width when 12 reads as a number; anything else is a plain name.
pub open spec fn var_token(content: Seq<char>) -> Tok {
    if content.len() > 0 && content[0] == '=' {
        let rest = content.drop_first();
        match find(rest, ':') {
            Some(p) => if 0 <= p < rest.len() {
                match parse_unsigned(rest.take(p), 10, usize::MAX as nat) {
                    Some(w) => Tok::Variable(rest.skip(p + 1), Some(w as usize)),
                    None => Tok::Variable(content, None),
                }
            } else {
                Tok::Variable(content, None)
            },
            None => Tok::Variable(content, None),
        }
    } else {
        Tok::Variable(content, None)
    }
}

/// Builds the variable token for the content between the braces.
pub fn parse_variable(content: &[char]) -> (t: FormatToken)
    ensures
        t@ == var_token(content@),
{
    if content.len() > 0 && content[0] == '=' {
        let rest = sub_chars(content, 1, content.len());
        assert(rest@ =~= content@.drop_first());
        proof {
            lemma_find(rest@, ':');
        }
        if let Some(p) = find_char(&rest, ':') {
            let ws = sub_chars(&rest, 0, p);
            assert(ws@ =~= rest@.take(p as int));
            if let Some(w) = parse_number(&ws, 10, usize::MAX) {
                let name = sub_chars(&rest, p + 1, rest.len());
                assert(name@ =~= rest@.skip(p + 1));
                return FormatToken::Variable { name: string_of(&name), width: Some(w) };
            }
        }
    }
    FormatToken::Variable { name: string_of(content), width: None }
}

// ------------------------------------------------------------ format strings

/// The literal text gathered so far, as a token list (nothing when empty).
pub open spec fn flush(lit: Seq<char>) -> Seq<Tok> {
    if lit.len() == 0 {
        Seq::empty()
    } else {
        seq![Tok::Literal(lit)]
    }
}

/// The text of `s` up to the first `close` (or all of it), and what follows
/// that `close` (nothing when there is none).
pub open spec fn until(s: Seq<char>, close: char) -> (Seq<char>, Seq<char>) {
    match find(s, close) {
        Some(k) => if 0 <= k < s.len() {
            (s.take(k), s.skip(k + 1))
        } else {
            (s, Seq::empty())
        },
        None => (s, Seq::empty()),
    }
}

proof fn lemma_until(s: Seq<char>, close: char)
    ensures
        until(s, close).1.len() <= s.len(),
        until(s, close).1.len() < s.len() || until(s, close).1.len() == 0,
{
    lemma_find(s, close);
}

/// Tokens of `s`, where `lit` is literal text already read before `s`.
/// `#[` opens a directive up to `]`; `#{` and `{` open a variable up to `}`;
/// a missing closing bracket takes the rest of the string; every other
/// character (a `#` not followed by `[` or `{` too) is literal text.
pub open spec fn tokens_from(s: Seq<char>, lit: Seq<char>) -> Seq<Tok>
    decreases s.len(),
{
    if s.len() == 0 {
        flush(lit)
    } else if s[0] == '#' && s.len() > 1 && s[1] == '[' {
        let (body, rest) = until(s.skip(2), ']');
        if rest.len() < s.len() {
            flush(lit) + seq![Tok::Style(directive_style(body))] + tokens_from(rest, Seq::empty())
        } else {
            flush(lit)
        }
    } else if (s[0] == '#' && s.len() > 1 && s[1] == '{') || s[0] == '{' {
        let skip: int = if s[0] == '#' { 2 } else { 1 };
        let (body, rest) = until(s.skip(skip), '}');
        if rest.len() < s.len() {
            flush(lit) + seq![var_token(body)] + tokens_from(rest, Seq::empty())
        } else {
            flush(lit)
        }
    } else {
        tokens_from(s.drop_first(), lit.push(s[0]))
    }
}

/// Whether every directive in `s` parses without panicking.
pub open spec fn format_ok(s: Seq<char>) -> bool
    decreases s.len(),
{
    if s.len() == 0 {
        true
    } else if s[0] == '#' && s.len() > 1 && s[1] == '[' {
        let (body, rest) = until(s.skip(2), ']');
        directive_ok(body) && (rest.len() < s.len() ==> format_ok(rest))
    } else if (s[0] == '#' && s.len() > 1 && s[1] == '{') || s[0] == '{' {
        let skip: int = if s[0] == '#' { 2 } else { 1 };
        let (body, rest) = until(s.skip(skip), '}');
        rest.len() < s.len() ==> format_ok(rest)
    } else {
        format_ok(s.drop_first())
    }
}

/// The tokens of a format string.
pub open spec fn tokens(s: Seq<char>) -> Seq<Tok> {
    tokens_from(s, Seq::empty())
}


/// The text of `s` from `start` up to the first `close`, and the index just
/// after that `close` (the end of `s` when there is none).
fn read_until(s: &Vec<char>, start: usize, close: char) -> (r: (Vec<char>, usize))
    requires
        start <= s@.len(),
    ensures
        r.1 <= s@.len(),
        (r.0@, s@.skip(r.1 as int)) == until(s@.skip(start as int), close),
{
    let tail = sub_chars(s, start, s.len());
    assert(tail@ =~= s@.skip(start as int));
    proof {
        lemma_find(tail@, close);
    }
    match find_char(&tail, close) {
        Some(k) => {
            let body = sub_chars(&tail, 0, k);
            assert(body@ =~= tail@.take(k as int));
            assert(s@.skip(start + k + 1) =~= tail@.skip(k + 1));
            (body, start + k + 1)
        },
        None => {
            assert(s@.skip(s@.len() as int) =~= Seq::<char>::empty());
            (tail, s.len())
        },
    }
}

/// Moves the gathered literal text, if any, into `out` as a token.
fn flush_literal(out: &mut Vec<FormatToken>, lit: &mut Vec<char>)
    ensures
        toks_of(final(out)@) == toks_of(old(out)@) + flush(old(lit)@),
        final(lit)@ == Seq::<char>::empty(),
{
    if lit.len() > 0 {
        let t = FormatToken::Literal(string_of(lit));
        let ghost before = out@;
        out.push(t);
        assert(toks_of(out@) =~= toks_of(before) + flush(old(lit)@));
        *lit = Vec::new();
    } else {
        assert(toks_of(out@) =~= toks_of(out@) + flush(lit@));
    }
}

proof fn lemma_skip_shift(s: Seq<char>, i: int, k: int)
    requires
        0 <= i,
        0 <= k,
        i + k <= s.len(),
    ensures
        s.skip(i).skip(k) == s.skip(i + k),
{
    assert(s.skip(i).skip(k) =~= s.skip(i + k));
}

fn style_step(s: &Vec<char>, i: usize, out: &mut Vec<FormatToken>, lit: &mut Vec<char>) -> (next:
    usize)
    requires
        i + 1 < s@.len(),
        s@[i as int] == '#',
        s@[i + 1] == '[',
        format_ok(s@.skip(i as int)),
    ensures
        i < next <= s@.len(),
        format_ok(s@.skip(next as int)),
        toks_of(final(out)@) + tokens_from(s@.skip(next as int), final(lit)@) == toks_of(old(out)@)
            + tokens_from(s@.skip(i as int), old(lit)@),
{
    let ghost t = s@.skip(i as int);
    assert(t[0] == s@[i as int]);
    assert(t[1] == s@[i + 1]);
    let ghost before = toks_of(out@);
    let ghost lit0 = lit@;
    flush_literal(out, lit);
    proof {
        lemma_skip_shift(s@, i as int, 2);
    }
    let n = s.len();
    assert(i + 2 <= n);
    let (body, next) = read_until(s, i + 2, ']');
    proof {
        lemma_until(t.skip(2), ']');
    }
    let st = parse_style_directive(&body);
    let ghost mid = toks_of(out@);
    out.push(FormatToken::Style(st));
    assert(toks_of(out@) =~= mid.push(Tok::Style(st)));
    assert(toks_of(out@) + tokens_from(s@.skip(next as int), lit@) =~= before + tokens_from(
        t,
        lit0,
    ));
    next
}

fn variable_step(s: &Vec<char>, i: usize, out: &mut Vec<FormatToken>, lit: &mut Vec<char>) -> (next:
    usize)
    requires
        i < s@.len(),
        (s@[i as int] == '#' && i + 1 < s@.len() && s@[i + 1] == '{') || s@[i as int] == '{',
        !(s@[i as int] == '#' && i + 1 < s@.len() && s@[i + 1] == '['),
        format_ok(s@.skip(i as int)),
    ensures
        i < next <= s@.len(),
        format_ok(s@.skip(next as int)),
        toks_of(final(out)@) + tokens_from(s@.skip(next as int), final(lit)@) == toks_of(old(out)@)
            + tokens_from(s@.skip(i as int), old(lit)@),
{
    let ghost t = s@.skip(i as int);
    assert(t[0] == s@[i as int]);
    assert(t.len() > 1 ==> t[1] == s@[i + 1]);
    let skip: usize = if s[i] == '#' {
        2
    } else {
        1
    };
    let ghost before = toks_of(out@);
    let ghost lit0 = lit@;
    flush_literal(out, lit);
    proof {
        lemma_skip_shift(s@, i as int, skip as int);
    }
    let n = s.len();
    assert(i + skip <= n);
    let (body, next) = read_until(s, i + skip, '}');
    proof {
        lemma_until(t.skip(skip as int), '}');
    }
    let v = parse_variable(&body);
    let ghost mid = toks_of(out@);
    out.push(v);
    assert(toks_of(out@) =~= mid.push(var_token(body@)));
    assert(toks_of(out@) + tokens_from(s@.skip(next as int), lit@) =~= before + tokens_from(
        t,
        lit0,
    ));
    next
}

/// Splits a tmux-style format string into tokens: `#[fg=..,bg=..,bold,dim]`,
/// `{variable}`, `{=width:variable}`, `#{variable}` and literal text.
pub fn parse_tmux_format(format: &str) -> (toks: Vec<FormatToken>)
    requires
        format_ok(format@),
    ensures
        toks_of(toks@) == tokens(format@),
{
    let s = chars_of(format);
    let mut out: Vec<FormatToken> = Vec::new();
    let mut lit: Vec<char> = Vec::new();
    let mut i: usize = 0;
    assert(s@.skip(0) =~= s@);
    assert(toks_of(out@) =~= Seq::<Tok>::empty());
    while i < s.len()
        invariant
            i <= s@.len(),
            format_ok(s@.skip(i as int)),
            toks_of(out@) + tokens_from(s@.skip(i as int), lit@) == tokens(s@),
            s@ == format@,
        decreases s@.len() - i,
    {
        let ghost t = s@.skip(i as int);
        assert(t[0] == s@[i as int]);
        assert(t.len() > 1 ==> t[1] == s@[i + 1]);
        if s[i] == '#' && i + 1 < s.len() && s[i + 1] == '[' {
            i = style_step(&s, i, &mut out, &mut lit);
        } else if (s[i] == '#' && i + 1 < s.len() && s[i + 1] == '{') || s[i] == '{' {
            i = variable_step(&s, i, &mut out, &mut lit);
        } else {
            lit.push(s[i]);
            assert(t.drop_first() =~= s@.skip(i + 1));
            i = i + 1;
        }
    }
    assert(s@.skip(i as int) =~= Seq::<char>::empty());
    let ghost before = toks_of(out@);
    flush_literal(&mut out, &mut lit);
    out
}


/// A variable written back as text: `{name}`.
pub open spec fn braced(name: Seq<char>) -> Seq<char> {
    seq!['{'] + name + seq!['}']
}

/// The segments the tokens produce, after `acc`, when `cur` is the style in
/// force: a directive replaces the style, literal text and variables (written
/// back as `{name}`) are added in it.
pub open spec fn styled_from(toks: Seq<Tok>, cur: InlineStyle, acc: Seq<Seg>) -> Seq<Seg>
    decreases toks.len(),
{
    if toks.len() == 0 {
        acc
    } else {
        match toks[0] {
            Tok::Style(st) => styled_from(toks.drop_first(), st, acc),
            Tok::Literal(t) => styled_from(toks.drop_first(), cur, push_seg(acc, (t, cur))),
            Tok::Variable(n, _) => styled_from(
                toks.drop_first(),
                cur,
                push_seg(acc, (braced(n), cur)),
            ),
        }
    }
}

/// The styled text a format string describes, variables left as `{name}`.
pub open spec fn styled_string(s: Seq<char>) -> Seq<Seg> {
    styled_from(tokens(s), plain(), Seq::empty())
}

/// Parses a styled string such as "#[fg=240]│" into styled text.
pub fn parse_styled_string(s: &str) -> (t: StyledText)
    requires
        format_ok(s@),
    ensures
        t@ == styled_string(s@),
{
    let toks = parse_tmux_format(s);
    let mut result = StyledText::new();
    let mut current = InlineStyle::default();
    let mut i: usize = 0;
    let ghost all = toks_of(toks@);
    assert(all.skip(0) =~= all);
    while i < toks.len()
        invariant
            i <= toks@.len(),
            all == toks_of(toks@),
            all == tokens(s@),
            styled_from(all.skip(i as int), current, result@) == styled_string(s@),
        decreases toks@.len() - i,
    {
        assert(all.skip(i as int).drop_first() =~= all.skip(i + 1));
        assert(all.skip(i as int)[0] == toks@[i as int]@);
        match &toks[i] {
            FormatToken::Style(st) => {
                current = *st;
            },
            FormatToken::Literal(text) => {
                result.push(text.clone(), current);
            },
            FormatToken::Variable { name, .. } => {
                let mut t = String::new();
                t.push('{');
                t.append(name.as_str());
                t.push('}');
                assert(t@ =~= braced(name@));
                result.push(t, current);
            },
        }
        i = i + 1;
    }
    assert(all.skip(i as int) =~= Seq::<Tok>::empty());
    result
}


/// Whether a directive's colours parse without panicking (see [`directive_ok`]).
pub fn directive_is_ok(content: &[char]) -> (b: bool)
    ensures
        b == directive_ok(content@),
{
    let parts = split_chars(content, ',');
    let ghost ps = split(content@, ',');
    let fg = vec!['f', 'g', '='];
    let bg = vec!['b', 'g', '='];
    assert(fg@ =~= fg_eq());
    assert(bg@ =~= bg_eq());
    let mut i: usize = 0;
    while i < parts.len()
        invariant
            i <= parts@.len(),
            parts@.len() == ps.len(),
            forall|k: int| 0 <= k < parts@.len() ==> #[trigger] parts@[k]@ == ps[k],
            ps == split(content@, ','),
            fg@ == fg_eq(),
            bg@ == bg_eq(),
            forall|k: int| 0 <= k < i ==> part_ok(#[trigger] ps[k]),
        decreases parts@.len() - i,
    {
        let part = trim_chars(&parts[i]);
        if has_prefix(&part, &fg) || has_prefix(&part, &bg) {
            let c = sub_chars(&part, 3, part.len());
            assert(c@ =~= part@.skip(3));
            if !crate::color::color_is_ok(&c) {
                assert(!part_ok(ps[i as int]));
                return false;
            }
        }
        i = i + 1;
    }
    true
}

/// Whether a format string parses without panicking (see [`format_ok`]).
pub fn format_is_ok(format: &str) -> (b: bool)
    ensures
        b == format_ok(format@),
{
    let s = chars_of(format);
    let mut i: usize = 0;
    assert(s@.skip(0) =~= s@);
    while i < s.len()
        invariant
            i <= s@.len(),
            s@ == format@,
            format_ok(s@.skip(i as int)) == format_ok(format@),
        decreases s@.len() - i,
    {
        let ghost t = s@.skip(i as int);
        assert(t[0] == s@[i as int]);
        assert(t.len() > 1 ==> t[1] == s@[i + 1]);
        if s[i] == '#' && i + 1 < s.len() && s[i + 1] == '[' {
            proof {
                lemma_skip_shift(s@, i as int, 2);
                lemma_until(t.skip(2), ']');
            }
            let (body, next) = read_until(&s, i + 2, ']');
            if !directive_is_ok(&body) {
                return false;
            }
            i = next;
        } else if (s[i] == '#' && i + 1 < s.len() && s[i + 1] == '{') || s[i] == '{' {
            let skip: usize = if s[i] == '#' {
                2
            } else {
                1
            };
            proof {
                lemma_skip_shift(s@, i as int, skip as int);
                lemma_until(t.skip(skip as int), '}');
            }
            let (body, next) = read_until(&s, i + skip, '}');
            i = next;
        } else {
            assert(t.drop_first() =~= s@.skip(i + 1));
            i = i + 1;
        }
    }
    assert(s@.skip(i as int).len() == 0);
    true
}

} // verus!
