//! The styling configuration of the tab bar and how the plugin
//! configuration (key / value pairs) sets it.
use vstd::prelude::*;
use vstd::string::StringExecFns;
use crate::text::{
    chars_of, parse_number, parse_unsigned, split, split_chars, string_of, trim, trim_chars,
};

verus! {

/// How tab labels and the rows around them are drawn.
#[derive(Debug)]
pub struct StyleConfig {
    pub format: String,
    pub format_active: String,
    pub overflow_above: String,
    pub overflow_below: String,
    pub indicator_active: String,
    pub indicator_fullscreen: String,
    pub indicator_sync: String,
    pub padding_top: usize,
    pub border: String,
    pub max_name_length: usize,
    pub start_index: usize,
    pub activity_format: String,
    pub estado_format: String,
    /// Tabs shown at the top, in their own section and without a number.
    pub arriba: Vec<String>,
    pub format_arriba: String,
    pub format_arriba_active: String,
}

/// The names in a list of strings.
pub open spec fn names_of(v: Seq<String>) -> Seq<Seq<char>> {
    v.map_values(|s: String| s@)
}

/// The default style.
pub open spec fn default_style(c: StyleConfig) -> bool {
    &&& c.format@ == "{num} {prio} {name}{atencion}"@
    &&& c.format_active@ == "#[bg=237,fill]{num} {prio} {name}{indicators}{atencion}"@
    &&& c.overflow_above@ == "  ^ +{count}"@
    &&& c.overflow_below@ == "  v +{count}"@
    &&& c.indicator_active@ == Seq::<char>::empty()
    &&& c.indicator_fullscreen@ == "Z"@
    &&& c.indicator_sync@ == "S"@
    &&& c.max_name_length == 20
    &&& c.padding_top == 0
    &&& c.border@ == "  "@
    &&& c.start_index == 1
    &&& c.activity_format@ == "#[fg=dim]{activity}"@
    &&& c.estado_format@ == "{estado}"@
    &&& names_of(c.arriba@) == seq!["hoy"@]
    &&& c.format_arriba@ == "     {name}{atencion}"@
    &&& c.format_arriba_active@ == "#[bg=237,fill]     {name}{indicators}{atencion}"@
}

impl StyleConfig {
    /// The default configuration.
    pub fn new() -> (c: Self)
        ensures
            default_style(c),
    {
        let mut arriba: Vec<String> = Vec::new();
        arriba.push(String::from_str("hoy"));
        let c = StyleConfig {
            format: String::from_str("{num} {prio} {name}{atencion}"),
            format_active: String::from_str(
                "#[bg=237,fill]{num} {prio} {name}{indicators}{atencion}",
            ),
            overflow_above: String::from_str("  ^ +{count}"),
            overflow_below: String::from_str("  v +{count}"),
            indicator_active: String::new(),
            indicator_fullscreen: String::from_str("Z"),
            indicator_sync: String::from_str("S"),
            max_name_length: 20,
            padding_top: 0,
            border: String::from_str("  "),
            start_index: 1,
            activity_format: String::from_str("#[fg=dim]{activity}"),
            estado_format: String::from_str("{estado}"),
            arriba,
            format_arriba: String::from_str("     {name}{atencion}"),
            format_arriba_active: String::from_str(
                "#[bg=237,fill]     {name}{indicators}{atencion}",
            ),
        };
        assert(names_of(c.arriba@) =~= seq!["hoy"@]);
        c
    }
}

impl Default for StyleConfig {
    fn default() -> (c: Self)
        ensures
            default_style(c),
    {
        StyleConfig::new()
    }
}

// ------------------------------------------------------------ configuration

/// A configuration as key / value pairs.
pub type ConfigV = Seq<(Seq<char>, Seq<char>)>;

/// The pairs of a configuration.
pub open spec fn config_of(v: Seq<(String, String)>) -> ConfigV {
    v.map_values(|p: (String, String)| (p.0@, p.1@))
}

/// The value of the first pair with key `key`.
pub open spec fn lookup(cfg: ConfigV, key: Seq<char>) -> Option<Seq<char>>
    decreases cfg.len(),
{
    if cfg.len() == 0 {
        None
    } else if cfg[0].0 == key {
        Some(cfg[0].1)
    } else {
        lookup(cfg.drop_first(), key)
    }
}

/// The value under `key`, if any.
pub fn config_get<'a>(cfg: &'a Vec<(String, String)>, key: &str) -> (r: Option<&'a String>)
    ensures
        match r {
            Some(v) => lookup(config_of(cfg@), key@) == Some(v@),
            None => lookup(config_of(cfg@), key@) is None,
        },
{
    let k = chars_of(key);
    let ghost all = config_of(cfg@);
    let mut i: usize = 0;
    assert(all.skip(0) =~= all);
    while i < cfg.len()
        invariant
            i <= cfg@.len(),
            all == config_of(cfg@),
            k@ == key@,
            lookup(all.skip(i as int), key@) == lookup(all, key@),
        decreases cfg@.len() - i,
    {
        assert(all.skip(i as int).drop_first() =~= all.skip(i + 1));
        assert(all.skip(i as int)[0] == (cfg@[i as int].0@, cfg@[i as int].1@));
        let name = chars_of(cfg[i].0.as_str());
        if crate::text::chars_eq(&name, &k) {
            return Some(&cfg[i].1);
        }
        i = i + 1;
    }
    None
}

/// A configured string, or `current` when the key is absent.
pub open spec fn or_keep(v: Option<Seq<char>>, current: Seq<char>) -> Seq<char> {
    match v {
        Some(s) => s,
        None => current,
    }
}

/// A configured number, or `current` when the key is absent or not a number.
pub open spec fn number_or_keep(v: Option<Seq<char>>, current: usize) -> usize {
    match v {
        Some(s) => match parse_unsigned(s, 10, usize::MAX as nat) {
            Some(n) => n as usize,
            None => current,
        },
        None => current,
    }
}

/// The comma-separated names of a list, trimmed, empty ones dropped.
pub open spec fn name_list(parts: Seq<Seq<char>>) -> Seq<Seq<char>>
    decreases parts.len(),
{
    if parts.len() == 0 {
        Seq::empty()
    } else {
        (if trim(parts[0]).len() > 0 {
            seq![trim(parts[0])]
        } else {
            Seq::empty()
        }) + name_list(parts.drop_first())
    }
}

/// Reads a comma-separated list of names.
pub fn parse_name_list(v: &str) -> (r: Vec<String>)
    ensures
        names_of(r@) == name_list(split(v@, ',')),
{
    let cs = chars_of(v);
    let parts = split_chars(&cs, ',');
    let ghost ps = split(v@, ',');
    let mut out: Vec<String> = Vec::new();
    let mut i: usize = 0;
    assert(ps.skip(0) =~= ps);
    assert(names_of(out@) =~= Seq::<Seq<char>>::empty());
    while i < parts.len()
        invariant
            i <= parts@.len(),
            parts@.len() == ps.len(),
            forall|k: int| 0 <= k < parts@.len() ==> #[trigger] parts@[k]@ == ps[k],
            names_of(out@) + name_list(ps.skip(i as int)) == name_list(ps),
        decreases parts@.len() - i,
    {
        assert(ps.skip(i as int).drop_first() =~= ps.skip(i + 1));
        assert(ps.skip(i as int)[0] == ps[i as int]);
        let t = trim_chars(&parts[i]);
        let ghost before = names_of(out@);
        if t.len() > 0 {
            out.push(string_of(&t));
            assert(names_of(out@) =~= before.push(t@));
        }
        assert(names_of(out@) + name_list(ps.skip(i + 1)) =~= before + name_list(
            ps.skip(i as int),
        ));
        i = i + 1;
    }
    assert(ps.skip(i as int) =~= Seq::<Seq<char>>::empty());
    assert(names_of(out@) + Seq::<Seq<char>>::empty() =~= names_of(out@));
    out
}

fn set_if_present(field: &mut String, v: Option<&String>)
    ensures
        final(field)@ == or_keep(
            match v {
                Some(s) => Some(s@),
                None => None,
            },
            old(field)@,
        ),
{
    if let Some(s) = v {
        *field = s.clone();
    }
}

fn set_number_if_present(field: &mut usize, v: Option<&String>)
    ensures
        *final(field) == number_or_keep(
            match v {
                Some(s) => Some(s@),
                None => None,
            },
            *old(field),
        ),
{
    if let Some(s) = v {
        let cs = chars_of(s.as_str());
        if let Some(n) = parse_number(&cs, 10, usize::MAX) {
            *field = n;
        }
    }
}

/// The style after the configuration `c` was applied to `s0`: each known key
/// replaces its setting; numbers that do not parse leave theirs; `border_char`
/// is read only when `border` is absent; `arriba` is a comma-separated list.
pub open spec fn configured(s0: StyleConfig, c: ConfigV, s1: StyleConfig) -> bool {
    &&& s1.format@ == or_keep(lookup(c, "format"@), s0.format@)
    &&& s1.format_active@ == or_keep(
        lookup(c, "format_active"@),
        s0.format_active@,
    )
    &&& s1.overflow_above@ == or_keep(
        lookup(c, "overflow_above"@),
        s0.overflow_above@,
    )
    &&& s1.overflow_below@ == or_keep(
        lookup(c, "overflow_below"@),
        s0.overflow_below@,
    )
    &&& s1.indicator_active@ == or_keep(
        lookup(c, "indicator_active"@),
        s0.indicator_active@,
    )
    &&& s1.indicator_fullscreen@ == or_keep(
        lookup(c, "indicator_fullscreen"@),
        s0.indicator_fullscreen@,
    )
    &&& s1.indicator_sync@ == or_keep(
        lookup(c, "indicator_sync"@),
        s0.indicator_sync@,
    )
    &&& s1.max_name_length == number_or_keep(
        lookup(c, "max_name_length"@),
        s0.max_name_length,
    )
    &&& s1.padding_top == number_or_keep(
        lookup(c, "padding_top"@),
        s0.padding_top,
    )
    &&& s1.border@ == or_keep(
        lookup(c, "border"@),
        or_keep(lookup(c, "border_char"@), s0.border@),
    )
    &&& s1.start_index == number_or_keep(
        lookup(c, "start_index"@),
        s0.start_index,
    )
    &&& s1.activity_format@ == or_keep(
        lookup(c, "activity_format"@),
        s0.activity_format@,
    )
    &&& s1.estado_format@ == or_keep(
        lookup(c, "estado_format"@),
        s0.estado_format@,
    )
    &&& names_of(s1.arriba@) == match lookup(c, "arriba"@) {
        Some(v) => name_list(split(v, ',')),
        None => names_of(s0.arriba@),
    }
    &&& s1.format_arriba@ == or_keep(
        lookup(c, "format_arriba"@),
        s0.format_arriba@,
    )
    &&& s1.format_arriba_active@ == or_keep(
        lookup(c, "format_arriba_active"@),
        s0.format_arriba_active@,
    )
}

impl StyleConfig {
    /// Applies the plugin configuration: each known key replaces its setting;
    /// numbers that do not parse leave theirs; `border_char` is read only
    /// when `border` is absent; `arriba` is a comma-separated list.
    pub fn configure(&mut self, cfg: &Vec<(String, String)>)
        ensures
            configured(*old(self), config_of(cfg@), *final(self)),
    {
        set_if_present(&mut self.format, config_get(cfg, "format"));
        set_if_present(&mut self.format_active, config_get(cfg, "format_active"));
        set_if_present(&mut self.overflow_above, config_get(cfg, "overflow_above"));
        set_if_present(&mut self.overflow_below, config_get(cfg, "overflow_below"));
        set_if_present(&mut self.indicator_active, config_get(cfg, "indicator_active"));
        set_if_present(&mut self.indicator_fullscreen, config_get(cfg, "indicator_fullscreen"));
        set_if_present(&mut self.indicator_sync, config_get(cfg, "indicator_sync"));
        set_number_if_present(&mut self.max_name_length, config_get(cfg, "max_name_length"));
        set_number_if_present(&mut self.padding_top, config_get(cfg, "padding_top"));
        if let Some(v) = config_get(cfg, "border") {
            self.border = v.clone();
        } else if let Some(v) = config_get(cfg, "border_char") {
            self.border = v.clone();
        }
        set_number_if_present(&mut self.start_index, config_get(cfg, "start_index"));
        set_if_present(&mut self.activity_format, config_get(cfg, "activity_format"));
        set_if_present(&mut self.estado_format, config_get(cfg, "estado_format"));
        if let Some(v) = config_get(cfg, "arriba") {
            self.arriba = parse_name_list(v.as_str());
        }
        set_if_present(&mut self.format_arriba, config_get(cfg, "format_arriba"));
        set_if_present(&mut self.format_arriba_active, config_get(cfg, "format_arriba_active"));
    }
}

} // verus!
