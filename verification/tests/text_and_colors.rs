use vertical_tabs::color::{parse_color_spec, parse_hex_color, parse_rgb_func, ColorSpec};
use vertical_tabs::format::{parse_styled_string, parse_tmux_format, FormatToken};
use vertical_tabs::layout::{calculate_visible_range, es_reunion, norm_session_name, truncate_string};
use vertical_tabs::style::{InlineStyle, StyledText};

fn chars(s: &str) -> Vec<char> {
    s.chars().collect()
}

fn plain() -> InlineStyle {
    InlineStyle { fg: ColorSpec::Default, bg: ColorSpec::Default, bold: false, dim: false, fill: false }
}

#[test]
fn palette_number_names_a_palette_colour() {
    assert_eq!(parse_color_spec("238"), ColorSpec::EightBit(238));
    assert_eq!(parse_color_spec(" 0 "), ColorSpec::EightBit(0));
    assert_eq!(parse_color_spec("+5"), ColorSpec::EightBit(5));
    assert_eq!(parse_color_spec("256"), ColorSpec::Default);
}

#[test]
fn hex_and_rgb_colours() {
    assert_eq!(parse_color_spec("#444444"), ColorSpec::Rgb(68, 68, 68));
    assert_eq!(parse_color_spec("#444"), ColorSpec::Rgb(68, 68, 68));
    assert_eq!(parse_color_spec("#0aF"), ColorSpec::Rgb(0, 170, 255));
    assert_eq!(parse_color_spec("rgb(68,68,68)"), ColorSpec::Rgb(68, 68, 68));
    assert_eq!(parse_color_spec("rgb( 1 , 2 ,3 )"), ColorSpec::Rgb(1, 2, 3));
    assert_eq!(parse_color_spec("rgb(1,2)"), ColorSpec::Default);
    assert_eq!(parse_color_spec("#12345"), ColorSpec::Default);
}

#[test]
fn named_colours_ignore_case() {
    assert_eq!(parse_color_spec("accent"), ColorSpec::EightBit(39));
    assert_eq!(parse_color_spec("RED"), ColorSpec::EightBit(196));
    assert_eq!(parse_color_spec("Grey"), ColorSpec::EightBit(244));
    assert_eq!(parse_color_spec("none"), ColorSpec::Default);
    assert_eq!(parse_color_spec("no-such-colour"), ColorSpec::Default);
}

#[test]
fn hex_digits_and_rgb_parts() {
    assert_eq!(parse_hex_color(&chars("444")), Some((68, 68, 68)));
    assert_eq!(parse_hex_color(&chars("102030")), Some((16, 32, 48)));
    assert_eq!(parse_hex_color(&chars("zzz")), None);
    assert_eq!(parse_hex_color(&chars("1234")), None);
    assert_eq!(parse_rgb_func(&chars(" 1, 2 ,3")), Some((1, 2, 3)));
    assert_eq!(parse_rgb_func(&chars("1,2,300")), None);
    assert_eq!(parse_rgb_func(&chars("1,2")), None);
}

#[test]
fn colour_escape_codes() {
    assert_eq!(ColorSpec::EightBit(238).to_ansi_fg(), "\x1b[38;5;238m");
    assert_eq!(ColorSpec::EightBit(7).to_ansi_bg(), "\x1b[48;5;7m");
    assert_eq!(ColorSpec::Rgb(1, 2, 3).to_ansi_fg(), "\x1b[38;2;1;2;3m");
    assert_eq!(ColorSpec::Rgb(10, 20, 30).to_ansi_bg(), "\x1b[48;2;10;20;30m");
    assert_eq!(ColorSpec::Default.to_ansi_fg(), "");
    assert!(ColorSpec::Default.is_default());
    assert!(!ColorSpec::EightBit(0).is_default());
}

#[test]
fn inline_style_codes() {
    let st = InlineStyle { fg: ColorSpec::EightBit(1), bg: ColorSpec::Default, bold: true, dim: true, fill: false };
    assert_eq!(st.to_ansi(), "\x1b[1m\x1b[2m\x1b[38;5;1m");
    assert!(st.has_any_style());
    assert!(!plain().has_any_style());
    let fill_only = InlineStyle { fill: true, ..plain() };
    assert!(fill_only.has_any_style());
}

#[test]
fn format_tokens() {
    let toks = parse_tmux_format("#[fg=red,bold]ab{name}#{=5:title}x#y");
    assert_eq!(toks.len(), 5);
    match &toks[0] {
        FormatToken::Style(st) => {
            assert_eq!(st.fg, ColorSpec::EightBit(196));
            assert!(st.bold);
        }
        _ => panic!("expected a style"),
    }
    assert!(matches!(&toks[1], FormatToken::Literal(t) if t == "ab"));
    assert!(matches!(&toks[2], FormatToken::Variable { name, width: None } if name == "name"));
    assert!(matches!(&toks[3], FormatToken::Variable { name, width: Some(5) } if name == "title"));
    assert!(matches!(&toks[4], FormatToken::Literal(t) if t == "x#y"));
}

#[test]
fn width_prefix_that_is_not_a_number_stays_in_the_name() {
    let toks = parse_tmux_format("{=ab:name}");
    assert_eq!(toks.len(), 1);
    assert!(matches!(&toks[0], FormatToken::Variable { name, width: None } if name == "=ab:name"));
}

#[test]
fn reset_directive_clears_the_style() {
    let toks = parse_tmux_format("#[fg=1,bold,default,dim]");
    match &toks[0] {
        FormatToken::Style(st) => {
            assert_eq!(st.fg, ColorSpec::Default);
            assert!(!st.bold);
            assert!(st.dim);
        }
        _ => panic!("expected a style"),
    }
}

#[test]
fn styled_string_keeps_variables_as_text() {
    let t = parse_styled_string("#[fg=240]│{x}");
    assert_eq!(t.segments.len(), 2);
    assert_eq!(t.segments[0].text, "│");
    assert_eq!(t.segments[0].style.fg, ColorSpec::EightBit(240));
    assert_eq!(t.segments[1].text, "{x}");
    assert_eq!(t.display_width(), 4);
}

#[test]
fn styled_text_ansi_and_empty_pushes() {
    let mut t = StyledText::new();
    t.push(String::new(), plain());
    assert_eq!(t.segments.len(), 0);
    t.push("ab".to_string(), plain());
    t.push("cd".to_string(), InlineStyle { bold: true, ..plain() });
    assert_eq!(t.to_ansi(), "ab\x1b[0m\x1b[1mcd\x1b[0m");
    let mut p = StyledText::new();
    p.push("xy".to_string(), plain());
    assert_eq!(p.to_ansi(), "xy");
}

#[test]
fn truncate_keeps_fitting_text_and_cuts_long_text() {
    let mut t = StyledText::new();
    t.push("abc".to_string(), plain());
    t.push("defg".to_string(), InlineStyle { dim: true, ..plain() });
    let same = t.truncate(7);
    assert_eq!(same.segments.len(), 2);
    let cut = t.truncate(5);
    assert_eq!(cut.segments.len(), 2);
    assert_eq!(cut.segments[0].text, "abc");
    assert_eq!(cut.segments[1].text, "de");
    assert!(cut.segments[1].style.dim);
    let none = t.truncate(0);
    assert_eq!(none.segments.len(), 0);
    let wide = {
        let mut w = StyledText::new();
        w.push("日本".to_string(), plain());
        w
    };
    assert_eq!(wide.display_width(), 4);
    assert_eq!(wide.truncate(3).segments[0].text, "日");
}

#[test]
fn truncate_string_with_dots() {
    assert_eq!(truncate_string("hello", 10), "hello");
    assert_eq!(truncate_string("hello world", 8), "hello...");
    assert_eq!(truncate_string("hello", 3), "...");
    assert_eq!(truncate_string("hello", 2), "..");
    assert_eq!(truncate_string("hello", 0), "");
}

#[test]
fn visible_window_around_active_tab() {
    assert_eq!(calculate_visible_range(0, 10, 0), (0, 0, 0, 0));
    assert_eq!(calculate_visible_range(5, 10, 3), (0, 5, 0, 0));
    assert_eq!(calculate_visible_range(20, 7, 10), (8, 13, 8, 7));
    assert_eq!(calculate_visible_range(20, 7, 0), (0, 5, 0, 15));
    assert_eq!(calculate_visible_range(20, 7, 19), (15, 20, 15, 0));
    assert_eq!(calculate_visible_range(20, 2, 5), (0, 0, 20, 0));
}

#[test]
fn active_tab_is_always_in_the_window() {
    for count in 1..30usize {
        for rows in 3..12usize {
            for active in 0..count {
                let (start, end, above, below) = calculate_visible_range(count, rows, active);
                assert!(start <= active && active < end);
                assert_eq!(above, start);
                assert_eq!(below, count - end);
                if count > rows {
                    assert_eq!(end - start, rows - 2);
                }
            }
        }
    }
}

#[test]
fn meeting_tabs_and_session_names() {
    assert!(es_reunion("◷ daily"));
    assert!(es_reunion("⚑ triage"));
    assert!(es_reunion("⏱ capacity"));
    assert!(!es_reunion("proyecto"));
    assert_eq!(norm_session_name("  ◷ daily"), "daily");
    assert_eq!(norm_session_name("  proyecto"), "proyecto");
    assert_eq!(norm_session_name(""), "");
    assert_eq!(norm_session_name("✳  agente"), "agente");
}

#[test]
fn colour_names_ignore_case_and_space() {
    assert_eq!(parse_color_spec("  ACCENT  "), ColorSpec::EightBit(39));
    assert_eq!(parse_color_spec("\tMaGenTa\n"), parse_color_spec("magenta"));
    assert_eq!(parse_color_spec(" Primary "), parse_color_spec("accent"));
}

#[test]
fn truncating_twice_is_truncating_once() {
    let mut t = StyledText::new();
    t.push("abcdef".to_string(), plain());
    t.push("ghi".to_string(), InlineStyle { bold: true, ..plain() });
    let once = t.truncate(7);
    let twice = once.truncate(7);
    assert_eq!(once.segments.len(), twice.segments.len());
    for (a, b) in once.segments.iter().zip(twice.segments.iter()) {
        assert_eq!(a.text, b.text);
        assert_eq!(a.style, b.style);
    }
    assert_eq!(once.segments[1].text, "g");
}
