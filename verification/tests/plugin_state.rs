use vertical_tabs::color::ColorSpec;
use vertical_tabs::model::{
    Action, CommandOutput, Estado, Event, InputMode, Pane, PaneGroup, PipeMessage, Tab,
};
use vertical_tabs::poll::{focus_times, poll_parts};
use vertical_tabs::state::State;

fn tab(position: usize, name: &str, active: bool) -> Tab {
    Tab {
        position,
        name: name.to_string(),
        active,
        is_fullscreen_active: false,
        is_sync_panes_active: false,
    }
}

fn granted_with_files() -> State {
    let mut st = State::new();
    st.permissions_granted = true;
    st.estado_file = "/d/estado.json".to_string();
    st.atencion_file = "/d/atencion.json".to_string();
    st.archivados_file = "/d/archivados.json".to_string();
    st.tiempo_file = "/d/tiempo.log".to_string();
    st
}

fn run_args(a: &Action) -> (Vec<String>, Option<String>) {
    match a {
        Action::RunCommand { args, flow } => (args.clone(), flow.clone()),
        other => panic!("expected a command, got {:?}", other),
    }
}

fn msg(name: &str, payload: Option<&str>) -> PipeMessage {
    PipeMessage {
        cli_id: None,
        name: name.to_string(),
        payload: payload.map(|p| p.to_string()),
        mudar: None,
        atencion: None,
        activity: false,
    }
}

fn poll_output(text: &str) -> CommandOutput {
    CommandOutput {
        flow: Some("sondeo".to_string()),
        stdout: text.as_bytes().to_vec(),
        estado: None,
        atencion: None,
    }
}

#[test]
fn poll_command_reads_every_file() {
    let st = granted_with_files();
    let a = st.sondear();
    assert_eq!(a.len(), 1);
    let (args, flow) = run_args(&a[0]);
    let expected = format!(
        "cat '{}' 2>/dev/null; printf '\\n@@\\n'; cat '{}' 2>/dev/null; printf '\\n@@\\n'; cat '{}' 2>/dev/null; printf '\\n@@\\n'; [ -e '{}/archivados.mostrar' ] && echo 1; printf '\\n@@\\n'; [ -e '{}/filas.on' ] && echo 1; printf '\\n@@\\n'; cat '{}/orden' 2>/dev/null; printf '\\n@@\\n'; cat '{}/prioridades.json' 2>/dev/null; printf '\\n@@\\n'; tail -n 400 '{}' 2>/dev/null",
        "/d/estado.json", "/d/atencion.json", "/d/archivados.json", "/d", "/d", "/d", "/d", "/d/tiempo.log"
    );
    assert_eq!(args, vec!["sh".to_string(), "-c".to_string(), expected]);
    assert_eq!(flow, Some("sondeo".to_string()));
}

#[test]
fn no_command_without_permissions_or_files() {
    let mut st = granted_with_files();
    st.permissions_granted = false;
    assert!(st.sondear().is_empty());
    assert!(st.leer_estado().is_empty());
    assert!(st.leer_archivados().is_empty());
    assert!(st.marcar_archivados(true).is_empty());
    assert!(st.abrir_orden().is_empty());
    assert!(st.anotar_tiempo("x").is_empty());
    let mut st2 = granted_with_files();
    st2.estado_file = String::new();
    assert!(st2.sondear().is_empty());
    assert!(st2.leer_estado().is_empty());
}

#[test]
fn file_commands() {
    let st = granted_with_files();
    let (args, flow) = run_args(&st.leer_estado()[0]);
    assert_eq!(args, vec!["cat".to_string(), "/d/estado.json".to_string()]);
    assert_eq!(flow, Some("estado".to_string()));
    let (args, flow) = run_args(&st.leer_archivados()[0]);
    assert_eq!(args, vec!["cat".to_string(), "/d/archivados.json".to_string()]);
    assert_eq!(flow, Some("archivados".to_string()));
    let (args, flow) = run_args(&st.marcar_archivados(true)[0]);
    assert_eq!(args[2], "touch '/d/archivados.mostrar'");
    assert_eq!(flow, None);
    let (args, _) = run_args(&st.marcar_archivados(false)[0]);
    assert_eq!(args[2], "rm -f '/d/archivados.mostrar'");
    let (args, _) = run_args(&st.abrir_orden()[0]);
    assert_eq!(
        args[2],
        "zellij action new-pane --floating --close-on-exit -n '⌥O orden' -- '/d/bin/flow-orden'"
    );
}

#[test]
fn focus_note_quotes_the_name_and_gives_the_position() {
    let mut st = granted_with_files();
    st.propio_id = 7;
    st.panes = vec![PaneGroup {
        position: 2,
        panes: vec![Pane { id: 7, is_plugin: true, is_focused: false, title: String::new() }],
    }];
    let a = st.anotar_tiempo("it's");
    let (args, flow) = run_args(&a[0]);
    let safe = "it'\"'\"'s";
    let expected = format!(
        "F='{}/bin/flow-foco'; if [ -x \"$F\" ]; then \"$F\" '{}' {}; else printf '%s\t%s\n' \"$(date +%Y-%m-%dT%H:%M:%S)\" '{}' >> '{}'; fi",
        "/d", safe, 3, safe, "/d/tiempo.log"
    );
    assert_eq!(args[2], expected);
    assert_eq!(flow, Some("tiempo".to_string()));
}

#[test]
fn load_derives_files_next_to_the_state_file() {
    let mut st = State::new();
    let cfg = vec![
        ("estado_file".to_string(), "/home/u/flow/estado.json".to_string()),
        ("max_name_length".to_string(), "12".to_string()),
        ("arriba".to_string(), " hoy , ,mañana".to_string()),
    ];
    st.load(&cfg, 42);
    assert_eq!(st.estado_file, "/home/u/flow/estado.json");
    assert_eq!(st.atencion_file, "/home/u/flow/atencion.json");
    assert_eq!(st.tiempo_file, "/home/u/flow/tiempo.log");
    assert_eq!(st.archivados_file, "/home/u/flow/archivados.json");
    assert_eq!(st.propio_id, 42);
    assert_eq!(st.style.max_name_length, 12);
    assert_eq!(st.style.arriba, vec!["hoy".to_string(), "mañana".to_string()]);
}

#[test]
fn load_keeps_explicit_files_and_joins_a_bare_file_name_with_a_slash() {
    let mut st = State::new();
    let cfg = vec![
        ("estado_file".to_string(), "estado.json".to_string()),
        ("tiempo_file".to_string(), "/t.log".to_string()),
    ];
    st.load(&cfg, 1);
    assert_eq!(st.tiempo_file, "/t.log");
    assert_eq!(st.atencion_file, "/atencion.json");
    assert_eq!(st.archivados_file, "/archivados.json");
    let mut none = State::new();
    none.load(&Vec::new(), 1);
    assert_eq!(none.atencion_file, "");
}

#[test]
fn events_wait_for_permissions_then_replay() {
    let mut st = granted_with_files();
    st.permissions_granted = false;
    let (r, a) = st.update(Event::TabUpdate { tabs: vec![tab(0, "a", false), tab(1, "b", true)], changed: true });
    assert!(!r);
    assert!(a.is_empty());
    assert_eq!(st.pending_events.len(), 1);
    assert!(st.tabs.is_empty());
    let (r, a) = st.update(Event::PermissionResult(true));
    assert!(r);
    assert!(st.permissions_granted);
    assert!(st.pending_events.is_empty());
    assert_eq!(st.tabs.len(), 2);
    assert_eq!(st.active_tab_idx, 2);
    assert_eq!(st.ultimo_tab_activo, "b");
    assert!(matches!(a[0], Action::SetSelectable(false)));
    let (_, flow) = run_args(a.last().unwrap());
    assert_eq!(flow, Some("sondeo".to_string()));
    assert_eq!(a.len(), 2);
}

#[test]
fn refused_permissions_change_nothing() {
    let mut st = State::new();
    let (r, a) = st.update(Event::PermissionResult(false));
    assert!(!r);
    assert!(a.is_empty());
    assert!(!st.permissions_granted);
}

#[test]
fn entering_a_tab_clears_its_done_mark_and_notes_focus_once() {
    let mut st = granted_with_files();
    st.propio_id = 9;
    st.panes = vec![PaneGroup {
        position: 1,
        panes: vec![Pane { id: 9, is_plugin: true, is_focused: false, title: String::new() }],
    }];
    st.atencion = vec![("b".to_string(), "listo".to_string()), ("a".to_string(), "espera".to_string())];
    let tabs = || vec![tab(0, "a", false), tab(1, "b", true)];
    let (r, a) = st.update(Event::TabUpdate { tabs: tabs(), changed: false });
    assert!(r);
    assert_eq!(st.atencion, vec![("a".to_string(), "espera".to_string())]);
    assert_eq!(a.len(), 1);
    let (_, flow) = run_args(&a[0]);
    assert_eq!(flow, Some("tiempo".to_string()));
    let (r, a) = st.update(Event::TabUpdate { tabs: tabs(), changed: false });
    assert!(!r);
    assert!(a.is_empty());
}

#[test]
fn scrolling_stays_within_the_tabs() {
    let mut st = granted_with_files();
    st.tabs = vec![tab(0, "a", true), tab(1, "b", false), tab(2, "c", false)];
    st.active_tab_idx = 1;
    let (_, a) = st.update(Event::ScrollUp);
    assert!(matches!(a[0], Action::SwitchTabTo(1)));
    st.active_tab_idx = 3;
    let (_, a) = st.update(Event::ScrollDown);
    assert!(matches!(a[0], Action::SwitchTabTo(3)));
    st.active_tab_idx = 2;
    let (_, a) = st.update(Event::ScrollDown);
    assert!(matches!(a[0], Action::SwitchTabTo(3)));
    let (_, a) = st.update(Event::ScrollUp);
    assert!(matches!(a[0], Action::SwitchTabTo(1)));
}

#[test]
fn clicks_on_the_bottom_row_shortcuts() {
    let mut st = granted_with_files();
    st.tabs = vec![tab(0, "a", true)];
    st.active_tab_idx = 1;
    st.ultimas_filas = 10;
    st.col_arch = 4;
    st.col_orden = 12;
    let (r, a) = st.update(Event::LeftClick(9, 5));
    assert!(r);
    assert!(st.mostrar_archivados);
    let (args, _) = run_args(&a[0]);
    assert_eq!(args[2], "touch '/d/archivados.mostrar'");
    let (r, a) = st.update(Event::LeftClick(9, 13));
    assert!(!r);
    let (args, _) = run_args(&a[0]);
    assert!(args[2].ends_with("/bin/flow-orden'"));
    let (r, a) = st.update(Event::LeftClick(9, 1));
    assert!(!r);
    assert!(a.is_empty());
}

#[test]
fn a_click_selects_the_row_of_the_window() {
    let mut st = granted_with_files();
    st.tabs = (0..20).map(|i| tab(i, &format!("t{}", i), i == 10)).collect();
    st.active_tab_idx = 11;
    st.last_rows = 7;
    // window 8..13 below a "more above" row
    assert_eq!(st.get_tab_at_row(0), Some(8));
    assert_eq!(st.get_tab_at_row(1), Some(9));
    assert_eq!(st.get_tab_at_row(5), Some(13));
    assert_eq!(st.get_tab_at_row(6), Some(14));
    st.row_map = vec![None, Some(4)];
    assert_eq!(st.get_tab_at_row(1), Some(5));
    assert_eq!(st.get_tab_at_row(0), Some(8));
    st.tabs.clear();
    assert_eq!(st.get_tab_at_row(1), None);
}

#[test]
fn poll_output_is_read_once() {
    let mut st = granted_with_files();
    let text = "{}\n@@\n{}\n@@\n[\"b\",\"a\",\"b\"]\n@@\n1\n@@\n\n@@\nalfa\n\n@@\n{\"a\":1,\"b\":3}\n@@\n2024-01-01T10:00:00\tb\n2024-01-02T09:00:00\t a \nbroken line\n";
    let mut out = poll_output(text);
    out.atencion = Some(vec![("a".to_string(), "espera".to_string()), ("c".to_string(), String::new())]);
    let (r, a) = st.update(Event::CommandResult(out));
    assert!(r);
    assert_eq!(a.len(), 1);
    assert!(matches!(a[0], Action::PollLater));
    assert!(st.sondeo_programado);
    assert_eq!(st.archivados, vec!["b".to_string(), "a".to_string()]);
    assert!(st.mostrar_archivados);
    assert!(!st.filas_estado);
    assert_eq!(st.orden, "alfa");
    assert_eq!(st.prioridades, vec![("a".to_string(), 1u8), ("b".to_string(), 3u8)]);
    assert_eq!(st.atencion, vec![("a".to_string(), "espera".to_string())]);
    let mut foco = st.ultimo_foco.clone();
    foco.sort();
    assert_eq!(
        foco,
        vec![
            ("a".to_string(), "2024-01-02T09:00:00".to_string()),
            ("b".to_string(), "2024-01-01T10:00:00".to_string())
        ]
    );
    let mut again = poll_output(text);
    again.atencion = Some(vec![("a".to_string(), "espera".to_string()), ("c".to_string(), String::new())]);
    let (r, a) = st.update(Event::CommandResult(again));
    assert!(!r);
    assert!(a.is_empty());
}

#[test]
fn state_file_replaces_states_and_broken_json_keeps_them() {
    let mut st = granted_with_files();
    let e = Estado { estado: "haciendo".to_string(), pendientes: vec!["x".to_string()] };
    let out = CommandOutput {
        flow: Some("estado".to_string()),
        stdout: Vec::new(),
        estado: Some(vec![("p".to_string(), e)]),
        atencion: None,
    };
    let (r, _) = st.update(Event::CommandResult(out));
    assert!(r);
    assert_eq!(st.estado.len(), 1);
    let broken = CommandOutput { flow: Some("estado".to_string()), stdout: b"{".to_vec(), estado: None, atencion: None };
    let (r, _) = st.update(Event::CommandResult(broken));
    assert!(!r);
    assert_eq!(st.estado[0].1.estado, "haciendo");
}

#[test]
fn archived_list_reply_is_read_as_a_set() {
    let mut st = granted_with_files();
    let out = CommandOutput {
        flow: Some("archivados".to_string()),
        stdout: b"[\"x\",\"y\",\"x\"]".to_vec(),
        estado: None,
        atencion: None,
    };
    let (r, _) = st.update(Event::CommandResult(out));
    assert!(r);
    assert_eq!(st.archivados, vec!["x".to_string(), "y".to_string()]);
    let bad = CommandOutput { flow: Some("archivados".to_string()), stdout: b"nope".to_vec(), estado: None, atencion: None };
    let (r, _) = st.update(Event::CommandResult(bad));
    assert!(!r);
    assert_eq!(st.archivados.len(), 2);
}

#[test]
fn timer_polls_again() {
    let mut st = granted_with_files();
    st.sondeo_programado = true;
    let (r, a) = st.update(Event::Timer);
    assert!(!r);
    assert!(!st.sondeo_programado);
    assert_eq!(a.len(), 1);
}

#[test]
fn session_and_mode_updates() {
    let mut st = granted_with_files();
    let (r, _) = st.update(Event::SessionUpdate(Some("main".to_string())));
    assert!(r);
    assert_eq!(st.own_session, "main");
    let (r, _) = st.update(Event::SessionUpdate(Some("main".to_string())));
    assert!(!r);
    let (r, _) = st.update(Event::ModeUpdate { mode: InputMode::Locked, changed: true });
    assert!(r);
    assert_eq!(st.mode, InputMode::Locked);
}

#[test]
fn pipe_selectable_and_unblock() {
    let mut st = State::new();
    let mut m = msg("set_selectable", Some("true"));
    m.cli_id = Some("cli-1".to_string());
    let (r, a) = st.pipe(m);
    assert!(!r);
    assert!(matches!(&a[0], Action::UnblockCliPipe(id) if id == "cli-1"));
    assert!(matches!(a[1], Action::SetSelectable(true)));
    assert!(st.is_selectable);
    let (_, a) = st.pipe(msg("toggle_selectable", None));
    assert!(matches!(a[0], Action::SetSelectable(false)));
    assert!(!st.is_selectable);
    let (_, a) = st.pipe(msg("set_selectable", Some("maybe")));
    assert!(a.is_empty());
}

#[test]
fn pipe_attention_sets_and_clears() {
    let mut st = State::new();
    let mut m = msg("atencion", Some("{}"));
    m.atencion = Some(("p".to_string(), "trabajando".to_string()));
    let (r, _) = st.pipe(m);
    assert!(r);
    assert_eq!(st.atencion_de("p"), ("●".to_string(), ColorSpec::EightBit(4)));
    let mut clear = msg("atencion", Some("{}"));
    clear.atencion = Some(("p".to_string(), String::new()));
    let (r, _) = st.pipe(clear);
    assert!(r);
    assert_eq!(st.atencion_de("p"), (String::new(), ColorSpec::Default));
    let mut nameless = msg("atencion", Some("{}"));
    nameless.atencion = Some((String::new(), "listo".to_string()));
    let (r, _) = st.pipe(nameless);
    assert!(!r);
}

#[test]
fn pipe_archive_toggle_twice_is_no_change() {
    let mut st = State::new();
    let (r, _) = st.pipe(msg("archivados_toggle", None));
    assert!(r);
    assert!(st.mostrar_archivados);
    let (r, _) = st.pipe(msg("archivados_toggle", None));
    assert!(r);
    assert!(!st.mostrar_archivados);
}

#[test]
fn pipe_reloads_and_unknown_names() {
    let mut st = granted_with_files();
    let (r, a) = st.pipe(msg("estado_reload", None));
    assert!(!r);
    assert_eq!(run_args(&a[0]).1, Some("estado".to_string()));
    let (_, a) = st.pipe(msg("archivados_reload", None));
    assert_eq!(run_args(&a[0]).1, Some("archivados".to_string()));
    let (r, a) = st.pipe(msg("whatever", None));
    assert!(!r && a.is_empty());
    let mut act = msg("activity", Some("..."));
    act.activity = true;
    assert!(st.pipe(act).0);
}

#[test]
fn moving_panes_only_from_the_source_instance() {
    let mut st = granted_with_files();
    st.propio_id = 5;
    st.tabs = vec![tab(0, "origen", false), tab(1, "destino", true)];
    st.panes = vec![
        PaneGroup {
            position: 0,
            panes: vec![
                Pane { id: 1, is_plugin: false, is_focused: true, title: String::new() },
                Pane { id: 5, is_plugin: true, is_focused: false, title: String::new() },
                Pane { id: 2, is_plugin: false, is_focused: false, title: String::new() },
            ],
        },
        PaneGroup {
            position: 1,
            panes: vec![
                Pane { id: 9, is_plugin: true, is_focused: false, title: String::new() },
                Pane { id: 3, is_plugin: false, is_focused: true, title: String::new() },
            ],
        },
    ];
    let a = st.mudar("origen", "destino");
    assert_eq!(a.len(), 1);
    assert!(matches!(&a[0], Action::BreakPanesToTab { panes, tab: 1 } if *panes == vec![1u32, 2u32]));
    assert!(st.mudar("destino", "origen").is_empty());
    assert!(st.mudar("origen", "nowhere").is_empty());
    let mut m = msg("mudar", Some("{}"));
    m.mudar = Some(("origen".to_string(), "destino".to_string()));
    let (r, a) = st.pipe(m);
    assert!(!r);
    assert_eq!(a.len(), 1);
    st.propio_id = 9;
    assert!(st.mudar("origen", "destino").is_empty());
    let a = st.mudar("destino", "origen");
    assert!(matches!(&a[0], Action::BreakPanesToTab { panes, tab: 0 } if *panes == vec![3u32]));
}

#[test]
fn labels_expand_variables() {
    let mut st = State::new();
    st.tabs = vec![tab(0, "alpha", true)];
    let t = &st.tabs[0];
    let text: String = st
        .expand_tmux_format("{num} {prio} {name}{atencion}", t, 2)
        .segments
        .iter()
        .map(|s| s.text.clone())
        .collect();
    assert_eq!(text, " 2   alpha");
    let mut st2 = State::new();
    st2.tabs = vec![tab(0, "alpha", true)];
    st2.prioridades = vec![("alpha".to_string(), 1)];
    st2.atencion = vec![("alpha".to_string(), "espera".to_string())];
    let l = st2.expand_tmux_format("{prio}{name}{atencion}{other}", &st2.tabs[0], 1);
    assert_eq!(l.segments[0].text, "●");
    assert_eq!(l.segments[0].style.fg, ColorSpec::EightBit(252));
    assert_eq!(l.segments[2].text, " ○");
    assert_eq!(l.segments[2].style.fg, ColorSpec::EightBit(3));
    assert_eq!(l.segments[3].text, "{other}");
    let long = State::new();
    let lt = tab(0, "a-very-long-project-name", false);
    let short = long.expand_tmux_format("{=8:name}", &lt, 1);
    assert_eq!(short.segments[0].text, "a-ver...");
}

#[test]
fn extra_rows_under_a_tab() {
    let mut st = State::new();
    st.filas_estado = true;
    st.estado = vec![(
        "p".to_string(),
        Estado { estado: "doing".to_string(), pendientes: vec!["a".to_string(), "▶ b".to_string()] },
    )];
    let t = tab(0, "p", false);
    let rows = st.filas_extra(&t, &vec!["live".to_string()]);
    assert_eq!(
        rows,
        vec![
            "  › doing".to_string(),
            "#[fg=dim]  ☐ a".to_string(),
            "#[fg=dim]  ▣ b".to_string(),
            "#[fg=dim]live".to_string()
        ]
    );
    st.filas_estado = false;
    assert!(st.filas_extra(&t, &vec!["live".to_string()]).is_empty());
}

#[test]
fn many_pending_items_are_cut_with_an_ellipsis() {
    let mut st = State::new();
    st.filas_estado = true;
    let ps: Vec<String> = (0..8).map(|i| format!("p{}", i)).collect();
    st.estado = vec![("t".to_string(), Estado { estado: String::new(), pendientes: ps })];
    let rows = st.filas_extra(&tab(0, "t", false), &Vec::new());
    assert_eq!(rows.len(), 7);
    assert_eq!(rows[6], "#[fg=dim]  …");
}

#[test]
fn drawing_records_rows_and_clicks_follow_them() {
    let mut st = granted_with_files();
    st.tabs = vec![tab(0, "hoy", false), tab(1, "alpha", true), tab(2, "beta", false)];
    st.active_tab_idx = 2;
    let lines = st.render(6, 20, &Vec::new()).unwrap();
    assert_eq!(lines.len(), 6);
    assert_eq!(lines[0], format!("     hoy{}", " ".repeat(12)));
    assert_eq!(lines[4], " ".repeat(20));
    assert_eq!(st.row_map, vec![Some(0), None, Some(1), Some(2), None, None]);
    assert_eq!(st.last_rows, 6);
    assert_eq!(st.ultimas_filas, 6);
    assert_eq!(st.get_tab_at_row(2), Some(2));
    assert_eq!(st.get_tab_at_row(0), Some(1));
    assert_eq!(st.col_arch, 4);
}

#[test]
fn nothing_is_drawn_before_permissions() {
    let mut st = State::new();
    st.tabs = vec![tab(0, "a", true)];
    assert!(st.render(5, 10, &Vec::new()).is_none());
    assert_eq!(st.last_rows, 5);
}

#[test]
fn poll_parts_and_focus_lines() {
    let parts = poll_parts("a\n@@\n\n@@\nb\n@@\n");
    assert_eq!(parts, vec!["a".to_string(), "".to_string(), "b".to_string(), "".to_string()]);
    assert_eq!(poll_parts(""), vec!["".to_string()]);
    let mut t = focus_times("h1\tn1\r\nh2\t n1 \nno tab\n\th3\n");
    t.sort();
    assert_eq!(t, vec![("h3".to_string(), "".to_string()), ("n1".to_string(), "h2".to_string())]);
}

#[test]
fn activity_is_looked_up_by_tab_then_by_pane_title() {
    let mut st = State::new();
    st.own_session = "main".to_string();
    st.panes = vec![PaneGroup {
        position: 0,
        panes: vec![Pane { id: 1, is_plugin: false, is_focused: true, title: "✳ agente".to_string() }],
    }];
    let (by_tab, by_pane) = st.activity_keys(&tab(0, "◷ daily", true));
    assert_eq!(by_tab, "main\u{1}daily");
    assert_eq!(by_pane, "main\u{1}agente");
    let (_, fallback) = st.activity_keys(&tab(3, "proyecto", false));
    assert_eq!(fallback, "main\u{1}proyecto");
}

#[test]
fn focused_pane_titles_skip_default_names() {
    let mut st = State::new();
    st.panes = vec![
        PaneGroup {
            position: 0,
            panes: vec![
                Pane { id: 1, is_plugin: true, is_focused: true, title: "plugin".to_string() },
                Pane { id: 2, is_plugin: false, is_focused: true, title: "vim".to_string() },
            ],
        },
        PaneGroup {
            position: 1,
            panes: vec![Pane { id: 3, is_plugin: false, is_focused: true, title: "Pane #1".to_string() }],
        },
    ];
    assert_eq!(st.get_focused_pane_title(0), Some("vim".to_string()));
    assert_eq!(st.get_focused_pane_title(1), None);
    assert_eq!(st.get_focused_pane_title(2), None);
    assert_eq!(st.expand_overflow_format("  ^ +{count}", 12), "  ^ +12");
}

#[test]
fn pipes_run_no_command_before_permissions() {
    let mut st = granted_with_files();
    st.permissions_granted = false;
    let (_, a) = st.pipe(msg("estado_reload", None));
    assert!(a.is_empty());
    let (_, a) = st.pipe(msg("archivados_reload", None));
    assert!(a.is_empty());
}

#[test]
fn permission_answers_are_not_queued() {
    let mut st = State::new();
    st.update(Event::PermissionResult(false));
    st.update(Event::Timer);
    assert_eq!(st.pending_events.len(), 1);
    assert!(matches!(st.pending_events[0], Event::Timer));
}

#[test]
fn parsed_poll_parts_are_taken_when_they_differ() {
    let mut st = State::new();
    assert!(st.set_archivados_read(Some(vec!["a".to_string(), "b".to_string(), "a".to_string()])));
    assert_eq!(st.archivados, vec!["a".to_string(), "b".to_string()]);
    assert!(!st.set_archivados_read(Some(vec!["b".to_string(), "a".to_string()])));
    assert!(!st.set_archivados_read(None));
    assert!(st.set_prio_read(Some(vec![("x".to_string(), 2u8)])));
    assert!(!st.set_prio_read(Some(vec![("x".to_string(), 2u8)])));
    assert!(st.set_prio_read(Some(vec![("x".to_string(), 1u8)])));
    assert_eq!(st.prioridades, vec![("x".to_string(), 1u8)]);
    let log = "t1\tp\n".to_string();
    assert!(st.set_foco_read(Some(&log)));
    assert!(!st.set_foco_read(Some(&log)));
    assert!(!st.set_foco_read(None));
    assert!(st.set_atencion_read(Some(vec![("p".to_string(), "listo".to_string())])));
    assert!(!st.set_atencion_read(Some(vec![("p".to_string(), "listo".to_string()), ("q".to_string(), String::new())])));
    let e = || Some(vec![("p".to_string(), Estado { estado: "e".to_string(), pendientes: vec![] })]);
    assert!(st.set_estado_read(e()));
    assert!(!st.set_estado_read(e()));
}

#[test]
fn archived_list_from_its_file_replaces_the_held_one() {
    let mut st = State::new();
    st.archivados = vec!["old".to_string()];
    assert!(st.replace_archivados(Some(vec!["n".to_string(), "n".to_string()])));
    assert_eq!(st.archivados, vec!["n".to_string()]);
    assert!(!st.replace_archivados(None));
    assert_eq!(st.archivados, vec!["n".to_string()]);
}

#[test]
fn a_new_state_is_empty_with_the_default_style() {
    let st = State::new();
    assert_eq!(st.style.format, "{num} {prio} {name}{atencion}");
    assert_eq!(st.style.arriba, vec!["hoy".to_string()]);
    assert!(st.tabs.is_empty() && st.panes.is_empty() && st.row_map.is_empty());
    assert!(!st.permissions_granted && !st.is_selectable && !st.sondeo_programado);
    assert!(st.estado_file.is_empty() && st.atencion_file.is_empty() && st.tiempo_file.is_empty());
    assert_eq!((st.col_arch, st.col_orden, st.ultimas_filas, st.last_rows), (0, 0, 0, 0));
}

#[test]
fn granting_replays_every_queued_event_in_order() {
    let mut st = granted_with_files();
    st.permissions_granted = false;
    st.update(Event::SessionUpdate(Some("s".to_string())));
    st.update(Event::ModeUpdate { mode: InputMode::Locked, changed: true });
    st.update(Event::ModeUpdate { mode: InputMode::Tab, changed: true });
    assert_eq!(st.pending_events.len(), 3);
    let (r, a) = st.update(Event::PermissionResult(true));
    assert!(r);
    assert_eq!(st.own_session, "s");
    assert_eq!(st.mode, InputMode::Tab);
    assert!(st.pending_events.is_empty());
    assert!(!st.is_selectable);
    assert_eq!(a.len(), 2);
}
