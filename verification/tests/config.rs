#![allow(dead_code)]
use roxy_can::app::App;
use roxy_can::bus_reload::BusFiles;
use roxy_can::can::frame::FrameFlags;
use roxy_can::config::{
    cycle_default, default_bitrate, default_fd_data_bitrate, grace_default, one_default_u32,
     relativize, resolve_dbc, ten_default, tolerance_default, true_default, Config,
    SpecCfg, SrcCfg, TriggerCfg,
};
use roxy_can::config_apply::clamp_bits;
use roxy_can::dbc_merge::FileText;
use roxy_can::paths::{is_absolute, PathStyle};
use roxy_can::sim::{SrcKind, ValueSrc};
use roxy_can::triggers::{Trigger, TriggerAction, TriggerCond};
use roxy_can::workspace::{GfxSignal, SigScope, WindowKind, YMode};

const SAMPLE_DBC: &str = r#"VERSION "sample"

NS_ :

BU_: EngineECU ChassisECU Dashboard

BO_ 256 EngineStatus: 8 EngineECU
 SG_ EngineSpeed : 0|16@1+ (0.25,0) [0|8000] "rpm" Dashboard,ChassisECU

BO_ 512 VehicleState: 8 ChassisECU
 SG_ FrontLeft : 0|16@1+ (0.01,0) [0|300] "km/h" Dashboard
"#;

fn files() -> BusFiles {
    let read = |sum: u64| Ok(FileText { content: SAMPLE_DBC.to_string(), sum });
    vec![vec![read(1)], vec![read(2)]]
}

fn new_app() -> App {
    App::new(&files())
}

fn saved(app: &App) -> Config {
    let absolutes: Vec<String> = app.core.channels.iter().map(|_| String::new()).collect();
    Config::from_app(app, None, &absolutes, PathStyle::Unix)
}

fn restored(cfg: Config) -> App {
    let mut app = new_app();
    cfg.apply(&mut app, &files());
    app
}

fn source(name: &str, kind: SrcKind, lo: f64, hi: f64) -> ValueSrc {
    ValueSrc {
        name: name.to_string(),
        kind,
        lo: lo.to_bits(),
        hi: hi.to_bits(),
        period_us: 1_000_000,
        phase_us: 0,
        seq: Vec::new(),
        seed: 0,
        redraw_us: 0,
    }
}

#[test]
fn config_round_trips_through_json() {
    let mut app = new_app();
    app.panels.show_id_filter = true;
    app.replay_speed = 2.0f64.to_bits();
    app.trace_windows[0].filter = "Motor".to_string();
    app.trace_windows[0].scope = SigScope::Bus(1);
    app.trace_windows[0].manual.push((1, 0x123));
    app.core.tx_list[0].active = true;
    app.core.tx_list[0].cycle_us = 50_000;

    let back = restored(saved(&app));
    assert!(back.panels.show_id_filter);
    assert_eq!(f64::from_bits(back.replay_speed), 2.0);
    assert_eq!(back.trace_windows[0].filter, "Motor");
    assert_eq!(back.trace_windows[0].scope, SigScope::Bus(1));
    assert!(back.trace_windows[0].manual.contains(&(1, 0x123)));
    assert!(back.core.tx_list[0].active);
    assert_eq!(back.core.tx_list[0].cycle_us, 50_000);
    assert_eq!(back.core.channels.len(), app.core.channels.len());
    assert!(back.core.channels[0].dbc.is_some(), "the database was loaded");
}

#[test]
fn tx_value_sources_round_trip() {
    let mut app = new_app();
    app.set_source(
        0,
        ValueSrc {
            period_us: 2_000_000,
            phase_us: 250_000,
            ..source("EngineSpeed", SrcKind::Sine, 0.0, 8000.0)
        },
    );
    app.set_source(
        0,
        ValueSrc {
            seq: vec![1.0f64.to_bits(), 2.5f64.to_bits(), 4.0f64.to_bits()],
            ..source("GearPosition", SrcKind::Step, 0.0, 6.0)
        },
    );
    app.set_source(
        0,
        ValueSrc { seed: 99, redraw_us: 5_000, ..source("ThrottlePos", SrcKind::Random, 0.0, 100.0) },
    );
    let back = restored(saved(&app));
    let (a, b) = (&back.core.tx_list[0].srcs, &app.core.tx_list[0].srcs);
    assert_eq!(a.len(), 3);
    for (x, y) in a.iter().zip(b.iter()) {
        assert_eq!(x.name, y.name);
        assert_eq!(x.kind, y.kind);
        assert_eq!((x.lo, x.hi, x.period_us, x.phase_us), (y.lo, y.hi, y.period_us, y.phase_us));
        assert_eq!(x.seq, y.seq);
        assert_eq!((x.seed, x.redraw_us), (y.seed, y.redraw_us));
    }
}

#[test]
fn legacy_tx_entry_without_srcs_stays_flat() {
    let mut cfg = saved(&new_app());
    cfg.tx[0].active = true;
    cfg.tx[0].cycle_us = 20_000;
    cfg.tx[0].data_text = "01 02".to_string();
    cfg.tx[0].data = vec![1, 2];
    let back = restored(cfg);
    let tx = back.core.tx_list.iter().find(|t| t.id == 0x100).expect("EngineStatus entry");
    assert!(tx.srcs.is_empty(), "an absent key means no driven signal");
    assert!(tx.active, "the rest of the entry still applied");
    assert_eq!(tx.len, 2);
    assert_eq!(&tx.data[..3], &[1, 2, 0]);
}

#[test]
fn an_unknown_kind_code_drops_only_that_source() {
    let mut cfg = saved(&new_app());
    let src = |name: &str, kind: u8| SrcCfg {
        name: name.to_string(),
        kind,
        lo: 0,
        hi: 8000.0f64.to_bits(),
        period_us: 2_000_000,
        phase_us: 0,
        seq: Vec::new(),
        seed: 0,
        redraw_us: 0,
    };
    cfg.tx[0].srcs = vec![src("EngineSpeed", 1), src("GearPosition", 200)];
    let back = restored(cfg);
    let tx = back.core.tx_list.iter().find(|t| t.id == 0x100).expect("EngineStatus entry");
    assert_eq!(tx.srcs.len(), 1, "only the unreadable entry goes");
    assert_eq!(tx.srcs[0].name, "EngineSpeed");
    assert_eq!(tx.srcs[0].kind, SrcKind::Sine, "code 1 is Sine");
    assert_eq!(tx.srcs[0].period_us, 2_000_000);
}

#[test]
fn an_event_triggered_cycle_survives_a_project_round_trip() {
    let mut app = new_app();
    let find = |app: &App, id: u32| {
        app.core.tx_list.iter().position(|t| t.channel == 0 && t.id == id).expect("entry")
    };
    let i = find(&app, 0x100);
    app.core.tx_list[i].cycle_us = 0;
    let j = find(&app, 0x200);
    app.core.tx_list[j].cycle_us = 500;
    let back = restored(saved(&app));
    assert_eq!(back.core.tx_list[find(&back, 0x100)].cycle_us, 0, "0 must not come back as 1ms");
    assert_eq!(
        back.core.tx_list[find(&back, 0x200)].cycle_us,
        1_000,
        "the anti-typo floor still applies"
    );
}

#[test]
fn simulated_nodes_round_trip_without_starting_traffic() {
    let mut app = new_app();
    app.set_node_sim(1, "EngineECU", true);
    app.set_node_sim(1, "ChassisECU", true);
    let back = restored(saved(&app));
    assert!(back.is_node_simulated(1, "EngineECU"));
    assert!(back.is_node_simulated(1, "ChassisECU"));
    assert!(!back.is_node_simulated(0, "EngineECU"), "the other bus keeps its own list");
    assert!(
        back.core.tx_list.iter().all(|t| !t.active),
        "a read-only look at a saved project must not begin transmitting"
    );
}

#[test]
fn bitrates_round_trip() {
    let mut app = new_app();
    app.core.channels[0].bitrate_kbps = 1_000;
    app.core.channels[0].fd_data_kbps = 5_000;
    let back = restored(saved(&app));
    assert_eq!(back.core.channels[0].bitrate_kbps, 1_000);
    assert_eq!(back.core.channels[0].fd_data_kbps, 5_000);
    assert_eq!(
        back.core.channels[1].bitrate_kbps,
        default_bitrate(),
        "the other bus keeps its own rate"
    );
}

#[test]
fn spec_settings_survive_a_project_round_trip() {
    let mut app = new_app();
    app.spec_tol_pct = 25;
    app.spec_grace = 8;
    let back = restored(saved(&app));
    assert_eq!(back.spec_tol_pct, 25);
    assert_eq!(back.spec_grace, 8);
}

#[test]
fn an_old_project_without_a_spec_block_loads_the_defaults() {
    let mut cfg = saved(&new_app());
    cfg.spec = SpecCfg::default();
    let back = restored(cfg);
    assert_eq!(back.spec_tol_pct, tolerance_default());
    assert_eq!(back.spec_grace, grace_default());

    let mut cfg = saved(&new_app());
    cfg.spec.grace_cycles = 0;
    assert_eq!(restored(cfg).spec_grace, 1, "a grace of zero cycles is not a thing");
}

#[test]
fn the_defaults_of_saved_fields() {
    assert_eq!(one_default_u32(), 1);
    assert!(true_default());
    assert_eq!(ten_default(), 10);
    assert_eq!(default_bitrate(), 500);
    assert_eq!(default_fd_data_bitrate(), 2_000);
    assert_eq!(cycle_default(), 100_000);
}

#[test]
fn dbc_paths_relativize_and_resolve_round_the_project_dir() {
    let base = "C:/work/myproj";
    let style = PathStyle::Windows;
    assert_eq!(relativize("C:/work/myproj/dbc/motor.dbc", base, style), "dbc/motor.dbc");
    assert_eq!(
        relativize("C:/elsewhere/other.dbc", base, style),
        "C:/elsewhere/other.dbc",
        "paths outside the project stay absolute"
    );
    assert!(is_absolute(style, "C:/abs/x.dbc"));
    assert!(!is_absolute(style, "assets/sample.dbc"));
    assert_eq!(
        resolve_dbc("missing.dbc", None, style),
        "missing.dbc",
        "project-relative path without a real file falls back to the CWD form"
    );
    assert_eq!(
        resolve_dbc("C:/abs/x.dbc", Some("C:/work/myproj/x.dbc".to_string()), style),
        "C:/abs/x.dbc",
        "absolute paths are untouched"
    );
    assert_eq!(
        resolve_dbc("motor.dbc", Some("C:/work/myproj/motor.dbc".to_string()), style),
        "C:/work/myproj/motor.dbc"
    );
}

#[test]
fn paths_are_compared_name_by_name() {
    let unix = |p: &str, base: &str| relativize(p, base, PathStyle::Unix);
    assert_eq!(unix("/w//d/a.dbc", "/w/d"), "a.dbc", "separators in a row are one");
    assert_eq!(unix("/w/d/a.dbc", "/w/d/"), "a.dbc");
    assert_eq!(unix("/w/d/a.dbc", "//w/./d"), "a.dbc");
    assert_eq!(unix("/w/./d/a.dbc", "/w/d"), "a.dbc", "a dot is no name");
    assert_eq!(unix("/w/d/b/./c//a.dbc", "/w/d"), "b/./c//a.dbc", "the rest stays as written");
    assert_eq!(unix("/w/d", "/w/d"), "", "the directory itself");
    assert_eq!(unix("/w/d/", "/w/d"), "");
    assert_eq!(unix("/w/d/a.dbc", ""), "/w/d/a.dbc");
    assert_eq!(unix("/a.dbc", "/"), "a.dbc");
    assert_eq!(unix("/w/dd/a.dbc", "/w/d"), "/w/dd/a.dbc", "a name is matched whole");
    assert_eq!(unix("/w/d\\a.dbc", "/w"), "d\\a.dbc", "a backslash is part of a name");
    assert_eq!(unix("/w", "/w/d"), "/w");
    assert_eq!(unix("w/d/a.dbc", "/w/d"), "w/d/a.dbc");
    assert_eq!(unix("./w/a.dbc", "w"), "./w/a.dbc", "a dot at the start is kept");

    let windows = |p: &str, base: &str| relativize(p, base, PathStyle::Windows);
    assert_eq!(windows("C:\\work\\dbc/a.dbc", "C:/work"), "dbc/a.dbc");
    assert_eq!(windows("c:/work/a.dbc", "C:\\work"), "a.dbc", "drives differ in no case");
    assert_eq!(windows("D:/work/a.dbc", "C:/work"), "D:/work/a.dbc");
    assert_eq!(windows("C:/work/a.dbc", "C:"), "/work/a.dbc");
    assert_eq!(windows("C:/work/a.dbc", "/work"), "C:/work/a.dbc");
    assert_eq!(windows("\\\\box\\share\\d\\a.dbc", "//box/share/d"), "a.dbc");
    assert_eq!(windows("\\\\box\\share\\d", "\\\\box\\other"), "\\\\box\\share\\d");
}

#[test]
fn absolute_is_a_matter_of_the_platform() {
    assert!(is_absolute(PathStyle::Unix, "/x"));
    assert!(!is_absolute(PathStyle::Windows, "/x"), "no drive is named");
    assert!(!is_absolute(PathStyle::Unix, "C:/x"));
    assert!(is_absolute(PathStyle::Windows, "C:/x"));
    assert!(!is_absolute(PathStyle::Windows, "C:x"), "relative to the drive's directory");
    assert!(is_absolute(PathStyle::Windows, "\\\\box\\share"));
    assert!(!is_absolute(PathStyle::Windows, "\\\\box"));
    let found = || Some("/proj/C:/x".to_string());
    assert_eq!(resolve_dbc("C:/x", found(), PathStyle::Unix), "/proj/C:/x");
    assert_eq!(resolve_dbc("C:/x", found(), PathStyle::Windows), "C:/x");
}

#[test]
fn a_project_stores_its_databases_below_itself() {
    let app = new_app();
    let absolutes = vec!["/proj//dbc/sample.dbc".to_string(), "/else/motbus.dbc".to_string()];
    let cfg = Config::from_app(&app, Some("/proj"), &absolutes, PathStyle::Unix);
    assert_eq!(cfg.channels[0].dbc_path, "dbc/sample.dbc");
    assert_eq!(cfg.channels[1].dbc_path, "/else/motbus.dbc");
}

#[test]
fn desktops_round_trip_through_config() {
    let mut app = new_app();
    app.add_desktop();
    app.switch_desktop(0);
    app.panels.show_bus_stats = true;
    let back = restored(saved(&app));
    assert_eq!(back.desktops.len(), 2);
    assert_eq!(back.desktops[0].name, "Desktop 1");
    assert_eq!(back.desktops[1].name, "Desktop 2");
    assert_eq!(back.active_desktop, 0);
    assert_eq!(back.desktops[0].open_windows.len(), app.desktops[0].open_windows.len());
    assert!(
        back.panels.show_bus_stats,
        "panel visibility rides the desktop like every other flag"
    );
    assert!(back.trace_windows[0].opened);
}

#[test]
fn a_second_desktop_comes_back_with_its_own_windows() {
    let mut app = new_app();
    let mut second = app.desktop_snapshot();
    second.name = "Desktop 2".to_string();
    second.open_windows = vec![(WindowKind::Trace, app.trace_windows[0].name.clone())];
    app.desktops.push(second);
    let back = restored(saved(&app));
    assert_eq!(back.desktops[1].name, "Desktop 2");
    assert_eq!(back.desktops[1].open_windows.len(), 1);
}

#[test]
fn a_saved_workspace_comes_back() {
    let mut app = new_app();
    app.set_node_sim(0, "EngineECU", true);
    app.core.channels[1].bitrate_kbps = 250;
    app.spec_grace = 5;
    app.replay_speed = 4.0f64.to_bits();
    app.set_source(1, source("FrontLeft", SrcKind::Ramp, 0.0, 10.0));
    app.core.tx_list[1].active = true;
    app.core.tx_list[1].cycle_us = 0;
    app.core.tx_list[1].data_text = String::new();
    let back = restored(saved(&app));
    assert!(back.is_node_simulated(0, "EngineECU"));
    assert!(!back.is_node_simulated(1, "EngineECU"));
    assert_eq!(back.core.channels[1].bitrate_kbps, 250);
    assert_eq!(back.core.channels[1].name, app.core.channels[1].name);
    assert_eq!((back.spec_grace, back.replay_speed), (5, 4.0f64.to_bits()));
    let (a, b) = (&back.core.tx_list[1], &app.core.tx_list[1]);
    assert_eq!((a.channel, a.id), (b.channel, b.id));
    assert!(a.active, "without a payload text the switch comes back all the same");
    assert_eq!(a.cycle_us, 0);
    assert_eq!(a.srcs.len(), 1);
    assert_eq!(a.srcs[0].name, "FrontLeft");
}

#[test]
fn a_nameless_desktop_is_numbered_and_unknown_windows_are_dropped() {
    let mut cfg = saved(&new_app());
    cfg.desktops[0].name = "  ".to_string();
    cfg.desktops[0].open = vec![(77, "Future 1".to_string()), (0, "Trace 1".to_string())];
    cfg.active_desktop = 9;
    let back = restored(cfg);
    assert_eq!(back.desktops[0].name, "Desktop 1");
    assert_eq!(back.desktops[0].open_windows.len(), 1);
    assert_eq!(back.active_desktop, 0);

    let mut cfg = saved(&new_app());
    cfg.desktops.clear();
    let back = restored(cfg);
    assert_eq!(back.desktops.len(), 1);
    assert_eq!(back.desktops[0].name, "Desktop 1");
}

#[test]
fn triggers_round_trip_through_a_saved_workspace() {
    let mut app = new_app();
    app.core.triggers.push(Trigger::new(
        TriggerCond::SignalCross {
            ch: 0,
            id: 0x100,
            ext: false,
            signal: "EngineSpeed".to_string(),
            threshold: 3000.0f64.to_bits(),
            rising: false,
        },
        TriggerAction::StartRecording,
    ));
    app.core.triggers.push(Trigger::new(
        TriggerCond::IdPresent { ch: 0, id: 1 },
        TriggerAction::StopRecording,
    ));
    app.core.triggers[1].enabled = false;
    app.core.triggers.push(Trigger::new(
        TriggerCond::CycleTimeout { ch: 1, id: 0x200 },
        TriggerAction::Send { ch: 1, id: 0x300 },
    ));
    let mut cfg = saved(&app);
    cfg.triggers.push(TriggerCfg {
        kind: 99,
        ch: 0,
        id: 0,
        signal: String::new(),
        threshold: 0,
        rising: false,
        action: 0,
        send_ch: 0,
        send_id: 0,
        enabled: true,
    });
    let back = restored(cfg);
    assert_eq!(back.core.triggers.len(), 3, "all three shapes come back, the unknown one does not");
    match &back.core.triggers[0].cond {
        TriggerCond::SignalCross { ch, id, signal, threshold, rising, .. } => {
            assert_eq!(*ch, 0);
            assert_eq!(*id, 0x100);
            assert_eq!(signal, "EngineSpeed");
            assert_eq!(f64::from_bits(*threshold), 3000.0);
            assert!(!*rising);
        }
        _ => panic!("expected a signal trigger"),
    }
    assert!(matches!(back.core.triggers[1].action, TriggerAction::StopRecording));
    assert!(!back.core.triggers[1].enabled, "the disabled flag survives");
    assert!(matches!(back.core.triggers[2].cond, TriggerCond::CycleTimeout { ch: 1, id: 0x200 }));
    assert!(
        matches!(back.core.triggers[2].action, TriggerAction::Send { ch: 1, id: 0x300 }),
        "the send target survives as data, not an index"
    );
    assert_eq!(back.trigger_sel, None, "runtime selection does not");
}

#[test]
fn restored_signals_are_subscribed_to() {
    let mut app = new_app();
    app.graphics[0].signals.push(GfxSignal {
        ch: 0,
        id: 0x100,
        signal: "EngineSpeed".to_string(),
        visible: true,
        y_mode: YMode::Lock,
    });
    let back = restored(saved(&app));
    assert_eq!(back.graphics[0].signals[0].y_mode, YMode::Lock);
    assert!(back.core.obs.subs.iter().any(|s| s.key.signal == "EngineSpeed"));
    assert_eq!(back.core.obs.subs[0].type_tag, "u16");
}

#[test]
fn numbers_from_a_file_are_held_in_their_bounds() {
    let hold = |v: f64, lo: f64, hi: f64| f64::from_bits(clamp_bits(v.to_bits(), lo.to_bits(), hi.to_bits()));
    assert_eq!(hold(2.0, 0.01, 100.0), 2.0);
    assert_eq!(hold(0.0, 0.01, 100.0), 0.01);
    assert_eq!(hold(-5.0, 0.01, 100.0), 0.01);
    assert_eq!(hold(1e9, 0.01, 100.0), 100.0);
    assert_eq!(hold(f64::INFINITY, 0.01, 100.0), 100.0);
    assert_eq!(hold(f64::NEG_INFINITY, 0.01, 100.0), 0.01);
    assert!(hold(f64::NAN, 0.01, 100.0).is_nan());

    let mut cfg = saved(&new_app());
    cfg.replay_speed = 1e6f64.to_bits();
    cfg.graphics[0].time_window_s = 0.0f64.to_bits();
    cfg.trace_windows[0].dir = 9;
    let back = restored(cfg);
    assert_eq!(f64::from_bits(back.replay_speed), 100.0);
    assert_eq!(f64::from_bits(back.graphics[0].time_window_s), 0.1);
    assert_eq!(back.trace_windows[0].dir, 2);
}

#[test]
fn an_unreadable_config_is_ignored_and_told() {
    let mut app = new_app();
    app.load_config(None, &Vec::new());
    assert_eq!(app.status, "stopped");
    app.load_config(Some(Err("line 1".to_string())), &Vec::new());
    assert_eq!(app.status, "config ignored: line 1");
    let mut other = new_app();
    other.trace_windows[0].filter = "abc".to_string();
    app.load_config(Some(Ok(saved(&other))), &files());
    assert_eq!(app.trace_windows[0].filter, "abc");
}

#[test]
fn paths_are_resolved_where_the_file_stands() {
    let mut cfg = saved(&new_app());
    cfg.resolve_paths(
        vec![Some("/proj/assets/sample.dbc".to_string()), None],
        PathStyle::Unix,
    );
    assert_eq!(cfg.channels[0].dbc_path, "/proj/assets/sample.dbc");
    assert_eq!(cfg.channels[1].dbc_path, "assets/motbus.dbc");
}

#[test]
fn an_fd_entry_comes_back_as_one() {
    let mut app = new_app();
    app.core.tx_list[0].flags = FrameFlags::fd();
    let back = restored(saved(&app));
    assert!(back.core.tx_list[0].flags.contains(FrameFlags::fd()));
    assert!(!back.core.tx_list[1].flags.contains(FrameFlags::fd()));
}
