#![allow(dead_code)]
use roxy_can::app::{App, Mode};
use roxy_can::bus_command::BusCommand;
use roxy_can::bus_ingest::{dbc_cycle_us, decode_on};
use roxy_can::can::frame::{CanFrame, Direction, FrameFlags};
use roxy_can::dbc::{load_dbc_str, DecodedSignal, RawValue};
use roxy_can::dbc_merge::FileText;
use roxy_can::export::{CycleTexts, VerdictTexts};
use roxy_can::monitor::{Kind, Latch};
use roxy_can::observe::{SigKey, SAMPLE_INTERVAL_US};
use roxy_can::sim::ValueSrc;
use roxy_can::table::key_of_message;
use roxy_can::triggers::{Trigger, TriggerAction, TriggerCond};
use roxy_can::workspace::{GfxSignal, SigScope, YMode};
use std::sync::Arc;

const SAMPLE_DBC: &str = r#"VERSION "sample"

NS_ :

BU_: EngineECU ChassisECU Dashboard

BO_ 256 EngineStatus: 8 EngineECU
 SG_ EngineSpeed : 0|16@1+ (0.25,0) [0|8000] "rpm" Dashboard,ChassisECU
 SG_ ThrottlePos : 16|8@1+ (0.5,0) [0|100] "%" Dashboard,ChassisECU

BO_ 512 WheelSpeed: 8 ChassisECU
 SG_ FrontLeft : 0|16@1+ (0.01,0) [0|300] "km/h" Dashboard

BO_ 800 BrakeInfo: 8 ChassisECU
 SG_ BrakePressure : 7|16@0+ (0.1,0) [0|200] "bar" Dashboard
"#;

const MOTBUS_DBC: &str = r#"VERSION "motbus"

NS_ :

BU_: Engine ABS GearBox DashBoard

BO_ 100 EngineData: 8 Engine
 SG_ EngTemp : 0|8@1+ (1,-40) [0|0] "degC" DashBoard

BO_ 199 WheelInfo: 8 ABS
 SG_ Wheel : 0|16@1+ (1,0) [0|0] "" DashBoard

BO_ 200 Brake: 8 ABS
 SG_ Pedal : 0|8@1+ (1,0) [0|0] "" DashBoard

BO_ 201 ABSdata: 8 ABS
 SG_ CarSpeed : 0|16@1+ (1,0) [0|0] "" DashBoard

BA_DEF_ BO_  "CycleTime" INT 0 10000;
BA_DEF_DEF_  "CycleTime" 100;
BA_ "CycleTime" BO_ 100 133;
BA_ "CycleTime" BO_ 201 50;
"#;

fn file(content: &str, sum: u64) -> Result<FileText, String> {
    Ok(FileText { content: content.to_string(), sum })
}

fn new_app() -> App {
    App::new(&vec![vec![file(SAMPLE_DBC, 1)], vec![file(MOTBUS_DBC, 2)]])
}

fn load(app: &mut App, ch: usize, dbc: &str) {
    app.core.channels[ch].dbc = Some(Arc::new(load_dbc_str(dbc).unwrap()));
}

fn start(app: &mut App) {
    app.send(BusCommand::StartVirtual { logs: Vec::new(), opened: Ok("run.asc".to_string()) });
}

fn phys(d: &DecodedSignal) -> f64 {
    let factor = f64::from_bits(d.factor);
    let offset = f64::from_bits(d.offset);
    match d.value {
        RawValue::Integer(v) => v as f64 * factor + offset,
        RawValue::Single(bits) => f32::from_bits(bits) as f64 * factor + offset,
        RawValue::Double(bits) => f64::from_bits(bits) * factor + offset,
    }
}

/// What a source gives at `t_us`: a saw tooth from `lo` to `hi`.
fn ramp_at(s: &ValueSrc, t_us: u64) -> Option<u64> {
    let (lo, hi) = (f64::from_bits(s.lo), f64::from_bits(s.hi));
    let part = ((t_us + s.phase_us) % s.period_us) as f64 / s.period_us as f64;
    Some((lo + (hi - lo) * part).round() as u64)
}

fn crossings(app: &App, f: &CanFrame) -> Vec<bool> {
    let decoded = decode_on(&app.core.channels, f);
    app.core
        .triggers
        .iter()
        .map(|t| match &t.cond {
            TriggerCond::SignalCross { signal, threshold, rising, .. } => {
                let limit = f64::from_bits(*threshold);
                decoded.iter().find(|d| d.name == *signal).is_some_and(|d| {
                    if *rising { phys(d) >= limit } else { phys(d) <= limit }
                })
            }
            _ => false,
        })
        .collect()
}

fn act(app: &mut App, actions: Vec<TriggerAction>, at_us: u64) {
    for a in actions {
        let mut status = String::new();
        app.core.run_action(
            a,
            at_us,
            &Vec::new(),
            &Vec::new(),
            Ok("trigger.asc".to_string()),
            &mut status,
        );
        if !status.is_empty() {
            app.status = status;
        }
    }
}

/// One step in which `polled` arrives and the clock of the source reads `now_us`.
fn step(app: &mut App, polled: Vec<CanFrame>, now_us: u64) {
    let raws: Vec<Vec<Option<u64>>> = app.core.injected.iter().map(|_| Vec::new()).collect();
    app.core.open_step(polled, now_us, SAMPLE_INTERVAL_US, &raws);
    let due = app.core.due_slots();
    let values: Vec<Vec<Vec<Option<u64>>>> = due
        .iter()
        .zip(app.core.tx_list.iter())
        .map(|(slots, tx)| {
            slots.iter().map(|t| tx.srcs.iter().map(|s| ramp_at(s, *t)).collect()).collect()
        })
        .collect();
    app.core.emit_due(&values);
    app.core.poll_blocks();
    let (tol, grace) = (app.spec_tol_pct, app.spec_grace);
    let mut k = 0;
    while k < app.core.buf.len() {
        let f = app.core.buf[k];
        let crossed = crossings(app, &f);
        let actions = app.core.eval_triggers(&f, &crossed);
        act(app, actions, f.t_us);
        let mut status = String::new();
        app.core.take_frame(f, SAMPLE_INTERVAL_US, &mut status);
        k += 1;
    }
    let sim = app.core.sim_t_us;
    let actions = app.core.eval_timeout_triggers(sim, grace, &Vec::new());
    act(app, actions, sim);
    app.core.close_step(k > 0, tol, grace);
}

/// One step at `t_us` of simulated time in which `frames` arrive.
fn receive(app: &mut App, t_us: u64, frames: Vec<CanFrame>) {
    app.core.sim_t_us = t_us;
    step(app, frames, t_us);
}

fn run_sim(app: &mut App, ticks: u32, step_us: u64) {
    for i in 1..=ticks {
        let t = u64::from(i) * step_us;
        receive(app, t, Vec::new());
    }
}

fn frame_at(t_us: u64, id: u32, len: u8, dir: Direction) -> CanFrame {
    CanFrame {
        t_us,
        channel: 0,
        id,
        extended: false,
        len,
        data: [0; 64],
        dir,
        flags: FrameFlags::none(),
    }
}

fn rx_frame(t_us: u64, id: u32, len: u8, flags: FrameFlags) -> CanFrame {
    CanFrame { flags, ..frame_at(t_us, id, len, Direction::Rx) }
}

const SPEC_DBC: &str = r#"VERSION "roxy-can spec test"

NS_ :

BU_: ECU

BO_ 100 Periodic: 8 ECU
 SG_ S : 0|8@1+ (1,0) [0|0] "" ECU

BO_ 200 Undeclared: 8 ECU
 SG_ S : 0|8@1+ (1,0) [0|0] "" ECU

BO_ 300 EventMsg: 8 ECU
 SG_ S : 0|8@1+ (1,0) [0|0] "" ECU

BA_DEF_ BO_  "GenMsgCycleTime" INT 0 10000;
BA_ "GenMsgCycleTime" BO_ 100 100;
BA_ "GenMsgCycleTime" BO_ 300 0;
"#;

/// A virtual bus with a silent generator, so everything the monitor sees arrived through
/// `receive`.
fn spec_app() -> App {
    let mut app = new_app();
    load(&mut app, 0, SPEC_DBC);
    app.core.tx_list.retain(|t| t.channel != 0);
    start(&mut app);
    app
}

fn flagged(app: &App, ch: u8, id: u32, kind: Kind) -> bool {
    app.core.monitor.verdict(ch, id, false, kind).is_some()
}

fn verdict(app: &App, ch: u8, id: u32, kind: Kind) -> Latch {
    app.core.monitor.verdict(ch, id, false, kind).unwrap()
}

#[test]
fn an_identifier_the_database_lacks_is_reported_unknown() {
    let mut app = spec_app();
    receive(&mut app, 0, vec![frame_at(0, 0x777, 8, Direction::Rx)]);
    assert!(flagged(&app, 0, 0x777, Kind::Unknown));
    receive(
        &mut app,
        10_000,
        vec![frame_at(10_000, 100, 8, Direction::Rx)],
    );
    assert!(
        !flagged(&app, 0, 100, Kind::Unknown),
        "a declared id is not a violation"
    );
}

#[test]
fn a_bus_with_no_database_reports_nothing_at_all() {
    let mut app = spec_app();
    app.core.channels[0].dbc = None;
    assert!(app.core.channels[0].dbc.is_none(), "test setup: no database");
    receive(&mut app, 0, vec![frame_at(0, 0x777, 3, Direction::Rx)]);
    receive(&mut app, 900_000, vec![]);
    assert!(app.core.monitor.rows.len() == 0, "no database, no opinion");
}

/// The frame facts are judged only for traffic we did not produce: driving a
/// signal past the base length widens a Tx frame on purpose, and the
/// generator row already offers to restore a hand-tuned period.
#[test]
fn our_own_transmission_is_never_a_cycle_or_dlc_violation() {
    let mut tx = spec_app();
    receive(&mut tx, 0, vec![frame_at(0, 100, 6, Direction::Tx)]);
    receive(
        &mut tx,
        115_000,
        vec![frame_at(115_000, 100, 6, Direction::Tx)],
    );
    assert!(!flagged(&tx, 0, 100, Kind::Dlc), "we chose that length");
    assert!(!flagged(&tx, 0, 100, Kind::Cycle));

    let mut rx = spec_app();
    receive(&mut rx, 0, vec![frame_at(0, 100, 6, Direction::Rx)]);
    receive(
        &mut rx,
        115_000,
        vec![frame_at(115_000, 100, 6, Direction::Rx)],
    );
    assert!(
        flagged(&rx, 0, 100, Kind::Dlc),
        "the same frame received is"
    );
    assert!(flagged(&rx, 0, 100, Kind::Cycle));
}

#[test]
fn a_frame_shorter_than_the_declared_size_is_a_dlc_mismatch() {
    let mut app = spec_app();
    receive(&mut app, 0, vec![frame_at(0, 100, 6, Direction::Rx)]);
    assert_eq!(
        verdict(&app, 0, 100, Kind::Dlc),
        Latch { count: 1, first_t_us: 0, last_t_us: 0, declared: 8, measured: 6 }
    );
}

#[test]
fn timing_is_silent_where_the_database_declares_no_cycle() {
    let mut app = spec_app();
    assert!(
        dbc_cycle_us(&app.core.channels, 0, 200).is_none(),
        "test setup: 200 declares no period"
    );
    receive(&mut app, 0, vec![frame_at(0, 200, 8, Direction::Rx)]);
    receive(
        &mut app,
        5_000_000,
        vec![frame_at(5_000_000, 200, 8, Direction::Rx)],
    );
    assert!(
        !flagged(&app, 0, 200, Kind::Cycle),
        "five seconds between two frames promises nothing was broken"
    );
    assert!(!flagged(&app, 0, 200, Kind::Missing));
}

#[test]
fn an_event_triggered_message_is_never_reported_missing() {
    let mut app = spec_app();
    assert_eq!(
        dbc_cycle_us(&app.core.channels, 0, 300),
        Some(0),
        "test setup: a declared 0 means event-triggered"
    );
    receive(&mut app, 0, vec![frame_at(0, 300, 8, Direction::Rx)]);
    receive(&mut app, 5_000_000, vec![]);
    assert!(!flagged(&app, 0, 300, Kind::Missing));
    assert!(!flagged(&app, 0, 300, Kind::Cycle));
}

/// The report must not become a list of everyone we chose not to simulate:
/// a virtual bus only ever carries the nodes the user switched on.
#[test]
fn a_message_that_never_appeared_is_not_reported_missing() {
    let mut app = spec_app();
    assert_eq!(
        dbc_cycle_us(&app.core.channels, 0, 100),
        Some(100_000),
        "test setup: 100 is declared periodic"
    );
    run_sim(&mut app, 20, 50_000);
    assert!(
        app.core.monitor.rows.len() == 0,
        "never seen is not the same as dropped"
    );
}

#[test]
fn a_message_that_went_silent_beyond_the_grace_is_reported_missing() {
    let mut app = spec_app();
    receive(&mut app, 0, vec![frame_at(0, 100, 8, Direction::Rx)]);
    receive(
        &mut app,
        100_000,
        vec![frame_at(100_000, 100, 8, Direction::Rx)],
    );
    receive(&mut app, 300_000, vec![]);
    assert!(
        !flagged(&app, 0, 100, Kind::Missing),
        "two silent periods is still inside a grace of three"
    );
    receive(&mut app, 420_000, vec![]);
    assert!(flagged(&app, 0, 100, Kind::Missing));
    assert_eq!(verdict(&app, 0, 100, Kind::Missing).measured, 320_000);
}

#[test]
fn the_cycle_check_uses_the_last_interval_not_the_running_average() {
    let mut app = spec_app();
    for i in 0..10u64 {
        let t = i * 100_000;
        receive(&mut app, t, vec![frame_at(t, 100, 8, Direction::Rx)]);
    }
    assert!(!flagged(&app, 0, 100, Kind::Cycle), "ten on-time frames");
    // 115 ms is 15% late, which the aggregate's running average smooths down
    // to 1.5% and would never report.
    receive(
        &mut app,
        1_015_000,
        vec![frame_at(1_015_000, 100, 8, Direction::Rx)],
    );
    assert!(
        flagged(&app, 0, 100, Kind::Cycle),
        "agg.cycle_us reads 1.5% off here; only the raw interval is 15%"
    );
    assert_eq!(verdict(&app, 0, 100, Kind::Cycle).measured, 115_000);
}

#[test]
fn the_tolerance_setting_decides_how_late_is_late() {
    let mut app = spec_app();
    for i in 0..10u64 {
        let t = i * 100_000;
        receive(&mut app, t, vec![frame_at(t, 100, 8, Direction::Rx)]);
    }
    app.spec_tol_pct = 20;
    receive(
        &mut app,
        1_015_000,
        vec![frame_at(1_015_000, 100, 8, Direction::Rx)],
    );
    assert!(
        !flagged(&app, 0, 100, Kind::Cycle),
        "15% late is clean at a 20% tolerance"
    );
    app.spec_tol_pct = 5;
    receive(
        &mut app,
        1_126_000,
        vec![frame_at(1_126_000, 100, 8, Direction::Rx)],
    );
    assert!(
        flagged(&app, 0, 100, Kind::Cycle),
        "the next interval is only 11% late, but the tolerance now says 5"
    );
}

#[test]
fn the_grace_setting_decides_when_silence_counts_as_dropout() {
    let mut app = spec_app();
    receive(&mut app, 0, vec![frame_at(0, 100, 8, Direction::Rx)]);
    app.spec_grace = 10;
    receive(&mut app, 950_000, vec![]);
    assert!(
        !flagged(&app, 0, 100, Kind::Missing),
        "9.5 periods of silence is inside a grace of ten"
    );
    app.spec_grace = 2;
    receive(&mut app, 960_000, vec![]);
    assert!(
        flagged(&app, 0, 100, Kind::Missing),
        "tightening the grace convicts the same continuing silence"
    );
}

#[test]
fn one_bad_interval_is_counted_once_and_never_forgotten() {
    let mut app = spec_app();
    receive(&mut app, 0, vec![frame_at(0, 100, 8, Direction::Rx)]);
    receive(
        &mut app,
        200_000,
        vec![frame_at(200_000, 100, 8, Direction::Rx)],
    );
    assert_eq!(verdict(&app, 0, 100, Kind::Cycle).count, 1);
    for i in 1..=5u64 {
        // Continue the declared spacing from 200 ms, so each of these is a
        // clean interval rather than another gap.
        let t = 200_000 + i * 100_000;
        receive(&mut app, t, vec![frame_at(t, 100, 8, Direction::Rx)]);
    }
    assert_eq!(
        verdict(&app, 0, 100, Kind::Cycle).count,
        1,
        "a verdict from min/max would keep convicting"
    );
}

#[test]
fn the_first_sample_of_a_message_is_never_a_cycle_violation() {
    let mut app = spec_app();
    // Arrives five periods late, so the only thing standing between this and
    // a verdict is that nothing preceded it.
    receive(
        &mut app,
        500_000,
        vec![frame_at(500_000, 100, 8, Direction::Rx)],
    );
    assert_eq!(
        app.core.aggs.get(key_of_message(0, 100, false)).unwrap().count,
        1,
        "test setup: one frame, no interval yet"
    );
    assert!(!flagged(&app, 0, 100, Kind::Cycle));
}

#[test]
fn a_step_that_brought_no_new_frame_is_not_a_new_interval() {
    let mut app = spec_app();
    receive(&mut app, 0, vec![frame_at(0, 100, 8, Direction::Rx)]);
    receive(
        &mut app,
        100_000,
        vec![frame_at(100_000, 100, 8, Direction::Rx)],
    );
    assert!(!flagged(&app, 0, 100, Kind::Cycle), "test setup: on time");
    // Nothing arrives for two steps. The aggregate has not moved, so there
    // is no period to measure -- only the silence clock runs here.
    receive(&mut app, 200_000, vec![]);
    receive(&mut app, 300_000, vec![]);
    assert!(!flagged(&app, 0, 100, Kind::Cycle));
}

#[test]
fn replay_traffic_never_raises_a_missing_violation() {
    let mut app = spec_app();
    app.core.mode = Mode::Replay;
    receive(&mut app, 0, vec![frame_at(0, 100, 8, Direction::Rx)]);
    receive(&mut app, 5_000_000, vec![]);
    assert!(
        !flagged(&app, 0, 100, Kind::Missing),
        "a log's clock cannot say what is still talking"
    );
    // The frame facts stay judged in replay, because they need no clock.
    receive(
        &mut app,
        5_100_000,
        vec![frame_at(5_100_000, 100, 5, Direction::Rx)],
    );
    assert!(flagged(&app, 0, 100, Kind::Dlc));
}

#[test]
fn a_paused_clock_does_not_make_a_message_missing() {
    let mut app = spec_app();
    receive(&mut app, 0, vec![frame_at(0, 100, 8, Direction::Rx)]);
    app.core.trace_paused = true;
    assert!(app.core.trace_paused, "test setup: paused");
    // The real loop never calls `tick` while paused; driving it anyway
    // shows the verdict is gated on the pause itself, not on a missing step.
    for i in 1..=10u64 {
        receive(&mut app, i * 200_000, vec![]);
    }
    assert!(!flagged(&app, 0, 100, Kind::Missing));
}

#[test]
fn a_verdict_follows_its_bus_when_an_earlier_bus_is_deleted() {
    let mut app = spec_app();
    // Move the fixture database onto the second bus and leave the first
    // without one, then delete the first.
    app.core.channels[1].dbc = app.core.channels[0].dbc.take();
    receive(
        &mut app,
        0,
        vec![CanFrame {
            channel: 1,
            ..frame_at(0, 100, 6, Direction::Rx)
        }],
    );
    assert!(flagged(&app, 1, 100, Kind::Dlc), "test setup: on bus 1");
    app.remove_channel(0);
    assert!(
        flagged(&app, 0, 100, Kind::Dlc),
        "the row must move with the bus, not stay behind at the old index"
    );
}

#[test]
fn the_monitor_forgets_everything_when_a_new_run_starts() {
    let mut app = spec_app();
    receive(&mut app, 0, vec![frame_at(0, 100, 8, Direction::Rx)]);
    receive(
        &mut app,
        200_000,
        vec![frame_at(200_000, 100, 8, Direction::Rx)],
    );
    assert!(
        flagged(&app, 0, 100, Kind::Cycle),
        "test setup: a verdict worth forgetting"
    );
    start(&mut app);
    assert!(app.core.monitor.rows.len() == 0, "the report belongs to a run");
    assert_eq!(
        app.core.monitor.previous(0, 100, false),
        None,
        "and so does the interval memory"
    );
    // Five seconds later on a clock that started over. Against the previous
    // run's interval this would read as one enormous measured period.
    receive(
        &mut app,
        5_000_000,
        vec![frame_at(5_000_000, 100, 8, Direction::Rx)],
    );
    assert!(
        !flagged(&app, 0, 100, Kind::Cycle),
        "a stale interval from the old run would convict this frame"
    );
}


#[test]
fn a_cycle_timeout_trigger_fires_on_each_dropout() {
    let mut app = spec_app();
    for id in [100, 0x777] {
        app.core.triggers.push(Trigger::new(
            TriggerCond::CycleTimeout { ch: 0, id },
            TriggerAction::StartRecording,
        ));
    }
    receive(&mut app, 0, vec![frame_at(0, 100, 8, Direction::Rx)]);
    assert!(!app.core.recorder.recording, "traffic present: no dropout");
    assert_eq!(app.core.triggers[0].fired, 0);
    receive(&mut app, 450_000, vec![]);
    assert!(app.core.recorder.recording, "4.5 silent periods is past grace 3");
    assert_eq!(app.core.triggers[0].fired, 1);
    assert_eq!(
        app.core.triggers[1].fired, 0,
        "a message never seen is no opinion, not a dropout"
    );
    receive(&mut app, 500_000, vec![frame_at(500_000, 100, 8, Direction::Rx)]);
    receive(&mut app, 900_000, vec![]);
    assert_eq!(app.core.triggers[0].fired, 2, "resumed then silent again: re-fires");
}

/// The report carries its own premises -- which databases, the tolerance and grace in
/// effect, how many messages declared a period -- plus every latched row.
#[test]
fn the_spec_report_export_includes_its_premises_and_rows() {
    let mut app = new_app();
    start(&mut app);
    app.core.tx_list.retain(|t| t.channel != 0);
    receive(&mut app, 1_000, vec![rx_frame(1_000, 0x777, 8, FrameFlags::none())]);
    assert!(flagged(&app, 0, 0x777, Kind::Unknown));
    app.spec_tol_pct = 5;
    app.spec_grace = 4;
    let texts: Vec<VerdictTexts> = app
        .core
        .monitor
        .rows
        .items
        .iter()
        .map(|(_, l)| VerdictTexts {
            declared: l.declared.to_string(),
            measured: l.measured.to_string(),
            first_s: format!("{:.3}", l.first_t_us as f64 / 1e6),
            last_s: format!("{:.3}", l.last_t_us as f64 / 1e6),
        })
        .collect();
    let content = app.export_spec_csv(&texts);
    assert!(content.contains("# database,CAN1,assets/sample.dbc"), "which database each bus carried");
    assert!(content.contains("# tolerance,+/-5%"));
    assert!(content.contains("# grace,4x declared period"));
    assert!(
        content.contains("# periodic messages declared,4\n"),
        "how many messages had a period to break: {}",
        content
    );
    assert!(
        content.contains("CAN1,777,not in database,Unknown id"),
        "the latched row itself: {}",
        content
    );
}

#[test]
fn csv_exports_match_window_state() {
    let mut app = new_app();
    let key = SigKey { ch: 0, id: 0x100, ext: false, signal: "EngineSpeed".to_string() };
    app.send(BusCommand::Subscribe { key });
    let shown = || GfxSignal {
        ch: 0,
        id: 0x100,
        signal: "EngineSpeed".to_string(),
        visible: true,
        y_mode: YMode::Auto,
    };
    app.graphics[0].signals.push(shown());
    app.data_windows[0].signals.push(shown());
    start(&mut app);
    assert_eq!(app.export_graphics_csv(0, &vec![Vec::new()]), None);
    assert_eq!(app.status, "export: no signal history yet");
    assert!(app.export_trace(0).is_none());
    assert_eq!(app.status, "export: trace is empty");
    let mut f = rx_frame(60_000, 0x100, 2, FrameFlags::none());
    f.data[0] = 4;
    receive(&mut app, 60_000, vec![f]);
    receive(&mut app, 120_000, vec![CanFrame { t_us: 120_000, ..f }]);

    let texts = vec![CycleTexts {
        min: "60.000".to_string(),
        avg: "60.000".to_string(),
        max: "60.000".to_string(),
    }];
    assert_eq!(
        app.export_stats_csv(0, &texts).unwrap(),
        "bus,id,name,count,cycle_min_ms,cycle_avg_ms,cycle_max_ms,len,flags\nCAN1,256,EngineStatus,2,60.000,60.000,60.000,2,\n"
    );
    assert_eq!(
        app.export_messages_csv(0, &vec!["60.000".to_string()]).unwrap(),
        "bus,id,name,dir,count,cycle_ms,len,flags,data\nCAN1,256,EngineStatus,Rx,2,60.000,2,,04 00\n"
    );
    assert_eq!(
        app.export_graphics_csv(0, &vec![vec!["1".to_string(), "1".to_string()]]).unwrap(),
        "time_us,bus,signal,value\n60000,CAN1,EngineSpeed,1\n120000,CAN1,EngineSpeed,1\n"
    );
    let data = app.export_data_csv(0, &vec!["1".to_string()]).unwrap();
    assert_eq!(data, "bus,signal,value,unit,type,label\nCAN1,EngineSpeed,1,rpm,u16,\n");

    let frames = app.export_trace(0).expect("the trace has frames");
    assert_eq!(frames.len(), 2);
    app.finish_trace_export(frames.len(), "out.asc", Ok(()));
    assert_eq!(app.status, "exported 2 of 2 frames to out.asc");
    app.finish_trace_export(2, "out.asc", Err("disk full".to_string()));
    assert_eq!(app.status, "export failed: disk full");
    app.trace_windows[0].scope = SigScope::Manual;
    assert!(app.export_trace(0).is_none());
    assert_eq!(app.status, "export: no frames pass the trace filter");
    app.write_export("report.csv", Ok(()));
    assert_eq!(app.status, "exported to report.csv");
    app.write_export("report.csv", Err("denied".to_string()));
    assert_eq!(app.status, "export failed: denied");
    assert!(app.export_stats_csv(9, &Vec::new()).is_none());
    assert!(app.export_messages_csv(9, &Vec::new()).is_none());
    assert!(app.export_data_csv(9, &Vec::new()).is_none());
    assert!(app.export_graphics_csv(9, &Vec::new()).is_none());
}

const MUX_SAMPLE_DBC: &str = r#"VERSION "roxy-can mux sampling test"

NS_ :

BU_: ECU

BO_ 400 Muxed: 8 ECU
 SG_ Switch M : 0|8@1+ (1,0) [0|0] "" ECU
 SG_ G1_A m1 : 16|16@1+ (0.1,0) [0|0] "" ECU
 SG_ G2_C m2 : 16|16@1+ (0.5,0) [0|0] "" ECU
"#;

fn mux_frame(t_us: u64, switch: u8) -> CanFrame {
    let mut f = frame_at(t_us, 400, 8, Direction::Rx);
    f.data[0] = switch;
    f.data[2] = 100;
    f
}

fn mux_app() -> App {
    let mut app = new_app();
    load(&mut app, 0, MUX_SAMPLE_DBC);
    app.core.tx_list.retain(|t| t.channel != 0);
    for name in ["G1_A", "G2_C"] {
        let key = SigKey { ch: 0, id: 400, ext: false, signal: name.to_string() };
        app.send(BusCommand::Subscribe { key });
    }
    start(&mut app);
    app
}

fn samples(app: &App, name: &str) -> usize {
    app.core.obs.subs.iter().find(|s| s.key.signal == name).unwrap().history.len()
}

#[test]
fn a_signal_of_the_inactive_group_is_not_sampled() {
    let mut app = mux_app();
    receive(&mut app, 0, vec![mux_frame(0, 1)]);
    assert_eq!(samples(&app, "G1_A"), 1);
    assert_eq!(samples(&app, "G2_C"), 0, "the inactive group has no value to record");
}

#[test]
fn a_group_signal_gains_samples_once_its_group_is_switched_in() {
    let mut app = mux_app();
    receive(&mut app, 0, vec![mux_frame(0, 1)]);
    receive(&mut app, 100_000, vec![mux_frame(100_000, 2)]);
    assert_eq!(samples(&app, "G1_A"), 1);
    assert_eq!(samples(&app, "G2_C"), 1);
}
