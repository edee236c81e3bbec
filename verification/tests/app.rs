#![allow(dead_code)]
use roxy_can::app::{push_recent, text_due, App, Mode, Play, Start};
use roxy_can::app_bus::Dropped;
use roxy_can::app_text::trace_match;
use roxy_can::bus_command::BusCommand;
use roxy_can::bus_ingest::{dbc_cycle_us, decode_on};
use roxy_can::bus::{MAX_SCAN_FRAMES, MAX_TX_CATCHUP};
use roxy_can::bus_run::{span_of, BusAction, OpenedLog};
use roxy_can::can::frame::{CanFrame, Direction, FrameFlags};
use roxy_can::channel::{channel_name, NodeRole};
use roxy_can::dbc::{load_dbc_str, DecodedSignal, RawValue};
use roxy_can::dbc_merge::FileText;
use roxy_can::decode::extract_raw;
use roxy_can::observe::{SigKey, SAMPLE_INTERVAL_US};
use roxy_can::observers::Reading;
use roxy_can::sim::{SrcKind, ValueSrc};
use roxy_can::table::key_of_message;
use roxy_can::triggers::{Trigger, TriggerAction, TriggerCond};
use roxy_can::workspace::SigScope;
use std::sync::Arc;

const SAMPLE_DBC: &str = r#"VERSION "sample"

NS_ :

BU_: EngineECU ChassisECU Dashboard

BO_ 256 EngineStatus: 8 EngineECU
 SG_ EngineSpeed : 0|16@1+ (0.25,0) [0|8000] "rpm" Dashboard,ChassisECU
 SG_ ThrottlePos : 16|8@1+ (0.5,0) [0|100] "%" Dashboard,ChassisECU

BO_ 512 WheelSpeed: 8 ChassisECU
 SG_ FrontLeft : 0|16@1+ (0.01,0) [0|300] "km/h" Dashboard

BO_ 800 BrakeInfo: 8 ChassisECU
 SG_ BrakePressure : 7|16@0+ (0.1,0) [0|200] "bar" Dashboard
"#;

const MOTBUS_DBC: &str = r#"VERSION "motbus"

NS_ :

BU_: Engine ABS GearBox DashBoard

BO_ 100 EngineData: 8 Engine
 SG_ EngTemp : 0|8@1+ (1,-40) [0|0] "degC" DashBoard

BO_ 199 WheelInfo: 8 ABS
 SG_ Wheel : 0|16@1+ (1,0) [0|0] "" DashBoard

BO_ 200 Brake: 8 ABS
 SG_ Pedal : 0|8@1+ (1,0) [0|0] "" DashBoard

BO_ 201 ABSdata: 8 ABS
 SG_ CarSpeed : 0|16@1+ (1,0) [0|0] "" DashBoard

BA_DEF_ BO_  "CycleTime" INT 0 10000;
BA_DEF_DEF_  "CycleTime" 100;
BA_ "CycleTime" BO_ 100 133;
BA_ "CycleTime" BO_ 201 50;
"#;

fn file(content: &str, sum: u64) -> Result<FileText, String> {
    Ok(FileText { content: content.to_string(), sum })
}

fn new_app() -> App {
    App::new(&vec![vec![file(SAMPLE_DBC, 1)], vec![file(MOTBUS_DBC, 2)]])
}

fn load(app: &mut App, ch: usize, dbc: &str) {
    app.core.channels[ch].dbc = Some(Arc::new(load_dbc_str(dbc).unwrap()));
}

fn start(app: &mut App) {
    app.send(BusCommand::StartVirtual { logs: Vec::new(), opened: Ok("run.asc".to_string()) });
}

fn phys(d: &DecodedSignal) -> f64 {
    let factor = f64::from_bits(d.factor);
    let offset = f64::from_bits(d.offset);
    match d.value {
        RawValue::Integer(v) => v as f64 * factor + offset,
        RawValue::Single(bits) => f32::from_bits(bits) as f64 * factor + offset,
        RawValue::Double(bits) => f64::from_bits(bits) * factor + offset,
    }
}

/// What a source gives at `t_us`: a saw tooth from `lo` to `hi`.
fn ramp_at(s: &ValueSrc, t_us: u64) -> Option<u64> {
    let (lo, hi) = (f64::from_bits(s.lo), f64::from_bits(s.hi));
    let part = ((t_us + s.phase_us) % s.period_us) as f64 / s.period_us as f64;
    Some((lo + (hi - lo) * part).round() as u64)
}

fn crossings(app: &App, f: &CanFrame) -> Vec<bool> {
    let decoded = decode_on(&app.core.channels, f);
    app.core
        .triggers
        .iter()
        .map(|t| match &t.cond {
            TriggerCond::SignalCross { signal, threshold, rising, .. } => {
                let limit = f64::from_bits(*threshold);
                decoded.iter().find(|d| d.name == *signal).is_some_and(|d| {
                    if *rising { phys(d) >= limit } else { phys(d) <= limit }
                })
            }
            _ => false,
        })
        .collect()
}

fn act(app: &mut App, actions: Vec<TriggerAction>, at_us: u64) {
    for a in actions {
        let mut status = String::new();
        app.core.run_action(
            a,
            at_us,
            &Vec::new(),
            &Vec::new(),
            Ok("trigger.asc".to_string()),
            &mut status,
        );
        if !status.is_empty() {
            app.status = status;
        }
    }
}

/// One step in which `polled` arrives and the clock of the source reads `now_us`.
fn step(app: &mut App, polled: Vec<CanFrame>, now_us: u64) {
    let raws: Vec<Vec<Option<u64>>> = app.core.injected.iter().map(|_| Vec::new()).collect();
    app.core.open_step(polled, now_us, SAMPLE_INTERVAL_US, &raws);
    let due = app.core.due_slots();
    let values: Vec<Vec<Vec<Option<u64>>>> = due
        .iter()
        .zip(app.core.tx_list.iter())
        .map(|(slots, tx)| {
            slots.iter().map(|t| tx.srcs.iter().map(|s| ramp_at(s, *t)).collect()).collect()
        })
        .collect();
    app.core.emit_due(&values);
    app.core.poll_blocks();
    let (tol, grace) = (app.spec_tol_pct, app.spec_grace);
    let mut k = 0;
    while k < app.core.buf.len() {
        let f = app.core.buf[k];
        let crossed = crossings(app, &f);
        let actions = app.core.eval_triggers(&f, &crossed);
        act(app, actions, f.t_us);
        let mut status = String::new();
        app.core.take_frame(f, SAMPLE_INTERVAL_US, &mut status);
        k += 1;
    }
    let sim = app.core.sim_t_us;
    let actions = app.core.eval_timeout_triggers(sim, grace, &Vec::new());
    act(app, actions, sim);
    app.core.close_step(k > 0, tol, grace);
}

/// One step at `t_us` of simulated time in which `frames` arrive.
fn receive(app: &mut App, t_us: u64, frames: Vec<CanFrame>) {
    app.core.sim_t_us = t_us;
    step(app, frames, t_us);
}

fn run_sim(app: &mut App, ticks: u32, step_us: u64) {
    for i in 1..=ticks {
        let t = u64::from(i) * step_us;
        receive(app, t, Vec::new());
    }
}

fn frame_at(t_us: u64, id: u32, len: u8, dir: Direction) -> CanFrame {
    CanFrame {
        t_us,
        channel: 0,
        id,
        extended: false,
        len,
        data: [0; 64],
        dir,
        flags: FrameFlags::none(),
    }
}

fn rx_frame(t_us: u64, id: u32, len: u8, flags: FrameFlags) -> CanFrame {
    CanFrame { flags, ..frame_at(t_us, id, len, Direction::Rx) }
}

fn slots_of(app: &App, id: u32) -> Vec<u64> {
    app.core.trace.frames.iter().filter(|f| f.id == id).map(|f| f.t_us).collect()
}

fn emitted(app: &App, id: u32) -> Vec<CanFrame> {
    app.core.trace.frames.iter().filter(|f| f.id == id).copied().collect()
}

fn raw_at(f: &CanFrame, start_bit: u64) -> u64 {
    extract_raw(&f.data, start_bit, 16, false)
}

fn source(name: &str, kind: SrcKind, lo: f64, hi: f64) -> ValueSrc {
    ValueSrc {
        name: name.to_string(),
        kind,
        lo: lo.to_bits(),
        hi: hi.to_bits(),
        period_us: 1_000_000,
        phase_us: 0,
        seq: Vec::new(),
        seed: 0,
        redraw_us: 0,
    }
}

#[test]
fn generator_frames_are_spaced_exactly_one_cycle() {
    let mut app = new_app();
    app.add_tx(0, 0x777);
    let tx = app.core.tx_list.last_mut().unwrap();
    tx.cycle_us = 20_000;
    tx.active = true;
    start(&mut app);
    run_sim(&mut app, 12, 7_000);
    assert_eq!(slots_of(&app, 0x777), vec![0, 20_000, 40_000, 60_000, 80_000]);
    let agg = app.core.aggs.get(key_of_message(0, 0x777, false)).expect("aggregate");
    assert_eq!((agg.min_us, agg.max_us), (20_000, 20_000));
    app.stop();
}

#[test]
fn a_tick_exactly_on_a_slot_does_not_drop_a_cycle() {
    let mut app = new_app();
    app.add_tx(0, 0x779);
    let tx = app.core.tx_list.last_mut().unwrap();
    tx.cycle_us = 20_000;
    tx.active = true;
    start(&mut app);
    run_sim(&mut app, 6, 20_000);
    assert_eq!(
        slots_of(&app, 0x779),
        vec![0, 20_000, 40_000, 60_000, 80_000, 100_000, 120_000],
        "one frame per cycle, none skipped at the boundary"
    );
}

#[test]
fn a_stalled_ui_backfills_the_slots_it_missed() {
    let mut app = new_app();
    app.add_tx(0, 0x778);
    let tx = app.core.tx_list.last_mut().unwrap();
    tx.cycle_us = 20_000;
    tx.active = true;
    start(&mut app);
    receive(&mut app, 0, Vec::new());
    receive(&mut app, 250_000, Vec::new());
    assert_eq!(
        slots_of(&app, 0x778),
        (0..13u64).map(|i| i * 20_000).collect::<Vec<_>>(),
        "the backlog was emitted, not skipped"
    );
    assert_eq!(
        app.core.tx_list.last().unwrap().next_t_us,
        260_000,
        "the schedule resumes past the stall"
    );
}

#[test]
fn a_stall_backfill_is_bounded_per_tick() {
    let mut app = new_app();
    app.add_tx(0, 0x778);
    let tx = app.core.tx_list.last_mut().unwrap();
    tx.cycle_us = 1_000;
    tx.active = true;
    start(&mut app);
    receive(&mut app, 0, Vec::new());
    receive(&mut app, 100_000_000, Vec::new());
    assert_eq!(
        slots_of(&app, 0x778).len() as u32,
        MAX_TX_CATCHUP + 1,
        "slot 0 plus the bounded burst"
    );
    assert!(
        app.core.tx_list.last().unwrap().next_t_us <= app.core.sim_t_us,
        "still behind, so the next tick keeps streaming"
    );
    receive(&mut app, 100_000_000, Vec::new());
    assert_eq!(
        slots_of(&app, 0x778).len() as u32,
        2 * MAX_TX_CATCHUP + 1,
        "each tick takes another bounded bite"
    );
}

const WIDE_DBC: &str = r#"VERSION "roxy-can test database"

NS_ :

BU_: ECU

BO_ 768 WideMsg: 16 ECU
 SG_ NearSig : 0|16@1+ (1,0) [0|65535] "" ECU
 SG_ FarSig : 72|16@1+ (1,0) [0|65535] "" ECU
"#;

fn driven_app(signal: &str, kind: SrcKind, lo: f64, hi: f64) -> App {
    let mut app = new_app();
    load(&mut app, 0, WIDE_DBC);
    app.set_node_sim(0, "ECU", true);
    let tx = app.core.tx_list.last_mut().expect("tx entry added");
    assert_eq!(tx.id, 0x300);
    tx.cycle_us = 20_000;
    tx.active = true;
    tx.srcs.push(source(signal, kind, lo, hi));
    start(&mut app);
    app
}

#[test]
fn a_driven_signal_carries_the_value_of_its_own_timestamp() {
    let mut app = driven_app("NearSig", SrcKind::Ramp, 0.0, 1000.0);
    run_sim(&mut app, 12, 7_000);
    let frames = emitted(&app, 0x300);
    let slots: Vec<u64> = frames.iter().map(|f| f.t_us).collect();
    assert_eq!(slots, vec![0, 20_000, 40_000, 60_000, 80_000]);
    let vals: Vec<u64> = frames.iter().map(|f| raw_at(f, 0)).collect();
    assert_eq!(
        vals,
        vec![0, 20, 40, 60, 80],
        "each frame must hold the ramp value at its own stamp"
    );
}

#[test]
fn the_wall_clock_cannot_move_a_generated_value() {
    let value_at = |now_us: u64| {
        let mut app = driven_app("NearSig", SrcKind::Ramp, 0.0, 1000.0);
        app.core.tx_list.last_mut().unwrap().next_t_us = 40_000;
        app.core.sim_t_us = 45_000;
        step(&mut app, Vec::new(), now_us);
        raw_at(&emitted(&app, 0x300)[0], 0)
    };
    assert_eq!(
        value_at(45_000),
        value_at(9_999_999),
        "payloads must depend on simulation time only"
    );
    assert_eq!(value_at(9_999_999), 40, "the value at the slot stamped");
}

#[test]
fn driving_a_signal_leaves_the_base_payload_alone() {
    let mut app = driven_app("NearSig", SrcKind::Ramp, 0.0, 1000.0);
    let base = app.core.tx_list.last().unwrap().data;
    run_sim(&mut app, 30, 7_000);
    assert!(
        emitted(&app, 0x300).iter().any(|f| raw_at(f, 0) != 0),
        "the source should have moved something by now"
    );
    assert_eq!(
        app.core.tx_list.last().unwrap().data,
        base,
        "a waveform sample must not become the saved base payload"
    );
}

#[test]
fn a_driven_signal_past_byte_8_widens_the_frame() {
    let mut app = driven_app("FarSig", SrcKind::Ramp, 0.0, 1000.0);
    let i = app.core.tx_list.len() - 1;
    assert!(app.set_tx_hex(i, "00 01 02 03 04 05 06 07".to_string()).0);
    app.core.tx_list[i].next_t_us = 70_000;
    receive(&mut app, 70_000, Vec::new());
    let f = emitted(&app, 0x300).pop().expect("one frame");
    assert_eq!(f.len, 12, "widened to the next legal FD length");
    assert!(f.flags.contains(FrameFlags::fd()), "widening implies FD");
    assert_eq!(raw_at(&f, 72), 70, "the driven bytes are really there");
    assert_eq!(raw_at(&f, 0), 0x0100, "the base bytes still come through");
    assert_eq!(app.core.tx_list[i].len, 8, "only the emitted frame grows, not the base");
}

#[test]
fn pin_signal_stops_only_that_signal() {
    let mut app = driven_app("NearSig", SrcKind::Ramp, 0.0, 1000.0);
    let i = app.core.tx_list.len() - 1;
    app.set_source(i, source("FarSig", SrcKind::Sine, 0.0, 100.0));
    assert_eq!(app.core.tx_list[i].srcs.len(), 2);
    assert!(app.pin_signal(i, "NearSig".to_string(), Some(250)).0);
    let names: Vec<&str> = app.core.tx_list[i].srcs.iter().map(|s| s.name.as_str()).collect();
    assert_eq!(names, ["FarSig"], "pinning must not stop the other source");
    assert_eq!(extract_raw(&app.core.tx_list[i].data, 0, 16, false), 250, "pinned into the base");
    assert_eq!(
        app.core.tx_list[i].data_text,
        "FA 00 00 00 00 00 00 00 00 00 00 00 00 00 00 00"
    );
    assert!(
        !app.pin_signal(i, "NoSuchSignal".to_string(), Some(1)).0,
        "unknown signal refused"
    );
}

#[test]
fn a_hex_edit_keeps_the_sources_running() {
    let mut app = driven_app("NearSig", SrcKind::Ramp, 0.0, 1000.0);
    let i = app.core.tx_list.len() - 1;
    assert!(!app.set_tx_hex(i, "0 zz".to_string()).0, "non-hex must not apply");
    assert_eq!(app.core.tx_list[i].len, 16, "the rejected edit changed nothing");
    assert!(app.set_tx_hex(i, "11 22 33".to_string()).0);
    assert_eq!(app.core.tx_list[i].len, 3);
    assert_eq!(app.core.tx_list[i].data_text, "11 22 33", "text stays canonical");
    assert_eq!(
        app.core.tx_list[i].srcs.len(),
        1,
        "fixing one byte must not throw away the stimulus setup"
    );
}

#[test]
fn set_source_replaces_by_name() {
    let mut app = driven_app("NearSig", SrcKind::Ramp, 0.0, 1000.0);
    let i = app.core.tx_list.len() - 1;
    app.set_source(i, source("NearSig", SrcKind::Sine, 0.0, 50.0));
    assert_eq!(app.core.tx_list[i].srcs.len(), 1, "the same name is one source");
    assert_eq!(
        f64::from_bits(app.core.tx_list[i].srcs[0].hi),
        50.0,
        "and the later one wins"
    );
    app.clear_source(i, "NearSig".to_string());
    assert!(app.core.tx_list[i].srcs.is_empty());
}

const CYCLE_TEST_DBC: &str = r#"VERSION "roxy-can cycle test"

NS_ :

BU_: ECU

BO_ 4096 EventMsg: 8 ECU
 SG_ S : 0|8@1+ (1,0) [0|0] "" ECU

BO_ 4097 DefaultedMsg: 8 ECU
 SG_ S : 0|8@1+ (1,0) [0|0] "" ECU

BA_DEF_ BO_  "GenMsgCycleTime" INT 0 10000;
BA_DEF_DEF_  "GenMsgCycleTime" 77;
BA_ "GenMsgCycleTime" BO_ 4096 0;
"#;

#[test]
fn new_generator_entries_inherit_the_declared_cycle() {
    let app = new_app();
    let cycle = |ch: u8, id: u32| {
        app.core
            .tx_list
            .iter()
            .find(|t| t.channel == ch && t.id == id)
            .map(|t| t.cycle_us)
    };
    assert_eq!(cycle(1, 0x64), Some(133_000), "EngineData 133ms");
    assert_eq!(cycle(1, 0xC9), Some(50_000), "ABSdata 50ms");
    assert_eq!(cycle(1, 0xC7), Some(100_000), "declared default");
    assert_eq!(cycle(0, 0x100), Some(100_000), "no declaration -> fallback");
}

#[test]
fn an_event_triggered_message_is_never_auto_sent() {
    let mut app = new_app();
    load(&mut app, 0, CYCLE_TEST_DBC);
    app.core.tx_list.retain(|t| t.channel != 0);
    app.add_tx(0, 4096);
    app.add_tx(0, 4097);
    app.set_node_sim(0, "ECU", true);
    let i = app.core.tx_list.len() - 2;
    assert_eq!(app.core.tx_list[i].cycle_us, 0, "an explicit 0 is not 'undeclared'");
    assert_eq!(app.core.tx_list[i + 1].cycle_us, 77_000, "the default still applies");
    for t in &mut app.core.tx_list {
        t.active = true;
    }
    start(&mut app);
    run_sim(&mut app, 20, 10_000);
    assert!(slots_of(&app, 4096).is_empty(), "event-triggered means no timer");
    assert_eq!(
        slots_of(&app, 4097),
        vec![0, 77_000, 154_000],
        "the declared 77ms period is what runs"
    );
}

#[test]
fn simulated_node_state_follows_the_bus_it_lives_on() {
    let mut app = new_app();
    app.set_node_sim(0, "EngineECU", true);
    app.set_node_sim(1, "ABS", true);
    app.remove_channel(0);
    assert!(app.is_node_simulated(0, "ABS"));
    assert!(
        !app.is_node_simulated(0, "EngineECU"),
        "the survivor keeps its own nodes instead of inheriting the deleted bus's"
    );
}

#[test]
fn a_receive_only_node_can_still_be_ticked() {
    let mut app = new_app();
    app.set_node_sim(1, "DashBoard", true);
    assert!(app.core.tx_list.iter().all(|t| !t.active), "it has no messages to send");
    assert!(app.is_node_simulated(1, "DashBoard"), "the intent is remembered anyway");
    assert!(!app.is_node_simulated(1, "GearBox"), "not a side effect");
}

#[test]
fn a_silenced_node_keeps_its_entries_and_sends_nothing() {
    let mut app = new_app();
    app.set_node_sim(1, "ABS", true);
    for t in &mut app.core.tx_list {
        t.active = true;
    }
    start(&mut app);
    receive(&mut app, 0, Vec::new());
    assert_eq!(slots_of(&app, 201), vec![0], "a simulated node sends");
    assert!(slots_of(&app, 100).is_empty(), "the engine is not simulated");
    let before = app.core.tx_list.len();
    app.set_node_sim(1, "ABS", false);
    assert_eq!(app.core.tx_list.len(), before, "entries survive");
    receive(&mut app, 500_000, Vec::new());
    assert_eq!(slots_of(&app, 201), vec![0], "stopped sending");
    assert_eq!(app.status, "ABS offline from CAN2");
}

#[test]
fn the_declared_cycle_survives_a_hand_tuned_row() {
    let mut app = new_app();
    assert_eq!(dbc_cycle_us(&app.core.channels, 1, 0xC9), Some(50_000), "ABSdata");
    assert_eq!(dbc_cycle_us(&app.core.channels, 0, 0x100), None, "sample.dbc declares nothing");
    assert_eq!(dbc_cycle_us(&app.core.channels, 1, 0x5AA), None, "no such message");
    let i = app.core.tx_list.iter().position(|t| t.channel == 1 && t.id == 0xC9).unwrap();
    app.core.tx_list[i].cycle_us = 250_000;
    assert_eq!(
        dbc_cycle_us(&app.core.channels, 1, 0xC9),
        Some(50_000),
        "not whatever the row currently says"
    );
    load(&mut app, 0, CYCLE_TEST_DBC);
    assert_eq!(
        dbc_cycle_us(&app.core.channels, 0, 4096),
        Some(0),
        "a declared 0 is event-triggered, not undeclared"
    );
}

const NO_OWNER_DBC: &str = r#"VERSION "roxy-can orphan test"

NS_ :

BU_: ECU

BO_ 4096 Orphan: 8 Vector__XXX
 SG_ S : 0|8@1+ (1,0) [0|0] "" ECU

"#;

#[test]
fn a_node_with_no_name_simulates_nothing() {
    let mut app = new_app();
    load(&mut app, 0, NO_OWNER_DBC);
    app.core.tx_list.retain(|t| t.channel != 0);
    app.add_tx(0, 4096);
    let orphan = app.core.tx_list.iter().find(|t| t.channel == 0 && t.id == 4096).unwrap();
    assert_eq!(orphan.node, "", "unassigned");
    app.set_node_sim(0, "", true);
    assert!(app.core.channels[0].node_roles.is_empty(), "not even recorded as a tick");
    assert!(
        app.core.tx_list.iter().all(|t| t.channel != 0 || !t.active),
        "an empty name must not adopt every message without an owner"
    );
}

#[test]
fn tx_generator_emits_frames() {
    let mut app = new_app();
    app.add_tx(0, 0x777);
    let tx = app.core.tx_list.last_mut().expect("tx entry added");
    assert_eq!(tx.id, 0x777);
    assert_eq!(tx.channel, 0);
    assert!(!tx.active, "new entries start inactive");
    tx.cycle_us = 20_000;
    tx.active = true;
    start(&mut app);
    receive(&mut app, 0, Vec::new());
    assert!(
        app.core
            .trace
            .frames
            .iter()
            .any(|f| f.id == 0x777 && matches!(f.dir, Direction::Tx)),
        "expected a Tx frame from the generator"
    );
    assert!(
        app.core.aggs.get(key_of_message(0, 0x777, false)).is_some(),
        "generator frames aggregate"
    );
}

#[test]
fn two_channels_aggregate_separately() {
    let mut app = new_app();
    assert_eq!(app.core.channels.len(), 2);
    for c in &app.core.channels {
        assert!(c.dbc.is_some(), "{} should load its DBC", c.name);
    }
    assert!(
        app.core.tx_list.iter().any(|t| t.channel == 0 && t.id == 0x100)
            && app.core.tx_list.iter().any(|t| t.channel == 1 && t.id == 0xC8),
        "generator pre-populated on both buses"
    );
    app.set_node_sim(0, "EngineECU", true);
    app.set_node_sim(1, "ABS", true);
    for tx in &mut app.core.tx_list {
        if (tx.channel == 0 && tx.id == 0x100) || (tx.channel == 1 && tx.id == 0xC8) {
            tx.active = true;
            tx.cycle_us = 10_000;
        }
    }
    start(&mut app);
    run_sim(&mut app, 6, 11_000);
    let a = app.core.aggs.get(key_of_message(0, 0x100, false)).expect("CAN1 aggregate");
    let b = app.core.aggs.get(key_of_message(1, 0xC8, false)).expect("CAN2 aggregate");
    assert!(a.count >= 3, "CAN1 frames: {}", a.count);
    assert!(b.count >= 3, "CAN2 frames: {}", b.count);
    assert!(app.core.trace.frames.iter().any(|f| f.channel == 1 && f.id == 0xC8));
}

#[test]
fn trace_filter_matches_by_name_id_and_direction() {
    let mut app = new_app();
    let rx = frame_at(0, 0x100, 8, Direction::Rx);
    let tx = CanFrame { id: 0x320, dir: Direction::Tx, ..rx };
    let rx_ch1 = CanFrame { channel: 1, ..rx };
    let unknown = CanFrame { id: 0x777, ..rx };
    let mut w = app.trace_windows.remove(0);
    let ch = &app.core.channels;
    assert!(trace_match(ch, &w, &rx));
    assert!(trace_match(ch, &w, &unknown));

    w.filter = "eng".to_string();
    assert!(trace_match(ch, &w, &rx), "name match is case-insensitive");
    assert!(!trace_match(ch, &w, &unknown));

    w.filter = "77".to_string();
    assert!(trace_match(ch, &w, &unknown), "hex id substring");
    assert!(!trace_match(ch, &w, &rx));

    w.filter.clear();
    w.dir = 1;
    assert!(trace_match(ch, &w, &rx));
    assert!(!trace_match(ch, &w, &tx), "Rx-only filter drops Tx frames");

    w.dir = 0;
    w.dbc_only = true;
    assert!(trace_match(ch, &w, &rx));
    assert!(!trace_match(ch, &w, &unknown), "DBC-only drops unknown IDs");

    w.dbc_only = false;
    w.scope = SigScope::Bus(0);
    assert!(trace_match(ch, &w, &rx), "Bus scope passes its own bus");
    assert!(!trace_match(ch, &w, &rx_ch1), "Bus scope drops other buses");

    w.scope = SigScope::Manual;
    w.manual.push((0, 0x320));
    assert!(!trace_match(ch, &w, &rx), "Manual selection drops unselected IDs");
    assert!(trace_match(ch, &w, &tx), "Manual selection passes the chosen ID");
    w.manual.clear();
    assert!(!trace_match(ch, &w, &tx), "empty Manual selection passes nothing");
    w.scope = SigScope::All;
    assert!(trace_match(ch, &w, &rx), "All scope passes everything");
}

#[test]
fn channels_can_be_added_removed_and_renamed() {
    let mut app = new_app();
    assert_eq!(app.core.channels.len(), 2);
    app.core.channels[0].name = "Powertrain".to_string();
    assert_eq!(channel_name(&app.core.channels, 0), "Powertrain");

    app.send(BusCommand::AddChannel { file: file(SAMPLE_DBC, 1) });
    assert_eq!(app.core.channels.len(), 3);
    assert_eq!(channel_name(&app.core.channels, 2), "CAN3");

    start(&mut app);
    receive(&mut app, 0, vec![CanFrame { channel: 1, ..frame_at(0, 0x100, 8, Direction::Rx) }]);
    app.trace_windows[0].manual.push((2, 0x200));
    app.trace_windows[0].scope = SigScope::Bus(2);

    app.remove_channel(0);
    assert_eq!(app.core.channels.len(), 2);
    assert_eq!(channel_name(&app.core.channels, 0), "CAN2", "remaining buses shift down");
    assert!(
        app.core.aggs.get(key_of_message(0, 0x100, false)).is_some(),
        "agg remapped 1 -> 0"
    );
    assert!(
        app.trace_windows[0].manual.contains(&(1, 0x200)),
        "filter remapped 2 -> 1"
    );
    assert_eq!(
        app.trace_windows[0].scope,
        SigScope::Bus(1),
        "Bus scope indices shift with the channels"
    );

    while app.core.channels.len() > 1 {
        app.remove_channel(0);
    }
    app.remove_channel(0);
    assert_eq!(app.core.channels.len(), 1, "last bus cannot be removed");
}

#[test]
fn replay_speed_steps_along_the_ladder() {
    let mut app = new_app();
    let speed = |app: &App| f64::from_bits(app.replay_speed);
    assert_eq!(speed(&app), 1.0);
    app.step_replay_speed(1);
    assert_eq!(speed(&app), 2.0, "one notch faster");
    app.step_replay_speed(-1);
    app.step_replay_speed(-1);
    assert_eq!(speed(&app), 0.5, "two notches slower");
    app.step_replay_speed(-1);
    assert_eq!(speed(&app), 0.5, "clamped at the slow end");
    app.step_replay_speed(99);
    assert_eq!(speed(&app), 4.0, "clamped at the fast end");
}

#[test]
fn starting_clears_the_previous_pause() {
    let mut app = new_app();
    start(&mut app);
    app.send(BusCommand::SetTracePaused(true));
    assert!(app.core.trace_paused);
    app.stop();
    start(&mut app);
    assert!(!app.core.trace_paused, "a new start must not stay paused");
}

#[test]
fn switching_run_mode_stops_a_running_measurement() {
    let mut app = new_app();
    start(&mut app);
    assert!(app.core.measuring);
    app.switch_run_mode(Mode::Replay);
    assert!(!app.core.measuring, "switching mode stops the run");
    assert!(matches!(app.core.run_mode, Mode::Replay));
    app.switch_run_mode(Mode::Replay);
    assert!(matches!(app.core.run_mode, Mode::Replay), "no-op keeps the mode");
}

#[test]
fn recent_lists_dedup_and_cap() {
    let mut list: Vec<String> = Vec::new();
    for i in 0..10 {
        push_recent(&mut list, format!("f{}.dbc", i));
    }
    assert_eq!(list.len(), 8, "recent list is capped");
    assert_eq!(list[0], "f9.dbc", "newest first");
    push_recent(&mut list, "f3.dbc".to_string());
    assert_eq!(list[0], "f3.dbc", "reopen moves to the front");
    assert_eq!(list.iter().filter(|p| *p == "f3.dbc").count(), 1, "no duplicates");
}

#[test]
fn a_dropped_dbc_joins_the_first_bus() {
    let mut app = new_app();
    let paths = match app.open_dropped("assets/motbus.dbc".to_string(), "DBC", "motbus.dbc") {
        Dropped::Database(paths) => paths,
        _ => panic!("a database was dropped"),
    };
    assert_eq!(paths, ["assets/sample.dbc", "assets/motbus.dbc"], "the primary stays");
    let files = vec![file(SAMPLE_DBC, 1), file(MOTBUS_DBC, 2)];
    app.send(BusCommand::LoadDbc { ch: 0, paths, files });
    app.note_opened_dbc(0, "assets/motbus.dbc".to_string());
    let table = app.core.channels[0].dbc.as_ref().expect("both are parsed into the first bus");
    assert!(table.has_message(0x100) && table.has_message(201));
    assert_eq!(app.recent_dbc[0], "assets/motbus.dbc");
}

#[test]
fn open_dropped_reports_unsupported_for_mf4() {
    let mut app = new_app();
    let path = "/tmp/does-not-exist.mf4";
    assert!(matches!(
        app.open_dropped(path.to_string(), "mf4", "does-not-exist.mf4"),
        Dropped::Log
    ));
    app.load_log(path, "does-not-exist.mf4", Err("unsupported format: MF4".to_string()));
    assert!(
        app.status.contains("unsupported format: MF4"),
        "MF4 should surface a clear reason, got {:?}",
        app.status
    );
    assert!(matches!(
        app.open_dropped("x.txt".to_string(), "txt", "x.txt"),
        Dropped::Unsupported
    ));
    assert_eq!(app.status, "unsupported file: x.txt");
}

#[test]
fn jump_to_live_resets_plot_offsets() {
    let mut app = new_app();
    app.graphics[0].t_offset_s = (-42.0f64).to_bits();
    app.jump_to_live();
    assert_eq!(f64::from_bits(app.graphics[0].t_offset_s), 0.0);
}

#[test]
fn set_bus_tx_toggles_a_whole_bus() {
    let mut app = new_app();
    assert!(app.core.tx_list.iter().all(|t| !t.active));
    app.set_bus_tx(0, true);
    assert!(
        app.core.tx_list.iter().filter(|t| t.channel == 0).all(|t| t.active),
        "bus 0 fully enabled"
    );
    assert!(
        app.core.tx_list.iter().filter(|t| t.channel == 1).all(|t| !t.active),
        "other buses untouched"
    );
    app.set_bus_tx(0, false);
    assert!(app.core.tx_list.iter().all(|t| !t.active));
}

#[test]
fn the_text_gate_fires_on_its_cadence() {
    assert!(text_due(10, 200_000), "past the period: text re-renders");
    assert!(!text_due(10, 99_000), "within the period: text holds");
    assert!(text_due(0, 0), "unthrottled re-renders every frame");
}

#[test]
fn stop_makes_the_next_play_restart_from_zero() {
    let mut app = new_app();
    app.core.run_mode = Mode::Replay;
    assert!(matches!(app.play(false), Play::Start(Start::PickLog)));
    app.load_log("a.asc", "a.asc", Ok("12 frames".to_string()));
    assert_eq!(app.log_path, "a.asc");
    assert!(matches!(app.play(false), Play::Start(Start::Replay(_))));
}

fn rpm_frame(t_us: u64, rpm: f64) -> CanFrame {
    let raw = (rpm / 0.25) as u16;
    let mut f = rx_frame(t_us, 0x100, 2, FrameFlags::none());
    f.data[0] = (raw & 0xFF) as u8;
    f.data[1] = (raw >> 8) as u8;
    f
}

#[test]
fn a_signal_crossing_fires_on_the_crossing_not_the_level() {
    let mut app = new_app();
    start(&mut app);
    app.core.triggers.push(Trigger::new(
        TriggerCond::SignalCross {
            ch: 0,
            id: 0x100,
            ext: false,
            signal: "EngineSpeed".to_string(),
            threshold: 3000.0f64.to_bits(),
            rising: true,
        },
        TriggerAction::StartRecording,
    ));
    receive(&mut app, 10_000, vec![rpm_frame(10_000, 1000.0)]);
    assert!(!app.core.recorder.recording, "below threshold: nothing fires");
    receive(&mut app, 20_000, vec![rpm_frame(20_000, 3000.0)]);
    assert!(app.core.recorder.recording, "the crossing itself fires");
    receive(&mut app, 30_000, vec![rpm_frame(30_000, 3500.0)]);
    assert_eq!(app.core.triggers[0].fired, 1, "staying above is not an edge");
    receive(&mut app, 40_000, vec![rpm_frame(40_000, 1000.0)]);
    receive(&mut app, 50_000, vec![rpm_frame(50_000, 3200.0)]);
    assert_eq!(app.core.triggers[0].fired, 2, "re-crossing re-arms");
    assert_eq!(app.core.triggers[0].last_fire_t_us, 50_000);
}

#[test]
fn an_id_present_trigger_latches_and_stops_a_recording_after_its_roll() {
    let mut app = new_app();
    start(&mut app);
    app.core.post_frames = 1;
    app.core.triggers.push(Trigger::new(
        TriggerCond::IdPresent { ch: 0, id: 0x777 },
        TriggerAction::StopRecording,
    ));
    app.core.recorder.recording = true;
    receive(&mut app, 10_000, vec![rx_frame(10_000, 0x100, 8, FrameFlags::none())]);
    assert!(app.core.recorder.recording, "an unwatched id changes nothing");
    receive(&mut app, 20_000, vec![rx_frame(20_000, 0x777, 8, FrameFlags::none())]);
    assert_eq!(app.core.triggers[0].fired, 1);
    receive(&mut app, 30_000, vec![rx_frame(30_000, 0x777, 8, FrameFlags::none())]);
    assert!(!app.core.recorder.recording, "the watched id stops the recording");
    assert_eq!(app.core.triggers[0].fired, 1, "presence latches for the run");
}

#[test]
fn an_error_frame_trigger_latches_once_per_run() {
    let mut app = new_app();
    start(&mut app);
    app.core.triggers.push(Trigger::new(
        TriggerCond::ErrorFrame { ch: 0 },
        TriggerAction::StartRecording,
    ));
    let mut other_bus = rx_frame(10_000, 0x300, 0, FrameFlags::error());
    other_bus.channel = 1;
    receive(&mut app, 10_000, vec![other_bus]);
    assert!(!app.core.recorder.recording, "error frames on another bus are not ours");
    receive(&mut app, 20_000, vec![rx_frame(20_000, 0x300, 0, FrameFlags::error())]);
    assert!(app.core.recorder.recording, "our first error frame fires");
    receive(&mut app, 30_000, vec![rx_frame(30_000, 0x300, 0, FrameFlags::error())]);
    assert_eq!(app.core.triggers[0].fired, 1, "latches: one fire per run");
}

#[test]
fn a_send_action_transmits_one_generator_frame() {
    let mut app = new_app();
    start(&mut app);
    app.add_tx(0, 0x777);
    let i = app.core.tx_list.iter().position(|t| t.channel == 0 && t.id == 0x777).unwrap();
    app.core.tx_list[i].len = 2;
    app.core.tx_list[i].data[0] = 0xDE;
    app.core.tx_list[i].data[1] = 0xAD;
    app.core.triggers.push(Trigger::new(
        TriggerCond::IdPresent { ch: 0, id: 0x555 },
        TriggerAction::Send { ch: 0, id: 0x777 },
    ));
    receive(&mut app, 10_000, vec![rx_frame(10_000, 0x555, 8, FrameFlags::none())]);
    let sent: Vec<CanFrame> =
        emitted(&app, 0x777).into_iter().filter(|f| matches!(f.dir, Direction::Tx)).collect();
    assert_eq!(sent.len(), 1, "exactly one reaction frame");
    assert_eq!(sent[0].t_us, 10_000, "stamped with the triggering frame's clock");
    assert_eq!(&sent[0].data[..2], &[0xDE, 0xAD], "the entry's payload goes out");
    assert!(
        app.core.aggs.get(key_of_message(0, 0x777, false)).is_some(),
        "the reaction aggregates like any real traffic"
    );
    receive(&mut app, 20_000, Vec::new());
    assert_eq!(emitted(&app, 0x777).len(), 1, "one edge, one frame -- no repeats");
}

#[test]
fn a_role_of_a_node_reads_back() {
    let mut app = new_app();
    app.set_node_sim(1, "ABS", true);
    assert!(matches!(app.core.channels[1].role_of("ABS"), NodeRole::Simulated));
    assert!(matches!(app.core.channels[1].role_of("Engine"), NodeRole::Absent));
}

fn ids_on(app: &App, ch: u8) -> Vec<u32> {
    app.core.tx_list.iter().filter(|t| t.channel == ch).map(|t| t.id).collect()
}

fn row_of(app: &App, ch: u8, id: u32) -> usize {
    app.core.tx_list.iter().position(|t| t.channel == ch && t.id == id).unwrap()
}

#[test]
fn ticking_a_node_creates_the_entries_it_lacks() {
    let mut app = new_app();
    app.core.tx_list.clear();
    app.set_node_sim(1, "ABS", true);
    assert_eq!(ids_on(&app, 1), [199, 200, 201], "the generator refills from the DBC");
    assert_eq!(app.core.tx_list.len(), 3, "and only this node's messages");
    let i = row_of(&app, 1, 201);
    assert_eq!(app.core.tx_list[i].name, "ABSdata");
    assert_eq!(app.core.tx_list[i].cycle_us, 50_000);
    assert!(app.core.tx_list.iter().all(|t| !t.active), "a new entry waits for its own switch");
}

#[test]
fn ticking_a_node_never_overwrites_a_tuned_cycle() {
    let mut app = new_app();
    let i = row_of(&app, 1, 201);
    assert_eq!(app.core.tx_list[i].cycle_us, 50_000, "what the DBC declares");
    app.core.tx_list[i].cycle_us = 250_000;
    app.set_tx_active(i, true);
    app.set_node_sim(1, "ABS", true);
    assert_eq!(
        app.core.tx_list[i].cycle_us, 250_000,
        "a period someone dialed in outlives the click"
    );
    assert!(app.core.tx_list[i].active, "and so does the switch");
    start(&mut app);
    receive(&mut app, 0, Vec::new());
    assert_eq!(slots_of(&app, 201), vec![0], "the entry sends");
}

#[test]
fn unticking_a_node_keeps_its_entries_and_their_stimulus() {
    let mut app = new_app();
    app.set_node_sim(1, "ABS", true);
    let i = row_of(&app, 1, 201);
    app.set_tx_active(i, true);
    app.set_source(i, source("CarSpeed", SrcKind::Ramp, 0.0, 300.0));
    let before = app.core.tx_list.len();

    app.set_node_sim(1, "ABS", false);
    start(&mut app);
    receive(&mut app, 0, Vec::new());
    assert!(slots_of(&app, 201).is_empty(), "stopped sending");
    assert_eq!(app.core.tx_list.len(), before, "entries survive");
    assert_eq!(app.core.tx_list[i].srcs.len(), 1, "with the waveform attached");
    assert_eq!(app.core.tx_list[i].cycle_us, 50_000, "and the declared period");

    app.set_node_sim(1, "ABS", true);
    assert_eq!(
        app.core.tx_list[i].srcs.len(),
        1,
        "ticking it back on does not rebuild the entry"
    );
    assert!(app.core.tx_list[i].active);
    receive(&mut app, 50_000, Vec::new());
    assert!(!slots_of(&app, 201).is_empty(), "it sends again");
}

#[test]
fn desktop_switching_restores_window_visibility() {
    let mut app = new_app();
    assert!(app.trace_windows[0].opened);
    assert!(app.panels.show_network);
    app.add_desktop();
    assert!(!app.trace_windows[0].opened, "a new desktop starts empty");
    assert!(!app.panels.show_network, "a new desktop hides all panels");
    app.switch_desktop(0);
    assert_eq!(app.active_desktop, 0);
    assert!(app.trace_windows[0].opened, "desktop 1 reopens its windows");
    assert!(app.panels.show_network, "desktop 1 restores the panel state");
    app.switch_desktop(1);
    assert!(!app.trace_windows[0].opened, "desktop 2 keeps it closed");
    assert!(!app.panels.show_network);
}

#[test]
fn a_desktop_is_found_as_it_was_left() {
    let mut app = new_app();
    app.layout_cache = "[Window][Dockspace]".to_string();
    app.add_desktop();
    assert_eq!(app.pending_layout.as_deref(), Some(""));
    app.msg_windows[0].opened = true;
    app.switch_desktop(0);
    assert_eq!(app.pending_layout.as_deref(), Some("[Window][Dockspace]"));
    app.switch_desktop(1);
    assert!(app.msg_windows[0].opened, "what was opened there is open there");
    assert!(!app.trace_windows[0].opened);
    app.switch_desktop(9);
    assert_eq!(app.active_desktop, 1, "there is no such desktop");
    app.rename_desktop(1, "Analysis".to_string());
    assert_eq!(app.desktops[1].name, "Analysis");
}

#[test]
fn delete_desktop_keeps_at_least_one() {
    let mut app = new_app();
    app.delete_desktop(0);
    assert_eq!(app.desktops.len(), 1, "the last desktop cannot be deleted");
    app.add_desktop();
    app.add_desktop();
    assert_eq!(app.active_desktop, 2);
    app.delete_desktop(2);
    assert_eq!(app.desktops.len(), 2);
    assert_eq!(app.active_desktop, 1, "deleting the active one falls back");
    app.delete_desktop(0);
    assert_eq!(app.active_desktop, 0, "indices shift when deleting below");
    assert_eq!(app.desktops.len(), 1);
}

#[test]
fn restarting_measurement_clears_the_bus_windows() {
    let mut app = new_app();
    start(&mut app);
    receive(&mut app, 1_000, vec![rx_frame(1_000, 0x100, 8, FrameFlags::none())]);
    assert!(!app.core.bus_loads[0].notes.is_empty());
    start(&mut app);
    assert!(app.core.bus_loads[0].notes.is_empty());
    assert_eq!(app.core.frame_counter, 0);
}

fn scan(app: &mut App, frames: Vec<CanFrame>) {
    app.send(BusCommand::ScanLog {
        path: "run.asc".to_string(),
        tol_pct: 20,
        grace: 3,
        opened: Ok(OpenedLog { info: String::new(), ids: vec![(0, 0x100)] }),
        frames,
    });
}

#[test]
fn a_second_scan_is_refused_until_a_run_starts() {
    let mut app = new_app();
    let frames = vec![
        rx_frame(1_000, 0x100, 8, FrameFlags::none()),
        rx_frame(2_000, 0x100, 8, FrameFlags::none()),
    ];
    scan(&mut app, frames.clone());
    assert_eq!(app.status, "scan complete: 2 frame(s) ingested for browsing");
    assert_eq!(app.core.frame_counter, 2);
    scan(&mut app, frames.clone());
    assert_eq!(app.status, "scan refused: the log is scanned already");
    assert_eq!(app.core.frame_counter, 2, "no figure doubles");
    start(&mut app);
    app.stop();
    scan(&mut app, frames);
    assert_eq!(app.core.frame_counter, 2, "a restart clears the way");
    assert_eq!(app.status, "scan complete: 2 frame(s) ingested for browsing");
}

#[test]
fn a_changed_schedule_starts_now() {
    let mut app = new_app();
    app.core.sim_t_us = 10_000_000;
    app.send(BusCommand::SetEntryCycle { ch: 1, id: 201, cycle_us: 20_000 });
    let i = row_of(&app, 1, 201);
    assert_eq!(app.core.tx_list[i].cycle_us, 20_000);
    assert_eq!(app.core.tx_list[i].next_t_us, 10_000_000, "no burst for the time before");
    app.core.tx_list[i].next_t_us = 0;
    app.send(BusCommand::SetEntryConfig {
        ch: 1,
        id: 201,
        active: true,
        cycle_us: 30_000,
        fd: false,
        flags: None,
        data_text: None,
        srcs: Vec::new(),
    });
    assert_eq!(app.core.tx_list[i].cycle_us, 30_000);
    assert_eq!(app.core.tx_list[i].next_t_us, 10_000_000);
}

#[test]
fn a_span_is_picked_by_time_and_capped() {
    let at = |t: u64| rx_frame(t, 0x100, 8, FrameFlags::none());
    let log = vec![at(5), at(10), at(20), at(12), at(21)];
    let (kept, capped) = span_of(&log, 10, 20);
    assert_eq!(kept.iter().map(|f| f.t_us).collect::<Vec<u64>>(), [10, 20, 12]);
    assert!(!capped);
    let dense: Vec<CanFrame> = (0..=MAX_SCAN_FRAMES as u64).map(at).collect();
    let (kept, capped) = span_of(&dense, 0, u64::MAX);
    assert_eq!(kept.len(), MAX_SCAN_FRAMES);
    assert!(capped, "one more than a scan takes in");
    let (kept, capped) = span_of(&dense, 1, u64::MAX);
    assert_eq!(kept.len(), MAX_SCAN_FRAMES);
    assert!(!capped);
}

#[test]
fn the_bus_keeps_when_it_froze() {
    let mut app = new_app();
    assert!(!app.core.runs_on(100), "a stopped bus");
    assert_eq!(app.core.paused_at_us, None);
    start(&mut app);
    assert!(app.core.runs_on(200));
    app.core.trace_paused = true;
    assert!(!app.core.runs_on(300));
    assert!(!app.core.runs_on(400));
    assert_eq!(app.core.paused_at_us, Some(300), "the first look");
    app.core.resume_from(350);
    assert_eq!(app.core.paused_at_us, Some(350));
}

#[test]
fn sampled_values_are_read_out_once() {
    let mut app = new_app();
    let key = || SigKey { ch: 0, id: 0x100, ext: false, signal: "EngineSpeed".to_string() };
    app.core.obs.subscribe(key(), "u16".to_string());
    start(&mut app);
    let mut f = rx_frame(100_000, 0x100, 8, FrameFlags::none());
    f.data[0] = 8;
    let mut g = rx_frame(200_000, 0x100, 8, FrameFlags::none());
    g.data[0] = 4;
    let close = rx_frame(200_001, 0x100, 8, FrameFlags::none());
    receive(&mut app, 300_000, vec![f, g, close]);
    let i = app.core.obs.find(&key()).expect("subscribed");
    let taken = app.core.obs.drain();
    let values: Vec<f64> = taken[i]
        .iter()
        .map(|r| match r {
            Reading::Decoded { value: RawValue::Integer(v), factor, .. } => {
                *v as f64 * f64::from_bits(*factor)
            }
            _ => f64::NAN,
        })
        .collect();
    assert_eq!(values, [2.0, 1.0], "only what the sampler took");
    assert_eq!(app.core.obs.subs[i].n, 2);
    assert!(app.core.obs.drain()[i].is_empty(), "once");
    start(&mut app);
    assert_eq!(app.core.obs.subs[i].n, 0, "a run starts over");
    assert!(app.core.obs.subs[i].pending.is_empty());
}

#[test]
fn an_outside_edit_refreshes_the_scripts_of_its_bus() {
    let mut app = new_app();
    let same = vec![vec![file(SAMPLE_DBC, 1)], vec![file(MOTBUS_DBC, 2)]];
    let (line, actions) = app.core.maybe_reload_changed_dbcs(&same);
    assert!(line.is_none() && actions.is_empty(), "nothing changed");
    let edited = vec![vec![file(SAMPLE_DBC, 1)], vec![file(CYCLE_TEST_DBC, 9)]];
    let (line, actions) = app.core.maybe_reload_changed_dbcs(&edited);
    assert!(line.expect("a line").starts_with("CAN2 DBC loaded: "));
    assert_eq!(actions.len(), 1);
    assert!(matches!(actions[0], BusAction::RefreshNodes(1)));
    let gone = vec![vec![file(SAMPLE_DBC, 1)], vec![file("BO_ nonsense", 10)]];
    let (line, actions) = app.core.maybe_reload_changed_dbcs(&gone);
    assert!(line.is_none() && actions.is_empty(), "a bus without a database asks for nothing");
}
