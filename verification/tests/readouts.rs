#![allow(dead_code)]
use roxy_can::app::App;
use roxy_can::app_text::{MsgFigures, StatsFigures};
use roxy_can::bus::BusCore;
use roxy_can::bus_command::BusCommand;
use roxy_can::bus_scripts::NodeTurn;
use roxy_can::bus_walk::{Phase, StepRun};
use roxy_can::can::frame::{CanFrame, Direction, FrameFlags};
use roxy_can::dbc_merge::FileText;
use roxy_can::observe::SAMPLE_INTERVAL_US;

const SAMPLE_DBC: &str = r#"VERSION "sample"

NS_ :

BU_: EngineECU ChassisECU Dashboard

BO_ 256 EngineStatus: 8 EngineECU
 SG_ EngineSpeed : 0|16@1+ (0.25,0) [0|8000] "rpm" Dashboard,ChassisECU
 SG_ ThrottlePos : 16|8@1+ (0.5,0) [0|100] "%" Dashboard,ChassisECU

BO_ 512 WheelSpeed: 8 ChassisECU
 SG_ FrontLeft : 0|16@1+ (0.01,0) [0|300] "km/h" Dashboard

BO_ 800 BrakeInfo: 8 ChassisECU
 SG_ BrakePressure : 7|16@0+ (0.1,0) [0|200] "bar" Dashboard
"#;

const MOTBUS_DBC: &str = r#"VERSION "motbus"

NS_ :

BU_: Engine ABS GearBox DashBoard

BO_ 100 EngineData: 8 Engine
 SG_ EngTemp : 0|8@1+ (1,-40) [0|0] "degC" DashBoard

BO_ 199 WheelInfo: 8 ABS
 SG_ Wheel : 0|16@1+ (1,0) [0|0] "" DashBoard

BO_ 200 Brake: 8 ABS
 SG_ Pedal : 0|8@1+ (1,0) [0|0] "" DashBoard

BO_ 201 ABSdata: 8 ABS
 SG_ CarSpeed : 0|16@1+ (1,0) [0|0] "" DashBoard

BA_DEF_ BO_  "CycleTime" INT 0 10000;
BA_DEF_DEF_  "CycleTime" 100;
BA_ "CycleTime" BO_ 100 133;
BA_ "CycleTime" BO_ 201 50;
"#;

fn file(content: &str, sum: u64) -> Result<FileText, String> {
    Ok(FileText { content: content.to_string(), sum })
}

fn new_app() -> App {
    App::new(&vec![vec![file(SAMPLE_DBC, 1)], vec![file(MOTBUS_DBC, 2)]])
}

/// An application on the sample databases that runs but sends nothing by itself.
fn quiet_app() -> App {
    let mut app = new_app();
    app.core.tx_list.clear();
    start(&mut app);
    app
}

fn start(app: &mut App) {
    app.send(BusCommand::StartVirtual { logs: Vec::new(), opened: Ok("run.asc".to_string()) });
}

fn rx(t_us: u64, id: u32, len: u8) -> CanFrame {
    CanFrame {
        t_us,
        channel: 0,
        id,
        extended: false,
        len,
        data: [0; 64],
        dir: Direction::Rx,
        flags: FrameFlags::none(),
    }
}

fn idle_turn() -> NodeTurn {
    NodeTurn {
        frames: Vec::new(),
        emitted: Vec::new(),
        sys_sets: Vec::new(),
        lines: Vec::new(),
        log_changed: false,
    }
}

fn idle_turns(core: &BusCore) -> Vec<NodeTurn> {
    core.nodes.iter().map(|_| idle_turn()).collect()
}

/// Runs the pending actions, as if every file could be opened.
fn act_all(core: &mut BusCore, run: &mut StepRun) {
    while !run.pending.is_empty() {
        let mut status = String::new();
        core.act_next(run, &Vec::new(), &Vec::new(), Ok("t.asc".to_string()), &mut status);
    }
}

/// The step up to its walk.
fn open(core: &mut BusCore, polled: Vec<CanFrame>, now_us: u64, stride: u64) -> StepRun {
    let raws: Vec<Vec<Option<u64>>> = core.injected.iter().map(|_| Vec::new()).collect();
    let mut run = core.begin_step(polled, now_us, stride, &raws);
    let values: Vec<Vec<Vec<Option<u64>>>> = core
        .due_slots()
        .iter()
        .map(|slots| slots.iter().map(|_| Vec::new()).collect())
        .collect();
    core.send_slots(&mut run, &values);
    core.take_wire(&mut run, &Vec::new(), Vec::new(), Vec::new());
    let turns = idle_turns(core);
    core.take_timers(&mut run, &turns);
    run
}

/// Walks to the end of the queue.
fn walk(core: &mut BusCore, run: &mut StepRun) {
    while core.next_frame(run).is_some() {
        core.judge_frame(run, &Vec::new());
        act_all(core, run);
        let mut status = String::new();
        core.take_next(run, &mut status);
        let turns = idle_turns(core);
        core.take_dispatch(run, &turns);
    }
}

/// The step from the end of its first walk on.
fn close(core: &mut BusCore, run: &mut StepRun) {
    core.sweep_rules(run, 3, &Vec::new());
    act_all(core, run);
    run.end_sweep();
    walk(core, run);
    core.close_walk(run, 10, 3);
    let mut status = String::new();
    core.finish_step(run, false, "0.00", &mut status);
}

fn step(core: &mut BusCore, polled: Vec<CanFrame>, now_us: u64, stride: u64) {
    let mut run = open(core, polled, now_us, stride);
    walk(core, &mut run);
    close(core, &mut run);
    assert_eq!(run.phase, Phase::Done);
    assert_eq!(run.taken, core.buf.len(), "nothing that was queued is left");
}


fn receive(app: &mut App, t_us: u64, frames: Vec<CanFrame>) {
    app.core.sim_t_us = t_us;
    step(&mut app.core, frames, t_us, SAMPLE_INTERVAL_US);
}

fn stats_figures(share: &str) -> StatsFigures {
    StatsFigures {
        min: "1.00".to_string(),
        avg: "2.00".to_string(),
        max: "3.00".to_string(),
        share: share.to_string(),
    }
}

#[test]
fn statistics_hold_still_until_the_text_gate_fires() {
    let mut app = quiet_app();
    receive(&mut app, 20_000, vec![rx(10_000, 0x100, 2), rx(20_000, 0x100, 2)]);
    receive(&mut app, 30_000, vec![rx(30_000, 0x7FF, 0)]);
    assert_eq!(app.visible_stats(0).len(), 2);
    app.text_fresh = false;
    app.sync_stats_text(0, &vec![stats_figures("66.7%"), stats_figures("33.3%")]);
    let w = &app.stats_windows[0];
    assert_eq!(w.text_header, "2 messages, 3 frames since start", "new ids show at once");
    assert_eq!(w.text_rows[0].label, "100  EngineStatus");
    assert_eq!((w.text_rows[0].count.as_str(), w.text_rows[0].avg.as_str()), ("2", "2.00"));
    assert_eq!(w.text_rows[1].label, "7FF  -");
    assert_eq!(w.text_rows[1].avg, "-", "a single frame has no interval");
    assert_eq!(w.text_rows[0].share, "66.7%");

    receive(&mut app, 40_000, vec![rx(40_000, 0x100, 2)]);
    app.sync_stats_text(0, &vec![stats_figures("75.0%"), stats_figures("25.0%")]);
    assert_eq!(app.stats_windows[0].text_rows[0].count, "2", "the same rows hold still");
    app.text_fresh = true;
    app.sync_stats_text(0, &vec![stats_figures("75.0%"), stats_figures("25.0%")]);
    assert_eq!(app.stats_windows[0].text_rows[0].count, "3");
}

#[test]
fn message_rows_carry_their_signals() {
    let mut app = quiet_app();
    let mut f = rx(10_000, 0x100, 3);
    f.data[0] = 0x2E;
    f.data[1] = 0xE0;
    receive(&mut app, 10_000, vec![f]);
    app.text_fresh = true;
    let figures = vec![MsgFigures {
        cycle: "10.0".to_string(),
        values: vec!["14347.5 rpm [u16]".to_string(), "0 % [u8]".to_string()],
    }];
    app.sync_msg_text(0, &figures);
    let w = &app.msg_windows[0];
    assert_eq!(w.text_header, "1 messages");
    let row = &w.text_rows[0];
    assert_eq!((row.label.as_str(), row.dir.as_str()), ("100  EngineStatus", "Rx"));
    assert_eq!(row.data, "2E E0 00 ");
    assert_eq!(row.cycle, "-");
    assert_eq!(
        row.signals,
        vec![
            ("EngineSpeed".to_string(), "14347.5 rpm [u16]".to_string()),
            ("ThrottlePos".to_string(), "0 % [u8]".to_string()),
        ]
    );
}

#[test]
fn new_trace_rows_wait_for_a_text_frame() {
    let mut app = quiet_app();
    receive(&mut app, 20_000, vec![rx(10_000, 1, 0), rx(20_000, 2, 0)]);
    app.text_fresh = true;
    app.sync_trace_text(0);
    assert_eq!(app.trace_windows[0].shown_t_us, 20_000);
    assert_eq!(app.trace_windows[0].shown_count, 2);
    receive(&mut app, 30_000, vec![rx(30_000, 3, 0)]);
    app.text_fresh = false;
    app.sync_trace_text(0);
    let ids: Vec<u32> = app.trace_revealed(&app.trace_windows[0]).iter().map(|f| f.id).collect();
    assert_eq!(ids, vec![2, 1], "newest first, without the fresh tail");
    app.text_fresh = true;
    app.sync_trace_text(0);
    let ids: Vec<u32> = app.trace_revealed(&app.trace_windows[0]).iter().map(|f| f.id).collect();
    assert_eq!(ids, vec![3, 2, 1]);
}

#[test]
fn scripts_read_the_newest_values() {
    let mut app = quiet_app();
    let mut f = rx(10_000, 0x100, 3);
    f.data[2] = 0x0A;
    receive(&mut app, 10_000, vec![f]);
    let read: Vec<(u32, String, i64)> =
        app.core.node_signals(0).into_iter().map(|(id, d)| (id, d.name, d.raw)).collect();
    assert_eq!(
        read,
        vec![(0x100, "EngineSpeed".to_string(), 0), (0x100, "ThrottlePos".to_string(), 10)]
    );
    assert!(app.core.node_signals(1).is_empty(), "each bus by itself");
}

#[test]
fn a_row_is_switched_by_its_place() {
    let mut app = new_app();
    let i = app.core.tx_list.iter().position(|t| t.id == 0x200).unwrap();
    app.core.sim_t_us = 5_000;
    app.set_tx_active(i, true);
    assert!(app.core.tx_list[i].active);
    assert_eq!(app.core.tx_list[i].next_t_us, 5_000, "it starts from now");
    app.set_tx_active(usize::MAX, true);
    assert_eq!(app.core.tx_list.iter().filter(|t| t.active).count(), 1);
}

#[test]
fn the_bus_counter_names_the_next_bus() {
    let mut app = new_app();
    app.set_bus_counter(7);
    assert_eq!(app.core.bus_counter, 7);
    app.send(BusCommand::AddChannel { file: Err("none".to_string()) });
    assert_eq!(app.core.bus_counter, 8);
    assert_eq!(app.core.channels.last().unwrap().name, "CAN8");
}
