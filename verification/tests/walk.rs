#![allow(dead_code)]
use roxy_can::app::{App, Mode};
use roxy_can::bus::BusCore;
use roxy_can::bus_command::BusCommand;
use roxy_can::bus_run::BusAction;
use roxy_can::bus_scripts::{NodeTurn, ScriptFrame};
use roxy_can::bus_types::{Double, SysVarDef};
use roxy_can::bus_walk::{Phase, StepRun};
use roxy_can::can::frame::{CanFrame, Direction, FrameFlags};
use roxy_can::dbc_merge::FileText;
use roxy_can::fr_db::FrDb;
use roxy_can::observe::{stride_for, SigKey, SAMPLE_INTERVAL_US};
use roxy_can::trace::FrRow;
use roxy_can::triggers::{TriggerAction, TriggerCond};

const SAMPLE_DBC: &str = r#"VERSION "sample"

NS_ :

BU_: EngineECU ChassisECU Dashboard

BO_ 256 EngineStatus: 8 EngineECU
 SG_ EngineSpeed : 0|16@1+ (0.25,0) [0|8000] "rpm" Dashboard,ChassisECU
 SG_ ThrottlePos : 16|8@1+ (0.5,0) [0|100] "%" Dashboard,ChassisECU

BO_ 512 WheelSpeed: 8 ChassisECU
 SG_ FrontLeft : 0|16@1+ (0.01,0) [0|300] "km/h" Dashboard

BO_ 800 BrakeInfo: 8 ChassisECU
 SG_ BrakePressure : 7|16@0+ (0.1,0) [0|200] "bar" Dashboard
"#;

const MOTBUS_DBC: &str = r#"VERSION "motbus"

NS_ :

BU_: Engine ABS GearBox DashBoard

BO_ 100 EngineData: 8 Engine
 SG_ EngTemp : 0|8@1+ (1,-40) [0|0] "degC" DashBoard

BO_ 199 WheelInfo: 8 ABS
 SG_ Wheel : 0|16@1+ (1,0) [0|0] "" DashBoard

BO_ 200 Brake: 8 ABS
 SG_ Pedal : 0|8@1+ (1,0) [0|0] "" DashBoard

BO_ 201 ABSdata: 8 ABS
 SG_ CarSpeed : 0|16@1+ (1,0) [0|0] "" DashBoard

BA_DEF_ BO_  "CycleTime" INT 0 10000;
BA_DEF_DEF_  "CycleTime" 100;
BA_ "CycleTime" BO_ 100 133;
BA_ "CycleTime" BO_ 201 50;
"#;

fn file(content: &str, sum: u64) -> Result<FileText, String> {
    Ok(FileText { content: content.to_string(), sum })
}

fn new_app() -> App {
    App::new(&vec![vec![file(SAMPLE_DBC, 1)], vec![file(MOTBUS_DBC, 2)]])
}

/// An application on the sample databases that runs but sends nothing by itself.
fn quiet_app() -> App {
    let mut app = new_app();
    app.core.tx_list.clear();
    start(&mut app);
    app
}

fn start(app: &mut App) {
    app.send(BusCommand::StartVirtual { logs: Vec::new(), opened: Ok("run.asc".to_string()) });
}

fn rx(t_us: u64, id: u32, len: u8) -> CanFrame {
    CanFrame {
        t_us,
        channel: 0,
        id,
        extended: false,
        len,
        data: [0; 64],
        dir: Direction::Rx,
        flags: FrameFlags::none(),
    }
}

fn idle_turn() -> NodeTurn {
    NodeTurn {
        frames: Vec::new(),
        emitted: Vec::new(),
        sys_sets: Vec::new(),
        lines: Vec::new(),
        log_changed: false,
    }
}

fn idle_turns(core: &BusCore) -> Vec<NodeTurn> {
    core.nodes.iter().map(|_| idle_turn()).collect()
}

/// Runs the pending actions, as if every file could be opened.
fn act_all(core: &mut BusCore, run: &mut StepRun) {
    while !run.pending.is_empty() {
        let mut status = String::new();
        core.act_next(run, &Vec::new(), &Vec::new(), Ok("t.asc".to_string()), &mut status);
    }
}

/// The step up to its walk.
fn open(core: &mut BusCore, polled: Vec<CanFrame>, now_us: u64, stride: u64) -> StepRun {
    let raws: Vec<Vec<Option<u64>>> = core.injected.iter().map(|_| Vec::new()).collect();
    let mut run = core.begin_step(polled, now_us, stride, &raws);
    let values: Vec<Vec<Vec<Option<u64>>>> = core
        .due_slots()
        .iter()
        .map(|slots| slots.iter().map(|_| Vec::new()).collect())
        .collect();
    core.send_slots(&mut run, &values);
    core.take_wire(&mut run, &Vec::new(), Vec::new(), Vec::new());
    let turns = idle_turns(core);
    core.take_timers(&mut run, &turns);
    run
}

/// Walks to the end of the queue.
fn walk(core: &mut BusCore, run: &mut StepRun) {
    while core.next_frame(run).is_some() {
        core.judge_frame(run, &Vec::new());
        act_all(core, run);
        let mut status = String::new();
        core.take_next(run, &mut status);
        let turns = idle_turns(core);
        core.take_dispatch(run, &turns);
    }
}

/// The step from the end of its first walk on.
fn close(core: &mut BusCore, run: &mut StepRun) {
    core.sweep_rules(run, 3, &Vec::new());
    act_all(core, run);
    run.end_sweep();
    walk(core, run);
    core.close_walk(run, 10, 3);
    let mut status = String::new();
    core.finish_step(run, false, "0.00", &mut status);
}

fn step(core: &mut BusCore, polled: Vec<CanFrame>, now_us: u64, stride: u64) {
    let mut run = open(core, polled, now_us, stride);
    walk(core, &mut run);
    close(core, &mut run);
    assert_eq!(run.phase, Phase::Done);
    assert_eq!(run.taken, core.buf.len(), "nothing that was queued is left");
}

fn speed_key() -> SigKey {
    SigKey { ch: 0, id: 0x100, ext: false, signal: "EngineSpeed".to_string() }
}

fn history(app: &App, key: &SigKey) -> Vec<u64> {
    let i = app
        .core
        .obs
        .subs
        .iter()
        .position(|s| s.key.id == key.id && s.key.signal == key.signal)
        .expect("subscribed");
    app.core.obs.subs[i].history.as_slice().iter().map(|s| s.0).collect()
}

#[test]
fn a_ui_stall_never_punches_a_hole_into_the_sample_timeline() {
    let mut app = new_app();
    let key = speed_key();
    app.core.obs.subscribe(speed_key(), "u16".to_string());
    for tx in &mut app.core.tx_list {
        tx.active = true;
        tx.cycle_us = 10_000;
        tx.node = String::new();
    }
    start(&mut app);
    let stride = stride_for(Some(1_000_000));
    // Two seconds of ordinary ticks, then the clock jumps a 0.4 s UI freeze in one step,
    // then ordinary ticks resume.
    for _ in 0..120 {
        app.core.sim_t_us += 16_667;
        let t = app.core.sim_t_us;
        step(&mut app.core, Vec::new(), t, stride);
    }
    app.core.sim_t_us += 400_000;
    let t = app.core.sim_t_us;
    step(&mut app.core, Vec::new(), t, stride);
    for _ in 0..60 {
        app.core.sim_t_us += 16_667;
        let t = app.core.sim_t_us;
        step(&mut app.core, Vec::new(), t, stride);
    }
    let stamps = history(&app, &key);
    assert!(stamps.len() > 200, "100 Hz for ~3.4 s, got {}", stamps.len());
    for (a, b) in stamps.iter().zip(stamps.iter().skip(1)) {
        assert!(b - a <= 20_000, "a {} us gap at {} -- the stall ate the samples", b - a, a);
    }
}

#[test]
fn a_pause_freezes_the_simulation_clock_and_its_phase() {
    let mut app = new_app();
    start(&mut app);
    app.core.advance_clock(1_000);
    let before = app.core.sim_t_us;
    // 400 ms of pause pass between the stamp and the first step after it.
    app.core.paused_at_us = Some(1_000);
    let shift = app.core.advance_clock(401_000);
    assert_eq!(shift, Some(400_000), "the log clock is shifted by the pause");
    assert_eq!(app.core.sim_t_us, before, "a paused clock must not advance");
    app.core.advance_clock(411_000);
    assert!(
        app.core.sim_t_us - before < 50_000,
        "resuming absorbed the paused span: sim advanced {} us",
        app.core.sim_t_us - before
    );
    assert_eq!(app.core.sim_t_us - before, 10_000);
}

#[test]
fn a_small_graphics_window_pulls_the_sample_stride_down() {
    let mut app = quiet_app();
    let key = speed_key();
    app.core.obs.subscribe(speed_key(), "u16".to_string());
    assert_eq!(stride_for(Some(10_000_000)), SAMPLE_INTERVAL_US);
    assert_eq!(stride_for(Some(100_000)), 500, "a 0.1 s window samples every 500 us");
    assert_eq!(stride_for(Some(1_000_000)), 5_000);
    assert_eq!(stride_for(Some(1_000)), 500, "never finer");
    assert_eq!(stride_for(Some(3_600_000_000)), SAMPLE_INTERVAL_US, "never coarser");
    assert_eq!(stride_for(None), SAMPLE_INTERVAL_US);
    let frames: Vec<CanFrame> = (0..21u64).map(|i| rx(i * 10_000, 0x100, 2)).collect();
    app.core.sim_t_us = 200_000;
    step(&mut app.core, frames, 200_000, stride_for(Some(10_000_000)));
    let coarse = history(&app, &key).len();
    assert!(coarse <= 6, "coarse stride decimates: {} points", coarse);

    let frames: Vec<CanFrame> = (21..41u64).map(|i| rx(i * 10_000, 0x100, 2)).collect();
    app.core.sim_t_us = 400_000;
    step(&mut app.core, frames, 400_000, stride_for(Some(100_000)));
    let fine = history(&app, &key).len();
    assert!(
        fine - coarse >= 15,
        "the zoomed window samples nearly every frame: {} -> {}",
        coarse,
        fine
    );
}

#[test]
fn shrinking_the_window_forgets_the_scan_cover() {
    let mut app = quiet_app();
    step(&mut app.core, Vec::new(), 0, SAMPLE_INTERVAL_US);
    app.core.sample_cover = Some((0, 1_000_000));
    step(&mut app.core, Vec::new(), 0, SAMPLE_INTERVAL_US);
    assert_eq!(app.core.sample_cover, Some((0, 1_000_000)), "the same stride keeps it");
    step(&mut app.core, Vec::new(), 0, stride_for(Some(100_000)));
    assert!(
        app.core.sample_cover.is_none(),
        "the finer stride invalidates what 'covered' means"
    );
}

#[test]
fn fr_watch_refuses_a_non_fibex_description() {
    let mut core = BusCore::new(Vec::new());
    let refusal = FrDb::parse(SAMPLE_DBC).err().expect("a DBC is no cluster description");
    let mut status = String::new();
    core.handle(
        BusCommand::SetFrWatch {
            channel_index: Some(0),
            fibex_path: "assets/sample.dbc".to_string(),
            attached: Err(refusal),
        },
        &mut status,
    );
    assert!(status.contains("失败"), "refusal reports: {}", status);
    assert!(core.hw.fr_watch.is_none());
}

#[test]
fn a_reaction_is_walked_through_in_its_own_step() {
    let mut app = new_app();
    start(&mut app);
    app.send(BusCommand::AddTrigger {
        cond: TriggerCond::IdPresent { ch: 0, id: 0x777 },
        action: TriggerAction::Send { ch: 0, id: 0x100 },
    });
    step(&mut app.core, vec![rx(5_000, 0x777, 1)], 5_000, SAMPLE_INTERVAL_US);
    assert_eq!(app.core.buf.len(), 2);
    assert_eq!(app.core.frame_counter, 2, "the reaction was taken in too");
    let sent = app.core.buf[1];
    assert_eq!((sent.id, sent.t_us), (0x100, 5_000));
    assert!(matches!(sent.dir, Direction::Tx));
}

#[test]
fn a_swept_rule_sends_in_its_own_step() {
    let mut app = new_app();
    start(&mut app);
    app.send(BusCommand::DefineSysVar(SysVarDef {
        namespace: "ns".to_string(),
        name: "go".to_string(),
        init: Double { bits: 1.0f64.to_bits(), whole: 1 },
        min: None,
        max: None,
        unit: String::new(),
        comment: String::new(),
    }));
    app.send(BusCommand::AddTrigger {
        cond: TriggerCond::SysVar {
            key: "ns::go".to_string(),
            threshold: 0.5f64.to_bits(),
            rising: true,
        },
        action: TriggerAction::Send { ch: 0, id: 0x100 },
    });
    let core = &mut app.core;
    let mut run = open(core, Vec::new(), 7_000, SAMPLE_INTERVAL_US);
    walk(core, &mut run);
    assert_eq!(core.frame_counter, 0, "nothing arrived");
    core.sweep_rules(&mut run, 3, &vec![true]);
    assert_eq!(run.pending, vec![TriggerAction::Send { ch: 0, id: 0x100 }]);
    assert_eq!(run.at_us, 7_000);
    act_all(core, &mut run);
    run.end_sweep();
    assert!(core.next_frame(&run).is_some(), "the walk goes on behind the sweep");
    walk(core, &mut run);
    core.close_walk(&mut run, 10, 3);
    let mut status = String::new();
    assert!(core.finish_step(&mut run, true, "0.00", &mut status).is_none());
    assert_eq!(run.phase, Phase::Done);
    assert_eq!(core.frame_counter, 1);
    assert_eq!(core.published_trace.len(), 1, "and what it sent is published");
}

#[test]
fn a_script_answers_within_the_step() {
    let mut app = quiet_app();
    app.send(BusCommand::AddNode { name: "N".to_string(), channel: 0, attached: None });
    let core = &mut app.core;
    core.sim_t_us = 9_000;
    let mut run = core.begin_step(vec![rx(4_000, 0x10, 1)], 9_000, SAMPLE_INTERVAL_US, &Vec::new());
    core.send_slots(&mut run, &Vec::new());
    core.take_wire(&mut run, &vec![rx(6_000, 0x11, 1)], Vec::new(), Vec::new());
    let timer = NodeTurn {
        frames: vec![ScriptFrame { id: 0x20, extended: false, data: vec![1] }],
        ..idle_turn()
    };
    let (frames, told) = core.take_timers(&mut run, &vec![timer]);
    assert_eq!((frames.len(), told.len()), (1, 0));
    assert_eq!(frames[0].t_us, 9_000, "a timer sends at the simulated time");
    let mut answered = false;
    while core.next_frame(&run).is_some() {
        core.judge_frame(&mut run, &Vec::new());
        let mut status = String::new();
        core.take_next(&mut run, &mut status);
        let turn = if answered {
            idle_turn()
        } else {
            NodeTurn {
                frames: vec![ScriptFrame { id: 0x30, extended: false, data: vec![2, 3] }],
                ..idle_turn()
            }
        };
        answered = true;
        core.take_dispatch(&mut run, &vec![turn]);
    }
    let ids: Vec<(u32, u64)> = core.buf.iter().map(|f| (f.id, f.t_us)).collect();
    assert_eq!(
        ids,
        vec![(0x10, 4_000), (0x11, 6_000), (0x20, 9_000), (0x30, 4_000)],
        "source, adapter, timer, and the answer to the first frame"
    );
    close(core, &mut run);
    assert_eq!(core.frame_counter, 4);
}

#[test]
fn flexray_frames_publish_a_step_without_traffic() {
    let mut app = quiet_app();
    let core = &mut app.core;
    core.sim_t_us = 3_000;
    let row = |slot: u16| FrRow {
        t_us: 0,
        ab: 1,
        slot,
        cycle: 0,
        payload: vec![1],
        header_crc: 0,
        flags: 0,
    };
    let mut run = core.begin_step(Vec::new(), 3_000, SAMPLE_INTERVAL_US, &Vec::new());
    assert!(run.source_empty);
    core.send_slots(&mut run, &Vec::new());
    let intervals = core.take_wire(&mut run, &Vec::new(), vec![row(1)], vec![row(2)]);
    assert_eq!(intervals.len(), 2);
    assert!(run.fr_landed);
    let turns = idle_turns(core);
    core.take_timers(&mut run, &turns);
    close(core, &mut run);
    assert_eq!(core.published_fr.len(), 2);
    assert_eq!(core.published_fr[1].t_us, 3_000, "stamped with the simulated time");

    core.mode = Mode::Replay;
    let mut run = core.begin_step(Vec::new(), 4_000, SAMPLE_INTERVAL_US, &Vec::new());
    core.send_slots(&mut run, &Vec::new());
    let intervals =
        core.take_wire(&mut run, &vec![rx(1, 2, 3)], vec![row(1)], vec![row(2), row(3)]);
    assert_eq!(intervals.len(), 1, "a replay hears no adapter");
    assert!(core.buf.is_empty());
}

#[test]
fn a_replay_ends_with_the_step_that_finds_its_log_over() {
    let mut app = quiet_app();
    let core = &mut app.core;
    core.mode = Mode::Replay;
    for (polled, ends) in [(vec![rx(1_000, 0x10, 1)], false), (Vec::new(), true)] {
        let mut run = open(core, polled, 1_000, SAMPLE_INTERVAL_US);
        walk(core, &mut run);
        core.sweep_rules(&mut run, 3, &Vec::new());
        run.end_sweep();
        core.close_walk(&mut run, 10, 3);
        let mut status = String::new();
        let left = core.finish_step(&mut run, true, "1.25", &mut status);
        assert_eq!(left.is_some(), ends);
        assert_eq!(core.measuring, !ends);
        if ends {
            assert_eq!(status, "replay finished at 1.25s");
            assert!(matches!(left.unwrap()[0], BusAction::CloseRecorder));
        }
    }
}
