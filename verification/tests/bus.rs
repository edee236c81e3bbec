use roxy_can::bus::BusCore;
use roxy_can::bus_command::BusCommand;
use roxy_can::bus_nodes::HwOpen;
use roxy_can::bus_run::BusAction;
use roxy_can::bus_scripts::{NodeTurn, ScriptFrame};
use roxy_can::bus_types::{Double, HwDriver, SysVarDef, WriteKind};
use roxy_can::bus_view::Published;
use roxy_can::can::frame::FrameFlags;
use roxy_can::core_loop::{next_lap, wait_us, BusKnobs, CoreLoop, Lap, IDLE_SLEEP_US};
use roxy_can::trace::FrRow;
use roxy_can::triggers::{TriggerAction, TriggerCond};

fn fr_row(t_us: u64, slot: u16) -> FrRow {
    FrRow { t_us, ab: 2, slot, cycle: 3, payload: vec![0x11; 8], header_crc: 0xBEEF, flags: 0 }
}

fn told(core: &mut BusCore, cmd: BusCommand) -> String {
    let mut status = String::new();
    core.handle(cmd, &mut status);
    status
}

#[test]
fn fr_slot_aggregates_track_arrivals() {
    let mut core = BusCore::new(Vec::new());
    let mut a = fr_row(1_000_000, 10);
    a.cycle = 0;
    let mut b = fr_row(1_005_000, 10);
    b.cycle = 4; // rep-4 frame's next occurrence
    core.ingest_fr_row(a);
    let interval = core.ingest_fr_row(b).expect("the second arrival closes an interval");
    assert_eq!(interval.dt_us, 5000, "the first interval");

    core.publish_trace();
    let snap = core.snapshot(&Published::new(), None, None);
    assert_eq!(snap.fr_aggs.len(), 1);
    let agg = &snap.fr_aggs[0];
    assert_eq!(agg.slot, 10);
    assert_eq!(agg.count, 2);
    assert_eq!(agg.last_cycle, 4, "the name lookup cycle follows arrivals");
}

#[test]
fn fr_rows_ingest_publish_and_stamp() {
    let mut core = BusCore::new(Vec::new());
    core.sim_t_us = 1_500;
    core.ingest_fr_row(fr_row(0, 10));
    core.ingest_fr_row(fr_row(2_000, 11));
    core.publish_trace();

    let snap = core.snapshot(&Published::new(), None, None);
    assert_eq!(snap.fr_trace.len(), 2);
    assert_eq!(snap.fr_trace[0].t_us, 1_500, "a zero time stamps against the sim clock");
    assert_eq!(snap.fr_trace[1].t_us, 2_000, "a real time survives");
    assert_eq!(snap.fr_trace[1].slot, 11);
    assert_eq!(snap.fr_dropped, 0);

    // A clear resets both ring and view.
    core.fr_trace.clear();
    core.publish_trace();
    assert!(core.snapshot(&Published::new(), None, None).fr_trace.is_empty());
}

#[test]
fn fr_rows_honor_the_trace_limit() {
    let mut core = BusCore::new(Vec::new());
    core.trace_limit = 3;
    for slot in 1..=6u16 {
        core.ingest_fr_row(fr_row(0, slot));
    }
    core.publish_trace();
    let snap = core.snapshot(&Published::new(), None, None);
    assert_eq!(snap.fr_trace.len(), 3);
    assert_eq!(snap.fr_trace[0].slot, 4, "the newest survive");
    assert_eq!(snap.fr_dropped, 3);
}

#[test]
fn fr_watch_attach_failures_leave_no_partial_state() {
    let mut core = BusCore::new(Vec::new());
    let status = told(
        &mut core,
        BusCommand::SetFrWatch {
            channel_index: Some(0),
            fibex_path: "target/definitely-missing.fibex".to_string(),
            attached: Err("no such file".to_string()),
        },
    );
    assert!(status.contains("失败"), "attach failure reports: {}", status);
    assert!(core.hw.fr_watch.is_none());

    let status = told(
        &mut core,
        BusCommand::SetFrWatch {
            channel_index: None,
            fibex_path: String::new(),
            attached: Ok(()),
        },
    );
    assert!(status.contains("断开"), "{}", status);
    assert!(core.hw.fr_watch.is_none());
}

#[test]
fn a_panicking_lap_halts_instead_of_killing_the_thread() {
    let mut lane = CoreLoop::new(BusCore::new(Vec::new()));
    lane.core.measuring = true;
    lane.halt_after_internal_error("测试");
    assert!(!lane.core.measuring, "the measurement stops");
    let status = lane.pending_status.clone().expect("a status line");
    assert!(
        status.contains("panic") && status.contains("测试"),
        "the status names the fault site: {}",
        status
    );
    let snap = lane.publish(None);
    assert_eq!(snap.status.as_deref(), Some(status.as_str()), "told once");
    assert!(lane.publish(None).status.is_none());
}

#[test]
fn a_lap_waits_for_the_next_deadline_but_never_long() {
    assert_eq!(wait_us(Some(1_200), 1_000), 200);
    assert_eq!(wait_us(Some(900), 1_000), 0);
    assert_eq!(wait_us(None, 1_000), IDLE_SLEEP_US);
    assert_eq!(wait_us(Some(u64::MAX), 0), IDLE_SLEEP_US);
    let mut knobs = BusKnobs::new();
    knobs.set(500, 20, 4);
    assert_eq!((knobs.stride_us(), knobs.tol_pct(), knobs.grace()), (500, 20, 4));
    let mut paused_at = None;
    assert!(matches!(next_lap(true, true, false, &mut paused_at, 700), Lap::Idle));
    assert_eq!(paused_at, Some(700));
    assert!(matches!(
        next_lap(true, false, false, &mut paused_at, 900),
        Lap::Step { resumed_from: Some(700) }
    ));
    assert!(matches!(next_lap(false, false, true, &mut paused_at, 901), Lap::Publish));
}

#[test]
fn limits_are_held_in_their_bounds() {
    let mut core = BusCore::new(Vec::new());
    told(&mut core, BusCommand::SetTraceLimit { frames: 1 });
    let low = core.trace_limit;
    told(&mut core, BusCommand::SetTraceLimit { frames: usize::MAX });
    assert!(low > 1 && core.trace_limit > low && core.trace_limit < usize::MAX);
    let again = core.trace_limit;
    told(&mut core, BusCommand::SetTraceLimit { frames: again });
    assert_eq!(core.trace_limit, again);
}

#[test]
fn a_stopped_bus_drops_send_requests() {
    let mut core = BusCore::new(Vec::new());
    told(&mut core, BusCommand::SendNow { ch: 0, id: 1 });
    assert!(core.injected.is_empty());
    told(&mut core, BusCommand::StartVirtual { logs: Vec::new(), opened: Ok(String::new()) });
    told(&mut core, BusCommand::SendNow { ch: 0, id: 1 });
    assert_eq!(core.injected, vec![(0, 1)]);
}

#[test]
fn hardware_attachments_tell_how_they_came_about() {
    let mut core = BusCore::new(Vec::new());
    let status = told(
        &mut core,
        BusCommand::SetHardwareChannel {
            bus: 0,
            driver: HwDriver::Kvaser,
            adapter: 1,
            kbps: 500,
            fd_data_kbps: None,
            opened: HwOpen::Failed { init_error: "no init".to_string(), error: "busy".to_string() },
        },
    );
    assert!(status.contains("busy"), "{}", status);
    assert_eq!(core.hw.buses.len(), 0);
    told(
        &mut core,
        BusCommand::SetHardwareChannel {
            bus: 0,
            driver: HwDriver::Kvaser,
            adapter: 1,
            kbps: 500,
            fd_data_kbps: None,
            opened: HwOpen::ReceiveOnly { fd: false },
        },
    );
    assert_eq!(core.hw.buses.len(), 1);
    assert!(!core.reaches_wire(0), "the wire is not live");
    told(&mut core, BusCommand::DetachHardware { bus: 0 });
    assert_eq!(core.hw.buses.len(), 0);
}

fn double(v: f64) -> Double {
    Double { bits: v.to_bits(), whole: v as i64 }
}

fn turn() -> NodeTurn {
    NodeTurn {
        frames: Vec::new(),
        emitted: Vec::new(),
        sys_sets: Vec::new(),
        lines: Vec::new(),
        log_changed: false,
    }
}

#[test]
fn script_turns_reach_the_bus() {
    let mut core = BusCore::new(Vec::new());
    let mut status = String::new();
    let actions = core.handle(
        BusCommand::AddNode { name: "Door".to_string(), channel: 0, attached: None },
        &mut status,
    );
    assert_eq!(core.nodes.len(), 1);
    assert!(actions.iter().all(|a| !matches!(a, BusAction::CloseRecorder)));
    core.handle(
        BusCommand::AddNode {
            name: "Bound".to_string(),
            channel: 0,
            attached: Some((0, "ECU".to_string())),
        },
        &mut status,
    );
    core.define_sysvar(SysVarDef {
        namespace: "env".to_string(),
        name: "speed".to_string(),
        init: double(0.0),
        min: None,
        max: None,
        unit: String::new(),
        comment: String::new(),
    });
    let mut first = turn();
    first.frames.push(ScriptFrame { id: 0x123, extended: false, data: vec![1, 2, 3] });
    first.emitted.push(("derived".to_string(), double(2.5)));
    first.sys_sets.push(("env::speed".to_string(), double(7.0)));
    first.sys_sets.push(("env::nothing".to_string(), double(7.0)));
    first.lines.push("hello".to_string());
    let mut second = turn();
    second.frames.push(ScriptFrame { id: 0x9999, extended: false, data: vec![0; 10] });
    let turns = vec![first, second];

    let frames = core.scripted_frames(&turns, 5_000);
    assert_eq!(frames.len(), 1, "a bound script is silent while its node is");
    assert_eq!((frames[0].id, frames[0].t_us, frames[0].len), (0x123, 5_000, 3));
    assert!(!frames[0].extended);

    let notes = core.take_node_turns(&turns);
    assert_eq!(notes.len(), 1);
    assert!(notes[0].1.contains("env::nothing"), "{}", notes[0].1);
    assert_eq!(core.sysvars[0].value.bits, 7.0f64.to_bits());
    assert!(core.obs.streams.iter().any(|s| s.key.signal == "derived" && s.owner == "Door"));
    let line = core.write_log.back().expect("a line");
    assert_eq!(line.text, "[Door] hello");
    assert!(line.wall_us < 24 * 3_600 * 1_000_000, "a time of day");
}

#[test]
fn write_lines_carry_their_kind_and_the_log_is_bounded() {
    let mut core = BusCore::new(Vec::new());
    for i in 0..5_000 {
        core.write_push(WriteKind::Info, format!("line {}", i));
    }
    assert!(core.write_log.len() < 5_000);
    assert_eq!(core.write_log.back().unwrap().text, "line 4999");
    assert!(core.write_dirty);
}

#[test]
fn rules_are_added_edited_and_removed() {
    let mut core = BusCore::new(Vec::new());
    core.add_trigger(TriggerCond::ErrorFrame { ch: 0 }, TriggerAction::InsertMarker);
    core.add_trigger(TriggerCond::IdPresent { ch: 0, id: 1 }, TriggerAction::ClearTrace);
    core.set_trigger_enabled(0, false);
    assert!(!core.triggers[0].enabled);
    core.edit_trigger(1, TriggerCond::IdPresent { ch: 0, id: 2 }, TriggerAction::ClearTrace);
    assert!(matches!(core.triggers[1].cond, TriggerCond::IdPresent { id: 2, .. }));
    core.remove_trigger(0);
    core.remove_trigger(7);
    assert_eq!(core.triggers.len(), 1);
}

#[test]
fn markers_are_capped_from_the_front() {
    let mut core = BusCore::new(Vec::new());
    core.marker_cap = 2;
    let mut status = String::new();
    for t in [10, 20, 30] {
        core.run_action(
            TriggerAction::InsertMarker,
            t,
            &Vec::new(),
            &Vec::new(),
            Ok(String::new()),
            &mut status,
        );
    }
    assert_eq!(core.markers, vec![20, 30]);
}

#[test]
fn an_unattached_bus_stays_off_the_wire() {
    let core = BusCore::new(Vec::new());
    assert!(!core.reaches_wire(0));
    assert_eq!(FrameFlags::none().tag(), "");
}

fn bounded(min: Option<f64>, max: Option<f64>) -> SysVarDef {
    SysVarDef {
        namespace: "env".to_string(),
        name: "speed".to_string(),
        init: double(5.0),
        min: min.map(double),
        max: max.map(double),
        unit: String::new(),
        comment: String::new(),
    }
}

fn value_of(core: &BusCore) -> f64 {
    f64::from_bits(core.sysvars[0].value.bits)
}

#[test]
fn a_variable_is_held_in_its_bounds() {
    let mut core = BusCore::new(Vec::new());
    core.define_sysvar(bounded(Some(0.0), Some(10.0)));
    let set = |core: &mut BusCore, v: f64| {
        let cmd = BusCommand::SetSysVar {
            namespace: "env".to_string(),
            name: "speed".to_string(),
            value: double(v),
        };
        assert_eq!(told(core, cmd), "");
    };
    set(&mut core, 100.0);
    assert_eq!(value_of(&core), 10.0, "a command above the bounds");
    assert_eq!(core.sysvars[0].value.whole, 10);
    let i = core.obs.subs.iter().position(|s| s.key.signal == "speed").expect("published");
    assert_eq!(core.obs.subs[i].last_raw, 10, "observers see what is held");
    set(&mut core, -3.0);
    assert_eq!(value_of(&core), 0.0, "a command below them");
    set(&mut core, 2.5);
    assert_eq!(value_of(&core), 2.5);
    set(&mut core, f64::NAN);
    assert_eq!(value_of(&core), 0.0, "what is no number goes to a bound");

    let mut status = String::new();
    core.handle(
        BusCommand::AddNode { name: "Door".to_string(), channel: 0, attached: None },
        &mut status,
    );
    let mut above = turn();
    above.sys_sets.push(("env::speed".to_string(), double(11.0)));
    core.take_node_turns(&vec![above]);
    assert_eq!(value_of(&core), 10.0, "a script above the bounds");
    let mut below = turn();
    below.sys_sets.push(("env::speed".to_string(), double(-0.5)));
    core.take_node_turns(&vec![below]);
    assert_eq!(value_of(&core), 0.0, "a script below them");
}

#[test]
fn bounds_order_numbers_by_their_value() {
    let held = |min: Option<f64>, max: Option<f64>, v: f64| {
        f64::from_bits(bounded(min, max).clamp(double(v)).bits)
    };
    assert_eq!(held(Some(-5.0), Some(-1.0), -9.0), -5.0);
    assert_eq!(held(Some(-5.0), Some(-1.0), 3.0), -1.0);
    assert_eq!(held(Some(-5.0), Some(-1.0), -2.0), -2.0);
    assert_eq!(held(Some(-5.0), None, f64::NEG_INFINITY), -5.0);
    assert_eq!(held(None, Some(1.5), f64::INFINITY), 1.5);
    assert_eq!(held(None, None, -7.25), -7.25);
    assert_eq!(held(Some(f64::NAN), Some(2.0), 1.0), 1.0, "such a bound is ignored");
    assert_eq!(held(Some(3.0), Some(2.0), 9.0), 2.0, "the upper bound comes last");
    assert!(held(None, None, f64::NAN).is_nan());
}
