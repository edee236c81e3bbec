use roxy_can::can::frame::{CanFrame, Direction, FrameFlags};
use roxy_can::dbc::{cycle_us_of, fmt_signal_value, load_dbc_str, DecodedSignal, RawValue};
use roxy_can::dbc_merge::merge_databases;
use roxy_can::dbc_source::Attribute;

const CYCLE_DBC: &str = r#"VERSION "roxy-can cycle test"

NS_ :

BU_: ECU

BO_ 256 BothAttrs: 8 ECU
 SG_ S : 0|8@1+ (1,0) [0|0] "" ECU

BO_ 257 OnlyLegacy: 8 ECU
 SG_ S : 0|8@1+ (1,0) [0|0] "" ECU

BO_ 258 EventOnly: 8 ECU
 SG_ S : 0|8@1+ (1,0) [0|0] "" ECU

BO_ 260 UsesDefault: 8 ECU
 SG_ S : 0|8@1+ (1,0) [0|0] "" ECU

BA_DEF_ BO_  "GenMsgCycleTime" INT 0 10000;
BA_DEF_ BO_  "CycleTime" INT 0 10000;
BA_DEF_DEF_  "GenMsgCycleTime" 77;
BA_DEF_DEF_  "CycleTime" 88;
BA_ "GenMsgCycleTime" BO_ 256 111;
BA_ "CycleTime" BO_ 256 222;
BA_ "CycleTime" BO_ 257 333;
BA_ "GenMsgCycleTime" BO_ 258 0;
"#;

const MUX_DBC: &str = r#"VERSION "roxy-can mux test"

NS_ :

BU_: ECU

BO_ 400 Muxed: 8 ECU
 SG_ Switch M : 0|8@1+ (1,0) [0|0] "" ECU
 SG_ Always : 8|8@1+ (1,0) [0|0] "" ECU
 SG_ G1_A m1 : 16|16@1+ (0.1,0) [0|0] "" ECU
 SG_ G2_C m2 : 16|16@1+ (0.5,0) [0|0] "" ECU
 SG_ Nested m2M : 32|8@1+ (1,0) [0|0] "" ECU

BO_ 401 Plain: 8 ECU
 SG_ P1 : 0|8@1+ (1,0) [0|0] "" ECU
 SG_ P2 : 8|8@1+ (1,0) [0|0] "" ECU
"#;

const SG_MUL_VAL_DBC: &str = r#"VERSION "roxy-can extended mux test"

NS_ :

BU_: ECU

BO_ 430 Ext: 8 ECU
 SG_ Top M : 0|8@1+ (1,0) [0|0] "" ECU
 SG_ Range m1 : 8|8@1+ (1,0) [0|0] "" ECU
 SG_ Split m2 : 8|8@1+ (1,0) [0|0] "" ECU
 SG_ Override m1 : 8|8@1+ (1,0) [0|0] "" ECU
 SG_ Mid m1M : 16|8@1+ (1,0) [0|0] "" ECU
 SG_ Leaf m1 : 24|8@1+ (1,0) [0|0] "" ECU

SG_MUL_VAL_ 430 Range Top 1-3;
SG_MUL_VAL_ 430 Split Top 3-4, 9-10;
SG_MUL_VAL_ 430 Override Top 7-7;
SG_MUL_VAL_ 430 Leaf Mid 5-5;
"#;

const FLOAT_DBC: &str = r#"VERSION "roxy-can float test"

NS_ :

BU_: ECU

BO_ 440 Floats: 8 ECU
 SG_ F32 : 0|32@1+ (1,0) [0|0] "" ECU
 SG_ F64 : 32|64@1+ (1,0) [0|0] "" ECU
 SG_ Bad : 0|16@1+ (1,0) [0|0] "" ECU

SIG_VALTYPE_ 440 F32 : 1;
SIG_VALTYPE_ 440 F64 : 2;
SIG_VALTYPE_ 440 Bad : 1;
"#;

const VAL_DBC: &str = r#"VERSION "roxy-can val test"

NS_ :

BU_: ECU

BO_ 410 Enums: 8 ECU
 SG_ Gear : 0|8@1+ (1,0) [0|0] "" ECU
 SG_ Mode : 8|8@1- (1,0) [0|0] "" ECU
 SG_ Free : 16|8@1+ (1,0) [0|0] "" ECU

VAL_ 410 Gear 2 "Gear_2" 1 "Gear_1" 0 "Neutral";
VAL_ 410 Mode -1 "Reverse" 0 "Forward";
"#;

/// Three nodes and three messages, as a small database has them.
const SAMPLE_DBC: &str = r#"VERSION "sample"

NS_ :

BU_: EngineECU ChassisECU Dashboard

BO_ 256 EngineStatus: 8 EngineECU
 SG_ EngineSpeed : 0|16@1+ (0.25,0) [0|8000] "rpm" Dashboard,ChassisECU
 SG_ ThrottlePos : 16|8@1+ (0.5,0) [0|100] "%" Dashboard,ChassisECU
 SG_ CoolantTemp : 24|8@1+ (1,-40) [-40|215] "degC" Dashboard

BO_ 512 WheelSpeed: 8 ChassisECU
 SG_ FrontLeft : 0|16@1+ (0.01,0) [0|300] "km/h" Dashboard

BO_ 800 BrakeInfo: 8 ChassisECU
 SG_ BrakePressure : 7|16@0+ (0.1,0) [0|200] "bar" Dashboard
"#;

fn frame_with(id: u32, bytes: &[u8]) -> CanFrame {
    let mut data = [0u8; 64];
    data[..bytes.len()].copy_from_slice(bytes);
    CanFrame {
        t_us: 0,
        channel: 0,
        id,
        extended: false,
        len: bytes.len() as u8,
        data,
        dir: Direction::Rx,
        flags: FrameFlags::none(),
    }
}

fn phys(d: &DecodedSignal) -> f64 {
    let factor = f64::from_bits(d.factor);
    let offset = f64::from_bits(d.offset);
    match d.value {
        RawValue::Integer(v) => v as f64 * factor + offset,
        RawValue::Single(bits) => f32::from_bits(bits) as f64 * factor + offset,
        RawValue::Double(bits) => f64::from_bits(bits) * factor + offset,
    }
}

fn names(sigs: &[DecodedSignal]) -> Vec<&str> {
    sigs.iter().map(|d| d.name.as_str()).collect()
}

#[test]
fn gen_msg_cycle_time_beats_cycle_time() {
    let db = load_dbc_str(CYCLE_DBC).unwrap();
    assert_eq!(
        db.messages[&256].cycle_us,
        Some(111_000),
        "the Vector name wins"
    );
    assert_eq!(
        db.messages[&257].cycle_us,
        Some(333_000),
        "legacy name still honoured"
    );
    assert_eq!(
        db.messages[&260].cycle_us,
        Some(77_000),
        "default follows the winner"
    );
}

#[test]
fn a_muxed_frame_decodes_only_the_active_group() {
    let table = load_dbc_str(MUX_DBC).unwrap();
    // Switch = 1 selects group 1: raw 100 * 0.1 = 10.0 in bytes 2-3.
    let sigs = table.decode_signals(&frame_with(400, &[1, 7, 100, 0, 0, 0, 0, 0]));
    assert_eq!(names(&sigs), ["Switch", "Always", "G1_A"]);
    let g1 = sigs.iter().find(|d| d.name == "G1_A").unwrap();
    assert!((phys(g1) - 10.0).abs() < 1e-9);
}

#[test]
fn switching_the_group_swaps_the_decoded_signals() {
    let table = load_dbc_str(MUX_DBC).unwrap();
    // Switch = 2 selects group 2; the same bytes now mean G2_C, not G1_A.
    let sigs = table.decode_signals(&frame_with(400, &[2, 7, 40, 0, 5, 0, 0, 0]));
    assert_eq!(names(&sigs), ["Switch", "Always", "G2_C", "Nested"]);
    let g2 = sigs.iter().find(|d| d.name == "G2_C").unwrap();
    assert!((phys(g2) - 20.0).abs() < 1e-9, "40 * 0.5");
    assert!(
        !names(&sigs).contains(&"G1_A"),
        "the inactive group must vanish, not decode from the same bytes"
    );
}

#[test]
fn an_unknown_switch_value_leaves_only_the_static_signals() {
    let table = load_dbc_str(MUX_DBC).unwrap();
    let sigs = table.decode_signals(&frame_with(400, &[9, 7, 1, 2, 3, 4, 5, 6]));
    assert_eq!(
        names(&sigs),
        ["Switch", "Always"],
        "no group matches, so only the switch and static signals remain"
    );
}

#[test]
fn a_non_muxed_message_decodes_everything_unchanged() {
    let table = load_dbc_str(MUX_DBC).unwrap();
    assert!(table.messages[&401].switch_names.is_empty());
    assert!(!table.messages[&400].switch_names.is_empty());
    let sigs = table.decode_signals(&frame_with(401, &[1, 2, 3, 4, 5, 6, 7, 8]));
    assert_eq!(names(&sigs), ["P1", "P2"]);
}

#[test]
fn a_nested_switch_marker_decodes_with_its_group() {
    let table = load_dbc_str(MUX_DBC).unwrap();
    let nested = table.messages[&400]
        .signals
        .iter()
        .find(|s| s.name == "Nested")
        .unwrap();
    assert_eq!(
        nested.mux_when.len(),
        1,
        "m2M is a member of group 2 as well as a switch"
    );
    assert_eq!(nested.mux_when[0].switch, "Switch");
    assert_eq!(nested.mux_when[0].ranges, [(2, 2)]);
    let off = table.decode_signals(&frame_with(400, &[1, 0, 0, 0, 9, 0, 0, 0]));
    assert!(!names(&off).contains(&"Nested"));
}

#[test]
fn a_range_mapping_activates_over_a_span_of_switch_values() {
    let table = load_dbc_str(SG_MUL_VAL_DBC).unwrap();
    // Range is gated to 1-3 by its line, so 2 is in and 4 is out.
    let on = table.decode_signals(&frame_with(430, &[2, 0, 0, 0, 0, 0, 0, 0]));
    assert!(names(&on).contains(&"Range"));
    let off = table.decode_signals(&frame_with(430, &[4, 0, 0, 0, 0, 0, 0, 0]));
    assert!(!names(&off).contains(&"Range"));
}

#[test]
fn a_signal_can_belong_to_several_switch_ranges() {
    let table = load_dbc_str(SG_MUL_VAL_DBC).unwrap();
    let split = table.messages[&430]
        .signals
        .iter()
        .find(|s| s.name == "Split")
        .unwrap();
    assert_eq!(split.mux_when[0].ranges, [(3, 4), (9, 10)]);
    for v in [3, 4, 9, 10] {
        let sigs = table.decode_signals(&frame_with(430, &[v, 0, 0, 0, 0, 0, 0, 0]));
        assert!(names(&sigs).contains(&"Split"), "switch {v} shows Split");
    }
    for v in [2, 5, 8] {
        let sigs = table.decode_signals(&frame_with(430, &[v, 0, 0, 0, 0, 0, 0, 0]));
        assert!(!names(&sigs).contains(&"Split"), "switch {v} hides Split");
    }
}

#[test]
fn a_mul_val_line_supersedes_the_m_marker() {
    let table = load_dbc_str(SG_MUL_VAL_DBC).unwrap();
    // Override carries m1 but its SG_MUL_VAL_ line says 7-7 only.
    let sigs = table.decode_signals(&frame_with(430, &[1, 0, 0, 0, 0, 0, 0, 0]));
    assert!(
        !names(&sigs).contains(&"Override"),
        "the m1 marker must not resurrect the signal"
    );
    let sigs = table.decode_signals(&frame_with(430, &[7, 0, 0, 0, 0, 0, 0, 0]));
    assert!(names(&sigs).contains(&"Override"));
}

#[test]
fn a_nested_chain_gates_on_both_switches() {
    let table = load_dbc_str(SG_MUL_VAL_DBC).unwrap();
    // Leaf needs Top=1 (via Mid's m1M marker) and Mid=5 (via its line).
    let both = table.decode_signals(&frame_with(430, &[1, 0, 5, 0, 0, 0, 0, 0]));
    assert!(names(&both).contains(&"Mid") && names(&both).contains(&"Leaf"));
    let wrong_nested = table.decode_signals(&frame_with(430, &[1, 0, 6, 0, 0, 0, 0, 0]));
    assert!(
        names(&wrong_nested).contains(&"Mid"),
        "Mid itself is active"
    );
    assert!(
        !names(&wrong_nested).contains(&"Leaf"),
        "the nested switch reads 6, so Leaf must hide"
    );
    let wrong_top = table.decode_signals(&frame_with(430, &[2, 0, 5, 0, 0, 0, 0, 0]));
    assert!(!names(&wrong_top).contains(&"Leaf"));
}

#[test]
fn a_condition_naming_an_unknown_switch_still_shows_the_signal() {
    let table = load_dbc_str(
        r#"VERSION "roxy-can broken mux test"

NS_ :

BU_: ECU

BO_ 431 Broken: 8 ECU
 SG_ Orphan m1 : 0|8@1+ (1,0) [0|0] "" ECU

SG_MUL_VAL_ 431 Orphan NoSuchSwitch 1-1;
"#,
    )
    .unwrap();
    let sigs = table.decode_signals(&frame_with(431, &[9, 0, 0, 0, 0, 0, 0, 0]));
    assert_eq!(
        names(&sigs),
        ["Orphan"],
        "an ungatable signal falls back to always present"
    );
}

#[test]
fn several_independent_switches_parse_and_gate_separately() {
    let table = load_dbc_str(
        r#"VERSION "roxy-can two switches test"

NS_ :

BU_: ECU

BO_ 432 Twin: 8 ECU
 SG_ MuxA M : 0|8@1+ (1,0) [0|0] "" ECU
 SG_ MuxB M : 8|8@1+ (1,0) [0|0] "" ECU
 SG_ A1 m1 : 16|8@1+ (1,0) [0|0] "" ECU
 SG_ B2 m2 : 24|8@1+ (1,0) [0|0] "" ECU

SG_MUL_VAL_ 432 A1 MuxA 1-1;
SG_MUL_VAL_ 432 B2 MuxB 2-2;
"#,
    )
    .unwrap();
    let both = table.decode_signals(&frame_with(432, &[1, 2, 0, 0, 0, 0, 0, 0]));
    assert_eq!(names(&both), ["MuxA", "MuxB", "A1", "B2"]);
    let neither = table.decode_signals(&frame_with(432, &[5, 5, 0, 0, 0, 0, 0, 0]));
    assert_eq!(
        names(&neither),
        ["MuxA", "MuxB"],
        "switches are always shown"
    );
}

#[test]
fn a_float_signal_decodes_from_its_bit_pattern() {
    let table = load_dbc_str(FLOAT_DBC).unwrap();
    let mut data = [0u8; 4];
    data.copy_from_slice(&12.5f32.to_bits().to_le_bytes());
    let sigs = table.decode_signals(&frame_with(440, &data));
    let hit = sigs.iter().find(|d| d.name == "F32").unwrap();
    assert!((phys(hit) - 12.5).abs() < 1e-9);
    assert_eq!(hit.type_tag, "f32");
    assert!(hit.label.is_none(), "floats have no enum labels");
}

#[test]
fn a_double_signal_decodes_from_its_bit_pattern() {
    let table = load_dbc_str(FLOAT_DBC).unwrap();
    let mut data = [0u8; 12];
    data[4..12].copy_from_slice(&(-0.5f64).to_bits().to_le_bytes());
    let sigs = table.decode_signals(&frame_with(440, &data));
    let hit = sigs.iter().find(|d| d.name == "F64").unwrap();
    assert!((phys(hit) - (-0.5)).abs() < 1e-9);
    assert_eq!(hit.type_tag, "f64");
}

#[test]
fn a_float_declaration_on_a_mismatched_size_is_ignored() {
    let table = load_dbc_str(FLOAT_DBC).unwrap();
    let bad = table.messages[&440]
        .signals
        .iter()
        .find(|s| s.name == "Bad")
        .unwrap();
    assert!(!bad.is_float, "16 bits cannot hold an f32");
    assert_eq!(bad.type_tag, "u16");
}

#[test]
fn a_signed_marker_still_names_the_integer_tag() {
    let table = load_dbc_str(
        r#"VERSION "roxy-can tags test"

NS_ :

BU_: ECU

BO_ 441 Tags: 8 ECU
 SG_ S8 : 0|8@1- (1,0) [0|0] "" ECU
 SG_ U24 : 8|24@1+ (1,0) [0|0] "" ECU
"#,
    )
    .unwrap();
    let tags: Vec<&str> = table.messages[&441]
        .signals
        .iter()
        .map(|s| s.type_tag.as_str())
        .collect();
    assert_eq!(tags, ["i8", "u24"]);
}

#[test]
fn an_enum_label_matches_the_raw_value() {
    let table = load_dbc_str(VAL_DBC).unwrap();
    let sigs = table.decode_signals(&frame_with(410, &[2, 0, 3, 0, 0, 0, 0, 0]));
    let gear = sigs.iter().find(|d| d.name == "Gear").unwrap();
    assert_eq!(gear.label.as_deref(), Some("Gear_2"));
    let mode = sigs.iter().find(|d| d.name == "Mode").unwrap();
    assert_eq!(mode.label.as_deref(), Some("Forward"));
    let free = sigs.iter().find(|d| d.name == "Free").unwrap();
    assert_eq!(free.label, None, "no VAL_ line, no label");
}

#[test]
fn a_value_without_a_matching_entry_stays_unlabelled() {
    let table = load_dbc_str(VAL_DBC).unwrap();
    let sigs = table.decode_signals(&frame_with(410, &[5, 0, 0, 0, 0, 0, 0, 0]));
    let gear = sigs.iter().find(|d| d.name == "Gear").unwrap();
    assert_eq!(gear.label, None);
    assert!((phys(gear) - 5.0).abs() < 1e-9, "the number still shows");
}

#[test]
fn a_signed_signal_can_carry_a_negative_label() {
    let table = load_dbc_str(VAL_DBC).unwrap();
    // 0xFF in an 8-bit signed signal is raw -1, which VAL_ names "Reverse".
    let sigs = table.decode_signals(&frame_with(410, &[0, 0xFF, 0, 0, 0, 0, 0, 0]));
    let mode = sigs.iter().find(|d| d.name == "Mode").unwrap();
    assert_eq!(mode.label.as_deref(), Some("Reverse"));
    assert!((phys(mode) - (-1.0)).abs() < 1e-9);
}

#[test]
fn a_named_table_reference_is_a_parse_error_in_can_dbc() {
    let db = load_dbc_str(
        r#"VERSION "roxy-can named table test"

NS_ :

BU_: ECU

BO_ 420 Refs: 8 ECU
 SG_ S : 0|8@1+ (1,0) [0|0] "" ECU

VAL_TABLE_ States 0 "Off" 1 "On";
VAL_ 420 S States;
"#,
    );
    assert!(db.is_err(), "the named-table VAL_ form is unparseable");
}

#[test]
fn a_zero_declared_cycle_means_event_triggered() {
    let db = load_dbc_str(CYCLE_DBC).unwrap();
    assert_eq!(
        db.messages[&258].cycle_us,
        Some(0),
        "0 is a real declaration, not the absence of one"
    );
    // A non-numeric attribute sharing the name must not masquerade as 0.
    assert_eq!(cycle_us_of(&Attribute::Text("Cyclic".to_string())), None);
    assert_eq!(cycle_us_of(&Attribute::Signed(-1)), None, "a negative cycle is nonsense");
}

#[test]
fn the_value_cell_joins_only_the_parts_that_exist() {
    assert_eq!(fmt_signal_value("3000", "rpm", "u16", None), "3000 rpm [u16]");
    assert_eq!(fmt_signal_value("3000", "", "u16", None), "3000 [u16]");
    assert_eq!(fmt_signal_value("2", "", "u8", Some("Gear_2")), "2 [u8] (Gear_2)");
    assert_eq!(fmt_signal_value("256", "rpm", "", None), "256 rpm", "empty parts are skipped");
    assert_eq!(fmt_signal_value("2", "", "", Some("Gear_2")), "2 (Gear_2)");
    assert_eq!(fmt_signal_value("7", "", "", None), "7");
}

#[test]
fn sample_dbc_parses() {
    let table = load_dbc_str(SAMPLE_DBC).unwrap();
    assert_eq!(table.order.len(), 3);
    let engine = table.messages.get(&0x100).unwrap();
    assert_eq!(engine.name, "EngineStatus");
    assert_eq!(engine.signals.len(), 3);
    assert_eq!(engine.signals[0].name, "EngineSpeed");
    assert_eq!(table.message_name(0x320), Some("BrakeInfo"));
    assert_eq!(table.message_name(0x999), None);
    assert_eq!(table.nodes, vec!["EngineECU", "ChassisECU", "Dashboard"]);
    assert_eq!(engine.transmitter, "EngineECU");
    assert!(engine.signals[0].receivers.iter().any(|r| r == "Dashboard"));
    assert!(engine.signals[0].receivers.iter().any(|r| r == "ChassisECU"));
    assert_eq!(engine.cycle_us, None, "no attribute is not a claim of 0");
}

#[test]
fn node_tx_and_rx_lookups() {
    let table = load_dbc_str(SAMPLE_DBC).unwrap();
    assert_eq!(table.node_tx_ids("EngineECU"), vec![0x100]);
    assert_eq!(table.node_tx_ids("ChassisECU"), vec![0x200, 0x320]);
    assert!(table.node_tx_ids("Dashboard").is_empty());
    let rx = table.node_rx_signals("Dashboard");
    assert!(rx.iter().any(|(id, sig, sender)| *id == 0x100
        && sig == "EngineSpeed"
        && sender == "EngineECU"));
    assert!(rx.iter().any(|(id, sig, _)| *id == 0x320 && sig == "BrakePressure"));
    assert_eq!(rx.len(), 5, "Dashboard receives all five signals");
    assert!(table
        .node_rx_signals("ChassisECU")
        .iter()
        .any(|(id, sig, _)| *id == 0x100 && sig == "ThrottlePos"));
}

#[test]
fn decode_engine_speed() {
    let table = load_dbc_str(SAMPLE_DBC).unwrap();
    // raw 12000 * 0.25 = 3000 rpm, little-endian 16 bit at bit 0
    let frame = frame_with(0x100, &[0xE0, 0x2E]);
    let sigs = table.decode_signals(&frame);
    assert_eq!(sigs[0].name, "EngineSpeed");
    assert!((phys(&sigs[0]) - 3000.0).abs() < 1e-9);
}

#[test]
fn encode_signal_roundtrip() {
    let table = load_dbc_str(SAMPLE_DBC).unwrap();
    let mut data = [0u8; 64];
    assert!(table.encode_signal(0x100, "EngineSpeed", 12_000, &mut data));
    let frame = frame_with(0x100, &data[..8]);
    let sigs = table.decode_signals(&frame);
    let speed = sigs.iter().find(|d| d.name == "EngineSpeed").unwrap();
    assert!((phys(speed) - 3000.0).abs() < 0.5, "decoded {}", phys(speed));
    assert!(!table.encode_signal(0x100, "NoSuchSignal", 1, &mut data));
    assert!(!table.encode_signal(0x999, "EngineSpeed", 1, &mut data));
}

#[test]
fn a_float_signal_encodes_and_roundtrips() {
    let table = load_dbc_str(FLOAT_DBC).unwrap();
    let mut data = [0u8; 8];
    assert!(table.encode_signal(440, "F32", 3000.0f32.to_bits() as u64, &mut data));
    let sigs = table.decode_signals(&frame_with(440, &data));
    let hit = sigs.iter().find(|d| d.name == "F32").unwrap();
    assert!((phys(hit) - 3000.0).abs() < 1e-6);
}

#[test]
fn a_text_that_is_no_database_is_an_error() {
    assert!(load_dbc_str("this is not a database").is_err());
}

#[test]
fn error_frames_carry_no_values() {
    let table = load_dbc_str(SAMPLE_DBC).unwrap();
    let mut frame = frame_with(0x100, &[0xE0, 0x2E]);
    frame.flags = FrameFlags::error();
    let sigs = table.decode_signals(&frame);
    assert_eq!(sigs.len(), 3);
    assert!(sigs.iter().all(|d| d.raw == 0), "there is no payload to read");
    assert!(table.has_message(0x100));
    assert!(!table.has_message(0x101));
    assert_eq!(table.val_label(0x100, "EngineSpeed", 0), None);
}

#[test]
fn databases_merge_in_their_order() {
    let paths = |n: usize| -> Vec<String> { (0..n).map(|i| format!("{i}.dbc")).collect() };
    assert!(matches!(merge_databases(&paths(0), &Vec::new()), Ok(None)));
    let other = SAMPLE_DBC.replace("EngineStatus", "Other");
    let texts = vec![Ok(SAMPLE_DBC.to_string()), Ok(other.clone()), Ok(CYCLE_DBC.to_string())];
    let merged = merge_databases(&paths(3), &texts).unwrap().unwrap();
    assert_eq!(merged.messages.get(&0x100).unwrap().name, "EngineStatus", "the first one wins");
    let last = load_dbc_str(CYCLE_DBC).unwrap();
    assert!(last.order.iter().all(|id| merged.messages.contains_key(id)));
    assert!(merged.order.windows(2).all(|w| w[0] < w[1]), "ids once and in order");
    let texts = vec![Ok(other), Err("no such file".to_string()), Ok("BO_ nonsense".to_string())];
    assert_eq!(merge_databases(&paths(3), &texts).err().unwrap(), "1.dbc: no such file");
    let texts = vec![Ok("BO_ nonsense".to_string())];
    let e = merge_databases(&paths(1), &texts).err().unwrap();
    assert!(e.starts_with("0.dbc: parse error: "), "{}", e);
}
