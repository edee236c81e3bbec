use roxy_can::fr_db::{fmt_decoded_signal, FrChannel, FrDb};
use roxy_can::fr_params::{FrCycleTime, FrMacrotick};

const SAMPLE_FIBEX: &str = r#"<?xml version="1.0" encoding="UTF-8"?>
<fx:FIBEX xmlns:fx="http://www.asam.net/xml/fbx" xmlns:ho="http://www.asam.net/xml" xmlns:flexray="http://www.asam.net/xml/fbx/flexray">
  <fx:ELEMENTS>
    <fx:CLUSTERS>
      <fx:CLUSTER ID="c1">
        <ho:SHORT-NAME>PowertrainCluster</ho:SHORT-NAME>
        <fx:SPEED>10000000</fx:SPEED>
        <flexray:CYCLE>5000</flexray:CYCLE>
        <flexray:MACROTICK>5</flexray:MACROTICK>
        <flexray:NUMBER-OF-STATIC-SLOTS>10</flexray:NUMBER-OF-STATIC-SLOTS>
      </fx:CLUSTER>
    </fx:CLUSTERS>
    <fx:CHANNELS>
      <fx:CHANNEL ID="chA">
        <ho:SHORT-NAME>Channel_A</ho:SHORT-NAME>
        <fx:FRAME-TRIGGERING>
          <fx:SLOT-ID>1</fx:SLOT-ID>
          <fx:CYCLE-REPETITION>1</fx:CYCLE-REPETITION>
          <fx:FRAME-REF ID-REF="f_eng"/>
        </fx:FRAME-TRIGGERING>
        <fx:FRAME-TRIGGERING>
          <fx:SLOT-ID>2</fx:SLOT-ID>
          <fx:FRAME-REF ID-REF="f_trans"/>
        </fx:FRAME-TRIGGERING>
      </fx:CHANNEL>
      <fx:CHANNEL ID="chB">
        <ho:SHORT-NAME>Channel_B</ho:SHORT-NAME>
        <fx:FRAME-TRIGGERING>
          <fx:SLOT-ID>1</fx:SLOT-ID>
          <fx:FRAME-REF ID-REF="f_eng"/>
        </fx:FRAME-TRIGGERING>
        <fx:SLOT>
          <fx:SLOT-ID>3</fx:SLOT-ID>
          <fx:FRAME-TRIGGERING>
            <fx:BASE-CYCLE>0</fx:BASE-CYCLE>
            <fx:CYCLE-REPETITION>4</fx:CYCLE-REPETITION>
            <fx:FRAME-REF ID-REF="f_chassis"/>
          </fx:FRAME-TRIGGERING>
        </fx:SLOT>
      </fx:CHANNEL>
    </fx:CHANNELS>
    <fx:ECUS>
      <fx:ECU ID="e1"><ho:SHORT-NAME>EngECU</ho:SHORT-NAME></fx:ECU>
      <fx:ECU ID="e2"><ho:SHORT-NAME>TransECU</ho:SHORT-NAME></fx:ECU>
    </fx:ECUS>
    <fx:PDUS>
      <fx:PDU ID="p_eng">
        <ho:SHORT-NAME>Eng_PDU</ho:SHORT-NAME>
        <fx:BYTE-LENGTH>8</fx:BYTE-LENGTH>
        <fx:SIGNAL-INSTANCES>
          <fx:SIGNAL-INSTANCE ID="i1">
            <fx:BIT-POSITION>0</fx:BIT-POSITION>
            <fx:IS-HIGH-LOW-BYTE-ORDER>true</fx:IS-HIGH-LOW-BYTE-ORDER>
            <fx:SIGNAL-REF ID-REF="s_speed"/>
          </fx:SIGNAL-INSTANCE>
          <fx:SIGNAL-INSTANCE ID="i2">
            <fx:BIT-POSITION>16</fx:BIT-POSITION>
            <fx:IS-HIGH-LOW-BYTE-ORDER>false</fx:IS-HIGH-LOW-BYTE-ORDER>
            <fx:SIGNAL-REF ID-REF="s_temp"/>
          </fx:SIGNAL-INSTANCE>
        </fx:SIGNAL-INSTANCES>
      </fx:PDU>
      <fx:PDU ID="p_chassis">
        <ho:SHORT-NAME>Chassis_PDU</ho:SHORT-NAME>
        <fx:BYTE-LENGTH>12</fx:BYTE-LENGTH>
        <fx:PDU-TYPE>event-pdu</fx:PDU-TYPE>
        <fx:SIGNAL-INSTANCES>
          <fx:SIGNAL-INSTANCE ID="i3">
            <fx:BIT-POSITION>48</fx:BIT-POSITION>
            <fx:SIGNAL-REF ID-REF="s_status"/>
          </fx:SIGNAL-INSTANCE>
        </fx:SIGNAL-INSTANCES>
      </fx:PDU>
    </fx:PDUS>
    <fx:FRAMES>
      <fx:FRAME ID="f_eng">
        <ho:SHORT-NAME>EngineData</ho:SHORT-NAME>
        <fx:BYTE-LENGTH>8</fx:BYTE-LENGTH>
        <fx:PDU-INSTANCES>
          <fx:PDU-INSTANCE ID="pi1">
            <fx:PDU-REF ID-REF="p_eng"/>
            <fx:BIT-POSITION>0</fx:BIT-POSITION>
          </fx:PDU-INSTANCE>
        </fx:PDU-INSTANCES>
      </fx:FRAME>
      <fx:FRAME ID="f_trans">
        <ho:SHORT-NAME>TransmissionData</ho:SHORT-NAME>
        <fx:BYTE-LENGTH>6</fx:BYTE-LENGTH>
        <fx:SIGNAL-INSTANCES>
          <fx:SIGNAL-INSTANCE ID="i4">
            <fx:BIT-POSITION>8</fx:BIT-POSITION>
            <fx:SIGNAL-REF ID-REF="s_temp"/>
          </fx:SIGNAL-INSTANCE>
        </fx:SIGNAL-INSTANCES>
      </fx:FRAME>
      <fx:FRAME ID="f_chassis">
        <ho:SHORT-NAME>ChassisStatus</ho:SHORT-NAME>
        <fx:BYTE-LENGTH>12</fx:BYTE-LENGTH>
        <fx:PDU-INSTANCES>
          <fx:PDU-INSTANCE ID="pi2">
            <fx:PDU-REF ID-REF="p_chassis"/>
            <fx:BIT-POSITION>0</fx:BIT-POSITION>
          </fx:PDU-INSTANCE>
        </fx:PDU-INSTANCES>
      </fx:FRAME>
    </fx:FRAMES>
    <fx:SIGNALS>
      <fx:SIGNAL ID="s_speed"><ho:SHORT-NAME>EngineSpeed</ho:SHORT-NAME><fx:CODING-REF ID-REF="c_speed"/></fx:SIGNAL>
      <fx:SIGNAL ID="s_temp"><ho:SHORT-NAME>CoolantTemp</ho:SHORT-NAME><fx:CODING-REF ID-REF="c_temp"/></fx:SIGNAL>
      <fx:SIGNAL ID="s_status"><ho:SHORT-NAME>ChassisStatus</ho:SHORT-NAME><fx:CODING-REF ID-REF="c_status"/></fx:SIGNAL>
    </fx:SIGNALS>
  </fx:ELEMENTS>
  <fx:PROCESSING-INFORMATION>
    <ho:UNIT-SPEC>
      <ho:UNIT ID="u_rpm"><ho:SHORT-NAME>rpm</ho:SHORT-NAME><ho:DISPLAY-NAME>rpm</ho:DISPLAY-NAME></ho:UNIT>
    </ho:UNIT-SPEC>
    <fx:CODINGS>
      <fx:CODING ID="c_speed">
        <ho:CODED-TYPE><ho:BIT-LENGTH>16</ho:BIT-LENGTH></ho:CODED-TYPE>
        <ho:COMPU-METHOD>
          <ho:UNIT-REF ID-REF="u_rpm"/>
          <ho:COMPU-SCALE>
            <ho:COMPU-RATIONAL-COEFFS>
              <ho:COMPU-NUMERATOR><ho:V>0</ho:V><ho:V>0.25</ho:V></ho:COMPU-NUMERATOR>
              <ho:COMPU-DENOMINATOR><ho:V>1</ho:V></ho:COMPU-DENOMINATOR>
            </ho:COMPU-RATIONAL-COEFFS>
          </ho:COMPU-SCALE>
        </ho:COMPU-METHOD>
      </fx:CODING>
      <fx:CODING ID="c_temp">
        <ho:CODED-TYPE><ho:BIT-LENGTH>8</ho:BIT-LENGTH></ho:CODED-TYPE>
        <ho:DISPLAY-NAME>DegC</ho:DISPLAY-NAME>
        <ho:COMPU-METHOD>
          <ho:COMPU-SCALE>
            <ho:COMPU-RATIONAL-COEFFS>
              <ho:COMPU-NUMERATOR><ho:V>-40</ho:V><ho:V>1</ho:V></ho:COMPU-NUMERATOR>
            </ho:COMPU-RATIONAL-COEFFS>
          </ho:COMPU-SCALE>
          <ho:SCALE-CONSTR><ho:LOWER-LIMIT>-40</ho:LOWER-LIMIT><ho:UPPER-LIMIT>215</ho:UPPER-LIMIT></ho:SCALE-CONSTR>
        </ho:COMPU-METHOD>
      </fx:CODING>
      <fx:CODING ID="c_status">
        <ho:CODED-TYPE><ho:BIT-LENGTH>8</ho:BIT-LENGTH></ho:CODED-TYPE>
        <ho:COMPU-METHOD>
          <ho:COMPU-SCALE><ho:LOWER-LIMIT>0</ho:LOWER-LIMIT><ho:VT>OK</ho:VT></ho:COMPU-SCALE>
          <ho:COMPU-SCALE><ho:LOWER-LIMIT>1</ho:LOWER-LIMIT><ho:VT>Warning</ho:VT></ho:COMPU-SCALE>
          <ho:COMPU-SCALE><ho:LOWER-LIMIT>2</ho:LOWER-LIMIT><ho:VT>Error</ho:VT></ho:COMPU-SCALE>
        </ho:COMPU-METHOD>
      </fx:CODING>
    </fx:CODINGS>
  </fx:PROCESSING-INFORMATION>
</fx:FIBEX>
"#;

const SAMPLE_ARXML: &str = r#"<?xml version="1.0" encoding="UTF-8"?>
<AUTOSAR>
  <AR-PACKAGES><AR-PACKAGE><SHORT-NAME>Net</SHORT-NAME><ELEMENTS>
    <FLEXRAY-CLUSTER>
      <SHORT-NAME>PowertrainCluster</SHORT-NAME>
      <FLEXRAY-GD-MACROTICK-DURATION>5</FLEXRAY-GD-MACROTICK-DURATION>
      <FLEXRAY-CYCLE>1000</FLEXRAY-CYCLE>
      <PHYSICAL-CHANNELS>
        <FLEXRAY-PHYSICAL-CHANNEL>
          <SHORT-NAME>CH_1</SHORT-NAME>
          <FLEXRAY-FRAME-TRIGGERING>
            <FRAME-REF DEST="FLEXRAY-FRAME">/Net/EngineData</FRAME-REF>
            <SLOT-ID>1</SLOT-ID>
            <CYCLE-REPETITION>CYCLE-REPETITION-1</CYCLE-REPETITION>
            <STARTUP-FRAME>TRUE</STARTUP-FRAME>
          </FLEXRAY-FRAME-TRIGGERING>
        </FLEXRAY-PHYSICAL-CHANNEL>
        <FLEXRAY-PHYSICAL-CHANNEL>
          <SHORT-NAME>CH_2</SHORT-NAME>
          <FLEXRAY-FRAME-TRIGGERING>
            <FRAME-REF DEST="FLEXRAY-FRAME">/Net/EngineData</FRAME-REF>
            <SLOT-ID>1</SLOT-ID>
            <CYCLE-REPETITION>CYCLE-REPETITION-1</CYCLE-REPETITION>
            <STARTUP-FRAME>TRUE</STARTUP-FRAME>
          </FLEXRAY-FRAME-TRIGGERING>
          <FLEXRAY-FRAME-TRIGGERING>
            <FRAME-REF DEST="FLEXRAY-FRAME">/Net/ChassisStatus</FRAME-REF>
            <SLOT-ID>3</SLOT-ID>
            <CYCLE-REPETITION>CYCLE-REPETITION-4</CYCLE-REPETITION>
          </FLEXRAY-FRAME-TRIGGERING>
        </FLEXRAY-PHYSICAL-CHANNEL>
      </PHYSICAL-CHANNELS>
    </FLEXRAY-CLUSTER>
    <ECU-INSTANCE><SHORT-NAME>EngECU</SHORT-NAME></ECU-INSTANCE>
    <ECU-INSTANCE><SHORT-NAME>BodyECU</SHORT-NAME></ECU-INSTANCE>
    <FLEXRAY-FRAME>
      <SHORT-NAME>EngineData</SHORT-NAME>
      <FRAME-LENGTH>8</FRAME-LENGTH>
      <PDU-TO-FRAME-MAPPING><PDU-REF>/Net/Eng_PDU</PDU-REF><START-POSITION>0</START-POSITION></PDU-TO-FRAME-MAPPING>
    </FLEXRAY-FRAME>
    <FLEXRAY-FRAME><SHORT-NAME>ChassisStatus</SHORT-NAME><FRAME-LENGTH>12</FRAME-LENGTH></FLEXRAY-FRAME>
    <I-SIGNAL-I-PDU>
      <SHORT-NAME>Eng_PDU</SHORT-NAME>
      <LENGTH>8</LENGTH>
      <I-SIGNAL-TO-PDU-MAPPING>
        <SHORT-NAME>m1</SHORT-NAME>
        <I-SIGNAL-REF>/Net/EngineSpeed</I-SIGNAL-REF>
        <PACKING-BYTE-ORDER>MOST-SIGNIFICANT-BYTE-FIRST</PACKING-BYTE-ORDER>
        <START-POSITION>0</START-POSITION>
      </I-SIGNAL-TO-PDU-MAPPING>
    </I-SIGNAL-I-PDU>
    <I-SIGNAL><SHORT-NAME>EngineSpeed</SHORT-NAME><LENGTH>16</LENGTH></I-SIGNAL>
  </ELEMENTS></AR-PACKAGE></AR-PACKAGES>
</AUTOSAR>
"#;

#[test]
fn parses_the_asam_style_fibex_sample() {
    let db = FrDb::parse(SAMPLE_FIBEX).expect("sample FIBEX should parse");

    assert_eq!(db.params.name, "PowertrainCluster");
    assert_eq!(db.params.speed_kbps, 10000);
    assert!(matches!(&db.params.cycle_time, FrCycleTime::Micros(t) if t == "5000"));
    assert_eq!(db.params.number_of_static_slots, 10);
    assert!(matches!(&db.params.macrotick, FrMacrotick::Guessed(t) if t == "5"));
    assert_eq!(db.ecus, vec!["EngECU".to_string(), "TransECU".to_string()]);
    assert_eq!(db.frames.len(), 3);
    assert_eq!(db.pdus.len(), 3, "the frame without a PDU layer gets one of its own");

    let engine = db.frames.iter().find(|f| f.name == "EngineData").unwrap();
    assert_eq!(engine.triggering.slot_id, 1);
    assert_eq!(engine.triggering.channel, FrChannel::Both);
    assert_eq!(engine.triggering.cycle_repetition, 1);
    assert_eq!(engine.pdus.len(), 1);

    let trans = db.frames.iter().find(|f| f.name == "TransmissionData").unwrap();
    assert_eq!(trans.triggering.channel, FrChannel::A);
    assert_eq!(trans.triggering.slot_id, 2);
    assert_eq!(trans.pdus, vec![("TransmissionData".to_string(), 0)]);
    let chassis = db.frames.iter().find(|f| f.name == "ChassisStatus").unwrap();
    assert_eq!(chassis.triggering.channel, FrChannel::B);
    assert_eq!(chassis.triggering.slot_id, 3);
    assert_eq!(chassis.triggering.cycle_repetition, 4);

    let eng_pdu = db.pdus.iter().find(|p| p.name == "Eng_PDU").unwrap();
    let speed = eng_pdu.signals.iter().find(|s| s.name == "EngineSpeed").unwrap();
    assert_eq!(speed.length_bits, 16);
    assert!(speed.big_endian);
    assert_eq!(speed.factor.parse::<f64>().unwrap(), 0.25);
    assert_eq!(speed.unit, "rpm");

    let temp = eng_pdu.signals.iter().find(|s| s.name == "CoolantTemp").unwrap();
    assert!(!temp.big_endian);
    assert_eq!(temp.offset.parse::<f64>().unwrap(), -40.0);
    assert_eq!(temp.min.parse::<f64>().unwrap(), -40.0);
    assert_eq!(temp.max.parse::<f64>().unwrap(), 215.0);
    assert_eq!(temp.unit, "DegC");

    let chassis_pdu = db.pdus.iter().find(|p| p.name == "Chassis_PDU").unwrap();
    assert!(chassis_pdu.dynamic, "the upper-cased type names an event PDU");
    let status = chassis_pdu.signals.iter().find(|s| s.name == "ChassisStatus").unwrap();
    assert_eq!(
        status.value_descriptions,
        vec![(0, "OK".to_string()), (1, "Warning".to_string()), (2, "Error".to_string())]
    );
}

#[test]
fn parses_the_autosar_arxml_sample() {
    let db = FrDb::parse(SAMPLE_ARXML).expect("sample ARXML should parse");
    assert_eq!(db.params.name, "PowertrainCluster");
    assert!(matches!(db.params.cycle_time, FrCycleTime::Macroticks(1000)));
    assert!(matches!(&db.params.macrotick, FrMacrotick::Micros(t) if t == "5"));
    assert_eq!(db.params.g_macro_per_cycle, Some(1000));
    assert_eq!(db.ecus.len(), 2);
    assert_eq!(db.frames.len(), 2);

    let engine = db.frames.iter().find(|f| f.name == "EngineData").unwrap();
    assert_eq!(engine.triggering.slot_id, 1);
    assert_eq!(engine.triggering.channel, FrChannel::Both);
    assert_eq!(engine.triggering.cycle_repetition, 1);
    assert!(engine.triggering.startup);

    let chassis = db.frames.iter().find(|f| f.name == "ChassisStatus").unwrap();
    assert_eq!(chassis.triggering.channel, FrChannel::B);
    assert_eq!(chassis.triggering.cycle_repetition, 4);
    assert_eq!(chassis.length, 12);

    let eng_pdu = db.pdus.iter().find(|p| p.name == "Eng_PDU").unwrap();
    assert_eq!(eng_pdu.signals.len(), 1);
    let speed = eng_pdu.signals.iter().find(|s| s.name == "EngineSpeed").unwrap();
    assert_eq!(speed.start_bit, 0);
    assert_eq!(speed.length_bits, 16);
    assert!(speed.big_endian);
}

#[test]
fn frame_at_respects_the_schedule() {
    let db = FrDb::parse(SAMPLE_FIBEX).unwrap();
    // ChassisStatus: slot 3, B, base 0, rep 4.
    assert!(db.frame_at(3, 0, 1).is_some(), "cycle 0 fires");
    assert!(db.frame_at(3, 4, 1).is_some(), "cycle 4 fires");
    assert!(db.frame_at(3, 1, 1).is_none(), "cycle 1 silent");
    assert!(db.frame_at(3, 0, 0).is_none(), "channel A does not carry it");
    assert!(db.frame_at(3, 0, 2).is_some(), "unknown channel still finds it");
}

#[test]
fn decodes_signals_from_a_payload() {
    let db = FrDb::parse(SAMPLE_FIBEX).unwrap();
    let engine = db.frames.iter().find(|f| f.name == "EngineData").unwrap();
    let payload = [0x00, 0x08, 0x00, 0x00, 0x00, 0x00, 0x00, 0x00];
    let decoded = db.decode(engine, &payload);
    let speed = decoded.iter().find(|d| d.name == "EngineSpeed").unwrap();
    let phys = speed.value as f64 * speed.factor.parse::<f64>().unwrap();
    assert_eq!(phys, 256.0);

    let chassis = db.frames.iter().find(|f| f.name == "ChassisStatus").unwrap();
    let decoded = db.decode(chassis, &[0, 0, 0, 0, 0, 0, 0, 0x02, 0, 0, 0, 0]);
    let status = &decoded[0];
    let label = status.value_descriptions.iter().find(|(v, _)| *v as i128 == status.value);
    let text = fmt_decoded_signal("1", &status.unit, label.map(|(_, t)| t.as_str()), status.raw);
    assert!(text.contains("Warning"), "raw 1 decodes to its Warning label: {}", text);
    assert!(text.ends_with("  (1h)"), "{}", text);
}

#[test]
fn a_broken_description_names_what_is_wrong() {
    let e = FrDb::parse("<FIBEX><open>").unwrap_err();
    assert!(e.starts_with("XML 解析错误："), "{}", e);
    let e = FrDb::parse("<note><to>nobody</to></note>").unwrap_err();
    assert_eq!(e, "无法识别的 XML 格式：既不是 FIBEX 也不是 AUTOSAR");
    assert!(FrDb::parse("<x><CLUSTER/></x>").is_ok(), "told by its elements");
}
