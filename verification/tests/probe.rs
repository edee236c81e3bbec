use roxy_can::cli_probe::{channels_to_drain, cluster_report, drain_report, ProbeFrame};
use roxy_can::cli_report::{open_scan, vector_channels_report, OpenOutcome, VectorChannel};
use roxy_can::export::report_file_name;
use roxy_can::fr_db::FrDb;

const CLUSTER: &str = r#"<?xml version="1.0" encoding="UTF-8"?>
<fx:FIBEX xmlns:fx="http://www.asam.net/xml/fbx" xmlns:ho="http://www.asam.net/xml" xmlns:flexray="http://www.asam.net/xml/fbx/flexray">
  <fx:ELEMENTS>
    <fx:CLUSTERS>
      <fx:CLUSTER ID="c1">
        <ho:SHORT-NAME>PowertrainCluster</ho:SHORT-NAME>
        <fx:SPEED>10000000</fx:SPEED>
        <flexray:CYCLE>5000</flexray:CYCLE>
        <flexray:MACROTICK>5</flexray:MACROTICK>
        <flexray:NUMBER-OF-STATIC-SLOTS>10</flexray:NUMBER-OF-STATIC-SLOTS>
      </fx:CLUSTER>
    </fx:CLUSTERS>
    <fx:CHANNELS>
      <fx:CHANNEL ID="chA">
        <ho:SHORT-NAME>Channel_A</ho:SHORT-NAME>
        <fx:FRAME-TRIGGERING>
          <fx:SLOT-ID>1</fx:SLOT-ID>
          <fx:CYCLE-REPETITION>1</fx:CYCLE-REPETITION>
          <fx:FRAME-REF ID-REF="f_eng"/>
        </fx:FRAME-TRIGGERING>
        <fx:FRAME-TRIGGERING>
          <fx:SLOT-ID>2</fx:SLOT-ID>
          <fx:FRAME-REF ID-REF="f_trans"/>
        </fx:FRAME-TRIGGERING>
      </fx:CHANNEL>
      <fx:CHANNEL ID="chB">
        <ho:SHORT-NAME>Channel_B</ho:SHORT-NAME>
        <fx:FRAME-TRIGGERING>
          <fx:SLOT-ID>1</fx:SLOT-ID>
          <fx:FRAME-REF ID-REF="f_eng"/>
        </fx:FRAME-TRIGGERING>
        <fx:SLOT>
          <fx:SLOT-ID>3</fx:SLOT-ID>
          <fx:FRAME-TRIGGERING>
            <fx:BASE-CYCLE>0</fx:BASE-CYCLE>
            <fx:CYCLE-REPETITION>4</fx:CYCLE-REPETITION>
            <fx:FRAME-REF ID-REF="f_chassis"/>
          </fx:FRAME-TRIGGERING>
        </fx:SLOT>
      </fx:CHANNEL>
    </fx:CHANNELS>
    <fx:ECUS>
      <fx:ECU ID="e1"><ho:SHORT-NAME>EngECU</ho:SHORT-NAME></fx:ECU>
      <fx:ECU ID="e2"><ho:SHORT-NAME>TransECU</ho:SHORT-NAME></fx:ECU>
    </fx:ECUS>
    <fx:PDUS>
      <fx:PDU ID="p_eng">
        <ho:SHORT-NAME>Eng_PDU</ho:SHORT-NAME>
        <fx:BYTE-LENGTH>8</fx:BYTE-LENGTH>
        <fx:SIGNAL-INSTANCES>
          <fx:SIGNAL-INSTANCE ID="i1">
            <fx:BIT-POSITION>0</fx:BIT-POSITION>
            <fx:IS-HIGH-LOW-BYTE-ORDER>true</fx:IS-HIGH-LOW-BYTE-ORDER>
            <fx:SIGNAL-REF ID-REF="s_speed"/>
          </fx:SIGNAL-INSTANCE>
          <fx:SIGNAL-INSTANCE ID="i2">
            <fx:BIT-POSITION>16</fx:BIT-POSITION>
            <fx:IS-HIGH-LOW-BYTE-ORDER>false</fx:IS-HIGH-LOW-BYTE-ORDER>
            <fx:SIGNAL-REF ID-REF="s_temp"/>
          </fx:SIGNAL-INSTANCE>
        </fx:SIGNAL-INSTANCES>
      </fx:PDU>
      <fx:PDU ID="p_chassis">
        <ho:SHORT-NAME>Chassis_PDU</ho:SHORT-NAME>
        <fx:BYTE-LENGTH>12</fx:BYTE-LENGTH>
        <fx:PDU-TYPE>event-pdu</fx:PDU-TYPE>
        <fx:SIGNAL-INSTANCES>
          <fx:SIGNAL-INSTANCE ID="i3">
            <fx:BIT-POSITION>48</fx:BIT-POSITION>
            <fx:SIGNAL-REF ID-REF="s_status"/>
          </fx:SIGNAL-INSTANCE>
        </fx:SIGNAL-INSTANCES>
      </fx:PDU>
    </fx:PDUS>
    <fx:FRAMES>
      <fx:FRAME ID="f_eng">
        <ho:SHORT-NAME>EngineData</ho:SHORT-NAME>
        <fx:BYTE-LENGTH>8</fx:BYTE-LENGTH>
        <fx:PDU-INSTANCES>
          <fx:PDU-INSTANCE ID="pi1">
            <fx:PDU-REF ID-REF="p_eng"/>
            <fx:BIT-POSITION>0</fx:BIT-POSITION>
          </fx:PDU-INSTANCE>
        </fx:PDU-INSTANCES>
      </fx:FRAME>
      <fx:FRAME ID="f_trans">
        <ho:SHORT-NAME>TransmissionData</ho:SHORT-NAME>
        <fx:BYTE-LENGTH>6</fx:BYTE-LENGTH>
        <fx:SIGNAL-INSTANCES>
          <fx:SIGNAL-INSTANCE ID="i4">
            <fx:BIT-POSITION>8</fx:BIT-POSITION>
            <fx:SIGNAL-REF ID-REF="s_temp"/>
          </fx:SIGNAL-INSTANCE>
        </fx:SIGNAL-INSTANCES>
      </fx:FRAME>
      <fx:FRAME ID="f_chassis">
        <ho:SHORT-NAME>ChassisStatus</ho:SHORT-NAME>
        <fx:BYTE-LENGTH>12</fx:BYTE-LENGTH>
        <fx:PDU-INSTANCES>
          <fx:PDU-INSTANCE ID="pi2">
            <fx:PDU-REF ID-REF="p_chassis"/>
            <fx:BIT-POSITION>0</fx:BIT-POSITION>
          </fx:PDU-INSTANCE>
        </fx:PDU-INSTANCES>
      </fx:FRAME>
    </fx:FRAMES>
    <fx:SIGNALS>
      <fx:SIGNAL ID="s_speed"><ho:SHORT-NAME>EngineSpeed</ho:SHORT-NAME><fx:CODING-REF ID-REF="c_speed"/></fx:SIGNAL>
      <fx:SIGNAL ID="s_temp"><ho:SHORT-NAME>CoolantTemp</ho:SHORT-NAME><fx:CODING-REF ID-REF="c_temp"/></fx:SIGNAL>
      <fx:SIGNAL ID="s_status"><ho:SHORT-NAME>ChassisStatus</ho:SHORT-NAME><fx:CODING-REF ID-REF="c_status"/></fx:SIGNAL>
    </fx:SIGNALS>
  </fx:ELEMENTS>
  <fx:PROCESSING-INFORMATION>
    <ho:UNIT-SPEC>
      <ho:UNIT ID="u_rpm"><ho:SHORT-NAME>rpm</ho:SHORT-NAME><ho:DISPLAY-NAME>rpm</ho:DISPLAY-NAME></ho:UNIT>
    </ho:UNIT-SPEC>
    <fx:CODINGS>
      <fx:CODING ID="c_speed">
        <ho:CODED-TYPE><ho:BIT-LENGTH>16</ho:BIT-LENGTH></ho:CODED-TYPE>
        <ho:COMPU-METHOD>
          <ho:UNIT-REF ID-REF="u_rpm"/>
          <ho:COMPU-SCALE>
            <ho:COMPU-RATIONAL-COEFFS>
              <ho:COMPU-NUMERATOR><ho:V>0</ho:V><ho:V>0.25</ho:V></ho:COMPU-NUMERATOR>
              <ho:COMPU-DENOMINATOR><ho:V>1</ho:V></ho:COMPU-DENOMINATOR>
            </ho:COMPU-RATIONAL-COEFFS>
          </ho:COMPU-SCALE>
        </ho:COMPU-METHOD>
      </fx:CODING>
      <fx:CODING ID="c_temp">
        <ho:CODED-TYPE><ho:BIT-LENGTH>8</ho:BIT-LENGTH></ho:CODED-TYPE>
        <ho:DISPLAY-NAME>DegC</ho:DISPLAY-NAME>
        <ho:COMPU-METHOD>
          <ho:COMPU-SCALE>
            <ho:COMPU-RATIONAL-COEFFS>
              <ho:COMPU-NUMERATOR><ho:V>-40</ho:V><ho:V>1</ho:V></ho:COMPU-NUMERATOR>
            </ho:COMPU-RATIONAL-COEFFS>
          </ho:COMPU-SCALE>
          <ho:SCALE-CONSTR><ho:LOWER-LIMIT>-40</ho:LOWER-LIMIT><ho:UPPER-LIMIT>215</ho:UPPER-LIMIT></ho:SCALE-CONSTR>
        </ho:COMPU-METHOD>
      </fx:CODING>
      <fx:CODING ID="c_status">
        <ho:CODED-TYPE><ho:BIT-LENGTH>8</ho:BIT-LENGTH></ho:CODED-TYPE>
        <ho:COMPU-METHOD>
          <ho:COMPU-SCALE><ho:LOWER-LIMIT>0</ho:LOWER-LIMIT><ho:VT>OK</ho:VT></ho:COMPU-SCALE>
          <ho:COMPU-SCALE><ho:LOWER-LIMIT>1</ho:LOWER-LIMIT><ho:VT>Warning</ho:VT></ho:COMPU-SCALE>
          <ho:COMPU-SCALE><ho:LOWER-LIMIT>2</ho:LOWER-LIMIT><ho:VT>Error</ho:VT></ho:COMPU-SCALE>
        </ho:COMPU-METHOD>
      </fx:CODING>
    </fx:CODINGS>
  </fx:PROCESSING-INFORMATION>
</fx:FIBEX>
"#;

fn channel(index: i32, flexray: bool) -> VectorChannel {
    VectorChannel { index, name: "VN".to_string(), bus_caps: 0x1A, can: !flexray, flexray }
}

#[test]
fn a_cluster_is_told_with_its_slots() {
    let db = FrDb::parse(CLUSTER).unwrap();
    let s = cluster_report("net.xml", &db, "5", "1");
    let slots: Vec<String> =
        db.frames.iter().take(8).map(|f| f.triggering.slot_id.to_string()).collect();
    assert_eq!(
        s,
        format!(
            "cluster description net.xml:\n  baudrate={} kbit/s cycle=5 ms macrotick=1 µs staticSlots={} payloadStatic={} minislots={}\n  frames: {} (slots: {})\n",
            db.params.speed_kbps,
            db.params.number_of_static_slots,
            db.params.payload_length_static,
            db.params.number_of_minislots,
            db.frames.len(),
            slots.join(", "),
        )
    );
}

#[test]
fn at_most_four_channels_are_drained() {
    assert_eq!(channels_to_drain(&vec![3, 1, 4, 1, 5]), vec![3, 1, 4, 1]);
    assert_eq!(channels_to_drain(&vec![7]), vec![7]);
    assert!(channels_to_drain(&Vec::new()).is_empty());
}

#[test]
fn a_drained_channel_dumps_its_first_event() {
    let mut raw = [0u8; 64];
    raw[0] = 0xAB;
    raw[63] = 0x0C;
    let f = |slot: u16| ProbeFrame { slot, cycle: 9, len: 16, header_crc: 0xBEE, raw };
    let s = drain_report(2, Some(&vec![f(11), f(12)]));
    let expected = format!(
        "ch2:\n  frame slot=11 cycle=9 len=16 crc=0x0BEE\n  first event, raw bytes 0..64 (known: size@0 tag@4 flags@32 headerCRC@34 slot@36 cycle@38 len@39 data@40):\n    {:02x?}\n    {:02x?}\n  frame slot=12 cycle=9 len=16 crc=0x0BEE\n  drained 2 frame(s)\n",
        &raw[..32],
        &raw[32..],
    );
    assert_eq!(s, expected);
    assert_eq!(drain_report(-1, Some(&Vec::new())), "ch-1:\n  drained 0 frame(s)\n");
    assert_eq!(
        drain_report(0, None),
        "ch0:\n  reopened failed (it opened during the scan) -- skipped\n"
    );
}

#[test]
fn a_scan_keeps_the_channels_that_look_usable() {
    let channels = vec![channel(0, true), channel(1, false), channel(2, false)];
    assert_eq!(
        vector_channels_report(&channels[..1].iter().map(|c| channel(c.index, c.flexray)).collect()),
        "1 Vector channel(s):\n  ch0: VN [caps=0x0000001A can:false flexray:true]\n"
    );
    let outcomes = vec![
        OpenOutcome::Opened(Some(0)),
        OpenOutcome::Opened(Some(0x10)),
        OpenOutcome::Failed("no port".to_string()),
    ];
    let (s, usable) = open_scan(&channels, &outcomes, 0x10, true);
    assert_eq!(usable, vec![0, 1], "a FlexRay channel, and one with a valid configuration");
    assert!(s.contains("  ch0: open OK, status=0x00000000\n"), "{}", s);
    assert!(s.contains("  ch1: open OK, status=0x00000010 VALID_CLUSTER_CFG\n"), "{}", s);
    assert!(s.contains("  ch2: no port\n"), "{}", s);
    let (s, usable) = open_scan(&vec![channel(5, false)], &vec![OpenOutcome::Opened(None)], 1, false);
    assert!(usable.is_empty());
    assert!(s.contains("  ch5: open OK, config read failed\n"), "{}", s);
    assert!(s.contains("hint: pass --fibex"), "{}", s);
}

#[test]
fn a_report_is_named_after_its_window() {
    assert_eq!(report_file_name("Graphics 2"), "graphics_2.csv");
    assert_eq!(report_file_name("DATA"), "data.csv");
}
