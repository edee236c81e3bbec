//! AUTOSAR ARXML (R4.x): signals, PDUs, frames and triggerings, referred to by
//! name.

use vstd::prelude::*;
use vstd::string::*;
use crate::fr_db;
use crate::fr_db::{FrChannel, FrDb, FrFrameDb, FrPdu, FrSignal, FrTriggering};
use crate::fr_fibex;
use crate::fr_params;
use crate::fr_params::FrClusterParams;
use crate::fr_text;
use crate::text;
use crate::xml;
use crate::xml::XmlNode;

verus! {

/// An I-SIGNAL or SYSTEM-SIGNAL definition.
pub struct ArxmlSignal {
    pub name: String,
    pub length_bits: u32,
    pub signed: bool,
    pub comment: String,
}

/// The elements with either tag: those of the first, then those of the second.
pub open spec fn either(doc: Seq<XmlNode>, i: int, a: Seq<char>, b: Seq<char>) -> Seq<usize> {
    xml::collected(doc, i, a) + xml::collected(doc, i, b)
}

fn collect_either(doc: &Vec<XmlNode>, i: usize, a: &str, b: &str) -> (r: Vec<usize>)
    requires
        i < doc@.len(),
    ensures
        r@ == either(doc@, i as int, a@, b@),
        xml::in_doc(doc@, r@),
{
    let mut r: Vec<usize> = xml::collect(doc, i, a);
    let mut more: Vec<usize> = xml::collect(doc, i, b);
    let ghost first = r@;
    let ghost second = more@;
    r.append(&mut more);
    assert forall|k: int| 0 <= k < r@.len() implies #[trigger] r@[k] < doc@.len() by {
        if k < first.len() {
            assert(first[k] < doc@.len());
        } else {
            assert(second[k - first.len()] < doc@.len());
        }
    }
    r
}

/// `s` is what the signal element `i` states.
pub open spec fn is_signal(s: ArxmlSignal, doc: Seq<XmlNode>, i: int) -> bool {
    &&& s.name@ == xml::name_of(doc, i)
    &&& s.length_bits == xml::number_or(doc, i, seq!["LENGTH"], 1)
    &&& s.signed == fr_text::names_signed(
        xml::text_under(
            doc,
            i,
            seq!["SIGN-CONVENTION", "I-SIGNAL-TYPE", "NETWORK-REPRESENTATION-PROPS"],
        ),
    )
    &&& s.comment@ == xml::or_empty(xml::text_under(doc, i, seq!["L-2", "DESC"]))
}

/// `signals` is what the I-SIGNAL and then the SYSTEM-SIGNAL elements state.
pub open spec fn are_signals(signals: Seq<ArxmlSignal>, doc: Seq<XmlNode>, root: int) -> bool {
    let nodes = either(doc, root, "I-SIGNAL"@, "SYSTEM-SIGNAL"@);
    &&& signals.len() == nodes.len()
    &&& forall|k: int|
        0 <= k < signals.len() ==> is_signal(#[trigger] signals[k], doc, nodes[k] as int)
}

fn read_signals(doc: &Vec<XmlNode>, root: usize) -> (r: Vec<ArxmlSignal>)
    requires
        root < doc@.len(),
    ensures
        are_signals(r@, doc@, root as int),
{
    let nodes: Vec<usize> = collect_either(doc, root, "I-SIGNAL", "SYSTEM-SIGNAL");
    let mut r: Vec<ArxmlSignal> = Vec::new();
    for k in 0..nodes.len()
        invariant
            xml::in_doc(doc@, nodes@),
            r@.len() == k,
            forall|j: int| 0 <= j < k ==> is_signal(#[trigger] r@[j], doc@, nodes@[j] as int),
    {
        assert(nodes@[k as int] < doc@.len());
        let i: usize = nodes[k];
        r.push(
            ArxmlSignal {
                name: xml::short_name(doc, i),
                length_bits: xml::u32_or(doc, i, &xml::tags1("LENGTH"), 1),
                signed: fr_text::is_signed_text(
                    &xml::text_of(
                        doc,
                        i,
                        &xml::tags3(
                            "SIGN-CONVENTION",
                            "I-SIGNAL-TYPE",
                            "NETWORK-REPRESENTATION-PROPS",
                        ),
                    ),
                ),
                comment: fr_fibex::or_default(xml::text_of(doc, i, &xml::tags2("L-2", "DESC"))),
            },
        );
    }
    r
}

/// An I-SIGNAL-TO-PDU-MAPPING.
pub struct ArxmlMapping {
    pub signal: Option<String>,
    pub start_bit: u32,
    pub length_bits: u32,
    pub big_endian: bool,
}

/// The last segment of a reference.
pub open spec fn segment_of(t: Option<Seq<char>>) -> Option<Seq<char>> {
    match t {
        Some(s) => Some(fr_text::last_segment(s)),
        None => None,
    }
}

/// The packing order names the most significant byte first.
pub open spec fn packs_big_endian(t: Option<Seq<char>>) -> bool {
    let u = text::upper_text(xml::or_empty(t));
    fr_text::has_part(u, "MOST"@) || fr_text::has_part(u, "BIG"@)
}

/// `m` is what the mapping element `i` states.
pub open spec fn is_mapping(m: ArxmlMapping, doc: Seq<XmlNode>, i: int) -> bool {
    &&& xml::text_view(m.signal) == segment_of(
        xml::text_under(doc, i, seq!["I-SIGNAL-REF", "SYSTEM-SIGNAL-REF"]),
    )
    &&& m.start_bit == xml::number_or(doc, i, seq!["START-POSITION", "START-BIT-POSITION"], 0)
    &&& m.length_bits == xml::number_or(doc, i, seq!["LENGTH"], 1)
    &&& m.big_endian == packs_big_endian(xml::text_under(doc, i, seq!["PACKING-BYTE-ORDER"]))
}

/// A PDU before its references are resolved.
pub struct ArxmlPdu {
    pub name: String,
    pub length: u32,
    pub dynamic: bool,
    pub comment: String,
    pub mappings: Vec<ArxmlMapping>,
}

/// The PDU type names a dynamic, event or general-purpose PDU.
pub open spec fn dynamic_type(t: Option<Seq<char>>) -> bool {
    let u = text::upper_text(xml::or_empty(t));
    ||| text::holds_text(u, "DYNAMIC"@)
    ||| text::holds_text(u, "EVENT"@)
    ||| text::holds_text(u, "GENERAL-PURPOSE"@)
}

/// `p` is what the PDU element `i` states.
pub open spec fn is_pdu(p: ArxmlPdu, doc: Seq<XmlNode>, i: int) -> bool {
    let nodes = xml::collected(doc, i, "I-SIGNAL-TO-PDU-MAPPING"@);
    &&& p.name@ == xml::name_of(doc, i)
    &&& p.length == xml::number_or(doc, i, seq!["LENGTH"], 4)
    &&& p.dynamic == dynamic_type(xml::text_under(doc, i, seq!["PDU-TYPE", "I-PDU-TYPE"]))
    &&& p.comment@ == xml::or_empty(xml::text_under(doc, i, seq!["L-2", "DESC"]))
    &&& p.mappings@.len() == nodes.len()
    &&& forall|k: int|
        0 <= k < p.mappings@.len() ==> is_mapping(#[trigger] p.mappings@[k], doc, nodes[k] as int)
}

/// `pdus` is what the I-SIGNAL-I-PDU and then the FLEXRAY-I-PDU elements state.
pub open spec fn are_pdus(pdus: Seq<ArxmlPdu>, doc: Seq<XmlNode>, root: int) -> bool {
    let nodes = either(doc, root, "I-SIGNAL-I-PDU"@, "FLEXRAY-I-PDU"@);
    &&& pdus.len() == nodes.len()
    &&& forall|k: int| 0 <= k < pdus.len() ==> is_pdu(#[trigger] pdus[k], doc, nodes[k] as int)
}

fn read_mapping(doc: &Vec<XmlNode>, i: usize) -> (m: ArxmlMapping)
    requires
        i < doc@.len(),
    ensures
        is_mapping(m, doc@, i as int),
{
    let signal: Option<String> = match xml::text_of(
        doc,
        i,
        &xml::tags2("I-SIGNAL-REF", "SYSTEM-SIGNAL-REF"),
    ) {
        Some(t) => Some(fr_text::ref_short_name(t.as_str())),
        None => None,
    };
    let order: String = text::uppercase(
        fr_fibex::or_default(xml::text_of(doc, i, &xml::tags1("PACKING-BYTE-ORDER"))).as_str(),
    );
    ArxmlMapping {
        signal,
        start_bit: xml::u32_or(doc, i, &xml::tags2("START-POSITION", "START-BIT-POSITION"), 0),
        length_bits: xml::u32_or(doc, i, &xml::tags1("LENGTH"), 1),
        big_endian: fr_text::has_either_part(order.as_str(), "MOST", "BIG"),
    }
}

fn read_pdus(doc: &Vec<XmlNode>, root: usize) -> (r: Vec<ArxmlPdu>)
    requires
        root < doc@.len(),
    ensures
        are_pdus(r@, doc@, root as int),
{
    let nodes: Vec<usize> = collect_either(doc, root, "I-SIGNAL-I-PDU", "FLEXRAY-I-PDU");
    let mut r: Vec<ArxmlPdu> = Vec::new();
    for k in 0..nodes.len()
        invariant
            xml::in_doc(doc@, nodes@),
            r@.len() == k,
            forall|j: int| 0 <= j < k ==> is_pdu(#[trigger] r@[j], doc@, nodes@[j] as int),
    {
        assert(nodes@[k as int] < doc@.len());
        let i: usize = nodes[k];
        let kind: String = text::uppercase(
            fr_fibex::or_default(
                xml::text_of(doc, i, &xml::tags2("PDU-TYPE", "I-PDU-TYPE")),
            ).as_str(),
        );
        let found: Vec<usize> = xml::collect(doc, i, "I-SIGNAL-TO-PDU-MAPPING");
        let mut mappings: Vec<ArxmlMapping> = Vec::new();
        for m in 0..found.len()
            invariant
                xml::in_doc(doc@, found@),
                mappings@.len() == m,
                forall|j: int|
                    0 <= j < m ==> is_mapping(#[trigger] mappings@[j], doc@, found@[j] as int),
        {
            assert(found@[m as int] < doc@.len());
            mappings.push(read_mapping(doc, found[m]));
        }
        r.push(
            ArxmlPdu {
                name: xml::short_name(doc, i),
                length: xml::u32_or(doc, i, &xml::tags1("LENGTH"), 4),
                dynamic: text::contains_text(kind.as_str(), "DYNAMIC") || text::contains_text(
                    kind.as_str(),
                    "EVENT",
                ) || text::contains_text(kind.as_str(), "GENERAL-PURPOSE"),
                comment: fr_fibex::or_default(xml::text_of(doc, i, &xml::tags2("L-2", "DESC"))),
                mappings,
            },
        );
    }
    r
}

/// A frame before its references are resolved.
pub struct ArxmlFrame {
    pub name: String,
    pub length: u32,
    pub payload_preamble: bool,
    pub comment: String,
    pub placements: Vec<(String, u32)>,
}

/// The placements among the first `n` elements that refer to a PDU, by the PDU's
/// name.
pub open spec fn placements(doc: Seq<XmlNode>, nodes: Seq<usize>, n: int) -> Seq<(Seq<char>, u32)>
    decreases n,
{
    if n <= 0 {
        Seq::<(Seq<char>, u32)>::empty()
    } else {
        let rest = placements(doc, nodes, n - 1);
        let i = nodes[n - 1] as int;
        match xml::text_under(doc, i, seq!["PDU-REF"]) {
            Some(t) => rest.push(
                (
                    fr_text::last_segment(t),
                    xml::number_or(doc, i, seq!["START-POSITION", "START-BIT-POSITION"], 0) as u32,
                ),
            ),
            None => rest,
        }
    }
}

/// `f` is what the FLEXRAY-FRAME element `i` states.
pub open spec fn is_frame(f: ArxmlFrame, doc: Seq<XmlNode>, i: int) -> bool {
    let nodes = either(doc, i, "FRAME-PDU-MAPPING"@, "PDU-TO-FRAME-MAPPING"@);
    &&& f.name@ == xml::name_of(doc, i)
    &&& f.length == xml::number_or(doc, i, seq!["FRAME-LENGTH"], 8)
    &&& f.payload_preamble == xml::says_true(
        doc,
        i,
        seq!["PAYLOAD-PREAMBLE", "PADDING-ACTIVATION"],
    )
    &&& f.comment@ == xml::or_empty(xml::text_under(doc, i, seq!["L-2", "DESC"]))
    &&& fr_db::placement_views(f.placements@) == placements(doc, nodes, nodes.len() as int)
}

/// `frames` is what the FLEXRAY-FRAME elements state.
pub open spec fn are_frames(frames: Seq<ArxmlFrame>, doc: Seq<XmlNode>, root: int) -> bool {
    let nodes = xml::collected(doc, root, "FLEXRAY-FRAME"@);
    &&& frames.len() == nodes.len()
    &&& forall|k: int|
        0 <= k < frames.len() ==> is_frame(#[trigger] frames[k], doc, nodes[k] as int)
}

fn read_placements(doc: &Vec<XmlNode>, nodes: &Vec<usize>) -> (r: Vec<(String, u32)>)
    requires
        xml::in_doc(doc@, nodes@),
    ensures
        fr_db::placement_views(r@) == placements(doc@, nodes@, nodes@.len() as int),
{
    let mut r: Vec<(String, u32)> = Vec::new();
    assert(fr_db::placement_views(r@) =~= Seq::<(Seq<char>, u32)>::empty());
    for k in 0..nodes.len()
        invariant
            xml::in_doc(doc@, nodes@),
            fr_db::placement_views(r@) == placements(doc@, nodes@, k as int),
    {
        assert(nodes@[k as int] < doc@.len());
        let i: usize = nodes[k];
        if let Some(t) = xml::text_of(doc, i, &xml::tags1("PDU-REF")) {
            let pdu: String = fr_text::ref_short_name(t.as_str());
            let start: u32 = xml::u32_or(
                doc,
                i,
                &xml::tags2("START-POSITION", "START-BIT-POSITION"),
                0,
            );
            let ghost before = r@;
            r.push((pdu, start));
            assert(fr_db::placement_views(r@) =~= fr_db::placement_views(before).push(
                (pdu@, start),
            ));
        }
    }
    r
}

fn read_frames(doc: &Vec<XmlNode>, root: usize) -> (r: Vec<ArxmlFrame>)
    requires
        root < doc@.len(),
    ensures
        are_frames(r@, doc@, root as int),
{
    let nodes: Vec<usize> = xml::collect(doc, root, "FLEXRAY-FRAME");
    let mut r: Vec<ArxmlFrame> = Vec::new();
    for k in 0..nodes.len()
        invariant
            xml::in_doc(doc@, nodes@),
            r@.len() == k,
            forall|j: int| 0 <= j < k ==> is_frame(#[trigger] r@[j], doc@, nodes@[j] as int),
    {
        assert(nodes@[k as int] < doc@.len());
        let i: usize = nodes[k];
        let found: Vec<usize> = collect_either(
            doc,
            i,
            "FRAME-PDU-MAPPING",
            "PDU-TO-FRAME-MAPPING",
        );
        r.push(
            ArxmlFrame {
                name: xml::short_name(doc, i),
                length: xml::u32_or(doc, i, &xml::tags1("FRAME-LENGTH"), 8),
                payload_preamble: xml::truthy(
                    doc,
                    i,
                    &xml::tags2("PAYLOAD-PREAMBLE", "PADDING-ACTIVATION"),
                ),
                comment: fr_fibex::or_default(xml::text_of(doc, i, &xml::tags2("L-2", "DESC"))),
                placements: read_placements(doc, &found),
            },
        );
    }
    r
}

/// A channel whose name holds a B, or the second of two, is B.
pub open spec fn channel_of(doc: Seq<XmlNode>, i: int, index: int, total: int) -> FrChannel {
    if text::upper_text(xml::name_of(doc, i)).contains('B') || (index == 1 && total == 2) {
        FrChannel::B
    } else {
        FrChannel::A
    }
}

/// What the FLEXRAY-FRAME-TRIGGERING element `i` on channel `ch` schedules.
pub open spec fn triggering_at(doc: Seq<XmlNode>, i: int, ch: FrChannel) -> FrTriggering {
    FrTriggering {
        channel: ch,
        slot_id: xml::number_or(doc, i, seq!["SLOT-ID"], 1) as u32,
        base_cycle: xml::number_or(doc, i, seq!["BASE-CYCLE"], 0) as u32,
        cycle_repetition: fr_fibex::repetition_under(doc, i) as u32,
        startup: xml::says_true(doc, i, seq!["STARTUP-FRAME"]),
    }
}

/// The triggerings among the first `n` elements that refer to a frame, by the
/// frame's name.
pub open spec fn triggerings_on(doc: Seq<XmlNode>, nodes: Seq<usize>, n: int, ch: FrChannel) -> Seq<
    (Seq<char>, FrTriggering),
>
    decreases n,
{
    if n <= 0 {
        Seq::<(Seq<char>, FrTriggering)>::empty()
    } else {
        let rest = triggerings_on(doc, nodes, n - 1, ch);
        let i = nodes[n - 1] as int;
        match xml::text_under(doc, i, seq!["FRAME-REF"]) {
            Some(t) => rest.push((fr_text::last_segment(t), triggering_at(doc, i, ch))),
            None => rest,
        }
    }
}

/// The triggerings of the first `n` channels, in document order.
pub open spec fn triggerings(doc: Seq<XmlNode>, channels: Seq<usize>, n: int) -> Seq<
    (Seq<char>, FrTriggering),
>
    decreases n,
{
    if n <= 0 {
        Seq::<(Seq<char>, FrTriggering)>::empty()
    } else {
        let c = channels[n - 1] as int;
        let nodes = xml::collected(doc, c, "FLEXRAY-FRAME-TRIGGERING"@);
        triggerings(doc, channels, n - 1) + triggerings_on(
            doc,
            nodes,
            nodes.len() as int,
            channel_of(doc, c, n - 1, channels.len() as int),
        )
    }
}

fn read_triggerings(doc: &Vec<XmlNode>, root: usize) -> (r: Vec<(String, FrTriggering)>)
    requires
        root < doc@.len(),
    ensures
        fr_db::triggering_views(r@) == ({
            let channels = xml::collected(doc@, root as int, "FLEXRAY-PHYSICAL-CHANNEL"@);
            triggerings(doc@, channels, channels.len() as int)
        }),
{
    let channels: Vec<usize> = xml::collect(doc, root, "FLEXRAY-PHYSICAL-CHANNEL");
    let mut r: Vec<(String, FrTriggering)> = Vec::new();
    assert(fr_db::triggering_views(r@) =~= Seq::<(Seq<char>, FrTriggering)>::empty());
    for c in 0..channels.len()
        invariant
            xml::in_doc(doc@, channels@),
            fr_db::triggering_views(r@) == triggerings(doc@, channels@, c as int),
    {
        assert(channels@[c as int] < doc@.len());
        let name: String = text::uppercase(xml::short_name(doc, channels[c]).as_str());
        let ch: FrChannel = if fr_fibex::holds_char(name.as_str(), 'B') || (c == 1
            && channels.len() == 2) {
            FrChannel::B
        } else {
            FrChannel::A
        };
        let nodes: Vec<usize> = xml::collect(doc, channels[c], "FLEXRAY-FRAME-TRIGGERING");
        let ghost outer = fr_db::triggering_views(r@);
        for k in 0..nodes.len()
            invariant
                xml::in_doc(doc@, nodes@),
                fr_db::triggering_views(r@) =~= outer + triggerings_on(
                    doc@,
                    nodes@,
                    k as int,
                    ch,
                ),
        {
            assert(nodes@[k as int] < doc@.len());
            let i: usize = nodes[k];
            if let Some(reference) = xml::text_of(doc, i, &xml::tags1("FRAME-REF")) {
                let frame: String = fr_text::ref_short_name(reference.as_str());
                let t: FrTriggering = FrTriggering {
                    channel: ch,
                    slot_id: xml::u32_or(doc, i, &xml::tags1("SLOT-ID"), 1),
                    base_cycle: xml::u32_or(doc, i, &xml::tags1("BASE-CYCLE"), 0),
                    cycle_repetition: fr_fibex::repetition_of(doc, i),
                    startup: xml::truthy(doc, i, &xml::tags1("STARTUP-FRAME")),
                };
                let ghost before = r@;
                r.push((frame, t));
                assert(fr_db::triggering_views(r@) =~= fr_db::triggering_views(before).push(
                    (frame@, t),
                ));
            }
        }
    }
    r
}

/// Everything that the document states, before references are resolved.
pub struct ArxmlParts {
    pub signals: Vec<ArxmlSignal>,
    pub pdus: Vec<ArxmlPdu>,
    pub frames: Vec<ArxmlFrame>,
    pub triggerings: Vec<(String, FrTriggering)>,
}

impl ArxmlParts {
    /// Holds what the document states.
    pub open spec fn is_of(self, doc: Seq<XmlNode>, root: int) -> bool {
        let channels = xml::collected(doc, root, "FLEXRAY-PHYSICAL-CHANNEL"@);
        &&& are_signals(self.signals@, doc, root)
        &&& are_pdus(self.pdus@, doc, root)
        &&& are_frames(self.frames@, doc, root)
        &&& fr_db::triggering_views(self.triggerings@) == triggerings(
            doc,
            channels,
            channels.len() as int,
        )
    }
}

/// The index of the last definition of that name, or -1.
pub open spec fn last_signal(signals: Seq<ArxmlSignal>, name: Seq<char>) -> int
    decreases signals.len(),
{
    if signals.len() == 0 {
        -1
    } else if signals.last().name@ == name {
        signals.len() - 1
    } else {
        last_signal(signals.drop_last(), name)
    }
}

fn find_signal(signals: &Vec<ArxmlSignal>, name: &String) -> (r: Option<usize>)
    ensures
        match r {
            Some(k) => last_signal(signals@, name@) == k && k < signals@.len(),
            None => last_signal(signals@, name@) == -1,
        },
{
    let mut i: usize = signals.len();
    assert(signals@.subrange(0, signals@.len() as int) =~= signals@);
    while i > 0
        invariant
            i <= signals@.len(),
            last_signal(signals@, name@) == last_signal(signals@.subrange(0, i as int), name@),
        decreases i,
    {
        i = i - 1;
        assert(signals@.subrange(0, i + 1).drop_last() =~= signals@.subrange(0, i as int));
        if signals[i].name == *name {
            return Some(i);
        }
    }
    None
}

/// `s` is the signal that the mapping places: with the length and sign of its
/// definition, or the mapping's own length (at least 1) where there is none.
pub open spec fn is_placed_signal(s: FrSignal, m: ArxmlMapping, signals: Seq<ArxmlSignal>) -> bool {
    let name = xml::text_view(m.signal)->0;
    let d = last_signal(signals, name);
    &&& s.name@ == name
    &&& s.start_bit == m.start_bit
    &&& s.big_endian == m.big_endian
    &&& s.factor@ == "1"@
    &&& s.offset@ == "0"@
    &&& s.min@ == "0"@
    &&& s.max@ == "0"@
    &&& s.unit@ == ""@
    &&& s.value_descriptions@.len() == 0
    &&& if 0 <= d < signals.len() {
        &&& s.length_bits == signals[d].length_bits
        &&& s.signed == signals[d].signed
        &&& s.comment@ == signals[d].comment@
    } else {
        &&& s.length_bits == (if m.length_bits == 0 {
            1
        } else {
            m.length_bits
        })
        &&& !s.signed
        &&& s.comment@ == ""@
    }
}

/// The mappings among the first `n` that refer to a signal.
pub open spec fn resolved(mappings: Seq<ArxmlMapping>, n: int) -> Seq<int>
    decreases n,
{
    if n <= 0 {
        Seq::<int>::empty()
    } else if mappings[n - 1].signal is Some {
        resolved(mappings, n - 1).push(n - 1)
    } else {
        resolved(mappings, n - 1)
    }
}

/// `p` is the PDU with its references resolved.
pub open spec fn is_built_pdu(p: FrPdu, raw: ArxmlPdu, signals: Seq<ArxmlSignal>) -> bool {
    let known = resolved(raw.mappings@, raw.mappings@.len() as int);
    &&& p.name@ == raw.name@
    &&& p.length == raw.length
    &&& p.dynamic == raw.dynamic
    &&& p.comment@ == raw.comment@
    &&& p.signals@.len() == known.len()
    &&& forall|k: int|
        0 <= k < p.signals@.len() ==> is_placed_signal(
            #[trigger] p.signals@[k],
            raw.mappings@[known[k]],
            signals,
        )
}

fn place_signal(name: &String, m: &ArxmlMapping, signals: &Vec<ArxmlSignal>) -> (s: FrSignal)
    requires
        xml::text_view(m.signal) == Some(name@),
    ensures
        is_placed_signal(s, *m, signals@),
{
    let (length_bits, signed, comment): (u32, bool, String) = match find_signal(signals, name) {
        Some(d) => (signals[d].length_bits, signals[d].signed, signals[d].comment.clone()),
        None => (if m.length_bits == 0 { 1 } else { m.length_bits }, false, "".to_owned()),
    };
    FrSignal {
        name: name.clone(),
        start_bit: m.start_bit,
        length_bits,
        big_endian: m.big_endian,
        signed,
        factor: "1".to_owned(),
        offset: "0".to_owned(),
        min: "0".to_owned(),
        max: "0".to_owned(),
        unit: "".to_owned(),
        comment,
        value_descriptions: Vec::new(),
    }
}

fn build_pdu(raw: &ArxmlPdu, signals: &Vec<ArxmlSignal>) -> (p: FrPdu)
    ensures
        is_built_pdu(p, *raw, signals@),
{
    let mut built: Vec<FrSignal> = Vec::new();
    for i in 0..raw.mappings.len()
        invariant
            built@.len() == resolved(raw.mappings@, i as int).len(),
            forall|k: int|
                0 <= k < built@.len() ==> is_placed_signal(
                    #[trigger] built@[k],
                    raw.mappings@[resolved(raw.mappings@, i as int)[k]],
                    signals@,
                ),
    {
        let ghost known = resolved(raw.mappings@, i as int);
        let ghost before = built@;
        if let Some(name) = &raw.mappings[i].signal {
            built.push(place_signal(name, &raw.mappings[i], signals));
            proof {
                let next = resolved(raw.mappings@, i + 1);
                assert(next == known.push(i as int));
                assert forall|k: int| 0 <= k < built@.len() implies is_placed_signal(
                    #[trigger] built@[k],
                    raw.mappings@[next[k]],
                    signals@,
                ) by {
                    if k < before.len() {
                        assert(built@[k] == before[k]);
                    }
                }
            }
        }
    }
    FrPdu {
        name: raw.name.clone(),
        length: raw.length,
        dynamic: raw.dynamic,
        comment: raw.comment.clone(),
        signals: built,
    }
}

/// Frame `k` is the first of its name.
pub open spec fn first_of_name(frames: Seq<ArxmlFrame>, k: int) -> bool {
    forall|j: int| 0 <= j < k ==> #[trigger] frames[j].name@ != frames[k].name@
}

/// The frames among the first `n` that are the first of their name.
pub open spec fn distinct_frames(frames: Seq<ArxmlFrame>, n: int) -> Seq<int>
    decreases n,
{
    if n <= 0 {
        Seq::<int>::empty()
    } else if first_of_name(frames, n - 1) {
        distinct_frames(frames, n - 1).push(n - 1)
    } else {
        distinct_frames(frames, n - 1)
    }
}

/// The index of the last frame of that name, or -1.
pub open spec fn last_frame(frames: Seq<ArxmlFrame>, name: Seq<char>) -> int
    decreases frames.len(),
{
    if frames.len() == 0 {
        -1
    } else if frames.last().name@ == name {
        frames.len() - 1
    } else {
        last_frame(frames.drop_last(), name)
    }
}

/// `f` is the frame of that name: its last definition, with its triggering.
pub open spec fn is_built_frame(f: FrFrameDb, parts: ArxmlParts, name: Seq<char>) -> bool {
    let raw = parts.frames@[last_frame(parts.frames@, name)];
    &&& f.name@ == name
    &&& f.length == raw.length
    &&& f.payload_preamble == raw.payload_preamble
    &&& f.comment@ == raw.comment@
    &&& fr_db::placement_views(f.pdus@) == fr_db::placement_views(raw.placements@)
    &&& f.triggering == fr_db::triggering_or_none(
        fr_db::merged_triggering(fr_db::triggering_views(parts.triggerings@), name),
    )
}

/// The PDUs and frames are those of the parts, with their references resolved. A
/// frame name that stands twice is one frame, as its last definition has it.
pub open spec fn are_assembled(pdus: Seq<FrPdu>, frames: Seq<FrFrameDb>, parts: ArxmlParts) -> bool {
    let distinct = distinct_frames(parts.frames@, parts.frames@.len() as int);
    &&& pdus.len() == parts.pdus@.len()
    &&& forall|k: int|
        0 <= k < pdus.len() ==> is_built_pdu(
            #[trigger] pdus[k],
            parts.pdus@[k],
            parts.signals@,
        )
    &&& frames.len() == distinct.len()
    &&& forall|k: int|
        0 <= k < frames.len() ==> is_built_frame(
            #[trigger] frames[k],
            parts,
            parts.frames@[distinct[k]].name@,
        )
}

fn is_first_of_name(frames: &Vec<ArxmlFrame>, k: usize) -> (r: bool)
    requires
        k < frames@.len(),
    ensures
        r == first_of_name(frames@, k as int),
{
    for j in 0..k
        invariant
            k < frames@.len(),
            forall|i: int| 0 <= i < j ==> #[trigger] frames@[i].name@ != frames@[k as int].name@,
    {
        if frames[j].name == frames[k].name {
            return false;
        }
    }
    true
}

fn find_last_frame(frames: &Vec<ArxmlFrame>, k: usize) -> (r: usize)
    requires
        k < frames@.len(),
    ensures
        r == last_frame(frames@, frames@[k as int].name@),
        r < frames@.len(),
{
    let mut i: usize = frames.len();
    assert(frames@.subrange(0, frames@.len() as int) =~= frames@);
    while i > k + 1
        invariant
            k < i <= frames@.len(),
            last_frame(frames@, frames@[k as int].name@) == last_frame(
                frames@.subrange(0, i as int),
                frames@[k as int].name@,
            ),
        decreases i,
    {
        i = i - 1;
        assert(frames@.subrange(0, i + 1).drop_last() =~= frames@.subrange(0, i as int));
        if frames[i].name == frames[k].name {
            return i;
        }
    }
    k
}

fn copy_placements(list: &Vec<(String, u32)>) -> (r: Vec<(String, u32)>)
    ensures
        r@ == list@,
{
    let mut r: Vec<(String, u32)> = Vec::new();
    for i in 0..list.len()
        invariant
            r@ == list@.subrange(0, i as int),
    {
        r.push((list[i].0.clone(), list[i].1));
        assert(r@ =~= list@.subrange(0, i + 1));
    }
    assert(r@ =~= list@);
    r
}

fn assemble(parts: &ArxmlParts) -> (r: (Vec<FrPdu>, Vec<FrFrameDb>))
    ensures
        are_assembled(r.0@, r.1@, *parts),
{
    let mut pdus: Vec<FrPdu> = Vec::new();
    for k in 0..parts.pdus.len()
        invariant
            pdus@.len() == k,
            forall|j: int|
                0 <= j < k ==> is_built_pdu(
                    #[trigger] pdus@[j],
                    parts.pdus@[j],
                    parts.signals@,
                ),
    {
        pdus.push(build_pdu(&parts.pdus[k], &parts.signals));
    }
    let mut frames: Vec<FrFrameDb> = Vec::new();
    for k in 0..parts.frames.len()
        invariant
            frames@.len() == distinct_frames(parts.frames@, k as int).len(),
            forall|j: int|
                0 <= j < frames@.len() ==> is_built_frame(
                    #[trigger] frames@[j],
                    *parts,
                    parts.frames@[distinct_frames(parts.frames@, k as int)[j]].name@,
                ),
    {
        let ghost distinct = distinct_frames(parts.frames@, k as int);
        let ghost before = frames@;
        if is_first_of_name(&parts.frames, k) {
            let raw: &ArxmlFrame = &parts.frames[find_last_frame(&parts.frames, k)];
            let name: String = parts.frames[k].name.clone();
            let triggering: FrTriggering = fr_db::triggering_of(&parts.triggerings, &name);
            frames.push(
                FrFrameDb {
                    name,
                    length: raw.length,
                    payload_preamble: raw.payload_preamble,
                    triggering,
                    pdus: copy_placements(&raw.placements),
                    comment: raw.comment.clone(),
                },
            );
            proof {
                let next = distinct_frames(parts.frames@, k + 1);
                assert(next == distinct.push(k as int));
                assert forall|j: int| 0 <= j < frames@.len() implies is_built_frame(
                    #[trigger] frames@[j],
                    *parts,
                    parts.frames@[next[j]].name@,
                ) by {
                    if j < before.len() {
                        assert(frames@[j] == before[j]);
                    }
                }
            }
        }
    }
    (pdus, frames)
}

/// `db` is the database that the ARXML document states.
pub open spec fn is_arxml(db: FrDb, doc: Seq<XmlNode>, root: int) -> bool {
    let clusters = xml::collected(doc, root, "FLEXRAY-CLUSTER"@);
    let ecus = xml::collected(doc, root, "ECU-INSTANCE"@);
    &&& if clusters.len() > 0 {
        fr_params::is_arxml_params(db.params, doc, clusters[0] as int)
    } else {
        fr_params::is_default(db.params)
    }
    &&& fr_db::name_views(db.ecus@) == fr_db::named(doc, ecus, ecus.len() as int)
    &&& exists|parts: ArxmlParts| #[trigger]
        parts.is_of(doc, root) && are_assembled(db.pdus@, db.frames@, parts)
}

/// Reads an ARXML document. What is absent takes its default, so that no document
/// is refused.
pub fn parse_arxml_doc(doc: &Vec<XmlNode>, root: usize) -> (r: Result<FrDb, String>)
    requires
        root < doc@.len(),
    ensures
        r matches Ok(db) && is_arxml(db, doc@, root as int),
{
    let parts: ArxmlParts = ArxmlParts {
        signals: read_signals(doc, root),
        pdus: read_pdus(doc, root),
        frames: read_frames(doc, root),
        triggerings: read_triggerings(doc, root),
    };
    let ecus: Vec<String> = fr_db::named_elements(doc, &xml::collect(doc, root, "ECU-INSTANCE"));
    let clusters: Vec<usize> = xml::collect(doc, root, "FLEXRAY-CLUSTER");
    let params: FrClusterParams = if clusters.len() > 0 {
        assert(clusters@[0] < doc@.len());
        fr_params::arxml_params(doc, clusters[0])
    } else {
        fr_params::default_cluster_params()
    };
    let (pdus, frames): (Vec<FrPdu>, Vec<FrFrameDb>) = assemble(&parts);
    assert(parts.is_of(doc@, root as int) && are_assembled(pdus@, frames@, parts));
    Ok(FrDb { params, ecus, pdus, frames })
}

/// The frames of a database have different names.
pub proof fn law_frame_names_distinct(db: FrDb, doc: Seq<XmlNode>, root: int, i: int, j: int)
    requires
        is_arxml(db, doc, root),
        0 <= i < j < db.frames@.len(),
    ensures
        db.frames@[i].name@ != db.frames@[j].name@,
{
    let parts = choose|parts: ArxmlParts| #[trigger]
        parts.is_of(doc, root) && are_assembled(db.pdus@, db.frames@, parts);
    let n = parts.frames@.len() as int;
    let distinct = distinct_frames(parts.frames@, n);
    lemma_distinct_ascending(parts.frames@, n);
    assert(is_built_frame(db.frames@[i], parts, parts.frames@[distinct[i]].name@));
    assert(is_built_frame(db.frames@[j], parts, parts.frames@[distinct[j]].name@));
    assert(first_of_name(parts.frames@, distinct[j]));
    assert(parts.frames@[distinct[i]].name@ != parts.frames@[distinct[j]].name@);
}

/// The positions ascend, and each is the first of its name.
spec fn ascending_firsts(frames: Seq<ArxmlFrame>, positions: Seq<int>, n: int) -> bool {
    &&& forall|i: int|
        0 <= i < positions.len() ==> 0 <= #[trigger] positions[i] < n && first_of_name(
            frames,
            positions[i],
        )
    &&& forall|i: int, j: int|
        0 <= i < j < positions.len() ==> #[trigger] positions[i] < #[trigger] positions[j]
}

proof fn lemma_distinct_ascending(frames: Seq<ArxmlFrame>, n: int)
    requires
        0 <= n <= frames.len(),
    ensures
        ascending_firsts(frames, distinct_frames(frames, n), n),
    decreases n,
{
    if n > 0 {
        lemma_distinct_ascending(frames, n - 1);
        let before = distinct_frames(frames, n - 1);
        let after = distinct_frames(frames, n);
        assert(ascending_firsts(frames, before, n - 1));
        if first_of_name(frames, n - 1) {
            assert(after == before.push(n - 1));
        } else {
            assert(after == before);
        }
    }
}

} // verus!
