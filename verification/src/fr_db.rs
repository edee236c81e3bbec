//! FlexRay database: the parsed model, the slot schedule and payload decoding.
//! FIBEX (2.x/3.x) and AUTOSAR ARXML (R4.x) are read tolerantly: namespaces are
//! ignored and attribute-carrying tags accepted. The dialect is detected from the
//! document root and, failing that, from characteristic element names.

use vstd::prelude::*;
use vstd::string::*;
use crate::decode;
use crate::fr_arxml;
use crate::fr_fibex;
use crate::fr_params::FrClusterParams;
use crate::text;
use crate::xml;
use crate::xml::XmlNode;

verus! {

/// FlexRay transmission channel. A / B / both at once.
#[derive(Clone, Copy, Debug, PartialEq, Eq, Structural)]
pub enum FrChannel {
    A,
    B,
    Both,
}

impl Default for FrChannel {
    fn default() -> (r: FrChannel)
        ensures
            r == FrChannel::A,
    {
        FrChannel::A
    }
}

impl FrChannel {
    pub fn label(self) -> (r: &'static str)
        ensures
            r@ == (match self {
                FrChannel::A => "A"@,
                FrChannel::B => "B"@,
                FrChannel::Both => "A+B"@,
            }),
    {
        match self {
            FrChannel::A => "A",
            FrChannel::B => "B",
            FrChannel::Both => "A+B",
        }
    }

    /// This channel selection covers channel `ch`.
    pub open spec fn covers_spec(self, ch: FrChannel) -> bool {
        self == FrChannel::Both || self == ch
    }

    /// Whether this channel selection covers channel `ch`.
    pub fn covers(self, ch: FrChannel) -> (r: bool)
        ensures
            r == self.covers_spec(ch),
    {
        self == FrChannel::Both || self == ch
    }
}

/// One signal of a PDU: position, encoding and display metadata. Real numbers
/// are kept as the file writes them.
#[derive(Debug)]
pub struct FrSignal {
    pub name: String,
    pub start_bit: u32,
    pub length_bits: u32,
    /// Motorola / big-endian (the FlexRay default) when true.
    pub big_endian: bool,
    pub signed: bool,
    pub factor: String,
    pub offset: String,
    pub min: String,
    pub max: String,
    pub unit: String,
    pub comment: String,
    /// Enumeration labels: raw value and text.
    pub value_descriptions: Vec<(i64, String)>,
}

/// One PDU: a payload chunk with its signal layout.
#[derive(Debug)]
pub struct FrPdu {
    pub name: String,
    /// Byte length.
    pub length: u32,
    /// Dynamic / event PDUs ride the dynamic segment; static otherwise.
    pub dynamic: bool,
    pub comment: String,
    pub signals: Vec<FrSignal>,
}

/// A frame's static-segment schedule entry (FIBEX FRAME-TRIGGERING /
/// AUTOSAR FLEXRAY-FRAME-TRIGGERING).
#[derive(Clone, Copy, Debug, PartialEq, Eq, Structural)]
pub struct FrTriggering {
    pub channel: FrChannel,
    /// Static slot number 1..=2047.
    pub slot_id: u32,
    /// Base cycle 0..=63.
    pub base_cycle: u32,
    /// Cycle repetition 1/2/4/8/16/32/64.
    pub cycle_repetition: u32,
    pub startup: bool,
}

/// The schedule entry of a frame that none is stated for.
pub open spec fn no_triggering() -> FrTriggering {
    FrTriggering {
        channel: FrChannel::A,
        slot_id: 0,
        base_cycle: 0,
        cycle_repetition: 0,
        startup: false,
    }
}

impl Default for FrTriggering {
    fn default() -> (r: FrTriggering)
        ensures
            r == no_triggering(),
    {
        FrTriggering {
            channel: FrChannel::A,
            slot_id: 0,
            base_cycle: 0,
            cycle_repetition: 0,
            startup: false,
        }
    }
}

impl FrTriggering {
    /// The repetition, at least 1.
    pub open spec fn period(self) -> int {
        if self.cycle_repetition == 0 {
            1
        } else {
            self.cycle_repetition as int
        }
    }

    /// The trigger fires on communication cycle `cycle`: every `period` cycles, in
    /// step with the base cycle.
    pub open spec fn fires(self, cycle: int) -> bool {
        (cycle - self.base_cycle) % self.period() == 0
    }

    /// Whether the trigger fires on communication cycle `cycle`.
    pub fn is_active_at_cycle(&self, cycle: u32) -> (r: bool)
        ensures
            r == self.fires(cycle as int),
    {
        let period: u32 = if self.cycle_repetition == 0 { 1 } else { self.cycle_repetition };
        proof {
            lemma_same_step(cycle as int, self.base_cycle as int, period as int);
        }
        cycle % period == self.base_cycle % period
    }
}

proof fn lemma_same_step(a: int, b: int, d: int)
    requires
        d > 0,
    ensures
        (a % d == b % d) == ((a - b) % d == 0),
{
    vstd::arithmetic::div_mod::lemma_fundamental_div_mod(a, d);
    vstd::arithmetic::div_mod::lemma_fundamental_div_mod(b, d);
    let qa = a / d;
    let qb = b / d;
    let ra = a % d;
    let rb = b % d;
    vstd::arithmetic::div_mod::lemma_mod_bound(a, d);
    vstd::arithmetic::div_mod::lemma_mod_bound(b, d);
    assert(a - b == d * (qa - qb) + (ra - rb)) by (nonlinear_arith)
        requires
            a == d * qa + ra,
            b == d * qb + rb,
    ;
    vstd::arithmetic::div_mod::lemma_mod_multiples_vanish(qa - qb, ra - rb, d);
    if ra == rb {
        vstd::arithmetic::div_mod::lemma_small_mod(0, d as nat);
    } else if ra > rb {
        vstd::arithmetic::div_mod::lemma_small_mod((ra - rb) as nat, d as nat);
    } else {
        vstd::arithmetic::div_mod::lemma_mod_multiples_vanish(1, ra - rb, d);
        vstd::arithmetic::div_mod::lemma_small_mod((d + ra - rb) as nat, d as nat);
        assert(d * 1 + (ra - rb) == d + ra - rb);
    }
}

/// One frame: payload size, schedule and the PDUs it carries.
#[derive(Debug)]
pub struct FrFrameDb {
    pub name: String,
    /// Byte length 0..=254.
    pub length: u32,
    pub payload_preamble: bool,
    pub triggering: FrTriggering,
    /// (PDU name, start byte in the frame).
    pub pdus: Vec<(String, u32)>,
    pub comment: String,
}

/// The parsed FlexRay database.
#[derive(Debug)]
pub struct FrDb {
    pub params: FrClusterParams,
    pub ecus: Vec<String>,
    pub pdus: Vec<FrPdu>,
    pub frames: Vec<FrFrameDb>,
}

/// The characters of each name.
pub open spec fn name_views(names: Seq<String>) -> Seq<Seq<char>> {
    names.map_values(|s: String| s@)
}

/// The characters of each placement's name.
pub open spec fn placement_views(pdus: Seq<(String, u32)>) -> Seq<(Seq<char>, u32)> {
    pdus.map_values(|p: (String, u32)| (p.0@, p.1))
}

/// The characters of each label.
pub open spec fn label_views(labels: Seq<(i64, String)>) -> Seq<(i64, Seq<char>)> {
    labels.map_values(|p: (i64, String)| (p.0, p.1@))
}

/// A triggering stated for a frame: of several, each later one replaces the
/// schedule, and two different channels make both.
pub open spec fn merged_triggering(
    stated: Seq<(Seq<char>, FrTriggering)>,
    frame: Seq<char>,
) -> Option<FrTriggering>
    decreases stated.len(),
{
    if stated.len() == 0 {
        None
    } else {
        let before = merged_triggering(stated.drop_last(), frame);
        let (name, t) = stated.last();
        if name != frame {
            before
        } else {
            match before {
                None => Some(t),
                Some(b) => Some(
                    FrTriggering {
                        channel: if b.channel != t.channel {
                            FrChannel::Both
                        } else {
                            b.channel
                        },
                        ..t
                    },
                ),
            }
        }
    }
}

/// The triggerings with the characters of the frames they name.
pub open spec fn triggering_views(list: Seq<(String, FrTriggering)>) -> Seq<
    (Seq<char>, FrTriggering),
> {
    list.map_values(|p: (String, FrTriggering)| (p.0@, p.1))
}

/// The triggering of a frame, or the empty one.
pub open spec fn triggering_or_none(t: Option<FrTriggering>) -> FrTriggering {
    match t {
        Some(t) => t,
        None => no_triggering(),
    }
}

/// Merges the triggerings stated for a frame.
pub(crate) fn triggering_of(stated: &Vec<(String, FrTriggering)>, frame: &String) -> (r: FrTriggering)
    ensures
        r == triggering_or_none(merged_triggering(triggering_views(stated@), frame@)),
{
    let mut found: Option<FrTriggering> = None;
    for k in 0..stated.len()
        invariant
            found == merged_triggering(
                triggering_views(stated@).subrange(0, k as int),
                frame@,
            ),
    {
        let ghost views = triggering_views(stated@);
        assert(views.subrange(0, k + 1).drop_last() =~= views.subrange(0, k as int));
        assert(views[k as int] == (stated@[k as int].0@, stated@[k as int].1));
        if stated[k].0 == *frame {
            let t: FrTriggering = stated[k].1;
            found = Some(
                match found {
                    None => t,
                    Some(b) => FrTriggering {
                        channel: if b.channel != t.channel { FrChannel::Both } else { b.channel },
                        ..t
                    },
                },
            );
        }
    }
    assert(triggering_views(stated@).subrange(0, stated@.len() as int) =~= triggering_views(
        stated@,
    ));
    match found {
        Some(t) => t,
        None => FrTriggering::default(),
    }
}

/// The names of the elements, without the empty and the placeholder ones.
pub open spec fn named(doc: Seq<XmlNode>, nodes: Seq<usize>, n: int) -> Seq<Seq<char>>
    decreases n,
{
    if n <= 0 {
        Seq::<Seq<char>>::empty()
    } else {
        let name = xml::name_of(doc, nodes[n - 1] as int);
        if name.len() == 0 || name == "Unnamed"@ {
            named(doc, nodes, n - 1)
        } else {
            named(doc, nodes, n - 1).push(name)
        }
    }
}

/// The names of the elements, without the empty and the placeholder ones.
pub(crate) fn named_elements(doc: &Vec<XmlNode>, nodes: &Vec<usize>) -> (r: Vec<String>)
    requires
        xml::in_doc(doc@, nodes@),
    ensures
        name_views(r@) == named(doc@, nodes@, nodes@.len() as int),
{
    let mut r: Vec<String> = Vec::new();
    assert(name_views(r@) =~= Seq::<Seq<char>>::empty());
    for k in 0..nodes.len()
        invariant
            xml::in_doc(doc@, nodes@),
            name_views(r@) == named(doc@, nodes@, k as int),
    {
        assert(nodes@[k as int] < doc@.len());
        let name: String = xml::short_name(doc, nodes[k]);
        if !name.as_str().is_empty() && !text::same_text(name.as_str(), "Unnamed") {
            let ghost before = r@;
            r.push(name);
            assert(name_views(r@) =~= name_views(before).push(name@));
        }
    }
    r
}

/// The dialect of a document.
#[derive(Clone, Copy, Debug, PartialEq, Eq, Structural)]
pub enum FrDialect {
    Fibex,
    Arxml,
    Unknown,
}

/// The first element of the document: its root.
pub open spec fn root_from(doc: Seq<XmlNode>, from: int) -> Option<usize>
    decreases doc.len() - from,
{
    if from < 0 || from >= doc.len() {
        None
    } else if doc[from].element {
        Some(from as usize)
    } else {
        root_from(doc, from + 1)
    }
}

/// Some element of the document has that tag, in any case.
pub open spec fn names_tag(doc: Seq<XmlNode>, tag: Seq<char>) -> bool {
    exists|k: int|
        0 <= k < doc.len() && (#[trigger] doc[k]).element && text::upper_text(doc[k].tag@) == tag
}

/// The dialect of a document: from the name of its root, and failing that from
/// elements that only one dialect has.
pub open spec fn dialect_of(doc: Seq<XmlNode>) -> FrDialect {
    match root_from(doc, 0) {
        None => FrDialect::Unknown,
        Some(root) => {
            let name = text::upper_text(doc[root as int].tag@);
            if text::holds_text(name, "FIBEX"@) {
                FrDialect::Fibex
            } else if text::holds_text(name, "AUTOSAR"@) {
                FrDialect::Arxml
            } else if names_tag(doc, "FLEXRAY-CLUSTER"@) || names_tag(doc, "I-SIGNAL-I-PDU"@)
                || names_tag(doc, "ECU-INSTANCE"@) {
                FrDialect::Arxml
            } else if names_tag(doc, "CLUSTER"@) || names_tag(doc, "SLOT"@) {
                FrDialect::Fibex
            } else {
                FrDialect::Unknown
            }
        },
    }
}

fn find_root(doc: &Vec<XmlNode>) -> (r: Option<usize>)
    ensures
        r == root_from(doc@, 0),
        r matches Some(k) ==> k < doc@.len(),
{
    for k in 0..doc.len()
        invariant
            root_from(doc@, 0) == root_from(doc@, k as int),
    {
        if doc[k].element {
            return Some(k);
        }
    }
    None
}

/// The dialect of a document.
pub fn detect_dialect(doc: &Vec<XmlNode>) -> (r: FrDialect)
    ensures
        r == dialect_of(doc@),
{
    let root: usize = match find_root(doc) {
        Some(k) => k,
        None => {
            return FrDialect::Unknown;
        },
    };
    let name: String = text::uppercase(doc[root].tag.as_str());
    if text::contains_text(name.as_str(), "FIBEX") {
        return FrDialect::Fibex;
    }
    if text::contains_text(name.as_str(), "AUTOSAR") {
        return FrDialect::Arxml;
    }
    let mut fibex: bool = false;
    for k in 0..doc.len()
        invariant
            fibex == exists|j: int|
                0 <= j < k && (#[trigger] doc@[j]).element && (text::upper_text(doc@[j].tag@)
                    == "CLUSTER"@ || text::upper_text(doc@[j].tag@) == "SLOT"@),
            forall|j: int|
                0 <= j < k && (#[trigger] doc@[j]).element ==> text::upper_text(doc@[j].tag@)
                    != "FLEXRAY-CLUSTER"@ && text::upper_text(doc@[j].tag@) != "I-SIGNAL-I-PDU"@
                    && text::upper_text(doc@[j].tag@) != "ECU-INSTANCE"@,
            root_from(doc@, 0) == Some(root),
            !text::holds_text(text::upper_text(doc@[root as int].tag@), "FIBEX"@),
            !text::holds_text(text::upper_text(doc@[root as int].tag@), "AUTOSAR"@),
    {
        if doc[k].element {
            let tag: String = text::uppercase(doc[k].tag.as_str());
            if text::same_text(tag.as_str(), "FLEXRAY-CLUSTER") || text::same_text(
                tag.as_str(),
                "I-SIGNAL-I-PDU",
            ) || text::same_text(tag.as_str(), "ECU-INSTANCE") {
                assert(doc@[k as int].element);
                return FrDialect::Arxml;
            }
            if text::same_text(tag.as_str(), "CLUSTER") || text::same_text(tag.as_str(), "SLOT") {
                fibex = true;
                assert(doc@[k as int].element);
            }
        }
    }
    if fibex {
        FrDialect::Fibex
    } else {
        FrDialect::Unknown
    }
}

impl FrDb {
    /// `r` is what the document says, or the refusal of an unknown dialect.
    pub open spec fn is_read(r: Result<FrDb, String>, doc: Seq<XmlNode>) -> bool {
        let root = root_from(doc, 0)->0 as int;
        match dialect_of(doc) {
            FrDialect::Fibex => r matches Ok(db) && fr_fibex::is_fibex(db, doc, root),
            FrDialect::Arxml => r matches Ok(db) && fr_arxml::is_arxml(db, doc, root),
            FrDialect::Unknown => r matches Err(e) && e@
                == "无法识别的 XML 格式：既不是 FIBEX 也不是 AUTOSAR"@,
        }
    }

    /// Reads the nodes of a FIBEX or ARXML document.
    pub fn from_nodes(doc: &Vec<XmlNode>) -> (r: Result<FrDb, String>)
        ensures
            FrDb::is_read(r, doc@),
    {
        match (detect_dialect(doc), find_root(doc)) {
            (FrDialect::Fibex, Some(root)) => fr_fibex::parse_fibex_doc(doc, root),
            (FrDialect::Arxml, Some(root)) => fr_arxml::parse_arxml_doc(doc, root),
            _ => Err("无法识别的 XML 格式：既不是 FIBEX 也不是 AUTOSAR".to_owned()),
        }
    }

    /// Parses FIBEX or ARXML text, detecting the dialect from the root
    /// element and, failing that, from characteristic children.
    pub fn parse(text: &str) -> (r: Result<FrDb, String>)
        ensures
            match xml::parsed_xml(text@) {
                Ok(doc) => FrDb::is_read(r, doc),
                Err(e) => r matches Err(message) && message@ == "XML 解析错误："@ + e,
            },
    {
        match xml::read_xml(text) {
            Ok(doc) => FrDb::from_nodes(&doc),
            Err(e) => {
                let mut message: String = "XML 解析错误：".to_owned();
                message.append(e.as_str());
                Err(message)
            },
        }
    }

    /// The frame is scheduled in the slot, fires on the cycle and covers the
    /// wanted channel (0 = A, 1 = B, anything else = unknown).
    pub open spec fn is_scheduled(f: FrFrameDb, slot: u16, cycle: u8, ab: u8) -> bool {
        &&& f.triggering.slot_id == slot
        &&& f.triggering.fires(cycle as int)
        &&& ab == 0 ==> f.triggering.channel.covers_spec(FrChannel::A)
        &&& ab == 1 ==> f.triggering.channel.covers_spec(FrChannel::B)
    }

    /// The frame scheduled in `slot` and active on communication cycle
    /// `cycle`, on the channel `ab` (0 = A, 1 = B, 2 = unknown). Several frames
    /// may share a slot across repetitions; the first whose schedule covers the
    /// cycle wins.
    pub fn frame_at(&self, slot: u16, cycle: u8, ab: u8) -> (r: Option<&FrFrameDb>)
        ensures
            match r {
                Some(f) => exists|k: int|
                    0 <= k < self.frames@.len() && *f == #[trigger] self.frames@[k]
                        && FrDb::is_scheduled(*f, slot, cycle, ab) && forall|j: int|
                        0 <= j < k ==> !FrDb::is_scheduled(
                            #[trigger] self.frames@[j],
                            slot,
                            cycle,
                            ab,
                        ),
                None => forall|j: int|
                    0 <= j < self.frames@.len() ==> !FrDb::is_scheduled(
                        #[trigger] self.frames@[j],
                        slot,
                        cycle,
                        ab,
                    ),
            },
    {
        for k in 0..self.frames.len()
            invariant
                forall|j: int|
                    0 <= j < k ==> !FrDb::is_scheduled(
                        #[trigger] self.frames@[j],
                        slot,
                        cycle,
                        ab,
                    ),
        {
            let t: &FrTriggering = &self.frames[k].triggering;
            if t.slot_id == slot as u32 && t.is_active_at_cycle(cycle as u32) && (ab != 0
                || t.channel.covers(FrChannel::A)) && (ab != 1 || t.channel.covers(FrChannel::B)) {
                return Some(&self.frames[k]);
            }
        }
        None
    }
}

/// One signal of a FlexRay payload: its bits and the integer they stand for, with
/// what scales and labels it.
#[derive(Debug)]
pub struct FrDecoded {
    pub name: String,
    pub raw: u64,
    pub value: i128,
    pub factor: String,
    pub offset: String,
    pub unit: String,
    pub value_descriptions: Vec<(i64, String)>,
}

/// The bit of the payload that the signal starts at.
pub open spec fn absolute_bit(start_byte: u32, s: FrSignal) -> int {
    start_byte * 8 + s.start_bit
}

/// The payload is long enough for the signal.
pub open spec fn fits(start_byte: u32, s: FrSignal, payload: Seq<u8>) -> bool {
    absolute_bit(start_byte, s) + s.length_bits <= payload.len() * 8
}

/// `d` is what the signal decodes to.
pub open spec fn is_decoded(d: FrDecoded, start_byte: u32, s: FrSignal, payload: Seq<u8>) -> bool {
    &&& d.name == s.name
    &&& d.raw == decode::field_value(
        payload,
        absolute_bit(start_byte, s) as u64,
        s.length_bits as u64,
        s.big_endian,
    )
    &&& d.value == decode::raw_integer(d.raw, s.length_bits as u64, s.signed)
    &&& d.factor == s.factor
    &&& d.offset == s.offset
    &&& d.unit == s.unit
    &&& label_views(d.value_descriptions@) == label_views(s.value_descriptions@)
}

/// The signals among the first `n` that the payload is long enough for.
pub open spec fn fitting(
    start_byte: u32,
    signals: Seq<FrSignal>,
    payload: Seq<u8>,
    n: int,
) -> Seq<int>
    decreases n,
{
    if n <= 0 {
        Seq::<int>::empty()
    } else if fits(start_byte, signals[n - 1], payload) {
        fitting(start_byte, signals, payload, n - 1).push(n - 1)
    } else {
        fitting(start_byte, signals, payload, n - 1)
    }
}

/// The first PDU of that name, from `k` on, or -1.
pub open spec fn pdu_from(pdus: Seq<FrPdu>, name: Seq<char>, k: int) -> int
    decreases pdus.len() - k,
{
    if k < 0 || k >= pdus.len() {
        -1
    } else if pdus[k].name@ == name {
        k
    } else {
        pdu_from(pdus, name, k + 1)
    }
}

/// The signals of the first `n` placements that the payload holds, as (placement,
/// PDU, signal).
pub open spec fn held(
    pdus: Seq<FrPdu>,
    placed: Seq<(String, u32)>,
    payload: Seq<u8>,
    n: int,
) -> Seq<(int, int, int)>
    decreases n,
{
    if n <= 0 {
        Seq::<(int, int, int)>::empty()
    } else {
        let rest = held(pdus, placed, payload, n - 1);
        let p = pdu_from(pdus, placed[n - 1].0@, 0);
        if p < 0 {
            rest
        } else {
            rest + fitting(
                placed[n - 1].1,
                pdus[p].signals@,
                payload,
                pdus[p].signals@.len() as int,
            ).map_values(|s: int| (n - 1, p, s))
        }
    }
}

/// `r` holds what the signals at the positions decode to.
pub open spec fn are_decoded(
    r: Seq<FrDecoded>,
    pdus: Seq<FrPdu>,
    placed: Seq<(String, u32)>,
    payload: Seq<u8>,
    at: Seq<(int, int, int)>,
) -> bool {
    &&& r.len() == at.len()
    &&& forall|k: int|
        0 <= k < r.len() ==> is_decoded(
            #[trigger] r[k],
            placed[at[k].0].1,
            pdus[at[k].1].signals@[at[k].2],
            payload,
        )
}

fn copy_labels(labels: &Vec<(i64, String)>) -> (r: Vec<(i64, String)>)
    ensures
        r@ == labels@,
{
    let mut r: Vec<(i64, String)> = Vec::new();
    for i in 0..labels.len()
        invariant
            r@ == labels@.subrange(0, i as int),
    {
        r.push((labels[i].0, labels[i].1.clone()));
        assert(r@ =~= labels@.subrange(0, i + 1));
    }
    assert(r@ =~= labels@);
    r
}

impl FrDb {
    /// Decodes a frame payload, placement by placement and signal by signal. PDU
    /// start offsets shift each signal's absolute bit; a placement whose PDU is
    /// unknown and a signal that the payload is too short for are left out.
    pub fn decode(&self, frame: &FrFrameDb, payload: &[u8]) -> (r: Vec<FrDecoded>)
        ensures
            are_decoded(
                r@,
                self.pdus@,
                frame.pdus@,
                payload@,
                held(self.pdus@, frame.pdus@, payload@, frame.pdus@.len() as int),
            ),
    {
        let mut r: Vec<FrDecoded> = Vec::new();
        let total_bits: u128 = payload.len() as u128 * 8;
        for i in 0..frame.pdus.len()
            invariant
                total_bits == payload@.len() * 8,
                are_decoded(
                    r@,
                    self.pdus@,
                    frame.pdus@,
                    payload@,
                    held(self.pdus@, frame.pdus@, payload@, i as int),
                ),
        {
            let mut p: usize = 0;
            while p < self.pdus.len() && self.pdus[p].name != frame.pdus[i].0
                invariant
                    i < frame.pdus@.len(),
                    p <= self.pdus@.len(),
                    pdu_from(self.pdus@, frame.pdus@[i as int].0@, 0) == pdu_from(
                        self.pdus@,
                        frame.pdus@[i as int].0@,
                        p as int,
                    ),
                decreases self.pdus.len() - p,
            {
                p = p + 1;
            }
            if p < self.pdus.len() {
                let start_byte: u32 = frame.pdus[i].1;
                let signals: &Vec<FrSignal> = &self.pdus[p].signals;
                let ghost before = held(self.pdus@, frame.pdus@, payload@, i as int);
                for s in 0..signals.len()
                    invariant
                        i < frame.pdus@.len(),
                        p < self.pdus@.len(),
                        total_bits == payload@.len() * 8,
                        start_byte == frame.pdus@[i as int].1,
                        signals@ == self.pdus@[p as int].signals@,
                        are_decoded(
                            r@,
                            self.pdus@,
                            frame.pdus@,
                            payload@,
                            before + fitting(start_byte, signals@, payload@, s as int).map_values(
                                |k: int| (i as int, p as int, k),
                            ),
                        ),
                {
                    let ghost done = fitting(start_byte, signals@, payload@, s as int).map_values(
                        |k: int| (i as int, p as int, k),
                    );
                    let ghost prior = r@;
                    let sig: &FrSignal = &signals[s];
                    let abs_bit: u64 = start_byte as u64 * 8 + sig.start_bit as u64;
                    if abs_bit as u128 + sig.length_bits as u128 <= total_bits {
                        let raw: u64 = decode::extract_raw(
                            payload,
                            abs_bit,
                            sig.length_bits as u64,
                            sig.big_endian,
                        );
                        r.push(
                            FrDecoded {
                                name: sig.name.clone(),
                                raw,
                                value: decode::signed_value(
                                    raw,
                                    sig.length_bits as u64,
                                    sig.signed,
                                ),
                                factor: sig.factor.clone(),
                                offset: sig.offset.clone(),
                                unit: sig.unit.clone(),
                                value_descriptions: copy_labels(&sig.value_descriptions),
                            },
                        );
                        proof {
                            let at = before + fitting(
                                start_byte,
                                signals@,
                                payload@,
                                s + 1,
                            ).map_values(|k: int| (i as int, p as int, k));
                            assert(at =~= (before + done).push((i as int, p as int, s as int)));
                            assert forall|k: int| 0 <= k < r@.len() implies is_decoded(
                                #[trigger] r@[k],
                                frame.pdus@[at[k].0].1,
                                self.pdus@[at[k].1].signals@[at[k].2],
                                payload@,
                            ) by {
                                if k < prior.len() {
                                    assert(r@[k] == prior[k]);
                                    assert(at[k] == (before + done)[k]);
                                }
                            }
                        }
                    }
                }
            }
        }
        r
    }
}

/// One decoded FlexRay value as the windows print it: the value, then the raw bits
/// in hexadecimal.
pub open spec fn decoded_text(
    number: Seq<char>,
    unit: Seq<char>,
    label: Option<Seq<char>>,
    raw: u64,
) -> Seq<char> {
    crate::dbc::signal_value_text(number, unit, ""@, label) + "  ("@ + text::hex_padded(
        raw as nat,
        1,
    ) + "h)"@
}

/// One decoded FlexRay value as the windows print it.
pub fn fmt_decoded_signal(number: &str, unit: &str, label: Option<&str>, raw: u64) -> (r: String)
    ensures
        r@ == decoded_text(
            number@,
            unit@,
            match label {
                Some(l) => Some(l@),
                None => None,
            },
            raw,
        ),
{
    let mut s: String = crate::dbc::fmt_signal_value(number, unit, "", label);
    s.append("  (");
    text::push_hex(&mut s, raw, 1);
    s.append("h)");
    s
}

/// A frame of repetition `n` fires exactly on every `n`-th cycle from its base on.
pub proof fn law_fires_every_period(t: FrTriggering, cycle: int)
    ensures
        t.fires(cycle) == t.fires(cycle + t.period()),
        t.fires(t.base_cycle as int),
{
    let d = t.period();
    let x = cycle - t.base_cycle;
    vstd::arithmetic::div_mod::lemma_mod_add_multiples_vanish(x, d);
    assert(cycle + d - t.base_cycle == d + x);
    vstd::arithmetic::div_mod::lemma_small_mod(0, d as nat);
}

/// Between two cycles that are closer than the repetition, a frame fires at most
/// once.
pub proof fn law_fires_once_per_period(t: FrTriggering, a: int, b: int)
    requires
        t.fires(a),
        a < b < a + t.period(),
    ensures
        !t.fires(b),
{
    let d = t.period();
    let x = a - t.base_cycle;
    let step = b - a;
    vstd::arithmetic::div_mod::lemma_fundamental_div_mod(x, d);
    vstd::arithmetic::div_mod::lemma_mod_multiples_vanish(x / d, step, d);
    vstd::arithmetic::div_mod::lemma_small_mod(step as nat, d as nat);
    assert(b - t.base_cycle == d * (x / d) + step);
}

} // verus!
