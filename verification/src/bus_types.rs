//! The parts of the bus's state that are plain declarations: system variables,
//! script nodes, hardware attachments, the recorder's settings, and the lines of
//! the Write window.

use chrono::Timelike;
use vstd::prelude::*;
use vstd::string::*;
use crate::can::frame::CanFrame;
use crate::block::pair_listed;
use crate::doubles;
use crate::table;
use crate::table::Table;
use crate::text;

verus! {

/// A double: its bit pattern, and what it reads as an integer.
#[derive(Clone, Copy, Debug, PartialEq, Eq, Structural)]
pub struct Double {
    pub bits: u64,
    pub whole: i64,
}

/// One system variable: a namespaced value with optional bounds and display
/// metadata.
pub struct SysVarDef {
    pub namespace: String,
    pub name: String,
    /// The value at every measurement start and at definition time.
    pub init: Double,
    /// The bounds that every write is held in, both inclusive; none where there is none.
    pub min: Option<Double>,
    pub max: Option<Double>,
    pub unit: String,
    pub comment: String,
}

/// A namespace and a name as one key.
pub open spec fn qualified(namespace: Seq<char>, name: Seq<char>) -> Seq<char> {
    namespace + "::"@ + name
}

pub fn qualify(namespace: &str, name: &str) -> (r: String)
    ensures
        r@ == qualified(namespace@, name@),
{
    let mut s: String = namespace.to_owned();
    s.append("::");
    s.append(name);
    s
}

/// A value that is no less than a bound. What is no number goes to the bound; a bound
/// that is no number is ignored.
pub open spec fn raised(v: Double, low: Option<Double>) -> Double {
    match low {
        Some(lo) => if doubles::is_number(lo.bits) && (!doubles::is_number(v.bits)
            || doubles::is_less(v.bits, lo.bits)) {
            lo
        } else {
            v
        },
        None => v,
    }
}

/// A value that is no greater than a bound. What is no number goes to the bound; a bound
/// that is no number is ignored.
pub open spec fn lowered(v: Double, high: Option<Double>) -> Double {
    match high {
        Some(hi) => if doubles::is_number(hi.bits) && (!doubles::is_number(v.bits)
            || doubles::is_less(hi.bits, v.bits)) {
            hi
        } else {
            v
        },
        None => v,
    }
}

/// A value as a variable holds it: raised to the lower bound, then lowered to the upper
/// one.
pub open spec fn held(def: SysVarDef, v: Double) -> Double {
    lowered(raised(v, def.min), def.max)
}

/// The lower bound is no greater than the upper one.
pub open spec fn bounds_agree(def: SysVarDef) -> bool {
    match (def.min, def.max) {
        (Some(lo), Some(hi)) => doubles::is_number(lo.bits) && doubles::is_number(hi.bits)
            ==> !doubles::is_less(hi.bits, lo.bits),
        _ => true,
    }
}

/// The value lies in the bounds that are numbers.
pub open spec fn in_bounds(def: SysVarDef, v: Double) -> bool {
    &&& def.min matches Some(lo) ==> doubles::is_number(lo.bits) ==> doubles::is_number(v.bits)
        && !doubles::is_less(v.bits, lo.bits)
    &&& def.max matches Some(hi) ==> doubles::is_number(hi.bits) ==> doubles::is_number(v.bits)
        && !doubles::is_less(hi.bits, v.bits)
}

/// What a variable holds lies in its bounds, a value that lies there is held as it is,
/// and holding it again changes nothing.
pub proof fn law_held_values_lie_in_their_bounds(def: SysVarDef, v: Double)
    requires
        bounds_agree(def),
    ensures
        in_bounds(def, held(def, v)),
        in_bounds(def, v) ==> held(def, v) == v,
        held(def, held(def, v)) == held(def, v),
{
}

impl SysVarDef {
    /// Holds a value in the declared bounds.
    pub fn clamp(&self, v: Double) -> (r: Double)
        ensures
            r == held(*self, v),
    {
        let low: Double = match self.min {
            Some(lo) => if doubles::number(lo.bits) && (!doubles::number(v.bits)
                || doubles::less(v.bits, lo.bits)) {
                lo
            } else {
                v
            },
            None => v,
        };
        match self.max {
            Some(hi) => if doubles::number(hi.bits) && (!doubles::number(low.bits)
                || doubles::less(hi.bits, low.bits)) {
                hi
            } else {
                low
            },
            None => low,
        }
    }

    /// The key that scripts and commands use.
    pub open spec fn key_spec(self) -> Seq<char> {
        qualified(self.namespace@, self.name@)
    }

    pub fn key(&self) -> (r: String)
        ensures
            r@ == self.key_spec(),
    {
        qualify(self.namespace.as_str(), self.name.as_str())
    }

    pub fn copied(&self) -> (r: SysVarDef)
        ensures
            r == *self,
    {
        SysVarDef {
            namespace: self.namespace.clone(),
            name: self.name.clone(),
            init: self.init,
            min: self.min,
            max: self.max,
            unit: self.unit.clone(),
            comment: self.comment.clone(),
        }
    }
}

/// A system variable with its live value.
pub struct SysVar {
    pub def: SysVarDef,
    pub value: Double,
}

/// The first variable with that key, or -1.
pub open spec fn var_index(vars: Seq<SysVar>, key: Seq<char>, from: int) -> int
    decreases vars.len() - from,
{
    if from < 0 || from >= vars.len() {
        -1
    } else if vars[from].def.key_spec() == key {
        from
    } else {
        var_index(vars, key, from + 1)
    }
}

pub fn find_var(vars: &Vec<SysVar>, key: &str) -> (r: Option<usize>)
    ensures
        r is Some == (var_index(vars@, key@, 0) >= 0),
        r matches Some(i) ==> i == var_index(vars@, key@, 0) && i < vars@.len(),
{
    for i in 0..vars.len()
        invariant
            var_index(vars@, key@, 0) == var_index(vars@, key@, i as int),
    {
        let k: String = vars[i].def.key();
        if text::same_text(k.as_str(), key) {
            return Some(i);
        }
    }
    None
}

/// The keys of the variables, in their order.
pub open spec fn var_keys(vars: Seq<SysVar>) -> Seq<Seq<char>> {
    Seq::new(vars.len(), |i: int| vars[i].def.key_spec())
}

pub fn keys_of_vars(vars: &Vec<SysVar>) -> (r: Vec<String>)
    ensures
        text::views(r@) == var_keys(vars@),
{
    let mut r: Vec<String> = Vec::new();
    for i in 0..vars.len()
        invariant
            text::views(r@) =~= var_keys(vars@).subrange(0, i as int),
    {
        let ghost before = r@;
        let k: String = vars[i].def.key();
        r.push(k);
        assert(text::views(r@) =~= text::views(before).push(k@));
        assert(var_keys(vars@).subrange(0, i + 1) =~= var_keys(vars@).subrange(0, i as int).push(
            k@,
        ));
    }
    assert(var_keys(vars@).subrange(0, vars@.len() as int) =~= var_keys(vars@));
    r
}

/// A script node: its declaration and what its runtime last reported.
pub struct ScriptNode {
    pub id: u64,
    pub name: String,
    pub channel: u8,
    pub source: String,
    pub enabled: bool,
    /// The file that the source was saved to or loaded from.
    pub file_path: Option<String>,
    /// The database node the script is bound to: its frames pass that node's gate.
    pub attached: Option<(u8, String)>,
    /// The system variables the start check knows.
    pub sysvar_keys: Vec<String>,
    /// The runtime is present and without error.
    pub running: bool,
    /// A handler failed: the node is stopped until restart or edit.
    pub errored: bool,
    /// Log lines, oldest first.
    pub log: Vec<String>,
}

/// The first node with that id, or -1.
pub open spec fn node_index(nodes: Seq<ScriptNode>, id: u64, from: int) -> int
    decreases nodes.len() - from,
{
    if from < 0 || from >= nodes.len() {
        -1
    } else if nodes[from].id == id {
        from
    } else {
        node_index(nodes, id, from + 1)
    }
}

pub fn find_node(nodes: &Vec<ScriptNode>, id: u64) -> (r: Option<usize>)
    ensures
        r is Some == (node_index(nodes@, id, 0) >= 0),
        r matches Some(i) ==> i == node_index(nodes@, id, 0) && i < nodes@.len(),
{
    for i in 0..nodes.len()
        invariant
            node_index(nodes@, id, 0) == node_index(nodes@, id, i as int),
    {
        if nodes[i].id == id {
            return Some(i);
        }
    }
    None
}

impl ScriptNode {
    /// A node of that name with nothing in it yet.
    pub open spec fn is_fresh(self, id: u64, name: Seq<char>, channel: u8) -> bool {
        &&& self.id == id
        &&& self.name@ == name
        &&& self.channel == channel
        &&& self.source@ == Seq::<char>::empty()
        &&& self.enabled
        &&& self.file_path is None
        &&& self.attached is None
        &&& self.sysvar_keys@.len() == 0
        &&& !self.running
        &&& !self.errored
        &&& self.log@.len() == 0
    }

    pub fn new(id: u64, name: String, channel: u8) -> (n: ScriptNode)
        ensures
            n.is_fresh(id, name@, channel),
    {
        ScriptNode {
            id,
            name,
            channel,
            source: String::new(),
            enabled: true,
            file_path: None,
            attached: None,
            sysvar_keys: Vec::new(),
            running: false,
            errored: false,
            log: Vec::new(),
        }
    }
}

/// The saved form of a script node.
pub struct NodeCfg {
    pub name: String,
    pub channel: u8,
    pub source: String,
    pub enabled: bool,
    pub attached: Option<(u8, String)>,
}

/// The saved form of a replay block.
pub struct BlockCfg {
    pub name: String,
    pub channel: u8,
    pub path: String,
    pub node_filter: Option<String>,
    pub attached: Option<(u8, String)>,
    pub ids: Vec<(u32, bool)>,
    pub enabled: bool,
}

/// A copy of a binding to a database node.
pub fn copy_binding(b: &Option<(u8, String)>) -> (r: Option<(u8, String)>)
    ensures
        r == *b,
{
    match b {
        Some(p) => Some((p.0, p.1.clone())),
        None => None,
    }
}

/// A copy of an optional text.
pub fn copy_text(t: &Option<String>) -> (r: Option<String>)
    ensures
        r == *t,
{
    match t {
        Some(s) => Some(s.clone()),
        None => None,
    }
}

pub fn copy_pairs(v: &Vec<(u32, bool)>) -> (r: Vec<(u32, bool)>)
    ensures
        r@ == v@,
{
    let mut r: Vec<(u32, bool)> = Vec::new();
    for i in 0..v.len()
        invariant
            r@ == v@.subrange(0, i as int),
    {
        r.push(v[i]);
    }
    assert(r@ =~= v@);
    r
}

/// Which vendor driver an attachment talks through.
#[derive(Clone, Copy, Debug, PartialEq, Eq, Structural)]
pub enum HwDriver {
    Kvaser,
    Vector,
}

/// One bus's hardware attachment.
#[derive(Clone, Copy, Debug)]
pub struct HwBus {
    pub adapter: i32,
    pub driver: HwDriver,
    pub kbps: u32,
    /// Whether the attachment can transmit.
    pub can_tx: bool,
    /// FD data-phase parameters were applied.
    pub fd: bool,
}

/// The FlexRay watch: it only receives.
pub struct FrWatch {
    pub channel_index: i32,
    pub fibex_path: String,
}

/// The hardware attachments, by bus.
pub struct Hardware {
    pub buses: Table<HwBus>,
    /// The attachments are connected to the wire.
    pub live: bool,
    pub fr_watch: Option<FrWatch>,
}

/// The key of a bus's attachment.
pub open spec fn bus_key(bus: u8) -> u64 {
    table::message_key(bus, 0, false)
}

pub fn key_of_bus(bus: u8) -> (r: u64)
    ensures
        r == bus_key(bus),
{
    table::key_of_message(bus, 0, false)
}

/// The recorder's settings; the file itself is kept outside.
pub struct Recorder {
    /// Recording is switched on.
    pub recording: bool,
    /// The dated file is named after this path.
    pub record_path: String,
    /// The file of the last recording.
    pub last_record: String,
    /// Only these `(id, extended)` frames land in the file; empty means all.
    pub ids: Vec<(u32, bool)>,
}

impl Recorder {
    /// The record filter lets the frame through.
    pub open spec fn admits_spec(self, f: CanFrame) -> bool {
        self.ids@.len() == 0 || self.ids@.contains((f.id, f.extended))
    }

    pub fn admits(&self, f: &CanFrame) -> (r: bool)
        ensures
            r == self.admits_spec(*f),
    {
        self.ids.len() == 0 || pair_listed(&self.ids, f.id, f.extended)
    }
}

/// The kind of a line of the Write window.
#[derive(Clone, Copy, Debug, PartialEq, Eq, Structural)]
pub enum WriteKind {
    /// Script output.
    Script,
    /// Everything informational the bus itself reports.
    Info,
    /// Checks and recoverable misbehaviour.
    Warning,
    /// A handler failed, a command failed outright.
    Error,
}

/// One line of the Write window.
pub struct WriteLine {
    /// Local time of day in microseconds.
    pub wall_us: u64,
    pub kind: WriteKind,
    pub text: String,
}

impl WriteLine {
    pub fn copied(&self) -> (r: WriteLine)
        ensures
            r == *self,
    {
        WriteLine { wall_us: self.wall_us, kind: self.kind, text: self.text.clone() }
    }
}

/// The kind of a node's log line: by the tag it begins with.
pub open spec fn line_kind(line: Seq<char>) -> WriteKind {
    if text::stands_at(line, "[error]"@, 0) {
        WriteKind::Error
    } else if text::stands_at(line, "[check]"@, 0) || text::stands_at(line, "[timer]"@, 0)
        || text::stands_at(line, "[sysvar]"@, 0) || text::stands_at(line, "[compile]"@, 0)
        || text::stands_at(line, "[start]"@, 0) {
        WriteKind::Warning
    } else {
        WriteKind::Script
    }
}

pub fn kind_of_line(line: &str) -> (r: WriteKind)
    ensures
        r == line_kind(line@),
{
    if text::starts_with_text(line, "[error]") {
        WriteKind::Error
    } else if text::starts_with_text(line, "[check]") || text::starts_with_text(line, "[timer]")
        || text::starts_with_text(line, "[sysvar]") || text::starts_with_text(line, "[compile]")
        || text::starts_with_text(line, "[start]") {
        WriteKind::Warning
    } else {
        WriteKind::Script
    }
}

/// The local time of day: `chrono::Local::now`, read as the seconds since midnight
/// and the nanoseconds of the second. The seconds are those of a day; a leap
/// second counts as further nanoseconds of the second before it. What time it is,
/// nothing here says.
#[verifier::external_body]
fn local_clock() -> (r: (u32, u32))
    ensures
        r.0 < 86_400,
        r.1 < 2_000_000_000,
{
    let t = chrono::Local::now().time();
    (t.num_seconds_from_midnight(), t.nanosecond())
}

/// Seconds and nanoseconds as whole microseconds.
pub open spec fn day_us(seconds: u32, nanos: u32) -> int {
    seconds * 1_000_000 + nanos as int / 1000
}

/// A time of day in microseconds.
pub fn wall_us(seconds: u32, nanos: u32) -> (r: u64)
    ensures
        r == day_us(seconds, nanos),
{
    seconds as u64 * 1_000_000 + (nanos / 1_000) as u64
}

/// Local wall-clock microseconds since midnight, for absolute timestamps.
pub fn wall_us_now() -> (r: u64)
    ensures
        r < 86_401_000_000,
{
    let (seconds, nanos): (u32, u32) = local_clock();
    wall_us(seconds, nanos)
}

} // verus!
