//! Value sources: the waveforms that drive a generated signal over time. What a
//! waveform reads at an instant is floating point and stands outside; here are
//! its parameters and their saved codes.

use vstd::prelude::*;

verus! {

/// The shape of a waveform.
#[derive(Clone, Copy, Debug, PartialEq, Eq, Structural)]
pub enum SrcKind {
    Ramp,
    Sine,
    Step,
    Random,
    Triangle,
    Counter,
}

impl SrcKind {
    /// The code that a project file stores.
    pub open spec fn code(self) -> u8 {
        match self {
            SrcKind::Ramp => 0,
            SrcKind::Sine => 1,
            SrcKind::Step => 2,
            SrcKind::Random => 3,
            SrcKind::Triangle => 4,
            SrcKind::Counter => 5,
        }
    }

    /// The shape that a code stands for; a code of a later version has none.
    pub open spec fn of_code(code: u8) -> Option<SrcKind> {
        match code {
            0 => Some(SrcKind::Ramp),
            1 => Some(SrcKind::Sine),
            2 => Some(SrcKind::Step),
            3 => Some(SrcKind::Random),
            4 => Some(SrcKind::Triangle),
            5 => Some(SrcKind::Counter),
            _ => None,
        }
    }

    pub fn to_u8(self) -> (r: u8)
        ensures
            r == self.code(),
    {
        match self {
            SrcKind::Ramp => 0,
            SrcKind::Sine => 1,
            SrcKind::Step => 2,
            SrcKind::Random => 3,
            SrcKind::Triangle => 4,
            SrcKind::Counter => 5,
        }
    }

    pub fn from_u8(code: u8) -> (r: Option<SrcKind>)
        ensures
            r == SrcKind::of_code(code),
    {
        match code {
            0 => Some(SrcKind::Ramp),
            1 => Some(SrcKind::Sine),
            2 => Some(SrcKind::Step),
            3 => Some(SrcKind::Random),
            4 => Some(SrcKind::Triangle),
            5 => Some(SrcKind::Counter),
            _ => None,
        }
    }
}

/// A saved shape reads back as itself.
pub proof fn law_kind_code_round_trip(k: SrcKind)
    ensures
        SrcKind::of_code(k.code()) == Some(k),
{
}

/// One driven signal: the waveform's parameters. Levels are kept as the bit
/// patterns of their doubles.
pub struct ValueSrc {
    pub name: String,
    pub kind: SrcKind,
    pub lo: u64,
    pub hi: u64,
    pub period_us: u64,
    pub phase_us: u64,
    pub seq: Vec<u64>,
    pub seed: u64,
    pub redraw_us: u64,
}

impl ValueSrc {
    /// The two have the same parameters.
    pub open spec fn same(self, other: ValueSrc) -> bool {
        &&& self.name@ == other.name@
        &&& self.kind == other.kind
        &&& self.lo == other.lo
        &&& self.hi == other.hi
        &&& self.period_us == other.period_us
        &&& self.phase_us == other.phase_us
        &&& self.seq@ == other.seq@
        &&& self.seed == other.seed
        &&& self.redraw_us == other.redraw_us
    }

    pub fn copied(&self) -> (r: ValueSrc)
        ensures
            r.same(*self),
    {
        ValueSrc {
            name: self.name.clone(),
            kind: self.kind,
            lo: self.lo,
            hi: self.hi,
            period_us: self.period_us,
            phase_us: self.phase_us,
            seq: copy_words(&self.seq),
            seed: self.seed,
            redraw_us: self.redraw_us,
        }
    }
}

/// A copy of a list of bit patterns.
pub fn copy_words(v: &Vec<u64>) -> (r: Vec<u64>)
    ensures
        r@ == v@,
{
    let mut r: Vec<u64> = Vec::new();
    for i in 0..v.len()
        invariant
            r@ == v@.subrange(0, i as int),
    {
        r.push(v[i]);
    }
    assert(r@ =~= v@);
    r
}

/// The lists hold the same sources, one for one.
pub open spec fn same_sources(a: Seq<ValueSrc>, b: Seq<ValueSrc>) -> bool {
    &&& a.len() == b.len()
    &&& forall|i: int| 0 <= i < a.len() ==> (#[trigger] a[i]).same(b[i])
}

pub fn copy_sources(v: &Vec<ValueSrc>) -> (r: Vec<ValueSrc>)
    ensures
        same_sources(r@, v@),
{
    let mut r: Vec<ValueSrc> = Vec::new();
    for i in 0..v.len()
        invariant
            r@.len() == i,
            forall|k: int| 0 <= k < i ==> (#[trigger] r@[k]).same(v@[k]),
    {
        r.push(v[i].copied());
    }
    r
}

} // verus!
