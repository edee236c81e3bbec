//! Trigger rules: what to watch for, and what to do when it happens. Conditions
//! fire on edges, never on a level that merely lasts.

use vstd::prelude::*;
use vstd::string::*;
use crate::channel;

verus! {

/// What a rule watches. Thresholds are kept as the bit patterns of their doubles.
pub enum TriggerCond {
    /// A signal's value crosses a threshold.
    SignalCross { ch: u8, id: u32, ext: bool, signal: String, threshold: u64, rising: bool },
    /// An id appears.
    IdPresent { ch: u8, id: u32 },
    /// An error frame appears.
    ErrorFrame { ch: u8 },
    /// A periodic message falls silent.
    CycleTimeout { ch: u8, id: u32 },
    /// A system variable's value crosses a threshold.
    SysVar { key: String, threshold: u64, rising: bool },
}

/// What a rule does.
#[derive(Clone, Copy, Debug, PartialEq, Eq, Structural)]
pub enum TriggerAction {
    StartRecording,
    StopRecording,
    /// Sends one frame from a generator entry.
    Send { ch: u8, id: u32 },
    InsertMarker,
    ClearTrace,
}

impl TriggerCond {
    /// The bus that the condition watches; a system variable belongs to none.
    pub open spec fn bus_spec(self) -> Option<u8> {
        match self {
            TriggerCond::SignalCross { ch, .. } => Some(ch),
            TriggerCond::IdPresent { ch, .. } => Some(ch),
            TriggerCond::ErrorFrame { ch } => Some(ch),
            TriggerCond::CycleTimeout { ch, .. } => Some(ch),
            TriggerCond::SysVar { .. } => None,
        }
    }

    pub fn bus(&self) -> (r: Option<u8>)
        ensures
            r == self.bus_spec(),
    {
        match self {
            TriggerCond::SignalCross { ch, .. } => Some(*ch),
            TriggerCond::IdPresent { ch, .. } => Some(*ch),
            TriggerCond::ErrorFrame { ch } => Some(*ch),
            TriggerCond::CycleTimeout { ch, .. } => Some(*ch),
            TriggerCond::SysVar { .. } => None,
        }
    }

    /// Once seen, it stays seen: the condition fires once until it is re-armed.
    pub open spec fn latches(self) -> bool {
        self is IdPresent || self is ErrorFrame
    }

    pub fn latches_once(&self) -> (r: bool)
        ensures
            r == self.latches(),
    {
        match self {
            TriggerCond::IdPresent { .. } => true,
            TriggerCond::ErrorFrame { .. } => true,
            _ => false,
        }
    }

    /// The condition with its bus index replaced.
    pub open spec fn on_bus(self, c: u8) -> TriggerCond {
        match self {
            TriggerCond::SignalCross { ch, id, ext, signal, threshold, rising } =>
                TriggerCond::SignalCross { ch: c, id, ext, signal, threshold, rising },
            TriggerCond::IdPresent { ch, id } => TriggerCond::IdPresent { ch: c, id },
            TriggerCond::ErrorFrame { ch } => TriggerCond::ErrorFrame { ch: c },
            TriggerCond::CycleTimeout { ch, id } => TriggerCond::CycleTimeout { ch: c, id },
            TriggerCond::SysVar { key, threshold, rising } => self,
        }
    }

    pub fn moved_to(self, c: u8) -> (r: TriggerCond)
        ensures
            r == self.on_bus(c),
    {
        match self {
            TriggerCond::SignalCross { ch, id, ext, signal, threshold, rising } =>
                TriggerCond::SignalCross { ch: c, id, ext, signal, threshold, rising },
            TriggerCond::IdPresent { ch, id } => TriggerCond::IdPresent { ch: c, id },
            TriggerCond::ErrorFrame { ch } => TriggerCond::ErrorFrame { ch: c },
            TriggerCond::CycleTimeout { ch, id } => TriggerCond::CycleTimeout { ch: c, id },
            TriggerCond::SysVar { key, threshold, rising } => TriggerCond::SysVar {
                key,
                threshold,
                rising,
            },
        }
    }

    pub fn copied(&self) -> (r: TriggerCond)
        ensures
            r == *self,
    {
        match self {
            TriggerCond::SignalCross { ch, id, ext, signal, threshold, rising } =>
                TriggerCond::SignalCross {
                    ch: *ch,
                    id: *id,
                    ext: *ext,
                    signal: signal.clone(),
                    threshold: *threshold,
                    rising: *rising,
                },
            TriggerCond::IdPresent { ch, id } => TriggerCond::IdPresent { ch: *ch, id: *id },
            TriggerCond::ErrorFrame { ch } => TriggerCond::ErrorFrame { ch: *ch },
            TriggerCond::CycleTimeout { ch, id } => TriggerCond::CycleTimeout { ch: *ch, id: *id },
            TriggerCond::SysVar { key, threshold, rising } => TriggerCond::SysVar {
                key: key.clone(),
                threshold: *threshold,
                rising: *rising,
            },
        }
    }
}

impl TriggerAction {
    /// The bus that the action sends on.
    pub open spec fn target(self) -> Option<u8> {
        match self {
            TriggerAction::Send { ch, .. } => Some(ch),
            _ => None,
        }
    }

    /// The action with its bus index replaced.
    pub open spec fn on_bus(self, c: u8) -> TriggerAction {
        match self {
            TriggerAction::Send { ch, id } => TriggerAction::Send { ch: c, id },
            _ => self,
        }
    }
}

/// One rule with its edge state.
pub struct Trigger {
    pub cond: TriggerCond,
    pub action: TriggerAction,
    pub enabled: bool,
    /// The condition held when it was last judged.
    pub level: bool,
    pub fired: u64,
    pub last_fire_t_us: u64,
}

impl Trigger {
    pub fn new(cond: TriggerCond, action: TriggerAction) -> (t: Trigger)
        ensures
            t == (Trigger {
                cond,
                action,
                enabled: true,
                level: false,
                fired: 0,
                last_fire_t_us: 0,
            }),
    {
        Trigger { cond, action, enabled: true, level: false, fired: 0, last_fire_t_us: 0 }
    }

    /// The rule after its condition was judged at `t_us`.
    pub open spec fn judged(self, now: bool, t_us: u64) -> Trigger {
        if now && !self.level {
            Trigger {
                level: true,
                fired: crate::trace::counted(self.fired, 1) as u64,
                last_fire_t_us: t_us,
                ..self
            }
        } else {
            Trigger { level: now, ..self }
        }
    }

    /// Judges the condition. Returns whether this is an edge: it holds now and
    /// did not hold before.
    pub fn judge(&mut self, now: bool, t_us: u64) -> (edge: bool)
        ensures
            *final(self) == old(self).judged(now, t_us),
            edge == (now && !old(self).level),
    {
        let was: bool = self.level;
        self.level = now;
        if now && !was {
            self.fired = crate::trace::count_one(self.fired);
            self.last_fire_t_us = t_us;
            true
        } else {
            false
        }
    }

    /// The rule re-armed: an appearance that latched may fire again. Real levels
    /// are untouched.
    pub open spec fn rearmed(self) -> Trigger {
        if self.cond.latches() {
            Trigger { level: false, ..self }
        } else {
            self
        }
    }

    pub fn rearm(&mut self)
        ensures
            *final(self) == old(self).rearmed(),
    {
        if self.cond.latches_once() {
            self.level = false;
        }
    }

    /// The rule has no meaning without the bus: it watches it, or sends on it.
    pub open spec fn needs_bus(self, gone: u8) -> bool {
        self.cond.bus_spec() == Some(gone) || self.action.target() == Some(gone)
    }

    /// The rule after another bus is removed.
    pub open spec fn shifted(self, gone: u8) -> Trigger {
        Trigger {
            cond: match self.cond.bus_spec() {
                Some(c) => if c > gone {
                    self.cond.on_bus((c - 1) as u8)
                } else {
                    self.cond
                },
                None => self.cond,
            },
            action: match self.action.target() {
                Some(c) => if c > gone {
                    self.action.on_bus((c - 1) as u8)
                } else {
                    self.action
                },
                None => self.action,
            },
            ..self
        }
    }

    pub fn is_on(&self, gone: u8) -> (r: bool)
        ensures
            r == self.needs_bus(gone),
    {
        let watched: bool = match self.cond.bus() {
            Some(c) => c == gone,
            None => false,
        };
        let sent: bool = match self.action {
            TriggerAction::Send { ch, .. } => ch == gone,
            _ => false,
        };
        watched || sent
    }

    pub fn shift(self, gone: u8) -> (r: Trigger)
        ensures
            r == self.shifted(gone),
    {
        let cond: TriggerCond = match self.cond.bus() {
            Some(c) => if c > gone {
                self.cond.moved_to(c - 1)
            } else {
                self.cond
            },
            None => self.cond,
        };
        let action: TriggerAction = match self.action {
            TriggerAction::Send { ch, id } => if ch > gone {
                TriggerAction::Send { ch: (ch - 1) as u8, id }
            } else {
                TriggerAction::Send { ch, id }
            },
            other => other,
        };
        Trigger {
            cond,
            action,
            enabled: self.enabled,
            level: self.level,
            fired: self.fired,
            last_fire_t_us: self.last_fire_t_us,
        }
    }

    pub fn copied(&self) -> (r: Trigger)
        ensures
            r == *self,
    {
        Trigger {
            cond: self.cond.copied(),
            action: self.action,
            enabled: self.enabled,
            level: self.level,
            fired: self.fired,
            last_fire_t_us: self.last_fire_t_us,
        }
    }
}

/// The rules that outlive the removal of a bus, shifted.
pub open spec fn remaining(rules: Seq<Trigger>, gone: u8, n: int) -> Seq<Trigger>
    decreases n,
{
    if n <= 0 {
        Seq::empty()
    } else {
        let before = remaining(rules, gone, n - 1);
        if rules[n - 1].needs_bus(gone) {
            before
        } else {
            before.push(rules[n - 1].shifted(gone))
        }
    }
}

/// Drops the rules that need a bus and shifts the others down.
pub fn drop_bus(rules: Vec<Trigger>, gone: u8) -> (r: Vec<Trigger>)
    ensures
        r@ == remaining(rules@, gone, rules@.len() as int),
{
    let mut kept: Vec<Trigger> = Vec::new();
    let ghost all = rules@;
    for t in it: rules
        invariant
            it.seq() == all,
            kept@ == remaining(all, gone, it.index() as int),
    {
        if !t.is_on(gone) {
            kept.push(t.shift(gone));
        }
    }
    kept
}

/// A level that lasts fires once: judged again, the same level is no edge.
pub proof fn law_no_edge_without_a_change(t: Trigger, t1: u64, t2: u64)
    ensures
        t.judged(true, t1).judged(true, t2).fired == t.judged(true, t1).fired,
        t.judged(true, t1).judged(true, t2).last_fire_t_us == t.judged(true, t1).last_fire_t_us,
{
}

/// A level that went and came back is a fresh edge.
pub proof fn law_a_new_crossing_fires(t: Trigger, t1: u64, t2: u64)
    requires
        t.fired < u64::MAX,
    ensures
        t.judged(false, t1).judged(true, t2).fired == t.fired + 1,
        t.judged(false, t1).judged(true, t2).last_fire_t_us == t2,
{
}

/// A rule that outlives a removal watches and feeds the buses it did before.
pub proof fn law_rules_follow_their_bus(t: Trigger, gone: u8)
    requires
        !t.needs_bus(gone),
    ensures
        t.cond.bus_spec() matches Some(c) ==> t.shifted(gone).cond.bus_spec() == channel::remapped(
            c,
            gone as usize,
        ),
        t.action.target() matches Some(c) ==> t.shifted(gone).action.target()
            == channel::remapped(c, gone as usize),
        t.shifted(gone).level == t.level,
        t.shifted(gone).enabled == t.enabled,
{
}

} // verus!
