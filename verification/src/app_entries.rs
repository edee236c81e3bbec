//! The generator as the windows address it: by the row of an entry.

use vstd::prelude::*;
use vstd::string::*;
use crate::app::App;
use crate::bus;
use crate::bus::BusCore;
use crate::bus_command::BusCommand;
use crate::bus_reload::BusFiles;
use crate::bus_run::BusAction;
use crate::channel;
use crate::config::Config;
use crate::generator;
use crate::generator::{parse_hex_bytes, TxMsg};
use crate::sim::ValueSrc;

verus! {

/// An entry switched on or off with its bus: freshly enabled, it starts its cycle now.
pub open spec fn switched(t: TxMsg, ch: u8, on: bool, now: u64) -> TxMsg {
    if t.channel == ch {
        TxMsg {
            active: on,
            next_t_us: if on && !t.active {
                now
            } else {
                t.next_t_us
            },
            ..t
        }
    } else {
        t
    }
}

impl App {
    /// Enables or disables every generator message of one bus; freshly enabled messages
    /// restart their cycle immediately.
    pub fn set_bus_tx(&mut self, ch: u8, on: bool)
        requires
            old(self).wf(),
        ensures
            final(self).wf(),
            final(self).core.tx_list@.len() == old(self).core.tx_list@.len(),
            forall|i: int|
                0 <= i < old(self).core.tx_list@.len() ==> (
                #[trigger] final(self).core.tx_list@[i]) == switched(
                    old(self).core.tx_list@[i],
                    ch,
                    on,
                    old(self).core.sim_t_us,
                ),
            final(self).core == (BusCore { tx_list: final(self).core.tx_list, ..old(self).core }),
            *final(self) == (App { core: final(self).core, ..*old(self) }),
    {
        let ghost was = *self;
        let total: usize = self.core.tx_list.len();
        let now: u64 = self.core.sim_t_us;
        for i in 0..total
            invariant
                was == *old(self),
                total == was.core.tx_list@.len(),
                now == was.core.sim_t_us,
                was.wf(),
                self.core.tx_list@.len() == total,
                self.core == (BusCore { tx_list: self.core.tx_list, ..was.core }),
                *self == (App { core: self.core, ..was }),
                forall|k: int|
                    0 <= k < i ==> #[trigger] self.core.tx_list@[k] == switched(
                        was.core.tx_list@[k],
                        ch,
                        on,
                        now,
                    ),
                forall|k: int|
                    i <= k < total ==> #[trigger] self.core.tx_list@[k] == was.core.tx_list@[k],
        {
            let t: &mut TxMsg = &mut self.core.tx_list[i];
            if t.channel == ch {
                if on && !t.active {
                    t.next_t_us = now;
                }
                t.active = on;
            }
        }
        assert(bus::entries_fit(self.core.tx_list@)) by {
            assert forall|k: int| 0 <= k < total implies (#[trigger] self.core.tx_list@[k]).len
                <= 64 && self.core.tx_list@[k].last_len <= 64 by {
                assert(was.core.tx_list@[k].len <= 64);
            }
        }
    }

    /// A command about the entry in row `i` went to the bus; a row that is not there asks
    /// for nothing.
    pub open spec fn is_row_asked(
        self,
        after: App,
        i: int,
        cmd: BusCommand,
        actions: Seq<BusAction>,
    ) -> bool {
        if i < self.core.tx_list@.len() {
            self.is_asked(after, cmd, actions)
        } else {
            after == self && actions.len() == 0
        }
    }

    /// Switches the entry in row `i` on or off.
    pub fn set_tx_active(&mut self, i: usize, on: bool) -> (actions: Vec<BusAction>)
        requires
            old(self).wf(),
        ensures
            final(self).wf(),
            old(self).is_row_asked(
                *final(self),
                i as int,
                BusCommand::SetEntryActive {
                    ch: old(self).core.tx_list@[i as int].channel,
                    id: old(self).core.tx_list@[i as int].id,
                    on,
                },
                actions@,
            ),
    {
        if i >= self.core.tx_list.len() {
            return Vec::new();
        }
        let ch: u8 = self.core.tx_list[i].channel;
        let id: u32 = self.core.tx_list[i].id;
        self.send(BusCommand::SetEntryActive { ch, id, on })
    }

    /// Adds the generator entry unless it exists.
    pub fn add_tx(&mut self, channel: u8, id: u32) -> (actions: Vec<BusAction>)
        requires
            old(self).wf(),
        ensures
            final(self).wf(),
            old(self).is_asked(*final(self), BusCommand::AddEntry { ch: channel, id }, actions@),
    {
        self.send(BusCommand::AddEntry { ch: channel, id })
    }

    /// Adds or replaces the source that drives its signal on row `i`.
    pub fn set_source(&mut self, i: usize, src: ValueSrc) -> (actions: Vec<BusAction>)
        requires
            old(self).wf(),
        ensures
            final(self).wf(),
            old(self).is_row_asked(
                *final(self),
                i as int,
                BusCommand::SetEntrySource {
                    ch: old(self).core.tx_list@[i as int].channel,
                    id: old(self).core.tx_list@[i as int].id,
                    src,
                },
                actions@,
            ),
    {
        if i >= self.core.tx_list.len() {
            return Vec::new();
        }
        let ch: u8 = self.core.tx_list[i].channel;
        let id: u32 = self.core.tx_list[i].id;
        self.send(BusCommand::SetEntrySource { ch, id, src })
    }

    /// Stops driving a signal on row `i`, which leaves the base bytes in charge again.
    pub fn clear_source(&mut self, i: usize, name: String) -> (actions: Vec<BusAction>)
        requires
            old(self).wf(),
        ensures
            final(self).wf(),
            old(self).is_row_asked(
                *final(self),
                i as int,
                BusCommand::ClearEntrySource {
                    ch: old(self).core.tx_list@[i as int].channel,
                    id: old(self).core.tx_list@[i as int].id,
                    name,
                },
                actions@,
            ),
    {
        if i >= self.core.tx_list.len() {
            return Vec::new();
        }
        let ch: u8 = self.core.tx_list[i].channel;
        let id: u32 = self.core.tx_list[i].id;
        self.send(BusCommand::ClearEntrySource { ch, id, name })
    }

    /// The signal of row `i` can be pinned: the database of its bus declares it, and the
    /// value has a raw form.
    pub open spec fn can_pin(self, i: int, name: Seq<char>, raw: Option<u64>) -> bool {
        &&& i < self.core.tx_list@.len()
        &&& raw is Some
        &&& channel::table_on(self.core.channels@, self.core.tx_list@[i].channel) is Some
        &&& channel::table_on(
            self.core.channels@,
            self.core.tx_list@[i].channel,
        )->0.signal_spec(self.core.tx_list@[i].id, name) is Some
    }

    /// Writes a value, given in its raw form, into the base payload of row `i` and pins
    /// that signal by dropping only its source: grabbing a moving slider means "hold
    /// here". Returns false, and asks for nothing, where there is no such signal.
    pub fn pin_signal(&mut self, i: usize, name: String, raw: Option<u64>) -> (r: (
        bool,
        Vec<BusAction>,
    ))
        requires
            old(self).wf(),
        ensures
            final(self).wf(),
            r.0 == old(self).can_pin(i as int, name@, raw),
            r.0 ==> old(self).is_asked(
                *final(self),
                BusCommand::PinEntrySignal {
                    ch: old(self).core.tx_list@[i as int].channel,
                    id: old(self).core.tx_list@[i as int].id,
                    name,
                    raw,
                },
                r.1@,
            ),
            !r.0 ==> *final(self) == *old(self) && r.1@.len() == 0,
    {
        if i >= self.core.tx_list.len() || raw.is_none() {
            return (false, Vec::new());
        }
        let ch: u8 = self.core.tx_list[i].channel;
        let id: u32 = self.core.tx_list[i].id;
        let known: bool = match channel::channel_dbc(&self.core.channels, ch) {
            Some(t) => t.signal(id, name.as_str()).is_some(),
            None => false,
        };
        if !known {
            return (false, Vec::new());
        }
        let actions: Vec<BusAction> = self.send(
            BusCommand::PinEntrySignal { ch, id, name, raw },
        );
        (true, actions)
    }

    /// Replaces the base payload of row `i` from the generator's data box; its sources
    /// survive. Returns whether the text is whole hex bytes.
    pub fn set_tx_hex(&mut self, i: usize, typed: String) -> (r: (bool, Vec<BusAction>))
        requires
            old(self).wf(),
        ensures
            final(self).wf(),
            r.0 == (generator::hex_bytes(typed@) is Some),
            old(self).is_row_asked(
                *final(self),
                i as int,
                BusCommand::SetEntryHex {
                    ch: old(self).core.tx_list@[i as int].channel,
                    id: old(self).core.tx_list@[i as int].id,
                    typed,
                },
                r.1@,
            ),
    {
        let whole: bool = parse_hex_bytes(typed.as_str()).is_some();
        if i >= self.core.tx_list.len() {
            return (whole, Vec::new());
        }
        let ch: u8 = self.core.tx_list[i].channel;
        let id: u32 = self.core.tx_list[i].id;
        let actions: Vec<BusAction> = self.send(BusCommand::SetEntryHex { ch, id, typed });
        (whole, actions)
    }

    /// Takes in the saved workspace, if there is one: what was read of its file, and of
    /// its databases. One that cannot be read is ignored, and the status says why.
    pub fn load_config(&mut self, read: Option<Result<Config, String>>, files: &BusFiles)
        requires
            old(self).wf(),
            read matches Some(Ok(cfg)) ==> cfg.has_files(files@),
        ensures
            final(self).wf(),
            match read {
                None => *final(self) == *old(self),
                Some(Ok(cfg)) => cfg.is_applied(*old(self), *final(self), files@),
                Some(Err(e)) => final(self).status@ == "config ignored: "@ + e@ && *final(self)
                    == (App { status: final(self).status, ..*old(self) }),
            },
    {
        match read {
            None => {},
            Some(Ok(cfg)) => {
                cfg.apply(self, files);
            },
            Some(Err(e)) => {
                let mut s: String = "config ignored: ".to_owned();
                s.append(e.as_str());
                self.status = s;
            },
        }
    }
}

/// Switching a bus off and on again leaves every entry of the other buses, and every
/// payload, period and source, as it was.
pub proof fn law_switching_a_bus_keeps_its_entries(t: TxMsg, ch: u8, now: u64, later: u64)
    ensures
        ({
            let back = switched(switched(t, ch, false, now), ch, true, later);
            &&& t.channel != ch ==> back == t
            &&& back == (TxMsg { active: back.active, next_t_us: back.next_t_us, ..t })
        }),
{
}

} // verus!
