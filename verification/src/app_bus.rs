//! What the workspace does with buses, their databases and the generator: the windows
//! follow a removed bus, and the lists of database paths are put together.

use vstd::prelude::*;
use vstd::string::*;
use crate::app;
use crate::app::{push_recent, App};
use crate::bus_command::BusCommand;
use crate::bus_run::BusAction;
use crate::channel;
use crate::channel::NodeRole;
use crate::text;
use crate::workspace;
use crate::workspace::{
    fix_scope, remap_pairs, remap_signals, DataWindow, GraphicsWindow, MsgWin, SigScope, StatsWin,
    TraceWin,
};

verus! {

/// The pairs that are left stay apart.
proof fn lemma_remapped_set(pairs: Seq<(u8, u32)>, gone: usize, n: int)
    requires
        workspace::is_set(pairs),
        0 <= n <= pairs.len(),
    ensures
        workspace::is_set(workspace::remapped_pairs(pairs, gone, n)),
        forall|i: int|
            0 <= i < workspace::remapped_pairs(pairs, gone, n).len() ==> comes_from(
                pairs,
                gone,
                n,
                #[trigger] workspace::remapped_pairs(pairs, gone, n)[i],
            ),
    decreases n,
{
    if n > 0 {
        lemma_remapped_set(pairs, gone, n - 1);
        let before = workspace::remapped_pairs(pairs, gone, n - 1);
        let after = workspace::remapped_pairs(pairs, gone, n);
        assert forall|i: int| 0 <= i < before.len() implies comes_from(pairs, gone, n, before[i]) by {
            assert(comes_from(pairs, gone, n - 1, before[i]));
            let k = choose|k: int|
                0 <= k < n - 1 && is_source(pairs, gone, k, before[i]);
            assert(is_source(pairs, gone, k, before[i]));
        }
        match channel::remapped(pairs[n - 1].0, gone) {
            Some(c) => {
                let new = (c, pairs[n - 1].1);
                assert(is_source(pairs, gone, n - 1, new));
                assert forall|i: int| 0 <= i < before.len() implies before[i] != new by {
                    assert(comes_from(pairs, gone, n - 1, before[i]));
                    let k = choose|k: int|
                        0 <= k < n - 1 && is_source(pairs, gone, k, before[i]);
                    if before[i] == new {
                        assert(pairs[k] == pairs[n - 1]);
                    }
                }
                assert forall|i: int, j: int|
                    0 <= i < j < after.len() implies #[trigger] after[i] != #[trigger] after[j] by {
                    if j < before.len() {
                        assert(before[i] != before[j]);
                    } else {
                        assert(after[i] == before[i]);
                    }
                }
            },
            None => {},
        }
    }
}

/// The pair at `k` moved to `p`.
spec fn is_source(pairs: Seq<(u8, u32)>, gone: usize, k: int, p: (u8, u32)) -> bool {
    channel::remapped(pairs[k].0, gone) == Some(p.0) && pairs[k].1 == p.1
}

/// The pair comes from one of the first `n`.
spec fn comes_from(pairs: Seq<(u8, u32)>, gone: usize, n: int, p: (u8, u32)) -> bool {
    exists|k: int| 0 <= k < n && #[trigger] is_source(pairs, gone, k, p)
}

/// A list of paths with one more, unless it stands there already.
pub open spec fn with_path(paths: Seq<Seq<char>>, path: Seq<char>) -> Seq<Seq<char>> {
    if paths.contains(path) {
        paths
    } else {
        paths.push(path)
    }
}

/// A list of paths with another primary one; the extra ones stay.
pub open spec fn with_primary(paths: Seq<Seq<char>>, path: Seq<char>) -> Seq<Seq<char>> {
    if paths.len() == 0 {
        seq![path]
    } else {
        paths.update(0, path)
    }
}

/// A list of paths without one of the extra ones.
pub open spec fn without_extra(paths: Seq<Seq<char>>, extra: int) -> Option<Seq<Seq<char>>> {
    if extra + 1 < paths.len() {
        Some(paths.remove(extra + 1))
    } else {
        None
    }
}

/// What a file dropped onto the window is.
pub enum Dropped {
    /// A database: the first bus loads these paths.
    Database(Vec<String>),
    /// A log to select for replay.
    Log,
    Unsupported,
}

impl App {
    /// The paths of a bus's databases; none for a bus that is not there.
    pub open spec fn paths_of(self, ch: int) -> Seq<Seq<char>> {
        if 0 <= ch < self.core.channels@.len() {
            text::views(self.core.channels@[ch].dbc_paths@)
        } else {
            Seq::empty()
        }
    }

    fn dbc_paths(&self, ch: usize) -> (r: Vec<String>)
        ensures
            text::views(r@) == self.paths_of(ch as int),
    {
        if ch < self.core.channels.len() {
            text::copy_names(&self.core.channels[ch].dbc_paths)
        } else {
            let none: Vec<String> = Vec::new();
            assert(text::views(none@) =~= Seq::empty());
            none
        }
    }

    /// The list with a further database behind the primary one. Nothing where the
    /// path is attached already.
    pub fn attach_dbc_to(&self, ch: usize, path: String) -> (r: Option<Vec<String>>)
        ensures
            r is None == self.paths_of(ch as int).contains(path@),
            r is Some ==> text::views((r->0)@) == self.paths_of(ch as int).push(path@),
    {
        let mut paths: Vec<String> = self.dbc_paths(ch);
        let listed: bool = text::listed(&paths, path.as_str());
        proof {
            lemma_views_contain(paths@, path@);
        }
        if listed {
            return None;
        }
        let ghost before = paths@;
        let ghost name = path@;
        paths.push(path);
        assert(text::views(paths@) =~= text::views(before).push(name));
        Some(paths)
    }

    /// The list with another primary database.
    pub fn open_dbc_for(&self, ch: usize, path: String) -> (r: Vec<String>)
        ensures
            text::views(r@) == with_primary(self.paths_of(ch as int), path@),
    {
        let mut paths: Vec<String> = self.dbc_paths(ch);
        let ghost before = paths@;
        let ghost name = path@;
        if paths.len() == 0 {
            paths.push(path);
            assert(text::views(paths@) =~= seq![name]);
        } else {
            paths.set(0, path);
            assert(text::views(paths@) =~= text::views(before).update(0, name));
        }
        paths
    }

    /// The list without the extra database at `extra_index`, the first extra one
    /// being 0. Nothing where there is none.
    pub fn detach_dbc_extra(&self, ch: usize, extra_index: usize) -> (r: Option<Vec<String>>)
        requires
            extra_index < usize::MAX,
        ensures
            r is Some == without_extra(self.paths_of(ch as int), extra_index as int) is Some,
            r is Some ==> text::views((r->0)@) == without_extra(
                self.paths_of(ch as int),
                extra_index as int,
            )->0,
    {
        let mut paths: Vec<String> = self.dbc_paths(ch);
        assert(text::views(paths@).len() == paths@.len());
        if extra_index + 1 < paths.len() {
            let ghost before = paths@;
            paths.remove(extra_index + 1);
            assert(text::views(paths@) =~= text::views(before).remove(extra_index + 1));
            Some(paths)
        } else {
            None
        }
    }

    /// A database was loaded for a bus: it is recent where the bus now has a table.
    pub fn note_opened_dbc(&mut self, ch: usize, path: String)
        requires
            old(self).wf(),
        ensures
            final(self).wf(),
            text::views(final(self).recent_dbc@) == (if ch < old(self).core.channels@.len()
                && old(self).core.channels@[ch as int].dbc is Some {
                app::with_recent(text::views(old(self).recent_dbc@), path@)
            } else {
                text::views(old(self).recent_dbc@)
            }),
            *final(self) == (App { recent_dbc: final(self).recent_dbc, ..*old(self) }),
    {
        if ch < self.core.channels.len() {
            if self.core.channels[ch].dbc.is_some() {
                push_recent(&mut self.recent_dbc, path);
            }
        }
    }

    /// Tells what a dropped file is by its extension, in whatever case: a database is
    /// attached to the first bus, a log becomes the replay log, and of anything else
    /// the status says that it cannot be used. `name` is the file's name.
    pub fn open_dropped(&mut self, path: String, extension: &str, name: &str) -> (d: Dropped)
        requires
            old(self).wf(),
        ensures
            final(self).wf(),
            match d {
                Dropped::Database(paths) => {
                    &&& text::same_but_case(extension@, "dbc"@)
                    &&& text::views(paths@) == with_path(old(self).paths_of(0), path@)
                    &&& *final(self) == *old(self)
                },
                Dropped::Log => {
                    &&& !text::same_but_case(extension@, "dbc"@)
                    &&& is_log_extension(extension@)
                    &&& *final(self) == *old(self)
                },
                Dropped::Unsupported => {
                    &&& !text::same_but_case(extension@, "dbc"@)
                    &&& !is_log_extension(extension@)
                    &&& final(self).status@ == "unsupported file: "@ + name@
                    &&& *final(self) == (App { status: final(self).status, ..*old(self) })
                },
            },
    {
        if text::equals_ignoring_case(extension, "dbc") {
            let mut paths: Vec<String> = self.dbc_paths(0);
            proof {
                lemma_views_contain(paths@, path@);
            }
            if !text::listed(&paths, path.as_str()) {
                let ghost before = paths@;
                let ghost name = path@;
                paths.push(path);
                assert(text::views(paths@) =~= text::views(before).push(name));
            }
            return Dropped::Database(paths);
        }
        if text::equals_ignoring_case(extension, "asc") || text::equals_ignoring_case(
            extension,
            "blf",
        ) || text::equals_ignoring_case(extension, "mf4") {
            return Dropped::Log;
        }
        let mut line: String = "unsupported file: ".to_owned();
        line.append(name);
        self.status = line;
        Dropped::Unsupported
    }

    /// The windows after a bus was removed.
    pub open spec fn are_windows_remapped(self, after: App, ch: usize) -> bool {
        &&& after.trace_windows@.len() == self.trace_windows@.len()
        &&& forall|i: int|
            0 <= i < self.trace_windows@.len() ==> {
                let was = self.trace_windows@[i];
                let now = #[trigger] after.trace_windows@[i];
                &&& now.manual@ == workspace::remapped_pairs(
                    was.manual@,
                    ch,
                    was.manual@.len() as int,
                )
                &&& now.scope == workspace::fixed_scope(was.scope, ch)
                &&& now == (TraceWin { manual: now.manual, scope: now.scope, ..was })
            }
        &&& after.msg_windows@.len() == self.msg_windows@.len()
        &&& forall|i: int|
            0 <= i < self.msg_windows@.len() ==> {
                let was = self.msg_windows@[i];
                let now = #[trigger] after.msg_windows@[i];
                &&& now.manual@ == workspace::remapped_pairs(
                    was.manual@,
                    ch,
                    was.manual@.len() as int,
                )
                &&& now.scope == workspace::fixed_scope(was.scope, ch)
                &&& now == (MsgWin { manual: now.manual, scope: now.scope, ..was })
            }
        &&& after.stats_windows@.len() == self.stats_windows@.len()
        &&& forall|i: int|
            0 <= i < self.stats_windows@.len() ==> {
                let was = self.stats_windows@[i];
                let now = #[trigger] after.stats_windows@[i];
                &&& now.manual@ == workspace::remapped_pairs(
                    was.manual@,
                    ch,
                    was.manual@.len() as int,
                )
                &&& now.scope == workspace::fixed_scope(was.scope, ch)
                &&& now == (StatsWin { manual: now.manual, scope: now.scope, ..was })
            }
        &&& after.graphics@.len() == self.graphics@.len()
        &&& forall|i: int|
            0 <= i < self.graphics@.len() ==> {
                let was = self.graphics@[i];
                let now = #[trigger] after.graphics@[i];
                &&& now.signals@ == workspace::remapped_signals(
                    was.signals@,
                    ch,
                    was.signals@.len() as int,
                )
                &&& now == (GraphicsWindow { signals: now.signals, ..was })
            }
        &&& after.data_windows@.len() == self.data_windows@.len()
        &&& forall|i: int|
            0 <= i < self.data_windows@.len() ==> {
                let was = self.data_windows@[i];
                let now = #[trigger] after.data_windows@[i];
                &&& now.signals@ == workspace::remapped_signals(
                    was.signals@,
                    ch,
                    was.signals@.len() as int,
                )
                &&& now == (DataWindow { signals: now.signals, ..was })
            }
        &&& after.net_selected == 0
        &&& after == (App {
            trace_windows: after.trace_windows,
            msg_windows: after.msg_windows,
            stats_windows: after.stats_windows,
            graphics: after.graphics,
            data_windows: after.data_windows,
            net_selected: 0,
            ..self
        })
    }

    fn remap_selections(&mut self, ch: usize)
        requires
            old(self).wf(),
        ensures
            final(self).wf(),
            old(self).are_windows_remapped(
                App { net_selected: 0, ..*final(self) },
                ch,
            ),
            final(self).net_selected == old(self).net_selected,
    {
        let ghost was = *self;
        let total: usize = self.trace_windows.len();
        for i in 0..total
            invariant
                was == *old(self),
                was.wf(),
                total == was.trace_windows@.len(),
                *self == (App { trace_windows: self.trace_windows, ..was }),
                self.trace_windows@.len() == total,
                forall|k: int|
                    0 <= k < i ==> {
                        let before = was.trace_windows@[k];
                        let now = #[trigger] self.trace_windows@[k];
                        &&& now.manual@ == workspace::remapped_pairs(
                            before.manual@,
                            ch,
                            before.manual@.len() as int,
                        )
                        &&& workspace::is_set(now.manual@)
                        &&& now.scope == workspace::fixed_scope(before.scope, ch)
                        &&& now == (TraceWin { manual: now.manual, scope: now.scope, ..before })
                    },
                forall|k: int|
                    i <= k < total ==> #[trigger] self.trace_windows@[k] == was.trace_windows@[k],
        {
            proof {
                let before = was.trace_windows@[i as int];
                assert(workspace::is_set(before.manual@));
                lemma_remapped_set(before.manual@, ch, before.manual@.len() as int);
            }
            let manual: Vec<(u8, u32)> = remap_pairs(&self.trace_windows[i].manual, ch);
            let scope: SigScope = fix_scope(self.trace_windows[i].scope, ch);
            let w: &mut TraceWin = &mut self.trace_windows[i];
            w.manual = manual;
            w.scope = scope;
        }
        let ghost mid1 = *self;
        let total: usize = self.msg_windows.len();
        for i in 0..total
            invariant
                was.wf(),
                mid1.msg_windows == was.msg_windows,
                total == was.msg_windows@.len(),
                *self == (App { msg_windows: self.msg_windows, ..mid1 }),
                self.msg_windows@.len() == total,
                forall|k: int|
                    0 <= k < i ==> {
                        let before = was.msg_windows@[k];
                        let now = #[trigger] self.msg_windows@[k];
                        &&& now.manual@ == workspace::remapped_pairs(
                            before.manual@,
                            ch,
                            before.manual@.len() as int,
                        )
                        &&& workspace::is_set(now.manual@)
                        &&& now.scope == workspace::fixed_scope(before.scope, ch)
                        &&& now == (MsgWin { manual: now.manual, scope: now.scope, ..before })
                    },
                forall|k: int|
                    i <= k < total ==> #[trigger] self.msg_windows@[k] == was.msg_windows@[k],
        {
            proof {
                let before = was.msg_windows@[i as int];
                assert(workspace::is_set(before.manual@));
                lemma_remapped_set(before.manual@, ch, before.manual@.len() as int);
            }
            let manual: Vec<(u8, u32)> = remap_pairs(&self.msg_windows[i].manual, ch);
            let scope: SigScope = fix_scope(self.msg_windows[i].scope, ch);
            let w: &mut MsgWin = &mut self.msg_windows[i];
            w.manual = manual;
            w.scope = scope;
        }
        let ghost mid2 = *self;
        let total: usize = self.stats_windows.len();
        for i in 0..total
            invariant
                was.wf(),
                mid2.stats_windows == was.stats_windows,
                total == was.stats_windows@.len(),
                *self == (App { stats_windows: self.stats_windows, ..mid2 }),
                self.stats_windows@.len() == total,
                forall|k: int|
                    0 <= k < i ==> {
                        let before = was.stats_windows@[k];
                        let now = #[trigger] self.stats_windows@[k];
                        &&& now.manual@ == workspace::remapped_pairs(
                            before.manual@,
                            ch,
                            before.manual@.len() as int,
                        )
                        &&& workspace::is_set(now.manual@)
                        &&& now.scope == workspace::fixed_scope(before.scope, ch)
                        &&& now == (StatsWin { manual: now.manual, scope: now.scope, ..before })
                    },
                forall|k: int|
                    i <= k < total ==> #[trigger] self.stats_windows@[k] == was.stats_windows@[k],
        {
            proof {
                let before = was.stats_windows@[i as int];
                assert(workspace::is_set(before.manual@));
                lemma_remapped_set(before.manual@, ch, before.manual@.len() as int);
            }
            let manual: Vec<(u8, u32)> = remap_pairs(&self.stats_windows[i].manual, ch);
            let scope: SigScope = fix_scope(self.stats_windows[i].scope, ch);
            let w: &mut StatsWin = &mut self.stats_windows[i];
            w.manual = manual;
            w.scope = scope;
        }
        let ghost mid3 = *self;
        let total: usize = self.graphics.len();
        for i in 0..total
            invariant
                mid3.graphics == was.graphics,
                total == was.graphics@.len(),
                *self == (App { graphics: self.graphics, ..mid3 }),
                self.graphics@.len() == total,
                forall|k: int|
                    0 <= k < i ==> {
                        let before = was.graphics@[k];
                        let now = #[trigger] self.graphics@[k];
                        &&& now.signals@ == workspace::remapped_signals(
                            before.signals@,
                            ch,
                            before.signals@.len() as int,
                        )
                        &&& now == (GraphicsWindow { signals: now.signals, ..before })
                    },
                forall|k: int|
                    i <= k < total ==> #[trigger] self.graphics@[k] == was.graphics@[k],
        {
            let w: &mut GraphicsWindow = &mut self.graphics[i];
            let mut signals: Vec<workspace::GfxSignal> = Vec::new();
            std::mem::swap(&mut signals, &mut w.signals);
            w.signals = remap_signals(signals, ch);
        }
        let ghost mid4 = *self;
        let total: usize = self.data_windows.len();
        for i in 0..total
            invariant
                mid4.data_windows == was.data_windows,
                total == was.data_windows@.len(),
                *self == (App { data_windows: self.data_windows, ..mid4 }),
                self.data_windows@.len() == total,
                forall|k: int|
                    0 <= k < i ==> {
                        let before = was.data_windows@[k];
                        let now = #[trigger] self.data_windows@[k];
                        &&& now.signals@ == workspace::remapped_signals(
                            before.signals@,
                            ch,
                            before.signals@.len() as int,
                        )
                        &&& now == (DataWindow { signals: now.signals, ..before })
                    },
                forall|k: int|
                    i <= k < total ==> #[trigger] self.data_windows@[k] == was.data_windows@[k],
        {
            let w: &mut DataWindow = &mut self.data_windows[i];
            let mut signals: Vec<workspace::GfxSignal> = Vec::new();
            std::mem::swap(&mut signals, &mut w.signals);
            w.signals = remap_signals(signals, ch);
        }
    }

    /// A bus is removed: the last one is refused, a bus that is not there is left
    /// alone, and otherwise the bus and the windows move together.
    pub open spec fn is_bus_removed(self, after: App, ch: usize, actions: Seq<BusAction>) -> bool {
        if self.core.channels@.len() <= 1 {
            &&& after.status@ == "at least one bus is required"@
            &&& after == (App { status: after.status, ..self })
            &&& actions.len() == 0
        } else if ch >= self.core.channels@.len() {
            after == self && actions.len() == 0
        } else {
            exists|mid: App|
                {
                    &&& #[trigger] self.is_asked(mid, BusCommand::RemoveChannel { ch }, actions)
                    &&& mid.are_windows_remapped(after, ch)
                }
        }
    }

    /// Removes a bus and remaps every window's selection one step down.
    pub fn remove_channel(&mut self, ch: usize) -> (actions: Vec<BusAction>)
        requires
            old(self).wf(),
        ensures
            final(self).wf(),
            old(self).is_bus_removed(*final(self), ch, actions@),
    {
        if self.core.channels.len() <= 1 {
            self.status = "at least one bus is required".to_owned();
            return Vec::new();
        }
        if ch >= self.core.channels.len() {
            return Vec::new();
        }
        let actions: Vec<BusAction> = self.send(BusCommand::RemoveChannel { ch });
        let ghost mid = *self;
        self.remap_selections(ch);
        self.net_selected = 0;
        assert(mid.are_windows_remapped(*self, ch));
        actions
    }

    /// Sets the number that the next bus is named after.
    pub fn set_bus_counter(&mut self, n: usize) -> (actions: Vec<BusAction>)
        requires
            old(self).wf(),
        ensures
            final(self).wf(),
            old(self).is_asked(*final(self), BusCommand::SetBusCounter(n), actions@),
    {
        self.send(BusCommand::SetBusCounter(n))
    }

    /// Whether the bus transmits as a node.
    pub fn is_node_simulated(&self, ch: u8, node: &str) -> (r: bool)
        ensures
            r == (ch < self.core.channels@.len() && self.core.channels@[ch as int].simulates(
                node@,
            )),
    {
        if (ch as usize) < self.core.channels.len() {
            match self.core.channels[ch as usize].role_of(node) {
                NodeRole::Simulated => true,
                NodeRole::Absent => false,
            }
        } else {
            false
        }
    }

    /// A node is ticked or unticked as one this tool transmits as. A node without a
    /// name, which stands for every message without an owner, and a bus that is not
    /// there are left alone.
    pub open spec fn is_node_ticked(
        self,
        after: App,
        ch: u8,
        node: Seq<char>,
        on: bool,
        actions: Seq<BusAction>,
    ) -> bool {
        if node.len() == 0 || ch >= self.core.channels@.len() {
            after == self && actions.len() == 0
        } else {
            exists|name: String, role: NodeRole|
                {
                    &&& name@ == node
                    &&& role == (if on {
                        NodeRole::Simulated
                    } else {
                        NodeRole::Absent
                    })
                    &&& #[trigger] self.is_asked(
                        after,
                        BusCommand::SetNodeRole { ch, node: name, role },
                        actions,
                    )
                }
        }
    }

    pub fn set_node_sim(&mut self, ch: u8, node: &str, on: bool) -> (actions: Vec<BusAction>)
        requires
            old(self).wf(),
        ensures
            final(self).wf(),
            old(self).is_node_ticked(*final(self), ch, node@, on, actions@),
    {
        proof {
            reveal_strlit("");
        }
        assert(node@.len() == 0 ==> node@ =~= ""@);
        if text::same_text(node, "") || ch as usize >= self.core.channels.len() {
            return Vec::new();
        }
        let role: NodeRole = if on {
            NodeRole::Simulated
        } else {
            NodeRole::Absent
        };
        let name: String = node.to_owned();
        let ghost named = name;
        let actions: Vec<BusAction> = self.send(BusCommand::SetNodeRole { ch, node: name, role });
        assert(old(self).is_asked(
            *self,
            BusCommand::SetNodeRole { ch, node: named, role },
            actions@,
        ));
        actions
    }

}

/// The extensions of the log files.
pub open spec fn is_log_extension(extension: Seq<char>) -> bool {
    text::same_but_case(extension, "asc"@) || text::same_but_case(extension, "blf"@)
        || text::same_but_case(extension, "mf4"@)
}

proof fn lemma_views_contain(names: Seq<String>, name: Seq<char>)
    ensures
        text::views(names).contains(name) == text::lists(names, name),
{
    if text::views(names).contains(name) {
        let k = choose|k: int| 0 <= k < text::views(names).len() && text::views(names)[k] == name;
        assert(names[k]@ == name);
    }
    if text::lists(names, name) {
        let k = choose|k: int| 0 <= k < names.len() && (#[trigger] names[k])@ == name;
        assert(text::views(names)[k] == name);
    }
}

/// Attaching a database that is attached changes nothing, and never moves the primary
/// one.
pub proof fn law_attaching_keeps_the_primary(paths: Seq<Seq<char>>, path: Seq<char>)
    ensures
        with_path(with_path(paths, path), path) == with_path(paths, path),
        paths.len() > 0 ==> with_path(paths, path)[0] == paths[0],
        with_path(paths, path).contains(path),
{
    if !paths.contains(path) {
        assert(paths.push(path)[paths.len() as int] == path);
    }
}

/// A selection that a window holds on another bus than the removed one is held on the
/// bus's new index.
pub proof fn law_selections_follow_their_bus(pairs: Seq<(u8, u32)>, gone: usize, k: int, n: int)
    requires
        0 <= k < n <= pairs.len(),
        pairs[k].0 != gone,
    ensures
        ({
            let c = channel::remapped(pairs[k].0, gone);
            c is Some && workspace::remapped_pairs(pairs, gone, n).contains((c->0, pairs[k].1))
        }),
    decreases n,
{
    let c = channel::remapped(pairs[k].0, gone);
    let before = workspace::remapped_pairs(pairs, gone, n - 1);
    let after = workspace::remapped_pairs(pairs, gone, n);
    if k == n - 1 {
        assert(after.last() == (c->0, pairs[k].1));
    } else {
        law_selections_follow_their_bus(pairs, gone, k, n - 1);
        let j = choose|j: int| 0 <= j < before.len() && before[j] == (c->0, pairs[k].1);
        assert(after[j] == before[j]);
    }
}

} // verus!
