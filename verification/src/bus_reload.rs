//! Loading the databases of several buses in one go: at start, and when a file
//! changed outside.

use vstd::prelude::*;
use vstd::string::*;
use crate::bus::BusCore;
use crate::bus_command;
use crate::bus_command::ask_refresh;
use crate::bus_run::BusAction;
use crate::bus_view;
use crate::bus_view::needs_reload;
use crate::dbc_merge::FileText;

verus! {

/// What was read of every path, bus by bus.
pub type BusFiles = Vec<Vec<Result<FileText, String>>>;

/// Every bus's paths have each been read.
pub open spec fn are_read(core: BusCore, files: Seq<Vec<Result<FileText, String>>>) -> bool {
    &&& files.len() == core.channels@.len()
    &&& forall|i: int|
        0 <= i < files.len() ==> (#[trigger] files[i])@.len()
            == core.channels@[i].dbc_paths@.len()
}

/// One load of a chain, told in a line of its own.
pub open spec fn loads(
    before: BusCore,
    after: BusCore,
    ch: usize,
    files: Seq<Vec<Result<FileText, String>>>,
    told: (Seq<char>, bool),
) -> bool {
    before.is_channel_loaded(after, ch, files[ch as int]@, Seq::empty(), told.0, told.1)
}

/// A chain of loads, one per bus of the list.
pub open spec fn are_loads(
    buses: Seq<usize>,
    files: Seq<Vec<Result<FileText, String>>>,
    steps: Seq<BusCore>,
    told: Seq<(Seq<char>, bool)>,
) -> bool {
    &&& steps.len() == buses.len() + 1
    &&& told.len() == buses.len()
    &&& forall|k: int|
        #![trigger buses[k]]
        0 <= k < buses.len() ==> loads(steps[k], steps[k + 1], buses[k], files, told[k])
}

/// What the last load that succeeded told.
pub open spec fn last_told(told: Seq<(Seq<char>, bool)>, n: int) -> Option<Seq<char>>
    decreases n,
{
    if n <= 0 {
        None
    } else if told[n - 1].1 {
        Some(told[n - 1].0)
    } else {
        last_told(told, n - 1)
    }
}

/// The core after the listed buses were loaded, and what is told of it.
pub open spec fn are_loaded(
    before: BusCore,
    after: BusCore,
    buses: Seq<usize>,
    files: Seq<Vec<Result<FileText, String>>>,
    line: Option<Seq<char>>,
) -> bool {
    exists|steps: Seq<BusCore>, told: Seq<(Seq<char>, bool)>|
        #[trigger] are_loads(buses, files, steps, told) && steps[0] == before && steps.last()
            == after && line == last_told(told, told.len() as int)
}

/// The first `n` buses.
pub open spec fn first_buses(n: int) -> Seq<usize> {
    Seq::new(n as nat, |i: int| i as usize)
}

/// The buses among the first `n` whose files changed outside.
pub open spec fn changed_buses(
    core: BusCore,
    files: Seq<Vec<Result<FileText, String>>>,
    n: int,
) -> Seq<usize>
    decreases n,
{
    if n <= 0 {
        Seq::empty()
    } else {
        let before = changed_buses(core, files, n - 1);
        if bus_view::is_changed(core.channels@[n - 1], files[n - 1]@) {
            before.push((n - 1) as usize)
        } else {
            before
        }
    }
}

/// What the loads of the first `n` listed buses leave to do: the scripts of every bus that
/// has its databases look their named signals up again.
pub open spec fn refreshes_of(core: BusCore, buses: Seq<usize>, n: int) -> Seq<BusAction>
    decreases n,
{
    if n <= 0 {
        Seq::empty()
    } else {
        refreshes_of(core, buses, n - 1) + bus_command::refreshes(core, buses[n - 1] as int)
    }
}

proof fn lemma_paths_kept(
    before: BusCore,
    after: BusCore,
    ch: usize,
    files: Seq<Vec<Result<FileText, String>>>,
    told: (Seq<char>, bool),
)
    requires
        loads(before, after, ch, files, told),
        are_read(before, files),
    ensures
        are_read(after, files),
        after.channels@.len() == before.channels@.len(),
{
    assert forall|i: int| 0 <= i < files.len() implies (#[trigger] files[i])@.len()
        == after.channels@[i].dbc_paths@.len() by {
        assert(files[i]@.len() == before.channels@[i].dbc_paths@.len());
    }
}

impl BusCore {
    /// Loads the listed buses in order and returns what the last load that succeeded
    /// told.
    fn load_buses(&mut self, buses: &Vec<usize>, files: &BusFiles) -> (line: Option<String>)
        requires
            old(self).wf(),
            are_read(*old(self), files@),
            forall|k: int| 0 <= k < buses@.len() ==> #[trigger] buses@[k] < files@.len(),
        ensures
            final(self).wf(),
            are_loaded(
                *old(self),
                *final(self),
                buses@,
                files@,
                match line {
                    Some(s) => Some(s@),
                    None => None,
                },
            ),
    {
        let mut line: Option<String> = None;
        let ghost mut steps: Seq<BusCore> = seq![*self];
        let ghost mut told: Seq<(Seq<char>, bool)> = Seq::empty();
        proof {
            reveal_strlit("");
        }
        for k in 0..buses.len()
            invariant
                self.wf(),
                are_read(*self, files@),
                forall|k: int| 0 <= k < buses@.len() ==> #[trigger] buses@[k] < files@.len(),
                steps.len() == k + 1,
                told.len() == k,
                steps[0] == *old(self),
                steps[k as int] == *self,
                line is Some == last_told(told, k as int) is Some,
                line is Some ==> (line->0)@ == last_told(told, k as int)->0,
                forall|j: int|
                    #![trigger buses@[j]]
                    0 <= j < k ==> loads(steps[j], steps[j + 1], buses@[j], files@, told[j]),
        {
            let ch: usize = buses[k];
            let ghost held = steps;
            let ghost was = told;
            let mut status: String = String::new();
            assert(status@ =~= Seq::empty());
            assert(files@[ch as int]@.len() == self.channels@[ch as int].dbc_paths@.len());
            let ok: bool = self.load_channel(ch, &files[ch], &mut status);
            proof {
                steps = steps.push(*self);
                told = told.push((status@, ok));
                assert(loads(held[k as int], *self, ch, files@, (status@, ok)));
                lemma_paths_kept(held[k as int], *self, ch, files@, (status@, ok));
                lemma_last_told(was, told, k as int);
                assert forall|j: int|
                    #![trigger buses@[j]]
                    0 <= j < k + 1 implies loads(
                    steps[j],
                    steps[j + 1],
                    buses@[j],
                    files@,
                    told[j],
                ) by {
                    if j < k {
                        assert(steps[j] == held[j] && steps[j + 1] == held[j + 1]);
                        assert(told[j] == was[j]);
                    }
                }
            }
            if ok {
                line = Some(status);
            }
        }
        assert(are_loads(buses@, files@, steps, told));
        line
    }

    /// Loads every bus's declared databases: work before the first publish, with no
    /// one yet to tell.
    pub fn bootstrap_dbcs(&mut self, files: &BusFiles)
        requires
            old(self).wf(),
            are_read(*old(self), files@),
        ensures
            final(self).wf(),
            exists|line: Option<Seq<char>>|
                #[trigger] are_loaded(
                    *old(self),
                    *final(self),
                    first_buses(old(self).channels@.len() as int),
                    files@,
                    line,
                ),
    {
        let mut buses: Vec<usize> = Vec::new();
        for i in 0..self.channels.len()
            invariant
                buses@ == first_buses(i as int),
        {
            buses.push(i);
            assert(buses@ =~= first_buses(i + 1));
        }
        self.load_buses(&buses, files);
    }

    /// Loads the buses whose files changed outside, once each. Returns what the last load
    /// that succeeded told, and what is left to do. `files` is what was read of every path.
    pub fn maybe_reload_changed_dbcs(&mut self, files: &BusFiles) -> (r: (
        Option<String>,
        Vec<BusAction>,
    ))
        requires
            old(self).wf(),
            are_read(*old(self), files@),
        ensures
            final(self).wf(),
            are_loaded(
                *old(self),
                *final(self),
                changed_buses(*old(self), files@, old(self).channels@.len() as int),
                files@,
                match r.0 {
                    Some(s) => Some(s@),
                    None => None,
                },
            ),
            ({
                let buses = changed_buses(*old(self), files@, old(self).channels@.len() as int);
                r.1@ == refreshes_of(*final(self), buses, buses.len() as int)
            }),
    {
        let mut buses: Vec<usize> = Vec::new();
        for i in 0..self.channels.len()
            invariant
                *self == *old(self),
                are_read(*self, files@),
                buses@ == changed_buses(*self, files@, i as int),
                forall|k: int| 0 <= k < buses@.len() ==> #[trigger] buses@[k] < i,
        {
            assert(files@[i as int]@.len() == self.channels@[i as int].dbc_paths@.len());
            if needs_reload(&self.channels[i], &files[i]) {
                buses.push(i);
            }
        }
        let line: Option<String> = self.load_buses(&buses, files);
        let mut actions: Vec<BusAction> = Vec::new();
        for k in 0..buses.len()
            invariant
                actions@ == refreshes_of(*self, buses@, k as int),
        {
            let mut more: Vec<BusAction> = ask_refresh(self, buses[k]);
            actions.append(&mut more);
        }
        (line, actions)
    }
}

proof fn lemma_last_told(was: Seq<(Seq<char>, bool)>, now: Seq<(Seq<char>, bool)>, n: int)
    requires
        n <= was.len(),
        n <= now.len(),
        forall|j: int| 0 <= j < n ==> was[j] == now[j],
    ensures
        last_told(was, n) == last_told(now, n),
    decreases n,
{
    if n > 0 {
        lemma_last_told(was, now, n - 1);
    }
}

/// Where no file changed outside, nothing is loaded and nothing is told.
pub proof fn law_unchanged_files_reload_nothing(
    core: BusCore,
    after: BusCore,
    files: Seq<Vec<Result<FileText, String>>>,
    line: Option<Seq<char>>,
)
    requires
        are_read(core, files),
        forall|i: int|
            0 <= i < core.channels@.len() ==> !bus_view::is_changed(
                #[trigger] core.channels@[i],
                files[i]@,
            ),
        are_loaded(
            core,
            after,
            changed_buses(core, files, core.channels@.len() as int),
            files,
            line,
        ),
    ensures
        after == core,
        line is None,
        refreshes_of(
            after,
            changed_buses(core, files, core.channels@.len() as int),
            changed_buses(core, files, core.channels@.len() as int).len() as int,
        ).len() == 0,
{
    lemma_none_changed(core, files, core.channels@.len() as int);
}

proof fn lemma_none_changed(core: BusCore, files: Seq<Vec<Result<FileText, String>>>, n: int)
    requires
        0 <= n <= core.channels@.len(),
        forall|i: int|
            0 <= i < core.channels@.len() ==> !bus_view::is_changed(
                #[trigger] core.channels@[i],
                files[i]@,
            ),
    ensures
        changed_buses(core, files, n).len() == 0,
    decreases n,
{
    if n > 0 {
        lemma_none_changed(core, files, n - 1);
        assert(!bus_view::is_changed(core.channels@[n - 1], files[n - 1]@));
    }
}

} // verus!
