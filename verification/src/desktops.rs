//! Several desktops: each remembers which windows and panels are open, and the layout.

use vstd::prelude::*;
use vstd::string::*;
use crate::app;
use crate::app::App;
use crate::text;
use crate::workspace::{Desktop, Panels, WindowKind};

verus! {

/// Two workspaces show the same windows and panels, and everything else of them agrees
/// but the desktops and the layout that is to be loaded.
pub open spec fn shows_alike(a: App, b: App) -> bool {
    &&& a.trace_windows@ == b.trace_windows@
    &&& a.msg_windows@ == b.msg_windows@
    &&& a.stats_windows@ == b.stats_windows@
    &&& a.graphics@ == b.graphics@
    &&& a.data_windows@ == b.data_windows@
    &&& a.panels == b.panels
    &&& a == (App {
        trace_windows: a.trace_windows,
        msg_windows: a.msg_windows,
        stats_windows: a.stats_windows,
        graphics: a.graphics,
        data_windows: a.data_windows,
        desktops: a.desktops,
        active_desktop: a.active_desktop,
        pending_layout: a.pending_layout,
        ..b
    })
}

/// No two windows of a kind have the same name.
pub open spec fn names_differ(windows: Seq<(bool, String)>) -> bool {
    forall|i: int, j: int|
        0 <= i < j < windows.len() ==> (#[trigger] windows[i]).1@ != (#[trigger] windows[j]).1@
}

/// Every window is told by its kind and its name.
pub open spec fn windows_differ(a: App) -> bool {
    &&& names_differ(app::trace_names(a.trace_windows@))
    &&& names_differ(app::msg_names(a.msg_windows@))
    &&& names_differ(app::stats_names(a.stats_windows@))
    &&& names_differ(app::graphics_names(a.graphics@))
    &&& names_differ(app::data_names(a.data_windows@))
}

/// No panel is shown.
pub open spec fn no_panels() -> Panels {
    Panels {
        show_tx: false,
        show_network: false,
        show_measurement: false,
        show_buses: false,
        show_triggers: false,
        show_bus_stats: false,
        show_spec: false,
        show_id_filter: false,
    }
}

/// A desktop as it begins: it shows nothing.
pub open spec fn is_fresh(d: Desktop, number: int) -> bool {
    &&& d.name@ == "Desktop "@ + text::decimal(number)
    &&& d.layout@.len() == 0
    &&& d.open_windows@.len() == 0
    &&& d.panels == no_panels()
}

/// What one kind of windows adds to the open ones: those of its windows that are open.
proof fn lemma_open_of(kind: WindowKind, windows: Seq<(bool, String)>, n: int)
    requires
        0 <= n <= windows.len(),
    ensures
        forall|k: int|
            0 <= k < app::open_of(kind, windows, n).len() ==> (#[trigger] app::open_of(
                kind,
                windows,
                n,
            )[k]).0 == kind && exists|i: int|
                0 <= i < n && (#[trigger] windows[i]).0 && windows[i].1 == app::open_of(
                    kind,
                    windows,
                    n,
                )[k].1,
        forall|i: int|
            0 <= i < n && (#[trigger] windows[i]).0 ==> app::open_of(kind, windows, n).contains(
                (kind, windows[i].1),
            ),
    decreases n,
{
    if n > 0 {
        lemma_open_of(kind, windows, n - 1);
        let before = app::open_of(kind, windows, n - 1);
        let now = app::open_of(kind, windows, n);
        if windows[n - 1].0 {
            assert(now[before.len() as int] == (kind, windows[n - 1].1));
        }
        assert forall|k: int| 0 <= k < now.len() implies (#[trigger] now[k]).0 == kind
            && exists|i: int|
            0 <= i < n && (#[trigger] windows[i]).0 && windows[i].1 == now[k].1 by {
            if k < before.len() {
                assert(now[k] == before[k]);
                let i = choose|i: int|
                    0 <= i < n - 1 && (#[trigger] windows[i]).0 && windows[i].1 == before[k].1;
                assert(windows[i].0);
            } else {
                assert(windows[n - 1].0 && windows[n - 1].1 == now[k].1);
            }
        }
        assert forall|i: int| 0 <= i < n && (#[trigger] windows[i]).0 implies now.contains(
            (kind, windows[i].1),
        ) by {
            if i < n - 1 {
                let k = before.index_of((kind, windows[i].1));
                assert(before.contains((kind, windows[i].1)));
                assert(now[k] == before[k]);
            }
        }
    }
}

/// A desktop that holds a workspace's open windows opens exactly those of a kind.
proof fn lemma_opens(
    d: Desktop,
    kind: WindowKind,
    windows: Seq<(bool, String)>,
    first: Seq<(WindowKind, String)>,
    last: Seq<(WindowKind, String)>,
    i: int,
)
    requires
        d.open_windows@ == first + app::open_of(kind, windows, windows.len() as int) + last,
        forall|k: int| 0 <= k < first.len() ==> (#[trigger] first[k]).0 != kind,
        forall|k: int| 0 <= k < last.len() ==> (#[trigger] last[k]).0 != kind,
        names_differ(windows),
        0 <= i < windows.len(),
    ensures
        d.opens(kind, windows[i].1@) == windows[i].0,
{
    let own = app::open_of(kind, windows, windows.len() as int);
    lemma_open_of(kind, windows, windows.len() as int);
    let all = d.open_windows@;
    if windows[i].0 {
        assert(own.contains((kind, windows[i].1)));
        let k = own.index_of((kind, windows[i].1));
        assert(all[first.len() + k] == own[k]);
    }
    if d.opens(kind, windows[i].1@) {
        let k = choose|k: int|
            0 <= k < all.len() && (#[trigger] all[k]).0 == kind && all[k].1@ == windows[i].1@;
        if k < first.len() {
            assert(all[k] == first[k]);
        } else if k >= first.len() + own.len() {
            assert(all[k] == last[k - first.len() - own.len()]);
        } else {
            assert(all[k] == own[k - first.len()]);
            let j = choose|j: int|
                0 <= j < windows.len() && (#[trigger] windows[j]).0 && windows[j].1
                    == own[k - first.len()].1;
            assert(windows[j].1@ == windows[i].1@);
            assert(i == j);
        }
    }
}

/// The five kinds' open windows, one after the other.
proof fn lemma_open_windows(a: App, d: Desktop)
    requires
        d.open_windows@ == a.open_windows_spec(),
        windows_differ(a),
    ensures
        forall|i: int|
            0 <= i < a.trace_windows@.len() ==> d.opens(
                WindowKind::Trace,
                (#[trigger] a.trace_windows@[i]).name@,
            ) == a.trace_windows@[i].opened,
        forall|i: int|
            0 <= i < a.msg_windows@.len() ==> d.opens(
                WindowKind::Messages,
                (#[trigger] a.msg_windows@[i]).name@,
            ) == a.msg_windows@[i].opened,
        forall|i: int|
            0 <= i < a.stats_windows@.len() ==> d.opens(
                WindowKind::Statistics,
                (#[trigger] a.stats_windows@[i]).name@,
            ) == a.stats_windows@[i].opened,
        forall|i: int|
            0 <= i < a.graphics@.len() ==> d.opens(
                WindowKind::Graphics,
                (#[trigger] a.graphics@[i]).name@,
            ) == a.graphics@[i].opened,
        forall|i: int|
            0 <= i < a.data_windows@.len() ==> d.opens(
                WindowKind::Data,
                (#[trigger] a.data_windows@[i]).name@,
            ) == a.data_windows@[i].opened,
{
    let none = Seq::<(WindowKind, String)>::empty();
    let w1 = app::trace_names(a.trace_windows@);
    let w2 = app::msg_names(a.msg_windows@);
    let w3 = app::stats_names(a.stats_windows@);
    let w4 = app::graphics_names(a.graphics@);
    let w5 = app::data_names(a.data_windows@);
    let s1 = app::open_of(WindowKind::Trace, w1, w1.len() as int);
    let s2 = app::open_of(WindowKind::Messages, w2, w2.len() as int);
    let s3 = app::open_of(WindowKind::Statistics, w3, w3.len() as int);
    let s4 = app::open_of(WindowKind::Graphics, w4, w4.len() as int);
    let s5 = app::open_of(WindowKind::Data, w5, w5.len() as int);
    lemma_open_of(WindowKind::Trace, w1, w1.len() as int);
    lemma_open_of(WindowKind::Messages, w2, w2.len() as int);
    lemma_open_of(WindowKind::Statistics, w3, w3.len() as int);
    lemma_open_of(WindowKind::Graphics, w4, w4.len() as int);
    lemma_open_of(WindowKind::Data, w5, w5.len() as int);
    let all = d.open_windows@;
    assert(all =~= none + s1 + (s2 + s3 + s4 + s5));
    assert(all =~= s1 + s2 + (s3 + s4 + s5));
    assert(all =~= (s1 + s2) + s3 + (s4 + s5));
    assert(all =~= (s1 + s2 + s3) + s4 + s5);
    assert(all =~= (s1 + s2 + s3 + s4) + s5 + none);
    assert forall|i: int| 0 <= i < a.trace_windows@.len() implies d.opens(
        WindowKind::Trace,
        (#[trigger] a.trace_windows@[i]).name@,
    ) == a.trace_windows@[i].opened by {
        lemma_opens(d, WindowKind::Trace, w1, none, s2 + s3 + s4 + s5, i);
    }
    assert forall|i: int| 0 <= i < a.msg_windows@.len() implies d.opens(
        WindowKind::Messages,
        (#[trigger] a.msg_windows@[i]).name@,
    ) == a.msg_windows@[i].opened by {
        lemma_opens(d, WindowKind::Messages, w2, s1, s3 + s4 + s5, i);
    }
    assert forall|i: int| 0 <= i < a.stats_windows@.len() implies d.opens(
        WindowKind::Statistics,
        (#[trigger] a.stats_windows@[i]).name@,
    ) == a.stats_windows@[i].opened by {
        lemma_opens(d, WindowKind::Statistics, w3, s1 + s2, s4 + s5, i);
    }
    assert forall|i: int| 0 <= i < a.graphics@.len() implies d.opens(
        WindowKind::Graphics,
        (#[trigger] a.graphics@[i]).name@,
    ) == a.graphics@[i].opened by {
        lemma_opens(d, WindowKind::Graphics, w4, s1 + s2 + s3, s5, i);
    }
    assert forall|i: int| 0 <= i < a.data_windows@.len() implies d.opens(
        WindowKind::Data,
        (#[trigger] a.data_windows@[i]).name@,
    ) == a.data_windows@[i].opened by {
        lemma_opens(d, WindowKind::Data, w5, s1 + s2 + s3 + s4, none, i);
    }
}

impl App {
    /// The active desktop holds the arrangement as it stands, under its own name.
    pub open spec fn is_noted(self, after: App) -> bool {
        let k = self.active_desktop as int;
        &&& after.desktops@ == self.desktops@.update(k, after.desktops@[k])
        &&& after.desktops@[k].name == self.desktops@[k].name
        &&& after.desktops@[k].layout == self.layout_cache
        &&& after.desktops@[k].open_windows@ == self.open_windows_spec()
        &&& after.desktops@[k].panels == self.panels
        &&& after == (App { desktops: after.desktops, ..self })
    }

    fn note_desktop(&mut self)
        requires
            old(self).wf(),
        ensures
            final(self).wf(),
            old(self).is_noted(*final(self)),
    {
        let k: usize = self.active_desktop;
        let mut now: Desktop = self.desktop_snapshot();
        now.name = self.desktops[k].name.clone();
        self.desktops.set(k, now);
    }

    /// The workspace after a desktop was chosen: what was shown is noted in the desktop
    /// that is left, and the chosen one is shown.
    pub open spec fn is_desktop_shown(self, after: App, i: usize) -> bool {
        if i < self.desktops@.len() && i != self.active_desktop {
            exists|noted: App| #[trigger]
                self.is_noted(noted) && (App { active_desktop: i, ..noted }).is_arranged(
                    after,
                    noted.desktops@[i as int],
                )
        } else {
            after == self
        }
    }

    /// Shows another desktop. One that is not there, or the one that is shown, changes
    /// nothing.
    pub fn switch_desktop(&mut self, i: usize)
        requires
            old(self).wf(),
        ensures
            final(self).wf(),
            old(self).is_desktop_shown(*final(self), i),
    {
        if i >= self.desktops.len() || i == self.active_desktop {
            return;
        }
        self.note_desktop();
        let ghost noted = *self;
        self.active_desktop = i;
        let target: Desktop = self.desktops[i].copied();
        self.apply_desktop(&target);
        assert(old(self).is_noted(noted));
    }

    /// The workspace after a desktop was added: a fresh one at the end, which is shown.
    pub open spec fn is_desktop_added(self, after: App) -> bool {
        exists|noted: App, mid: App|
            {
                &&& #[trigger] self.is_noted(noted)
                &&& mid.desktops@ == noted.desktops@.push(mid.desktops@.last())
                &&& is_fresh(mid.desktops@.last(), self.desktops@.len() as int + 1)
                &&& mid == (App {
                    desktops: mid.desktops,
                    active_desktop: mid.active_desktop,
                    ..noted
                })
                &&& mid.active_desktop == self.desktops@.len()
                &&& #[trigger] mid.is_arranged(after, mid.desktops@.last())
            }
    }

    /// Adds a desktop that shows nothing yet, and shows it.
    pub fn add_desktop(&mut self)
        requires
            old(self).wf(),
            old(self).desktops@.len() < usize::MAX,
        ensures
            final(self).wf(),
            old(self).is_desktop_added(*final(self)),
    {
        self.note_desktop();
        let ghost noted = *self;
        let count: usize = self.desktops.len();
        let mut name: String = "Desktop ".to_owned();
        text::push_u64(&mut name, count as u64 + 1);
        proof {
            reveal_strlit("");
        }
        let fresh: Desktop = Desktop {
            name,
            layout: String::new(),
            open_windows: Vec::new(),
            panels: Panels {
                show_tx: false,
                show_network: false,
                show_measurement: false,
                show_buses: false,
                show_triggers: false,
                show_bus_stats: false,
                show_spec: false,
                show_id_filter: false,
            },
        };
        let target: Desktop = fresh.copied();
        self.desktops.push(fresh);
        self.active_desktop = count;
        let ghost mid = *self;
        self.apply_desktop(&target);
        assert(old(self).is_noted(noted));
        assert(mid.is_arranged(*self, mid.desktops@.last()));
    }

    /// The workspace after a desktop was renamed.
    pub open spec fn is_desktop_renamed(self, after: App, i: int, name: Seq<char>) -> bool {
        if 0 <= i < self.desktops@.len() {
            &&& after.desktops@ == self.desktops@.update(i, after.desktops@[i])
            &&& after.desktops@[i].name@ == name
            &&& after.desktops@[i] == (Desktop {
                name: after.desktops@[i].name,
                ..self.desktops@[i]
            })
            &&& after == (App { desktops: after.desktops, ..self })
        } else {
            after == self
        }
    }

    /// Renames a desktop; one that is not there changes nothing.
    pub fn rename_desktop(&mut self, i: usize, name: String)
        requires
            old(self).wf(),
        ensures
            final(self).wf(),
            old(self).is_desktop_renamed(*final(self), i as int, name@),
    {
        if i < self.desktops.len() {
            let d: &mut Desktop = &mut self.desktops[i];
            d.name = name;
        }
    }

    /// Which desktop is shown once desktop `i` is gone: the one that was shown, under its
    /// new number; in place of the shown one its successor, or the last one left.
    pub open spec fn active_without(self, i: int) -> int {
        if i < self.active_desktop || self.active_desktop == self.desktops@.len() - 1 {
            self.active_desktop - 1
        } else {
            self.active_desktop as int
        }
    }

    /// The list without desktop `i`; what is shown is not touched yet.
    pub open spec fn is_desktop_gone(self, after: App, i: int) -> bool {
        &&& after.desktops@ == self.desktops@.remove(i)
        &&& after.active_desktop == self.active_without(i)
        &&& after == (App {
            desktops: after.desktops,
            active_desktop: after.active_desktop,
            ..self
        })
    }

    /// The workspace after a desktop was deleted. The last one stays. Where the shown one
    /// goes, another is shown; any other leaves what is shown alone.
    pub open spec fn is_desktop_deleted(self, after: App, i: int) -> bool {
        if self.desktops@.len() > 1 && 0 <= i < self.desktops@.len() {
            exists|mid: App| #[trigger]
                self.is_desktop_gone(mid, i) && if i == self.active_desktop {
                    mid.is_arranged(after, mid.desktops@[mid.active_desktop as int])
                } else {
                    after == mid
                }
        } else {
            after == self
        }
    }

    /// Deletes a desktop; the last one cannot be deleted.
    pub fn delete_desktop(&mut self, i: usize)
        requires
            old(self).wf(),
        ensures
            final(self).wf(),
            old(self).is_desktop_deleted(*final(self), i as int),
    {
        let count: usize = self.desktops.len();
        if count <= 1 || i >= count {
            return;
        }
        let shown: usize = self.active_desktop;
        self.desktops.remove(i);
        if i < shown || shown == count - 1 {
            self.active_desktop = shown - 1;
        }
        let ghost mid = *self;
        assert(old(self).is_desktop_gone(mid, i as int));
        if i == shown {
            let target: Desktop = self.desktops[self.active_desktop].copied();
            self.apply_desktop(&target);
        }
    }
}

/// A desktop is found again as it was left: going to another one and back shows the same
/// windows and panels, and asks for the same layout.
pub proof fn law_a_desktop_is_found_as_it_was_left(a: App, there: App, back: App, i: usize)
    requires
        a.wf(),
        windows_differ(a),
        i < a.desktops@.len(),
        i != a.active_desktop,
        a.is_desktop_shown(there, i),
        there.is_desktop_shown(back, a.active_desktop),
    ensures
        shows_alike(back, a),
        back.active_desktop == a.active_desktop,
        back.pending_layout is Some && (back.pending_layout->0)@ == a.layout_cache@,
{
    let home = a.active_desktop as int;
    let noted = choose|noted: App| #[trigger]
        a.is_noted(noted) && (App { active_desktop: i, ..noted }).is_arranged(
            there,
            noted.desktops@[i as int],
        );
    let noted2 = choose|noted2: App| #[trigger]
        there.is_noted(noted2) && (App { active_desktop: a.active_desktop, ..noted2 }).is_arranged(
            back,
            noted2.desktops@[home],
        );
    let d = noted2.desktops@[home];
    assert(d == noted.desktops@[home]);
    lemma_open_windows(a, d);
    assert(back.trace_windows@ =~= a.trace_windows@);
    assert(back.msg_windows@ =~= a.msg_windows@);
    assert(back.stats_windows@ =~= a.stats_windows@);
    assert(back.graphics@ =~= a.graphics@);
    assert(back.data_windows@ =~= a.data_windows@);
}

} // verus!
