//! The windows of the workspace: what each one selects, and the desktops that
//! arrange them.

use vstd::prelude::*;
use vstd::string::*;
use crate::app::{MsgRowText, StatsRowText};
use crate::channel;
use crate::channel::remap;
use crate::observe::SigKey;
use crate::observers;
use crate::text;

verus! {

/// Which messages a window shows.
#[derive(Clone, Copy, Debug, PartialEq, Eq, Structural)]
pub enum SigScope {
    All,
    /// One bus.
    Bus(u8),
    /// The messages picked by hand.
    Manual,
}

/// How a plotted signal scales its value axis.
#[derive(Clone, Copy, Debug, PartialEq, Eq, Structural)]
pub enum YMode {
    Auto,
    FitAll,
    Dbc,
    Lock,
}

impl YMode {
    pub open spec fn code(self) -> u8 {
        match self {
            YMode::Auto => 0,
            YMode::FitAll => 1,
            YMode::Dbc => 2,
            YMode::Lock => 3,
        }
    }

    pub open spec fn of_code(code: u8) -> YMode {
        if code == 1 {
            YMode::FitAll
        } else if code == 2 {
            YMode::Dbc
        } else if code == 3 {
            YMode::Lock
        } else {
            YMode::Auto
        }
    }

    pub fn to_u8(self) -> (r: u8)
        ensures
            r == self.code(),
    {
        match self {
            YMode::Auto => 0,
            YMode::FitAll => 1,
            YMode::Dbc => 2,
            YMode::Lock => 3,
        }
    }

    /// The mode of a saved code; an unknown code is Auto.
    pub fn from_u8(code: u8) -> (r: YMode)
        ensures
            r == YMode::of_code(code),
    {
        match code {
            1 => YMode::FitAll,
            2 => YMode::Dbc,
            3 => YMode::Lock,
            _ => YMode::Auto,
        }
    }
}

/// The kinds of analysis windows.
#[derive(Clone, Copy, Debug, PartialEq, Eq, Structural)]
pub enum WindowKind {
    Trace,
    Messages,
    Statistics,
    Graphics,
    Data,
}

impl WindowKind {
    pub open spec fn code(self) -> u8 {
        match self {
            WindowKind::Trace => 0,
            WindowKind::Messages => 1,
            WindowKind::Statistics => 2,
            WindowKind::Graphics => 3,
            WindowKind::Data => 4,
        }
    }

    pub open spec fn of_code(code: u8) -> Option<WindowKind> {
        if code == 0 {
            Some(WindowKind::Trace)
        } else if code == 1 {
            Some(WindowKind::Messages)
        } else if code == 2 {
            Some(WindowKind::Statistics)
        } else if code == 3 {
            Some(WindowKind::Graphics)
        } else if code == 4 {
            Some(WindowKind::Data)
        } else {
            None
        }
    }

    pub fn to_u8(self) -> (r: u8)
        ensures
            r == self.code(),
    {
        match self {
            WindowKind::Trace => 0,
            WindowKind::Messages => 1,
            WindowKind::Statistics => 2,
            WindowKind::Graphics => 3,
            WindowKind::Data => 4,
        }
    }

    pub fn from_u8(code: u8) -> (r: Option<WindowKind>)
        ensures
            r == WindowKind::of_code(code),
    {
        match code {
            0 => Some(WindowKind::Trace),
            1 => Some(WindowKind::Messages),
            2 => Some(WindowKind::Statistics),
            3 => Some(WindowKind::Graphics),
            4 => Some(WindowKind::Data),
            _ => None,
        }
    }
}

/// A code that was saved comes back as what it was saved from.
pub proof fn law_window_codes_round_trip(y: YMode, k: WindowKind)
    ensures
        YMode::of_code(y.code()) == y,
        WindowKind::of_code(k.code()) == Some(k),
{
}

/// One signal of a plot or data window.
pub struct GfxSignal {
    pub ch: u8,
    pub id: u32,
    pub signal: String,
    pub visible: bool,
    pub y_mode: YMode,
}

impl GfxSignal {
    /// The subscription's key: ids past eleven bits are extended.
    pub open spec fn key_spec(self) -> observers::KeyState {
        observers::KeyState {
            ch: self.ch,
            id: self.id,
            ext: self.id > 0x7FF,
            signal: self.signal@,
        }
    }

    pub fn key(&self) -> (r: SigKey)
        ensures
            r@ == self.key_spec(),
    {
        SigKey { ch: self.ch, id: self.id, ext: self.id > 0x7FF, signal: self.signal.clone() }
    }

    pub fn copied(&self) -> (r: GfxSignal)
        ensures
            r == *self,
    {
        GfxSignal {
            ch: self.ch,
            id: self.id,
            signal: self.signal.clone(),
            visible: self.visible,
            y_mode: self.y_mode,
        }
    }
}

/// A trace window.
pub struct TraceWin {
    pub name: String,
    pub opened: bool,
    pub scope: SigScope,
    /// The messages picked by hand, each once.
    pub manual: Vec<(u8, u32)>,
    pub filter: String,
    /// 0 shows both directions, 1 received frames, 2 sent ones.
    pub dir: usize,
    pub dbc_only: bool,
    /// The newest stamp that is revealed, and how many frames there were then.
    pub shown_t_us: u64,
    pub shown_count: usize,
}

/// A messages window.
pub struct MsgWin {
    pub name: String,
    pub opened: bool,
    pub scope: SigScope,
    pub manual: Vec<(u8, u32)>,
    pub filter: String,
    pub dbc_only: bool,
    /// The rows' messages and texts as of the last refresh.
    pub text_keys: Vec<(u8, u32)>,
    pub text_rows: Vec<MsgRowText>,
    pub text_header: String,
}

/// A statistics window.
pub struct StatsWin {
    pub name: String,
    pub opened: bool,
    pub scope: SigScope,
    pub manual: Vec<(u8, u32)>,
    pub text_keys: Vec<(u8, u32)>,
    pub text_rows: Vec<StatsRowText>,
    pub text_header: String,
}

/// A plot window. Spans and offsets are the bit patterns of their doubles.
pub struct GraphicsWindow {
    pub name: String,
    pub signals: Vec<GfxSignal>,
    pub time_window_s: u64,
    pub stacked: bool,
    pub opened: bool,
    pub t_offset_s: u64,
    pub show_cursor: bool,
    pub zoom_enabled: bool,
    pub show_markers: bool,
}

/// A data window.
pub struct DataWindow {
    pub name: String,
    pub signals: Vec<GfxSignal>,
    pub opened: bool,
}

/// Which of the global panels are shown.
#[derive(Clone, Copy, Debug, PartialEq, Eq, Structural)]
pub struct Panels {
    pub show_tx: bool,
    pub show_network: bool,
    pub show_measurement: bool,
    pub show_buses: bool,
    pub show_triggers: bool,
    pub show_bus_stats: bool,
    pub show_spec: bool,
    pub show_id_filter: bool,
}

/// A named arrangement: which windows and panels are open, and the layout text.
pub struct Desktop {
    pub name: String,
    pub layout: String,
    pub open_windows: Vec<(WindowKind, String)>,
    pub panels: Panels,
}

impl Desktop {
    pub fn copied(&self) -> (r: Desktop)
        ensures
            r.open_windows@ == self.open_windows@,
            r == (Desktop { open_windows: r.open_windows, ..*self }),
    {
        let mut open: Vec<(WindowKind, String)> = Vec::new();
        for i in 0..self.open_windows.len()
            invariant
                open@ == self.open_windows@.subrange(0, i as int),
        {
            open.push((self.open_windows[i].0, self.open_windows[i].1.clone()));
            assert(open@ =~= self.open_windows@.subrange(0, i + 1));
        }
        assert(open@ =~= self.open_windows@);
        Desktop {
            name: self.name.clone(),
            layout: self.layout.clone(),
            open_windows: open,
            panels: self.panels,
        }
    }

    /// The desktop holds the window open.
    pub open spec fn opens(self, kind: WindowKind, name: Seq<char>) -> bool {
        exists|i: int|
            0 <= i < self.open_windows@.len() && (#[trigger] self.open_windows@[i]).0 == kind
                && self.open_windows@[i].1@ == name
    }

    pub fn is_open(&self, kind: WindowKind, name: &str) -> (r: bool)
        ensures
            r == self.opens(kind, name@),
    {
        for i in 0..self.open_windows.len()
            invariant
                forall|k: int|
                    0 <= k < i ==> !((#[trigger] self.open_windows@[k]).0 == kind
                        && self.open_windows@[k].1@ == name@),
        {
            if self.open_windows[i].0 == kind && text::same_text(
                self.open_windows[i].1.as_str(),
                name,
            ) {
                assert(self.open_windows@[i as int].0 == kind);
                return true;
            }
        }
        false
    }
}

/// Each of the first `n` pairs once, in the order of their first appearance.
pub open spec fn distinct(pairs: Seq<(u8, u32)>, n: int) -> Seq<(u8, u32)>
    decreases n,
{
    if n <= 0 {
        Seq::empty()
    } else {
        let before = distinct(pairs, n - 1);
        if before.contains(pairs[n - 1]) {
            before
        } else {
            before.push(pairs[n - 1])
        }
    }
}

/// No pair stands twice.
pub open spec fn is_set(pairs: Seq<(u8, u32)>) -> bool {
    forall|i: int, j: int| 0 <= i < j < pairs.len() ==> #[trigger] pairs[i] != #[trigger] pairs[j]
}

pub proof fn lemma_distinct(pairs: Seq<(u8, u32)>, n: int)
    requires
        0 <= n <= pairs.len(),
    ensures
        is_set(distinct(pairs, n)),
        forall|p: (u8, u32)|
            distinct(pairs, n).contains(p) <==> pairs.subrange(0, n).contains(p),
    decreases n,
{
    if n > 0 {
        lemma_distinct(pairs, n - 1);
        let before = distinct(pairs, n - 1);
        let last = pairs[n - 1];
        assert forall|p: (u8, u32)|
            distinct(pairs, n).contains(p) <==> pairs.subrange(0, n).contains(p) by {
            let a = pairs.subrange(0, n - 1);
            let b = pairs.subrange(0, n);
            if b.contains(p) {
                let k = choose|k: int| 0 <= k < b.len() && b[k] == p;
                if k < n - 1 {
                    assert(a[k] == p);
                    assert(before.contains(p));
                    let j = choose|j: int| 0 <= j < before.len() && before[j] == p;
                    assert(distinct(pairs, n)[j] == p);
                } else if before.contains(last) {
                    assert(distinct(pairs, n).contains(p));
                } else {
                    assert(distinct(pairs, n).last() == p);
                }
            }
            if distinct(pairs, n).contains(p) {
                if before.contains(p) {
                    assert(a.contains(p));
                    let k = choose|k: int| 0 <= k < a.len() && a[k] == p;
                    assert(b[k] == p);
                } else {
                    assert(p == last);
                    assert(b[n - 1] == p);
                }
            }
        }
    } else {
        assert(pairs.subrange(0, 0) =~= Seq::empty());
    }
}

/// A set's own pairs are each distinct already.
pub proof fn lemma_set_is_distinct(pairs: Seq<(u8, u32)>, n: int)
    requires
        is_set(pairs),
        0 <= n <= pairs.len(),
    ensures
        distinct(pairs, n) == pairs.subrange(0, n),
    decreases n,
{
    if n > 0 {
        lemma_set_is_distinct(pairs, n - 1);
        let before = pairs.subrange(0, n - 1);
        if before.contains(pairs[n - 1]) {
            let k = choose|k: int| 0 <= k < before.len() && before[k] == pairs[n - 1];
            assert(pairs[k] != pairs[n - 1]);
        }
        assert(pairs.subrange(0, n) =~= before.push(pairs[n - 1]));
    } else {
        assert(pairs.subrange(0, 0) =~= Seq::empty());
    }
}

/// Whether a pair is listed.
pub fn holds_pair(pairs: &Vec<(u8, u32)>, ch: u8, id: u32) -> (r: bool)
    ensures
        r == pairs@.contains((ch, id)),
{
    for i in 0..pairs.len()
        invariant
            forall|k: int| 0 <= k < i ==> pairs@[k] != (ch, id),
    {
        let q: (u8, u32) = pairs[i];
        if q.0 == ch && q.1 == id {
            assert(pairs@[i as int] == (ch, id));
            return true;
        }
    }
    false
}

/// The pairs, each once.
pub fn pair_set(pairs: &Vec<(u8, u32)>) -> (r: Vec<(u8, u32)>)
    ensures
        r@ == distinct(pairs@, pairs@.len() as int),
{
    let mut set: Vec<(u8, u32)> = Vec::new();
    for i in 0..pairs.len()
        invariant
            set@ == distinct(pairs@, i as int),
    {
        let q: (u8, u32) = pairs[i];
        if !holds_pair(&set, q.0, q.1) {
            set.push(q);
        }
    }
    set
}

/// A copy of a list of pairs.
pub fn copy_set(pairs: &Vec<(u8, u32)>) -> (r: Vec<(u8, u32)>)
    ensures
        r@ == pairs@,
{
    let mut r: Vec<(u8, u32)> = Vec::new();
    for i in 0..pairs.len()
        invariant
            r@ == pairs@.subrange(0, i as int),
    {
        r.push(pairs[i]);
        assert(r@ =~= pairs@.subrange(0, i + 1));
    }
    assert(r@ =~= pairs@);
    r
}

/// The window's scope takes in a message.
pub open spec fn in_scope(scope: SigScope, manual: Seq<(u8, u32)>, ch: u8, id: u32) -> bool {
    match scope {
        SigScope::All => true,
        SigScope::Bus(b) => ch == b,
        SigScope::Manual => manual.contains((ch, id)),
    }
}

pub fn scope_match(scope: SigScope, manual: &Vec<(u8, u32)>, ch: u8, id: u32) -> (r: bool)
    ensures
        r == in_scope(scope, manual@, ch, id),
{
    match scope {
        SigScope::All => true,
        SigScope::Bus(b) => ch == b,
        SigScope::Manual => holds_pair(manual, ch, id),
    }
}

/// The pairs of the buses that are left after one bus was removed, on their new
/// indices.
pub open spec fn remapped_pairs(pairs: Seq<(u8, u32)>, gone: usize, n: int) -> Seq<(u8, u32)>
    decreases n,
{
    if n <= 0 {
        Seq::empty()
    } else {
        let before = remapped_pairs(pairs, gone, n - 1);
        match channel::remapped(pairs[n - 1].0, gone) {
            Some(c) => before.push((c, pairs[n - 1].1)),
            None => before,
        }
    }
}

pub fn remap_pairs(pairs: &Vec<(u8, u32)>, gone: usize) -> (r: Vec<(u8, u32)>)
    ensures
        r@ == remapped_pairs(pairs@, gone, pairs@.len() as int),
{
    let mut r: Vec<(u8, u32)> = Vec::new();
    for i in 0..pairs.len()
        invariant
            r@ == remapped_pairs(pairs@, gone, i as int),
    {
        let q: (u8, u32) = pairs[i];
        match remap(q.0, gone) {
            Some(c) => {
                r.push((c, q.1));
            },
            None => {},
        }
    }
    r
}

/// The signals of the buses that are left, on their new indices.
pub open spec fn remapped_signals(signals: Seq<GfxSignal>, gone: usize, n: int) -> Seq<GfxSignal>
    decreases n,
{
    if n <= 0 {
        Seq::empty()
    } else {
        let before = remapped_signals(signals, gone, n - 1);
        match channel::remapped(signals[n - 1].ch, gone) {
            Some(c) => before.push(GfxSignal { ch: c, ..signals[n - 1] }),
            None => before,
        }
    }
}

pub fn remap_signals(signals: Vec<GfxSignal>, gone: usize) -> (r: Vec<GfxSignal>)
    ensures
        r@ == remapped_signals(signals@, gone, signals@.len() as int),
{
    let ghost all = signals@;
    let mut r: Vec<GfxSignal> = Vec::new();
    for s in it: signals
        invariant
            it.seq() == all,
            r@ == remapped_signals(all, gone, it.index() as int),
    {
        assert(s == all[it.index() as int]);
        match remap(s.ch, gone) {
            Some(c) => {
                r.push(
                    GfxSignal {
                        ch: c,
                        id: s.id,
                        signal: s.signal,
                        visible: s.visible,
                        y_mode: s.y_mode,
                    },
                );
            },
            None => {},
        }
    }
    r
}

/// A scope after a bus was removed: the removed bus's windows show everything, later
/// buses move one step down.
pub open spec fn fixed_scope(scope: SigScope, gone: usize) -> SigScope {
    match scope {
        SigScope::Bus(b) => if b == gone {
            SigScope::All
        } else if b > gone {
            SigScope::Bus((b - 1) as u8)
        } else {
            scope
        },
        _ => scope,
    }
}

pub fn fix_scope(scope: SigScope, gone: usize) -> (r: SigScope)
    ensures
        r == fixed_scope(scope, gone),
{
    match scope {
        SigScope::Bus(b) => if b as usize == gone {
            SigScope::All
        } else if b as usize > gone {
            SigScope::Bus(b - 1)
        } else {
            SigScope::Bus(b)
        },
        SigScope::All => SigScope::All,
        SigScope::Manual => SigScope::Manual,
    }
}

/// A window on a bus shows the same bus after another one was removed.
pub proof fn law_scopes_follow_their_bus(b: u8, gone: usize, manual: Seq<(u8, u32)>, ch: u8, id: u32)
    requires
        b != gone,
        ch != gone,
    ensures
        ({
            let now = channel::remapped(ch, gone);
            &&& now is Some
            &&& in_scope(fixed_scope(SigScope::Bus(b), gone), manual, now->0, id) == in_scope(
                SigScope::Bus(b),
                manual,
                ch,
                id,
            )
        }),
{
}

} // verus!
