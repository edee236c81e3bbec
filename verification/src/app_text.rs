//! The texts of the windows: which rows each one shows, and how they read. Figures that
//! are no integers come in as texts.

use vstd::prelude::*;
use vstd::string::*;
use crate::aggregate::MessageAgg;
use crate::app::{App, MsgRowText, StatsRowText};
use crate::bus_ingest;
use crate::bus_ingest::decode_on;
use crate::can::frame::{CanFrame, Direction};
use crate::channel;
use crate::channel::{channel_dbc, channel_name, Channel};
use crate::dbc::DecodedSignal;
use crate::text;
use crate::workspace;
use crate::workspace::{scope_match, MsgWin, SigScope, StatsWin, TraceWin};

verus! {

/// The name that the bus's database gives a message, or a dash.
pub open spec fn shown_name(channels: Seq<Channel>, ch: u8, id: u32) -> Seq<char> {
    match channel::table_on(channels, ch) {
        Some(t) => if t.messages@.contains_key(id) {
            t.messages@[id].name@
        } else {
            "-"@
        },
        None => "-"@,
    }
}

pub fn name_of_message(channels: &Vec<Channel>, ch: u8, id: u32) -> (r: String)
    ensures
        r@ == shown_name(channels@, ch, id),
{
    match channel_dbc(channels, ch) {
        Some(t) => match t.message_name(id) {
            Some(n) => n.to_owned(),
            None => "-".to_owned(),
        },
        None => "-".to_owned(),
    }
}

/// A window's filter as it is searched for.
pub open spec fn searched(filter: Seq<char>) -> Seq<char> {
    text::lower_text(text::trimmed(filter))
}

/// The filter finds the message: by a part of its name in any case, or of its id in
/// hexadecimal. An empty filter finds everything.
pub open spec fn is_found(name: Seq<char>, id: u32, filter: Seq<char>) -> bool {
    let wanted = searched(filter);
    wanted.len() == 0 || text::holds_text(text::lower_text(name), wanted) || text::holds_text(
        text::lower_hex(id as nat),
        wanted,
    )
}

fn finds(name: &str, id: u32, filter: &str) -> (r: bool)
    ensures
        r == is_found(name@, id, filter@),
{
    let trimmed: String = text::trim(filter);
    let wanted: String = text::lowercase(trimmed.as_str());
    if wanted.as_str().unicode_len() == 0 {
        return true;
    }
    let low: String = text::lowercase(name);
    text::contains_text(low.as_str(), wanted.as_str()) || text::contains_text(
        text::lower_hex_text(id as u64).as_str(),
        wanted.as_str(),
    )
}

/// A messages window shows the message.
pub open spec fn shows_message(channels: Seq<Channel>, w: MsgWin, ch: u8, id: u32) -> bool {
    let name = shown_name(channels, ch, id);
    &&& workspace::in_scope(w.scope, w.manual@, ch, id)
    &&& !(w.dbc_only && name == "-"@)
    &&& is_found(name, id, w.filter@)
}

/// Whether a messages window shows a message.
pub fn msg_match(channels: &Vec<Channel>, w: &MsgWin, ch: u8, id: u32) -> (r: bool)
    ensures
        r == shows_message(channels@, *w, ch, id),
{
    if !scope_match(w.scope, &w.manual, ch, id) {
        return false;
    }
    let name: String = name_of_message(channels, ch, id);
    if w.dbc_only && text::same_text(name.as_str(), "-") {
        return false;
    }
    finds(name.as_str(), id, w.filter.as_str())
}

/// The direction filter of a trace window lets the frame through.
pub open spec fn dir_passes(dir: usize, d: Direction) -> bool {
    dir == 0 || (dir == 1 && d == Direction::Rx) || (dir == 2 && d == Direction::Tx)
}

/// A trace window shows the frame.
pub open spec fn shows_frame(channels: Seq<Channel>, w: TraceWin, f: CanFrame) -> bool {
    let name = shown_name(channels, f.channel, f.id);
    &&& workspace::in_scope(w.scope, w.manual@, f.channel, f.id)
    &&& dir_passes(w.dir, f.dir)
    &&& !(w.dbc_only && name == "-"@)
    &&& is_found(name, f.id, w.filter@)
}

/// Whether a trace window shows a frame.
pub fn trace_match(channels: &Vec<Channel>, w: &TraceWin, f: &CanFrame) -> (r: bool)
    ensures
        r == shows_frame(channels@, *w, *f),
{
    if !scope_match(w.scope, &w.manual, f.channel, f.id) {
        return false;
    }
    let passes: bool = w.dir == 0 || match f.dir {
        Direction::Rx => w.dir == 1,
        Direction::Tx => w.dir == 2,
    };
    if !passes {
        return false;
    }
    let name: String = name_of_message(channels, f.channel, f.id);
    if w.dbc_only && text::same_text(name.as_str(), "-") {
        return false;
    }
    finds(name.as_str(), f.id, w.filter.as_str())
}

/// The tallies of a statistics window among the first `n`, by bus and id.
pub open spec fn stats_rows(
    items: Seq<(u64, MessageAgg)>,
    scope: SigScope,
    manual: Seq<(u8, u32)>,
    n: int,
) -> Seq<MessageAgg>
    decreases n,
{
    if n <= 0 {
        Seq::empty()
    } else {
        let before = stats_rows(items, scope, manual, n - 1);
        let a = items[n - 1].1;
        if workspace::in_scope(scope, manual, a.channel, a.id) {
            before.push(a)
        } else {
            before
        }
    }
}

/// The tallies of a messages window among the first `n`, by bus and id.
pub open spec fn msg_rows(
    channels: Seq<Channel>,
    items: Seq<(u64, MessageAgg)>,
    w: MsgWin,
    n: int,
) -> Seq<MessageAgg>
    decreases n,
{
    if n <= 0 {
        Seq::empty()
    } else {
        let before = msg_rows(channels, items, w, n - 1);
        let a = items[n - 1].1;
        if shows_message(channels, w, a.channel, a.id) {
            before.push(a)
        } else {
            before
        }
    }
}

/// The messages of the rows.
pub open spec fn row_keys(rows: Seq<MessageAgg>) -> Seq<(u8, u32)> {
    Seq::new(rows.len(), |i: int| (rows[i].channel, rows[i].id))
}

fn keys_of(rows: &Vec<MessageAgg>) -> (r: Vec<(u8, u32)>)
    ensures
        r@ == row_keys(rows@),
{
    let mut r: Vec<(u8, u32)> = Vec::new();
    for i in 0..rows.len()
        invariant
            r@ == row_keys(rows@).subrange(0, i as int),
    {
        r.push((rows[i].channel, rows[i].id));
        assert(r@ =~= row_keys(rows@).subrange(0, i + 1));
    }
    assert(r@ =~= row_keys(rows@));
    r
}

fn same_keys(a: &Vec<(u8, u32)>, b: &Vec<(u8, u32)>) -> (r: bool)
    ensures
        r == (a@ == b@),
{
    if a.len() != b.len() {
        return false;
    }
    for i in 0..a.len()
        invariant
            a@.len() == b@.len(),
            forall|k: int| 0 <= k < i ==> a@[k] == b@[k],
    {
        let p: (u8, u32) = a[i];
        let q: (u8, u32) = b[i];
        if p.0 != q.0 || p.1 != q.1 {
            assert(a@[i as int] != b@[i as int]);
            return false;
        }
    }
    assert(a@ =~= b@);
    true
}

/// The frames of the first `n` rows together, at most the largest count.
pub open spec fn frames_of(rows: Seq<MessageAgg>, n: int) -> int
    decreases n,
{
    if n <= 0 {
        0
    } else {
        let sum = frames_of(rows, n - 1) + rows[n - 1].count;
        if sum > u64::MAX {
            u64::MAX as int
        } else {
            sum
        }
    }
}

fn count_frames(rows: &Vec<MessageAgg>) -> (r: u64)
    ensures
        r == frames_of(rows@, rows@.len() as int),
{
    let mut sum: u64 = 0;
    for i in 0..rows.len()
        invariant
            sum == frames_of(rows@, i as int),
    {
        let c: u64 = rows[i].count;
        sum = if sum > u64::MAX - c {
            u64::MAX
        } else {
            sum + c
        };
    }
    sum
}

/// An id as the rows print it.
pub open spec fn id_text(id: u32, extended: bool) -> Seq<char> {
    if extended {
        text::hex_padded(id as nat, 8) + "x"@
    } else {
        text::hex_padded(id as nat, 3)
    }
}

/// The label of a row: the id and the message's name.
pub open spec fn row_label(channels: Seq<Channel>, a: MessageAgg) -> Seq<char> {
    id_text(a.id, a.extended) + "  "@ + shown_name(channels, a.channel, a.id)
}

fn label_of(channels: &Vec<Channel>, a: &MessageAgg) -> (s: String)
    ensures
        s@ == row_label(channels@, *a),
{
    let mut s: String = String::new();
    proof {
        reveal_strlit("");
    }
    if a.extended {
        text::push_hex(&mut s, a.id as u64, 8);
        s.append("x");
    } else {
        text::push_hex(&mut s, a.id as u64, 3);
    }
    assert(s@ =~= id_text(a.id, a.extended));
    s.append("  ");
    let name: String = name_of_message(channels, a.channel, a.id);
    s.append(name.as_str());
    s
}

pub fn decimal_text(n: u64) -> (s: String)
    ensures
        s@ == text::decimal(n as int),
{
    let mut s: String = String::new();
    text::push_u64(&mut s, n);
    assert(s@ =~= text::decimal(n as int));
    s
}

/// The figures of one statistics row that are no integers, as texts.
pub struct StatsFigures {
    pub min: String,
    pub avg: String,
    pub max: String,
    pub share: String,
}

/// A statistics row reads so. Intervals need two frames.
pub open spec fn is_stats_row(
    channels: Seq<Channel>,
    a: MessageAgg,
    figures: StatsFigures,
    row: StatsRowText,
) -> bool {
    &&& row.label@ == row_label(channels, a)
    &&& row.bus@ == channel::bus_name(channels, a.channel)
    &&& row.count@ == text::decimal(a.count as int)
    &&& row.min@ == (if a.count >= 2 {
        figures.min@
    } else {
        "-"@
    })
    &&& row.avg@ == (if a.count >= 2 {
        figures.avg@
    } else {
        "-"@
    })
    &&& row.max@ == (if a.count >= 2 {
        figures.max@
    } else {
        "-"@
    })
    &&& row.len@ == text::decimal(a.len as int)
    &&& row.flags == a.flags
    &&& row.share@ == figures.share@
}

fn dash_or(shown: bool, t: &String) -> (s: String)
    ensures
        s@ == (if shown {
            t@
        } else {
            "-"@
        }),
{
    if shown {
        t.clone()
    } else {
        "-".to_owned()
    }
}

/// The figures of one messages row that are no integers: its period, and the value of
/// each of its signals.
pub struct MsgFigures {
    pub cycle: String,
    pub values: Vec<String>,
}

/// A payload as bytes in hexadecimal, each with a blank behind it.
pub open spec fn spaced_bytes(bytes: Seq<u8>, n: int) -> Seq<char>
    decreases n,
{
    if n <= 0 {
        Seq::empty()
    } else {
        spaced_bytes(bytes, n - 1) + text::hex_padded(bytes[n - 1] as nat, 2) + " "@
    }
}

fn bytes_text(bytes: &[u8]) -> (s: String)
    ensures
        s@ == spaced_bytes(bytes@, bytes@.len() as int),
{
    let mut s: String = String::new();
    proof {
        reveal_strlit("");
    }
    assert(s@ =~= Seq::empty());
    for i in 0..bytes.len()
        invariant
            s@ == spaced_bytes(bytes@, i as int),
    {
        text::push_hex(&mut s, bytes[i] as u64, 2);
        s.append(" ");
    }
    s
}

/// The names of the direction.
pub open spec fn dir_text(d: Direction) -> Seq<char> {
    match d {
        Direction::Rx => "Rx"@,
        Direction::Tx => "Tx"@,
    }
}

pub fn direction_text(d: Direction) -> (s: String)
    ensures
        s@ == dir_text(d),
{
    match d {
        Direction::Rx => "Rx".to_owned(),
        Direction::Tx => "Tx".to_owned(),
    }
}

/// A messages row reads so; the tree below it shows the signals of the last frame.
pub open spec fn is_msg_row(
    channels: Seq<Channel>,
    a: MessageAgg,
    figures: MsgFigures,
    row: MsgRowText,
) -> bool {
    let signals = bus_ingest::decoded_on(channels, a.frame_spec());
    &&& row.label@ == row_label(channels, a)
    &&& row.bus@ == channel::bus_name(channels, a.channel)
    &&& row.dir@ == dir_text(a.dir)
    &&& row.count@ == text::decimal(a.count as int)
    &&& row.cycle@ == (if a.count > 1 {
        figures.cycle@
    } else {
        "-"@
    })
    &&& row.flags == a.flags
    &&& row.data@ == spaced_bytes(a.payload_spec(), a.payload_spec().len() as int)
    &&& row.signals@.len() == signals.len()
    &&& forall|i: int|
        0 <= i < signals.len() ==> (#[trigger] row.signals@[i]).0@ == signals[i].name@
            && row.signals@[i].1@ == figures.values@[i]@
}

/// The figures of a messages row name a value for each signal.
pub open spec fn figures_fit(
    channels: Seq<Channel>,
    rows: Seq<MessageAgg>,
    figures: Seq<MsgFigures>,
) -> bool {
    &&& figures.len() == rows.len()
    &&& forall|i: int|
        0 <= i < rows.len() ==> (#[trigger] figures[i]).values@.len() == bus_ingest::decoded_on(
            channels,
            rows[i].frame_spec(),
        ).len()
}

fn msg_row(channels: &Vec<Channel>, a: &MessageAgg, figures: &MsgFigures) -> (row: MsgRowText)
    requires
        a.wf(),
        figures.values@.len() == bus_ingest::decoded_on(channels@, a.frame_spec()).len(),
    ensures
        is_msg_row(channels@, *a, *figures, row),
{
    let f: CanFrame = a.frame();
    let decoded: Vec<DecodedSignal> = decode_on(channels, &f);
    let mut signals: Vec<(String, String)> = Vec::new();
    for i in 0..decoded.len()
        invariant
            decoded@.len() == figures.values@.len(),
            signals@.len() == i,
            forall|k: int|
                0 <= k < i ==> (#[trigger] signals@[k]).0@ == decoded@[k].name@ && signals@[k].1@
                    == figures.values@[k]@,
    {
        signals.push((decoded[i].name.clone(), figures.values[i].clone()));
    }
    MsgRowText {
        label: label_of(channels, a),
        bus: channel_name(channels, a.channel),
        dir: direction_text(a.dir),
        count: decimal_text(a.count),
        cycle: dash_or(a.count > 1, &figures.cycle),
        flags: a.flags,
        data: bytes_text(a.payload()),
        signals,
    }
}

/// A number right-aligned in a width.
pub open spec fn right_aligned(n: int, width: int) -> Seq<char> {
    blanks(width - text::decimal(n).len()) + text::decimal(n)
}

/// `n` blanks.
pub open spec fn blanks(n: int) -> Seq<char> {
    Seq::new(if n < 0 { 0 } else { n as nat }, |i: int| ' ')
}

fn push_aligned(out: &mut String, n: u64, width: usize)
    ensures
        final(out)@ == old(out)@ + right_aligned(n as int, width as int),
{
    let digits: String = decimal_text(n);
    let k: usize = digits.as_str().unicode_len();
    let pad: usize = if k < width {
        width - k
    } else {
        0
    };
    for i in 0..pad
        invariant
            out@ =~= old(out)@ + blanks(i as int),
    {
        out.push(' ');
    }
    out.append(digits.as_str());
    assert(out@ =~= old(out)@ + right_aligned(n as int, width as int));
}

/// The frames that are revealed: all but the newest that lie beyond the watermark.
pub open spec fn revealed_len(frames: Seq<CanFrame>, shown: u64, n: int) -> int
    decreases n,
{
    if n <= 0 || frames[n - 1].t_us <= shown {
        n
    } else {
        revealed_len(frames, shown, n - 1)
    }
}

impl App {
    /// The rows of a statistics window.
    pub open spec fn stats_rows_spec(self, i: int) -> Seq<MessageAgg> {
        let w = self.stats_windows@[i];
        stats_rows(self.core.aggs.items@, w.scope, w.manual@, self.core.aggs.items@.len() as int)
    }

    /// The tallies that a statistics window shows, by bus and id.
    pub fn visible_stats(&self, i: usize) -> (r: Vec<MessageAgg>)
        requires
            i < self.stats_windows@.len(),
        ensures
            r@ == self.stats_rows_spec(i as int),
    {
        let w: &StatsWin = &self.stats_windows[i];
        let mut rows: Vec<MessageAgg> = Vec::new();
        for k in 0..self.core.aggs.items.len()
            invariant
                rows@ == stats_rows(self.core.aggs.items@, w.scope, w.manual@, k as int),
        {
            let a: MessageAgg = self.core.aggs.items[k].1;
            if scope_match(w.scope, &w.manual, a.channel, a.id) {
                rows.push(a);
            }
        }
        rows
    }

    /// The rows of a messages window.
    pub open spec fn msg_rows_spec(self, i: int) -> Seq<MessageAgg> {
        msg_rows(
            self.core.channels@,
            self.core.aggs.items@,
            self.msg_windows@[i],
            self.core.aggs.items@.len() as int,
        )
    }

    /// The tallies that a messages window shows, by bus and id.
    pub fn visible_messages(&self, i: usize) -> (r: Vec<MessageAgg>)
        requires
            self.core.wf(),
            i < self.msg_windows@.len(),
        ensures
            r@ == self.msg_rows_spec(i as int),
            forall|k: int| 0 <= k < r@.len() ==> (#[trigger] r@[k]).wf(),
    {
        let w: &MsgWin = &self.msg_windows[i];
        let mut rows: Vec<MessageAgg> = Vec::new();
        for k in 0..self.core.aggs.items.len()
            invariant
                self.core.wf(),
                rows@ == msg_rows(self.core.channels@, self.core.aggs.items@, *w, k as int),
                forall|j: int| 0 <= j < rows@.len() ==> (#[trigger] rows@[j]).wf(),
        {
            let a: MessageAgg = self.core.aggs.items[k].1;
            proof {
                crate::table::lemma_item(self.core.aggs.items@, k as int);
            }
            if msg_match(&self.core.channels, w, a.channel, a.id) {
                rows.push(a);
            }
        }
        rows
    }

    /// A statistics window's texts are refreshed: when the text gate is open, or at
    /// once when other messages are visible.
    pub open spec fn is_stats_synced(self, after: App, i: int, figures: Seq<StatsFigures>) -> bool {
        let rows = self.stats_rows_spec(i);
        let was = self.stats_windows@[i];
        let now = after.stats_windows@[i];
        if was.text_keys@ == row_keys(rows) && !self.text_fresh {
            after == self
        } else {
            &&& after.stats_windows@ == self.stats_windows@.update(i, now)
            &&& now.text_keys@ == row_keys(rows)
            &&& now.text_rows@.len() == rows.len()
            &&& forall|k: int|
                0 <= k < rows.len() ==> is_stats_row(
                    self.core.channels@,
                    rows[k],
                    figures[k],
                    #[trigger] now.text_rows@[k],
                )
            &&& now.text_header@ == text::decimal(rows.len() as int) + " messages, "@
                + text::decimal(frames_of(rows, rows.len() as int)) + " frames since start"@
            &&& now == (StatsWin {
                text_keys: now.text_keys,
                text_rows: now.text_rows,
                text_header: now.text_header,
                ..was
            })
            &&& after == (App { stats_windows: after.stats_windows, ..self })
        }
    }

    /// Refreshes a statistics window's texts. `figures` holds the figures of each
    /// visible tally.
    pub fn sync_stats_text(&mut self, i: usize, figures: &Vec<StatsFigures>)
        requires
            old(self).wf(),
            i < old(self).stats_windows@.len(),
            figures@.len() == old(self).stats_rows_spec(i as int).len(),
        ensures
            final(self).wf(),
            old(self).is_stats_synced(*final(self), i as int, figures@),
    {
        let rows: Vec<MessageAgg> = self.visible_stats(i);
        let keys: Vec<(u8, u32)> = keys_of(&rows);
        if same_keys(&self.stats_windows[i].text_keys, &keys) && !self.text_fresh {
            return;
        }
        let total: u64 = count_frames(&rows);
        let mut texts: Vec<StatsRowText> = Vec::new();
        for k in 0..rows.len()
            invariant
                figures@.len() == rows@.len(),
                texts@.len() == k,
                forall|j: int|
                    0 <= j < k ==> is_stats_row(
                        self.core.channels@,
                        rows@[j],
                        figures@[j],
                        #[trigger] texts@[j],
                    ),
        {
            let a: &MessageAgg = &rows[k];
            let two: bool = a.count >= 2;
            texts.push(
                StatsRowText {
                    label: label_of(&self.core.channels, a),
                    bus: channel_name(&self.core.channels, a.channel),
                    count: decimal_text(a.count),
                    min: dash_or(two, &figures[k].min),
                    avg: dash_or(two, &figures[k].avg),
                    max: dash_or(two, &figures[k].max),
                    len: decimal_text(a.len as u64),
                    flags: a.flags,
                    share: figures[k].share.clone(),
                },
            );
        }
        let mut header: String = decimal_text(rows.len() as u64);
        header.append(" messages, ");
        text::push_u64(&mut header, total);
        header.append(" frames since start");
        let ghost was = *self;
        let w: &mut StatsWin = &mut self.stats_windows[i];
        w.text_keys = keys;
        w.text_rows = texts;
        w.text_header = header;
        assert(self.stats_windows@ =~= was.stats_windows@.update(
            i as int,
            self.stats_windows@[i as int],
        ));
        assert forall|k: int| 0 <= k < self.stats_windows@.len() implies workspace::is_set(
            (#[trigger] self.stats_windows@[k]).manual@,
        ) by {
            assert(workspace::is_set(was.stats_windows@[k].manual@));
        }
    }

    /// A messages window's texts are refreshed, by the same gate.
    pub open spec fn is_msg_synced(self, after: App, i: int, figures: Seq<MsgFigures>) -> bool {
        let rows = self.msg_rows_spec(i);
        let was = self.msg_windows@[i];
        let now = after.msg_windows@[i];
        if was.text_keys@ == row_keys(rows) && !self.text_fresh {
            after == self
        } else {
            &&& after.msg_windows@ == self.msg_windows@.update(i, now)
            &&& now.text_keys@ == row_keys(rows)
            &&& now.text_rows@.len() == rows.len()
            &&& forall|k: int|
                0 <= k < rows.len() ==> is_msg_row(
                    self.core.channels@,
                    rows[k],
                    figures[k],
                    #[trigger] now.text_rows@[k],
                )
            &&& now.text_header@ == text::decimal(rows.len() as int) + " messages"@
            &&& now == (MsgWin {
                text_keys: now.text_keys,
                text_rows: now.text_rows,
                text_header: now.text_header,
                ..was
            })
            &&& after == (App { msg_windows: after.msg_windows, ..self })
        }
    }

    /// Refreshes a messages window's texts. `figures` holds the figures of each
    /// visible tally.
    pub fn sync_msg_text(&mut self, i: usize, figures: &Vec<MsgFigures>)
        requires
            old(self).wf(),
            i < old(self).msg_windows@.len(),
            figures_fit(
                old(self).core.channels@,
                old(self).msg_rows_spec(i as int),
                figures@,
            ),
        ensures
            final(self).wf(),
            old(self).is_msg_synced(*final(self), i as int, figures@),
    {
        let rows: Vec<MessageAgg> = self.visible_messages(i);
        let keys: Vec<(u8, u32)> = keys_of(&rows);
        if same_keys(&self.msg_windows[i].text_keys, &keys) && !self.text_fresh {
            return;
        }
        let mut texts: Vec<MsgRowText> = Vec::new();
        for k in 0..rows.len()
            invariant
                figures_fit(self.core.channels@, rows@, figures@),
                forall|j: int| 0 <= j < rows@.len() ==> (#[trigger] rows@[j]).wf(),
                texts@.len() == k,
                forall|j: int|
                    0 <= j < k ==> is_msg_row(
                        self.core.channels@,
                        rows@[j],
                        figures@[j],
                        #[trigger] texts@[j],
                    ),
        {
            assert(rows@[k as int].wf());
            assert(figures@[k as int].values@.len() == bus_ingest::decoded_on(
                self.core.channels@,
                rows@[k as int].frame_spec(),
            ).len());
            texts.push(msg_row(&self.core.channels, &rows[k], &figures[k]));
        }
        let mut header: String = decimal_text(rows.len() as u64);
        header.append(" messages");
        let ghost was = *self;
        let w: &mut MsgWin = &mut self.msg_windows[i];
        w.text_keys = keys;
        w.text_rows = texts;
        w.text_header = header;
        assert(self.msg_windows@ =~= was.msg_windows@.update(i as int, self.msg_windows@[i as int]));
        assert forall|k: int| 0 <= k < self.msg_windows@.len() implies workspace::is_set(
            (#[trigger] self.msg_windows@[k]).manual@,
        ) by {
            assert(workspace::is_set(was.msg_windows@[k].manual@));
        }
    }

    /// The stamp of the newest published frame; the largest where there is none.
    pub open spec fn newest_stamp(self) -> u64 {
        if self.core.published_trace@.len() == 0 {
            u64::MAX
        } else {
            self.core.published_trace@.last().t_us
        }
    }

    /// Moves a trace window's watermark up to the newest frame, when the text gate is
    /// open: rows on screen never change, only new ones wait.
    pub fn sync_trace_text(&mut self, i: usize)
        requires
            old(self).wf(),
            i < old(self).trace_windows@.len(),
        ensures
            final(self).wf(),
            old(self).text_fresh ==> final(self).trace_windows@ == old(
                self,
            ).trace_windows@.update(
                i as int,
                TraceWin {
                    shown_t_us: old(self).newest_stamp(),
                    shown_count: old(self).core.published_trace@.len() as usize,
                    ..old(self).trace_windows@[i as int]
                },
            ),
            !old(self).text_fresh ==> *final(self) == *old(self),
            *final(self) == (App { trace_windows: final(self).trace_windows, ..*old(self) }),
    {
        if !self.text_fresh {
            return;
        }
        let shown: usize = self.core.published_trace.len();
        let newest: u64 = if shown == 0 {
            u64::MAX
        } else {
            self.core.published_trace[shown - 1].t_us
        };
        let ghost was = *self;
        let w: &mut TraceWin = &mut self.trace_windows[i];
        w.shown_t_us = newest;
        w.shown_count = shown;
        assert(self.trace_windows@ =~= was.trace_windows@.update(
            i as int,
            self.trace_windows@[i as int],
        ));
        assert forall|k: int| 0 <= k < self.trace_windows@.len() implies workspace::is_set(
            (#[trigger] self.trace_windows@[k]).manual@,
        ) by {
            assert(workspace::is_set(was.trace_windows@[k].manual@));
        }
    }

    /// A trace window's revealed frames, newest first.
    pub fn trace_revealed(&self, w: &TraceWin) -> (r: Vec<CanFrame>)
        ensures
            ({
                let all = self.core.published_trace@;
                r@ == all.subrange(0, revealed_len(all, w.shown_t_us, all.len() as int)).reverse()
            }),
    {
        let ghost all = self.core.published_trace@;
        let mut n: usize = self.core.published_trace.len();
        while n > 0 && self.core.published_trace[n - 1].t_us > w.shown_t_us
            invariant
                all == self.core.published_trace@,
                n <= all.len(),
                revealed_len(all, w.shown_t_us, n as int) == revealed_len(
                    all,
                    w.shown_t_us,
                    all.len() as int,
                ),
            decreases n,
        {
            n = n - 1;
        }
        let ghost shown = all.subrange(0, n as int);
        let mut r: Vec<CanFrame> = Vec::new();
        for i in 0..n
            invariant
                all == self.core.published_trace@,
                n <= all.len(),
                shown == all.subrange(0, n as int),
                r@ == shown.reverse().subrange(0, i as int),
        {
            r.push(self.core.published_trace[n - 1 - i]);
            assert(r@ =~= shown.reverse().subrange(0, i + 1));
        }
        assert(r@ =~= shown.reverse());
        r
    }

    /// Refreshes the status bar's counters, when the text gate is open. `rate` is the
    /// frame rate in words.
    pub fn sync_status_text(&mut self, rate: &str)
        requires
            old(self).wf(),
        ensures
            final(self).wf(),
            old(self).text_fresh ==> final(self).status_counters@ == "| frames: "@
                + right_aligned(old(self).core.frame_counter as int, 8) + "  | "@ + rate@
                + " f/s  | trace: "@ + right_aligned(old(self).core.trace@.len() as int, 6)
                + "  | signals: "@ + right_aligned(old(self).core.obs.subs@.len() as int, 4),
            !old(self).text_fresh ==> *final(self) == *old(self),
            *final(self) == (App { status_counters: final(self).status_counters, ..*old(self) }),
    {
        if !self.text_fresh {
            return;
        }
        let mut s: String = "| frames: ".to_owned();
        push_aligned(&mut s, self.core.frame_counter, 8);
        s.append("  | ");
        s.append(rate);
        s.append(" f/s  | trace: ");
        push_aligned(&mut s, self.core.trace.len() as u64, 6);
        s.append("  | signals: ");
        push_aligned(&mut s, self.core.obs.subs.len() as u64, 4);
        self.status_counters = s;
    }
}

/// A frame is hidden only where every frame from it on lies beyond the watermark: what is
/// shown never lacks an older frame.
pub proof fn law_only_the_fresh_tail_waits(frames: Seq<CanFrame>, shown: u64, n: int)
    requires
        0 <= n <= frames.len(),
    ensures
        0 <= revealed_len(frames, shown, n) <= n,
        forall|k: int|
            revealed_len(frames, shown, n) <= k < n ==> (#[trigger] frames[k]).t_us > shown,
    decreases n,
{
    if n > 0 && frames[n - 1].t_us > shown {
        law_only_the_fresh_tail_waits(frames, shown, n - 1);
    }
}

/// An empty filter, open to both directions and all buses, hides no frame.
pub proof fn law_an_open_window_shows_everything(channels: Seq<Channel>, w: TraceWin, f: CanFrame)
    requires
        w.scope == SigScope::All,
        w.dir == 0,
        !w.dbc_only,
        searched(w.filter@).len() == 0,
    ensures
        shows_frame(channels, w, f),
{
}

} // verus!
