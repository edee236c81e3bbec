//! The specification monitor: observed traffic against what the database
//! declares. Four verdicts, each latched for the run.

use vstd::prelude::*;
use crate::aggregate::MessageAgg;
use crate::can::frame::Direction;
use crate::channel;
use crate::channel::Channel;
use crate::dbc::SymbolTable;
use crate::table;
use crate::table::Table;
use crate::trace;

verus! {

/// How far an observed period may stray from the declared one, in percent.
pub const TOLERANCE_PERCENT: u64 = 10;

/// How many declared periods of silence count as a dropped message.
pub const GRACE_CYCLES: u64 = 3;

/// What a row of the report convicts.
#[derive(Clone, Copy, Debug, PartialEq, Eq, Structural)]
pub enum Kind {
    /// The database lacks the identifier.
    Unknown,
    /// The length is not the declared one.
    Dlc,
    /// The last interval strays from the declared period.
    Cycle,
    /// The message fell silent.
    Missing,
}

impl Kind {
    pub open spec fn code(self) -> u64 {
        match self {
            Kind::Unknown => 0,
            Kind::Dlc => 1,
            Kind::Cycle => 2,
            Kind::Missing => 3,
        }
    }

    pub fn number(self) -> (r: u64)
        ensures
            r == self.code(),
            r < 4,
    {
        match self {
            Kind::Unknown => 0,
            Kind::Dlc => 1,
            Kind::Cycle => 2,
            Kind::Missing => 3,
        }
    }

    pub open spec fn of_code(n: u64) -> Kind {
        if n == 0 {
            Kind::Unknown
        } else if n == 1 {
            Kind::Dlc
        } else if n == 2 {
            Kind::Cycle
        } else {
            Kind::Missing
        }
    }

    pub fn from_number(n: u64) -> (r: Kind)
        ensures
            r == Kind::of_code(n),
    {
        if n == 0 {
            Kind::Unknown
        } else if n == 1 {
            Kind::Dlc
        } else if n == 2 {
            Kind::Cycle
        } else {
            Kind::Missing
        }
    }
}

/// A length other than the declared one.
pub open spec fn is_dlc_offender(len: u8, declared: u64) -> bool {
    len != declared
}

pub fn dlc_offender(len: u8, declared: u64) -> (r: bool)
    ensures
        r == is_dlc_offender(len, declared),
{
    len as u64 != declared
}

/// An interval that strays from a declared period by more than the tolerance. A
/// declared 0 is event-triggered: no interval offends.
pub open spec fn is_cycle_offender(interval: u64, declared: u64, tol_pct: u64) -> bool {
    declared != 0 && {
        let off = if interval >= declared {
            interval - declared
        } else {
            declared - interval
        };
        off * 100 > declared * tol_pct
    }
}

pub fn cycle_offender(interval: u64, declared: u64, tol_pct: u64) -> (r: bool)
    ensures
        r == is_cycle_offender(interval, declared, tol_pct),
{
    if declared == 0 {
        return false;
    }
    let off: u64 = if interval >= declared {
        interval - declared
    } else {
        declared - interval
    };
    assert(declared as u128 * tol_pct as u128 <= u128::MAX) by (nonlinear_arith)
        requires
            declared <= u64::MAX,
            tol_pct <= u64::MAX,
    ;
    off as u128 * 100 > declared as u128 * tol_pct as u128
}

/// A silence of more than the grace's declared periods. A declared 0 is
/// event-triggered: no silence offends.
pub open spec fn is_missing_offender(now: u64, last: u64, declared: u64, grace: u64) -> bool {
    declared != 0 && now > last && now - last > declared * grace
}

pub fn missing_offender(now: u64, last: u64, declared: u64, grace: u64) -> (r: bool)
    ensures
        r == is_missing_offender(now, last, declared, grace),
{
    if declared == 0 || now <= last {
        return false;
    }
    assert(declared as u128 * grace as u128 <= u128::MAX) by (nonlinear_arith)
        requires
            declared <= u64::MAX,
            grace <= u64::MAX,
    ;
    (now - last) as u128 > declared as u128 * grace as u128
}

/// One latched row, with how often it occurred, when first and last, and the declared
/// and the measured quantity.
#[derive(Clone, Copy, Debug, PartialEq, Eq, Structural)]
pub struct Latch {
    pub count: u64,
    pub first_t_us: u64,
    pub last_t_us: u64,
    pub declared: u64,
    pub measured: u64,
}

/// The report: latched rows by message and verdict, and the stamp of each
/// message's frame at the previous step.
pub struct Monitor {
    pub rows: Table<Latch>,
    pub seen: Table<u64>,
}

/// The key of a row.
pub open spec fn row_key(ch: u8, id: u32, ext: bool, kind: Kind) -> u64 {
    (table::message_key(ch, id, ext) + kind.code()) as u64
}

/// The rows after one more verdict.
pub open spec fn recorded(
    rows: Map<u64, Latch>,
    k: u64,
    now: u64,
    declared: u64,
    measured: u64,
) -> Map<u64, Latch> {
    rows.insert(
        k,
        if rows.dom().contains(k) {
            Latch {
                count: trace::counted(rows[k].count, 1) as u64,
                first_t_us: rows[k].first_t_us,
                last_t_us: now,
                declared,
                measured,
            }
        } else {
            Latch { count: 1, first_t_us: now, last_t_us: now, declared, measured }
        },
    )
}

/// The time from the stamp of the previous step to the message's last frame; none
/// before there is a previous step, or where the step brought no new frame.
pub open spec fn step_interval(seen: Map<u64, u64>, k: u64, last: u64) -> Option<u64> {
    if seen.dom().contains(k) && last > seen[k] {
        Some((last - seen[k]) as u64)
    } else {
        None
    }
}

/// The rows after one message is judged.
pub open spec fn judged(
    rows: Map<u64, Latch>,
    seen: Map<u64, u64>,
    channels: Seq<Channel>,
    a: MessageAgg,
    now: u64,
    live: bool,
    tol_pct: u64,
    grace: u64,
) -> Map<u64, Latch> {
    match channel::table_on(channels, a.channel) {
        // No database on the bus means no opinion, not a clean bill.
        None => rows,
        Some(db) => if !db.messages@.dom().contains(a.id) {
            recorded(rows, row_key(a.channel, a.id, a.extended, Kind::Unknown), now, 0, 0)
        } else {
            let m = db.messages@[a.id];
            let r1 = if a.dir == Direction::Rx && is_dlc_offender(a.len, m.dlc) {
                recorded(
                    rows,
                    row_key(a.channel, a.id, a.extended, Kind::Dlc),
                    now,
                    m.dlc,
                    a.len as u64,
                )
            } else {
                rows
            };
            let dt = step_interval(
                seen,
                table::message_key(a.channel, a.id, a.extended),
                a.last_t_us,
            );
            let r2 = if a.dir == Direction::Rx && m.cycle_us is Some && dt is Some
                && is_cycle_offender(dt->0, m.cycle_us->0, tol_pct) {
                recorded(
                    r1,
                    row_key(a.channel, a.id, a.extended, Kind::Cycle),
                    now,
                    m.cycle_us->0,
                    dt->0,
                )
            } else {
                r1
            };
            if live && m.cycle_us is Some && is_missing_offender(
                now,
                a.last_t_us,
                m.cycle_us->0,
                grace,
            ) {
                recorded(
                    r2,
                    row_key(a.channel, a.id, a.extended, Kind::Missing),
                    now,
                    m.cycle_us->0,
                    (now - a.last_t_us) as u64,
                )
            } else {
                r2
            }
        },
    }
}

/// The rows after the first `n` messages are judged.
pub open spec fn swept(
    rows: Map<u64, Latch>,
    seen: Map<u64, u64>,
    channels: Seq<Channel>,
    aggs: Seq<(u64, MessageAgg)>,
    now: u64,
    live: bool,
    tol_pct: u64,
    grace: u64,
    n: int,
) -> Map<u64, Latch>
    decreases n,
{
    if n <= 0 {
        rows
    } else {
        judged(
            swept(rows, seen, channels, aggs, now, live, tol_pct, grace, n - 1),
            seen,
            channels,
            aggs[n - 1].1,
            now,
            live,
            tol_pct,
            grace,
        )
    }
}

/// The stamps after the first `n` messages are noted.
pub open spec fn noted(seen: Map<u64, u64>, aggs: Seq<(u64, MessageAgg)>, n: int) -> Map<u64, u64>
    decreases n,
{
    if n <= 0 {
        seen
    } else {
        noted(seen, aggs, n - 1).insert(
            table::message_key(
                aggs[n - 1].1.channel,
                aggs[n - 1].1.id,
                aggs[n - 1].1.extended,
            ),
            aggs[n - 1].1.last_t_us,
        )
    }
}

impl Monitor {
    pub open spec fn wf(self) -> bool {
        self.rows.wf() && self.seen.wf()
    }

    pub fn new() -> (m: Monitor)
        ensures
            m.wf(),
            m.rows@ == Map::<u64, Latch>::empty(),
            m.seen@ == Map::<u64, u64>::empty(),
    {
        Monitor { rows: Table::new(), seen: Table::new() }
    }

    /// Latches one verdict.
    pub fn record(
        &mut self,
        ch: u8,
        id: u32,
        ext: bool,
        kind: Kind,
        now: u64,
        declared: u64,
        measured: u64,
    )
        requires
            old(self).wf(),
        ensures
            final(self).wf(),
            final(self).rows@ == recorded(
                old(self).rows@,
                row_key(ch, id, ext, kind),
                now,
                declared,
                measured,
            ),
            final(self).seen == old(self).seen,
    {
        let k: u64 = table::key_of_message(ch, id, ext) + kind.number();
        let latch: Latch = match self.rows.get(k) {
            Some(l) => Latch {
                count: trace::count_one(l.count),
                first_t_us: l.first_t_us,
                last_t_us: now,
                declared,
                measured,
            },
            None => Latch { count: 1, first_t_us: now, last_t_us: now, declared, measured },
        };
        self.rows.put(k, latch);
    }

    /// The stamp of a message's last frame at the previous step.
    pub fn previous(&self, ch: u8, id: u32, ext: bool) -> (r: Option<u64>)
        requires
            self.wf(),
        ensures
            r == (if self.seen@.dom().contains(table::message_key(ch, id, ext)) {
                Some(self.seen@[table::message_key(ch, id, ext)])
            } else {
                None
            }),
    {
        match self.seen.get(table::key_of_message(ch, id, ext)) {
            Some(t) => Some(*t),
            None => None,
        }
    }

    /// The latched verdict of a kind on a message.
    pub fn verdict(&self, ch: u8, id: u32, ext: bool, kind: Kind) -> (r: Option<Latch>)
        requires
            self.wf(),
        ensures
            r == (if self.rows@.dom().contains(row_key(ch, id, ext, kind)) {
                Some(self.rows@[row_key(ch, id, ext, kind)])
            } else {
                None
            }),
    {
        match self.rows.get(table::key_of_message(ch, id, ext) + kind.number()) {
            Some(l) => Some(*l),
            None => None,
        }
    }

    fn judge(
        &mut self,
        channels: &Vec<Channel>,
        a: &MessageAgg,
        now: u64,
        live: bool,
        tol_pct: u64,
        grace: u64,
    )
        requires
            old(self).wf(),
        ensures
            final(self).wf(),
            final(self).rows@ == judged(
                old(self).rows@,
                old(self).seen@,
                channels@,
                *a,
                now,
                live,
                tol_pct,
                grace,
            ),
            final(self).seen == old(self).seen,
    {
        broadcast use vstd::std_specs::hash::group_hash_axioms;

        let db: &SymbolTable = match channel::channel_dbc(channels, a.channel) {
            Some(t) => t,
            None => {
                return ;
            },
        };
        let (dlc, declared): (u64, Option<u64>) = match db.messages.get(&a.id) {
            Some(m) => (m.dlc, m.cycle_us),
            None => {
                self.record(a.channel, a.id, a.extended, Kind::Unknown, now, 0, 0);
                return ;
            },
        };
        match a.dir {
            Direction::Rx => {
                if dlc_offender(a.len, dlc) {
                    self.record(a.channel, a.id, a.extended, Kind::Dlc, now, dlc, a.len as u64);
                }
                match (declared, self.previous(a.channel, a.id, a.extended)) {
                    (Some(d), Some(from)) => {
                        if a.last_t_us > from && cycle_offender(a.last_t_us - from, d, tol_pct) {
                            self.record(
                                a.channel,
                                a.id,
                                a.extended,
                                Kind::Cycle,
                                now,
                                d,
                                a.last_t_us - from,
                            );
                        }
                    },
                    _ => {},
                }
            },
            Direction::Tx => {},
        }
        match declared {
            Some(d) => {
                if live && missing_offender(now, a.last_t_us, d, grace) {
                    self.record(
                        a.channel,
                        a.id,
                        a.extended,
                        Kind::Missing,
                        now,
                        d,
                        now - a.last_t_us,
                    );
                }
            },
            None => {},
        }
    }

    /// Compares what arrived against what the databases promise, one verdict for
    /// each message, and then remembers each message's stamp for the next sweep.
    /// Our own frames are exempt from the length and period verdicts; only a live
    /// clock may call a message gone.
    pub fn check(
        &mut self,
        channels: &Vec<Channel>,
        aggs: &Table<MessageAgg>,
        now: u64,
        live: bool,
        tol_pct: u64,
        grace: u64,
    )
        requires
            old(self).wf(),
        ensures
            final(self).wf(),
            final(self).rows@ == swept(
                old(self).rows@,
                old(self).seen@,
                channels@,
                aggs.items@,
                now,
                live,
                tol_pct,
                grace,
                aggs.items@.len() as int,
            ),
            final(self).seen@ == noted(old(self).seen@, aggs.items@, aggs.items@.len() as int),
    {
        for i in 0..aggs.items.len()
            invariant
                self.wf(),
                self.seen == old(self).seen,
                self.rows@ == swept(
                    old(self).rows@,
                    old(self).seen@,
                    channels@,
                    aggs.items@,
                    now,
                    live,
                    tol_pct,
                    grace,
                    i as int,
                ),
        {
            let a: MessageAgg = aggs.items[i].1;
            self.judge(channels, &a, now, live, tol_pct, grace);
        }
        let ghost rows = self.rows@;
        for i in 0..aggs.items.len()
            invariant
                self.wf(),
                self.rows@ == rows,
                self.seen@ == noted(old(self).seen@, aggs.items@, i as int),
        {
            let a: MessageAgg = aggs.items[i].1;
            self.seen.put(table::key_of_message(a.channel, a.id, a.extended), a.last_t_us);
        }
    }

    /// Removes the rows of a bus and shifts the buses above it down.
    pub fn drop_channel(&mut self, gone: usize)
        requires
            old(self).wf(),
        ensures
            final(self).wf(),
            final(self).rows.items@ == table::remapped_items(
                old(self).rows.items@,
                gone as u64,
                old(self).rows.items@.len() as int,
            ),
            final(self).seen.items@ == table::remapped_items(
                old(self).seen.items@,
                gone as u64,
                old(self).seen.items@.len() as int,
            ),
    {
        self.rows.drop_bus(gone as u64);
        self.seen.drop_bus(gone as u64);
    }

    /// Every row forgets that it fell; the stamps stay.
    pub fn clear(&mut self)
        requires
            old(self).wf(),
        ensures
            final(self).wf(),
            final(self).rows@ == Map::<u64, Latch>::empty(),
            final(self).seen == old(self).seen,
    {
        self.rows.clear();
    }
}

/// A verdict, once latched, is never forgotten by a later sweep, and its first
/// stamp stays.
pub proof fn law_verdicts_latch(
    rows: Map<u64, Latch>,
    seen: Map<u64, u64>,
    channels: Seq<Channel>,
    aggs: Seq<(u64, MessageAgg)>,
    now: u64,
    live: bool,
    tol_pct: u64,
    grace: u64,
    n: int,
    k: u64,
)
    requires
        rows.dom().contains(k),
    ensures
        ({
            let after = swept(rows, seen, channels, aggs, now, live, tol_pct, grace, n);
            after.dom().contains(k) && after[k].first_t_us == rows[k].first_t_us
                && after[k].count >= rows[k].count
        }),
    decreases n,
{
    if n > 0 {
        law_verdicts_latch(rows, seen, channels, aggs, now, live, tol_pct, grace, n - 1, k);
    }
}

/// A sweep that is not live never calls a message gone: replay and pause raise no
/// such verdict.
pub proof fn law_only_a_live_clock_convicts_silence(
    rows: Map<u64, Latch>,
    seen: Map<u64, u64>,
    channels: Seq<Channel>,
    aggs: Seq<(u64, MessageAgg)>,
    now: u64,
    tol_pct: u64,
    grace: u64,
    n: int,
    k: u64,
)
    requires
        k % 4 == 3,
        !rows.dom().contains(k),
    ensures
        !swept(rows, seen, channels, aggs, now, false, tol_pct, grace, n).dom().contains(k),
    decreases n,
{
    if n > 0 {
        law_only_a_live_clock_convicts_silence(
            rows,
            seen,
            channels,
            aggs,
            now,
            tol_pct,
            grace,
            n - 1,
            k,
        );
        let a = aggs[n - 1].1;
        table::lemma_key_parts(a.channel, a.id, a.extended, 0);
        table::lemma_key_parts(a.channel, a.id, a.extended, 1);
        table::lemma_key_parts(a.channel, a.id, a.extended, 2);
    }
}

/// Our own frames raise neither a length nor a period verdict.
pub proof fn law_own_frames_are_exempt(
    rows: Map<u64, Latch>,
    seen: Map<u64, u64>,
    channels: Seq<Channel>,
    a: MessageAgg,
    now: u64,
    live: bool,
    tol_pct: u64,
    grace: u64,
    k: u64,
)
    requires
        a.dir == Direction::Tx,
        k % 4 == 1 || k % 4 == 2,
        !rows.dom().contains(k),
    ensures
        !judged(rows, seen, channels, a, now, live, tol_pct, grace).dom().contains(k),
{
    table::lemma_key_parts(a.channel, a.id, a.extended, 0);
    table::lemma_key_parts(a.channel, a.id, a.extended, 3);
}

/// A period verdict falls where the interval lies outside the band of the tolerance around
/// the declared period, too short as well as too long. A message without a period of its
/// own has no such band.
pub proof fn law_a_period_has_a_band_around_it(interval: u64, declared: u64, tol_pct: u64)
    ensures
        declared > 0 ==> is_cycle_offender(interval, declared, tol_pct) == (100 * interval
            > declared * (100 + tol_pct) || 100 * interval < declared * (100 - tol_pct)),
        declared == 0 ==> !is_cycle_offender(interval, declared, tol_pct),
{
    let d = declared as int;
    let t = tol_pct as int;
    assert(d * (100 + t) == 100 * d + d * t && d * (100 - t) == 100 * d - d * t) by (nonlinear_arith);
    assert(d * t >= 0) by (nonlinear_arith)
        requires
            d >= 0,
            t >= 0,
    ;
}

/// An interval that is too short by some time offends as one that is too long by it.
pub proof fn law_early_and_late_offend_alike(declared: u64, x: u64, tol_pct: u64)
    requires
        x <= declared,
        declared + x <= u64::MAX,
    ensures
        is_cycle_offender((declared - x) as u64, declared, tol_pct) == is_cycle_offender(
            (declared + x) as u64,
            declared,
            tol_pct,
        ),
{
}

/// A message is gone once it has been silent for longer than the grace's periods, and not
/// before; a silence up to the grace, a clock that went back and a message without a
/// period convict nothing.
pub proof fn law_silence_convicts_after_the_grace(now: u64, last: u64, declared: u64, grace: u64)
    ensures
        declared > 0 ==> is_missing_offender(now, last, declared, grace) == (now > last + declared
            * grace),
        declared == 0 ==> !is_missing_offender(now, last, declared, grace),
{
    assert(declared as int * grace as int >= 0) by (nonlinear_arith);
}

/// A length offends where it differs from the declared one, shorter or longer.
pub proof fn law_a_wrong_length_offends(len: u8, declared: u64)
    ensures
        is_dlc_offender(len, declared) == (len < declared || len > declared),
{
}

/// The row of one verdict on one message is kept apart from every other row.
pub proof fn law_verdicts_are_kept_apart(
    ch: u8,
    id: u32,
    ext: bool,
    kind: Kind,
    ch2: u8,
    id2: u32,
    ext2: bool,
    kind2: Kind,
)
    ensures
        (row_key(ch, id, ext, kind) == row_key(ch2, id2, ext2, kind2)) == (ch == ch2 && id == id2
            && ext == ext2 && kind == kind2),
{
    table::lemma_key_parts(ch, id, ext, kind.code());
    table::lemma_key_parts(ch2, id2, ext2, kind2.code());
}

/// A verdict that falls again counts up and moves its last time, its declared and its
/// measured quantity; its first time stays. No other row changes.
pub proof fn law_a_verdict_counts_its_falls(
    rows: Map<u64, Latch>,
    k: u64,
    now: u64,
    declared: u64,
    measured: u64,
    other: u64,
)
    ensures
        ({
            let after = recorded(rows, k, now, declared, measured);
            &&& after.dom().contains(k)
            &&& after[k].last_t_us == now
            &&& after[k].declared == declared
            &&& after[k].measured == measured
            &&& !rows.dom().contains(k) ==> after[k].count == 1 && after[k].first_t_us == now
            &&& rows.dom().contains(k) ==> after[k].first_t_us == rows[k].first_t_us
                && (rows[k].count < u64::MAX ==> after[k].count == rows[k].count + 1)
            &&& other != k ==> after.dom().contains(other) == rows.dom().contains(other) && (
            rows.dom().contains(other) ==> after[other] == rows[other])
        }),
{
}

/// The row of a verdict after a message was judged: written where the verdict falls, with
/// the time, the declared and the measured quantity, and left as it was where not.
pub open spec fn is_row_judged(
    rows: Map<u64, Latch>,
    after: Map<u64, Latch>,
    k: u64,
    falls: bool,
    now: u64,
    declared: int,
    measured: int,
) -> bool {
    if falls {
        &&& after.dom().contains(k)
        &&& after[k].last_t_us == now
        &&& after[k].declared == declared
        &&& after[k].measured == measured
        &&& after[k].first_t_us == (if rows.dom().contains(k) {
            rows[k].first_t_us
        } else {
            now
        })
        &&& !rows.dom().contains(k) ==> after[k].count == 1
        &&& rows.dom().contains(k) && rows[k].count < u64::MAX ==> after[k].count == rows[k].count
            + 1
    } else {
        &&& after.dom().contains(k) == rows.dom().contains(k)
        &&& rows.dom().contains(k) ==> after[k] == rows[k]
    }
}

/// Each of the four verdicts falls where the traffic breaks what the database says, and
/// nowhere else. A bus without a database has no opinion; a message that the database lacks
/// is unknown and nothing more; a received one is measured by its length and its period; a
/// live clock calls a silent one gone.
pub proof fn law_verdicts_follow_the_database(
    rows: Map<u64, Latch>,
    seen: Map<u64, u64>,
    channels: Seq<Channel>,
    a: MessageAgg,
    now: u64,
    live: bool,
    tol_pct: u64,
    grace: u64,
)
    ensures
        ({
            let after = judged(rows, seen, channels, a, now, live, tol_pct, grace);
            let table = channel::table_on(channels, a.channel);
            let known = table is Some && table->0.messages@.dom().contains(a.id);
            let m = table->0.messages@[a.id];
            let stamp = table::message_key(a.channel, a.id, a.extended);
            let received = known && a.dir == Direction::Rx;
            let period = m.cycle_us->0;
            let timed = m.cycle_us is Some && period > 0;
            let dt = a.last_t_us - seen[stamp];
            let early_or_late = 100 * dt > period * (100 + tol_pct) || 100 * dt < period * (100
                - tol_pct);
            &&& is_row_judged(
                rows,
                after,
                row_key(a.channel, a.id, a.extended, Kind::Unknown),
                table is Some && !known,
                now,
                0,
                0,
            )
            &&& is_row_judged(
                rows,
                after,
                row_key(a.channel, a.id, a.extended, Kind::Dlc),
                received && a.len != m.dlc,
                now,
                m.dlc as int,
                a.len as int,
            )
            &&& is_row_judged(
                rows,
                after,
                row_key(a.channel, a.id, a.extended, Kind::Cycle),
                received && timed && seen.dom().contains(stamp) && dt > 0 && early_or_late,
                now,
                period as int,
                dt,
            )
            &&& is_row_judged(
                rows,
                after,
                row_key(a.channel, a.id, a.extended, Kind::Missing),
                known && live && timed && now > a.last_t_us + period * grace,
                now,
                period as int,
                now - a.last_t_us,
            )
        }),
{
    table::lemma_key_parts(a.channel, a.id, a.extended, 0);
    table::lemma_key_parts(a.channel, a.id, a.extended, 1);
    table::lemma_key_parts(a.channel, a.id, a.extended, 2);
    table::lemma_key_parts(a.channel, a.id, a.extended, 3);
    match channel::table_on(channels, a.channel) {
        Some(db) => if db.messages@.dom().contains(a.id) {
            let m = db.messages@[a.id];
            match m.cycle_us {
                Some(d) => {
                    law_silence_convicts_after_the_grace(now, a.last_t_us, d, grace);
                    assert(d as int * grace as int >= 0) by (nonlinear_arith);
                    let stamp = table::message_key(a.channel, a.id, a.extended);
                    match step_interval(seen, stamp, a.last_t_us) {
                        Some(dt) => {
                            law_a_period_has_a_band_around_it(dt, d, tol_pct);
                        },
                        None => {},
                    }
                },
                None => {},
            }
        },
        None => {},
    }
}

/// Judging a message writes no row of another message.
pub proof fn law_messages_are_judged_apart(
    rows: Map<u64, Latch>,
    seen: Map<u64, u64>,
    channels: Seq<Channel>,
    a: MessageAgg,
    now: u64,
    live: bool,
    tol_pct: u64,
    grace: u64,
    ch: u8,
    id: u32,
    ext: bool,
    kind: Kind,
)
    requires
        ch != a.channel || id != a.id || ext != a.extended,
    ensures
        is_row_judged(
            rows,
            judged(rows, seen, channels, a, now, live, tol_pct, grace),
            row_key(ch, id, ext, kind),
            false,
            now,
            0,
            0,
        ),
{
    law_verdicts_are_kept_apart(ch, id, ext, kind, a.channel, a.id, a.extended, Kind::Unknown);
    law_verdicts_are_kept_apart(ch, id, ext, kind, a.channel, a.id, a.extended, Kind::Dlc);
    law_verdicts_are_kept_apart(ch, id, ext, kind, a.channel, a.id, a.extended, Kind::Cycle);
    law_verdicts_are_kept_apart(ch, id, ext, kind, a.channel, a.id, a.extended, Kind::Missing);
}

/// What judging makes of a row depends on that row alone.
proof fn lemma_judged_alike(
    rows: Map<u64, Latch>,
    other: Map<u64, Latch>,
    seen: Map<u64, u64>,
    channels: Seq<Channel>,
    a: MessageAgg,
    now: u64,
    live: bool,
    tol_pct: u64,
    grace: u64,
    kind: Kind,
)
    requires
        ({
            let k = row_key(a.channel, a.id, a.extended, kind);
            rows.dom().contains(k) == other.dom().contains(k) && (rows.dom().contains(k)
                ==> rows[k] == other[k])
        }),
    ensures
        ({
            let k = row_key(a.channel, a.id, a.extended, kind);
            let x = judged(rows, seen, channels, a, now, live, tol_pct, grace);
            let y = judged(other, seen, channels, a, now, live, tol_pct, grace);
            x.dom().contains(k) == y.dom().contains(k) && (x.dom().contains(k) ==> x[k] == y[k])
        }),
{
    table::lemma_key_parts(a.channel, a.id, a.extended, 0);
    table::lemma_key_parts(a.channel, a.id, a.extended, 1);
    table::lemma_key_parts(a.channel, a.id, a.extended, 2);
    table::lemma_key_parts(a.channel, a.id, a.extended, 3);
}

/// The message of a tally.
pub open spec fn same_message(a: MessageAgg, b: MessageAgg) -> bool {
    a.channel == b.channel && a.id == b.id && a.extended == b.extended
}

/// A sweep judges every message once: the rows of a message are what judging that message
/// alone makes of them, and its stamp is noted for the next sweep.
pub proof fn law_a_sweep_judges_every_message_once(
    rows: Map<u64, Latch>,
    seen: Map<u64, u64>,
    channels: Seq<Channel>,
    aggs: Seq<(u64, MessageAgg)>,
    now: u64,
    live: bool,
    tol_pct: u64,
    grace: u64,
    n: int,
    i: int,
    kind: Kind,
)
    requires
        0 <= n <= aggs.len(),
        0 <= i < aggs.len(),
        forall|j: int, k: int|
            0 <= j < k < aggs.len() ==> !same_message(
                (#[trigger] aggs[j]).1,
                (#[trigger] aggs[k]).1,
            ),
    ensures
        ({
            let a = aggs[i].1;
            let k = row_key(a.channel, a.id, a.extended, kind);
            let after = swept(rows, seen, channels, aggs, now, live, tol_pct, grace, n);
            let alone = judged(rows, seen, channels, a, now, live, tol_pct, grace);
            let stamp = table::message_key(a.channel, a.id, a.extended);
            if i < n {
                &&& after.dom().contains(k) == alone.dom().contains(k)
                &&& alone.dom().contains(k) ==> after[k] == alone[k]
                &&& noted(seen, aggs, n).dom().contains(stamp)
                &&& noted(seen, aggs, n)[stamp] == a.last_t_us
            } else {
                &&& after.dom().contains(k) == rows.dom().contains(k)
                &&& rows.dom().contains(k) ==> after[k] == rows[k]
            }
        }),
    decreases n,
{
    if n > 0 {
        let m = n - 1;
        law_a_sweep_judges_every_message_once(
            rows,
            seen,
            channels,
            aggs,
            now,
            live,
            tol_pct,
            grace,
            m,
            i,
            kind,
        );
        let a = aggs[i].1;
        let b = aggs[m].1;
        let before = swept(rows, seen, channels, aggs, now, live, tol_pct, grace, m);
        if i != m {
            assert(!same_message(a, b)) by {
                if i < m {
                    assert(!same_message(aggs[i].1, aggs[m].1));
                } else {
                    assert(!same_message(aggs[m].1, aggs[i].1));
                }
            }
            law_messages_are_judged_apart(
                before,
                seen,
                channels,
                b,
                now,
                live,
                tol_pct,
                grace,
                a.channel,
                a.id,
                a.extended,
                kind,
            );
            table::lemma_key_parts(a.channel, a.id, a.extended, 0);
            table::lemma_key_parts(b.channel, b.id, b.extended, 0);
        } else {
            lemma_judged_alike(rows, before, seen, channels, a, now, live, tol_pct, grace, kind);
        }
    }
}

} // verus!
