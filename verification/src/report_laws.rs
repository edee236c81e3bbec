//! The lines of the reports, field by field.

use vstd::prelude::*;
use crate::aggregate::MessageAgg;
use crate::app_text;
use crate::channel;
use crate::channel::Channel;
use crate::dbc::SymbolTable;
use crate::export;
use crate::export::CycleTexts;
use crate::text;

verus! {

/// The fields of a line behind the first `k`.
proof fn lemma_head(fields: Seq<Seq<char>>, k: int)
    requires
        0 < k <= fields.len(),
    ensures
        ({
            let head = text::joined(fields.subrange(0, k), ","@);
            let all = text::joined(fields, ","@);
            &&& head.len() <= all.len()
            &&& all.subrange(0, head.len() as int) == head
            &&& k < fields.len() ==> all.len() > head.len() && all[head.len() as int] == ','
        }),
    decreases fields.len(),
{
    reveal_strlit(",");
    let head = text::joined(fields.subrange(0, k), ","@);
    let all = text::joined(fields, ","@);
    if k == fields.len() {
        assert(fields.subrange(0, k) =~= fields);
        assert(all.subrange(0, all.len() as int) =~= all);
    } else {
        let rest = fields.drop_last();
        lemma_head(rest, k);
        assert(rest.subrange(0, k) =~= fields.subrange(0, k));
        let before = text::joined(rest, ","@);
        assert(all =~= before + ","@ + fields.last());
        assert(all.subrange(0, head.len() as int) =~= before.subrange(0, head.len() as int));
    }
}

/// A line of a report is its fields in order with commas between, and ends with a line
/// break: it starts with the first field, and its last field stands before the break.
pub proof fn law_a_line_holds_its_fields(fields: Seq<Seq<char>>, k: int)
    requires
        0 < k < fields.len(),
    ensures
        ({
            let line = export::csv_line(fields);
            let head = text::joined(fields.subrange(0, k), ","@);
            let next = fields[k];
            &&& line.last() == '\n'
            &&& line.subrange(0, head.len() as int) == head
            &&& line[head.len() as int] == ','
            &&& head.len() + 1 + next.len() < line.len()
            &&& line.subrange(head.len() + 1int, head.len() + 1int + next.len()) == next
        }),
{
    reveal_strlit("\n");
    reveal_strlit(",");
    let all = text::joined(fields, ","@);
    let line = export::csv_line(fields);
    let head = text::joined(fields.subrange(0, k), ","@);
    lemma_head(fields, k);
    lemma_head(fields, k + 1);
    let more = text::joined(fields.subrange(0, k + 1), ","@);
    assert(fields.subrange(0, k + 1).drop_last() =~= fields.subrange(0, k));
    assert(more =~= head + ","@ + fields[k]);
    assert(line =~= all + "\n"@);
    assert(line.subrange(0, head.len() as int) =~= all.subrange(0, head.len() as int));
    let a = head.len() + 1int;
    assert(line.subrange(a, a + fields[k].len()) =~= fields[k]) by {
        assert forall|i: int| 0 <= i < fields[k].len() implies line.subrange(
            a,
            a + fields[k].len(),
        )[i] == fields[k][i] by {
            assert(all.subrange(0, more.len() as int)[a + i] == more[a + i]);
        }
    }
}

/// A statistics line starts with its bus and its message's number and name; smallest,
/// average and largest interval stand in this order behind the count.
pub proof fn law_a_statistics_line_reads_in_order(
    channels: Seq<Channel>,
    a: MessageAgg,
    t: CycleTexts,
)
    requires
        a.count > 1,
    ensures
        ({
            let line = export::stats_line(channels, a, t);
            let head = channel::bus_name(channels, a.channel) + ","@ + text::decimal(a.id as int)
                + ","@ + app_text::shown_name(channels, a.channel, a.id) + ","@ + text::decimal(
                a.count as int,
            ) + ","@ + t.min@ + ","@ + t.avg@ + ","@ + t.max@ + ","@ + text::decimal(a.len as int);
            head.len() <= line.len() && line.subrange(0, head.len() as int) == head
        }),
{
    reveal_strlit(",");
    let fields = seq![
        channel::bus_name(channels, a.channel),
        text::decimal(a.id as int),
        app_text::shown_name(channels, a.channel, a.id),
        text::decimal(a.count as int),
        t.min@,
        t.avg@,
        t.max@,
        text::decimal(a.len as int),
        a.flags.tag_spec(),
    ];
    let line = export::stats_line(channels, a, t);
    assert(line == export::csv_line(fields));
    let head = channel::bus_name(channels, a.channel) + ","@ + text::decimal(a.id as int) + ","@
        + app_text::shown_name(channels, a.channel, a.id) + ","@ + text::decimal(a.count as int)
        + ","@ + t.min@ + ","@ + t.avg@ + ","@ + t.max@ + ","@ + text::decimal(a.len as int);
    lemma_eight(fields);
    law_a_line_holds_its_fields(fields, 8);
    assert(head == text::joined(fields.subrange(0, 8), ","@));
}

/// Eight joined fields, written out.
proof fn lemma_eight(f: Seq<Seq<char>>)
    requires
        f.len() >= 8,
    ensures
        text::joined(f.subrange(0, 8), ","@) == f[0] + ","@ + f[1] + ","@ + f[2] + ","@ + f[3]
            + ","@ + f[4] + ","@ + f[5] + ","@ + f[6] + ","@ + f[7],
{
    assert(f.subrange(0, 1)[0] == f[0]);
    lemma_one_more(f, 1);
    lemma_one_more(f, 2);
    lemma_one_more(f, 3);
    lemma_one_more(f, 4);
    lemma_one_more(f, 5);
    lemma_one_more(f, 6);
    lemma_one_more(f, 7);
}

/// One more joined field.
proof fn lemma_one_more(f: Seq<Seq<char>>, k: int)
    requires
        0 < k < f.len(),
    ensures
        text::joined(f.subrange(0, k + 1), ","@) == text::joined(f.subrange(0, k), ","@) + ","@
            + f[k],
{
    assert(f.subrange(0, k + 1).drop_last() =~= f.subrange(0, k));
}

/// A database's periodic messages are those that declare a period above zero: none where no
/// message does, and all where each does.
pub proof fn law_periodic_messages_are_counted(t: SymbolTable, n: int)
    requires
        0 <= n <= t.order@.len(),
    ensures
        0 <= export::periodic_in(t, n) <= n,
        (forall|i: int|
            0 <= i < n ==> t.messages@.contains_key(#[trigger] t.order@[i]) && (
            t.messages@[t.order@[i]].cycle_us matches Some(d) && d > 0)) ==> export::periodic_in(
            t,
            n,
        ) == n,
        (forall|i: int|
            0 <= i < n ==> t.messages@[#[trigger] t.order@[i]].cycle_us is None
                || t.messages@[t.order@[i]].cycle_us == Some(0u64)) ==> export::periodic_in(t, n)
            == 0,
    decreases n,
{
    if n > 0 {
        law_periodic_messages_are_counted(t, n - 1);
        let id = t.order@[n - 1];
    }
}

} // verus!
