//! Several databases on one bus: the tables merged into one lookup table, in
//! which the earlier database wins where two declare the same message.

use vstd::prelude::*;
use vstd::string::*;
use crate::dbc;
use crate::dbc::{load_dbc_str, SymbolTable, ValueTable};
use crate::text;

verus! {

broadcast use vstd::std_specs::hash::group_hash_axioms;

/// The id list is the table's messages, in ascending order.
pub open spec fn is_indexed(t: SymbolTable) -> bool {
    &&& dbc::ascending(t.order@)
    &&& forall|id: u32| #[trigger] t.messages@.dom().contains(id) == t.order@.contains(id)
}

/// The names of the first `n` that `have` and the names before them lack.
pub open spec fn new_names(have: Seq<String>, names: Seq<String>, n: int) -> Seq<String>
    decreases n,
{
    if n <= 0 {
        Seq::empty()
    } else {
        let before = new_names(have, names, n - 1);
        if text::lists(have, names[n - 1]@) || text::lists(before, names[n - 1]@) {
            before
        } else {
            before.push(names[n - 1])
        }
    }
}

/// The label tables of the first `n` whose message the other table lacks.
pub open spec fn new_tables(t: SymbolTable, tables: Seq<ValueTable>, n: int) -> Seq<ValueTable>
    decreases n,
{
    if n <= 0 {
        Seq::empty()
    } else {
        let before = new_tables(t, tables, n - 1);
        if t.messages@.dom().contains(tables[n - 1].id) {
            before
        } else {
            before.push(tables[n - 1])
        }
    }
}

/// `after` is `before` with what only `extra` declares.
pub open spec fn is_absorbed(before: SymbolTable, extra: SymbolTable, after: SymbolTable) -> bool {
    &&& after.messages@ == extra.messages@.union_prefer_right(before.messages@)
    &&& is_indexed(after)
    &&& after.nodes@ == before.nodes@ + new_names(
        before.nodes@,
        extra.nodes@,
        extra.nodes@.len() as int,
    )
    &&& after.value_tables@ == before.value_tables@ + new_tables(
        before,
        extra.value_tables@,
        extra.value_tables@.len() as int,
    )
}

/// Takes in what a further database declares and this one does not.
pub fn absorb(merged: &mut SymbolTable, extra: SymbolTable)
    requires
        is_indexed(*old(merged)),
        is_indexed(extra),
    ensures
        is_absorbed(*old(merged), extra, *final(merged)),
{
    let ghost before = *merged;
    let ghost other = extra;
    let mut rest = extra.messages;
    let order: Vec<u32> = extra.order;
    let nodes: Vec<String> = extra.nodes;
    let tables: Vec<ValueTable> = extra.value_tables;
    let total: usize = tables.len();
    let mut kept: Vec<ValueTable> = Vec::new();
    for t in it: tables
        invariant
            *merged == before,
            it.seq() == other.value_tables@,
            kept@ == new_tables(before, other.value_tables@, it.index() as int),
    {
        if !merged.messages.contains_key(&t.id) {
            kept.push(t);
        }
    }
    let count: usize = order.len();
    for i in 0..count
        invariant
            count == order@.len(),
            order == other.order,
            is_indexed(other),
            dbc::ascending(merged.order@),
            merged.nodes == before.nodes,
            merged.value_tables == before.value_tables,
            forall|k: u32| #[trigger]
                merged.messages@.dom().contains(k) == merged.order@.contains(k),
            forall|k: u32| #[trigger]
                merged.messages@.dom().contains(k) == (before.messages@.dom().contains(k) || exists|
                    j: int,
                | 0 <= j < i && order@[j] == k),
            forall|k: u32| #[trigger]
                merged.messages@.dom().contains(k) ==> merged.messages@[k] == (
                if before.messages@.dom().contains(k) {
                    before.messages@[k]
                } else {
                    other.messages@[k]
                }),
            forall|j: int|
                i <= j < count ==> rest@.dom().contains(#[trigger] order@[j])
                    && rest@[order@[j]] == other.messages@[order@[j]],
    {
        let id: u32 = order[i];
        let ghost was = rest@;
        assert(rest@.dom().contains(order@[i as int]));
        let message = rest.remove(&id);
        assert forall|j: int| i + 1 <= j < count implies rest@.dom().contains(#[trigger] order@[j])
            && rest@[order@[j]] == other.messages@[order@[j]] by {
            assert(order@[i as int] < order@[j]);
        }
        let ghost held = *merged;
        if !merged.messages.contains_key(&id) {
            match message {
                Some(m) => {
                    merged.messages.insert(id, m);
                    dbc::insert_ascending(&mut merged.order, id);
                },
                None => {},
            }
        }
        assert forall|k: u32| #[trigger] merged.messages@.dom().contains(k) == (
        before.messages@.dom().contains(k) || exists|j: int| 0 <= j < i + 1 && order@[j] == k) by {
            if k == id {
                assert(order@[i as int] == k);
                assert(held.messages@.dom().contains(id) || merged.messages@.dom().contains(id));
            } else {
                assert(merged.messages@.dom().contains(k) == held.messages@.dom().contains(k));
            }
        }
    }
    assert(merged.messages@ =~= other.messages@.union_prefer_right(before.messages@)) by {
        assert forall|k: u32| #[trigger] merged.messages@.dom().contains(k) == (
        before.messages@.dom().contains(k) || other.messages@.dom().contains(k)) by {
            if other.messages@.dom().contains(k) {
                assert(other.order@.contains(k));
            }
        }
    }
    let mut fresh: Vec<String> = Vec::new();
    let many: usize = nodes.len();
    for i in 0..many
        invariant
            many == nodes@.len(),
            nodes == other.nodes,
            merged.nodes == before.nodes,
            fresh@ == new_names(before.nodes@, other.nodes@, i as int),
    {
        let name: &String = &nodes[i];
        if !text::listed(&merged.nodes, name.as_str()) && !text::listed(&fresh, name.as_str()) {
            fresh.push(name.clone());
        }
    }
    merged.nodes.append(&mut fresh);
    merged.value_tables.append(&mut kept);
}

/// A path with nothing in it.
pub open spec fn is_blank(path: Seq<char>) -> bool {
    text::trimmed(path).len() == 0
}

/// One database file as it was read: its text and the checksum of its bytes.
pub struct FileText {
    pub content: String,
    pub sum: u64,
}

/// Why a file gave no table, if it gave none.
pub open spec fn failure(
    path: Seq<char>,
    file: Result<FileText, String>,
    table: Result<SymbolTable, String>,
) -> Option<Seq<char>> {
    match file {
        Err(e) => Some(text::trimmed(path) + ": "@ + e@),
        Ok(_) => match table {
            Err(e) => Some(text::trimmed(path) + ": "@ + e@),
            Ok(_) => None,
        },
    }
}

/// `outcomes` are what the texts of the first `n` files load as.
pub open spec fn are_outcomes(
    paths: Seq<String>,
    files: Seq<Result<FileText, String>>,
    outcomes: Seq<Result<SymbolTable, String>>,
    n: int,
) -> bool {
    &&& outcomes.len() == n
    &&& forall|i: int|
        0 <= i < n && !is_blank(#[trigger] paths[i]@) && files[i] is Ok ==> dbc::is_loaded(
            files[i]->Ok_0.content@,
            outcomes[i],
        )
}

/// The file gave a table.
pub open spec fn gave_table(
    path: Seq<char>,
    file: Result<FileText, String>,
    outcome: Result<SymbolTable, String>,
) -> bool {
    !is_blank(path) && file is Ok && outcome is Ok
}

/// The tables of the first `n` files, in order.
pub open spec fn tables_of(
    paths: Seq<String>,
    files: Seq<Result<FileText, String>>,
    outcomes: Seq<Result<SymbolTable, String>>,
    n: int,
) -> Seq<SymbolTable>
    decreases n,
{
    if n <= 0 {
        Seq::empty()
    } else {
        let before = tables_of(paths, files, outcomes, n - 1);
        if gave_table(paths[n - 1]@, files[n - 1], outcomes[n - 1]) {
            before.push(outcomes[n - 1]->Ok_0)
        } else {
            before
        }
    }
}

/// The checksums of the files that gave a table.
pub open spec fn sums_of(
    paths: Seq<String>,
    files: Seq<Result<FileText, String>>,
    outcomes: Seq<Result<SymbolTable, String>>,
    n: int,
) -> Seq<u64>
    decreases n,
{
    if n <= 0 {
        Seq::empty()
    } else {
        let before = sums_of(paths, files, outcomes, n - 1);
        if gave_table(paths[n - 1]@, files[n - 1], outcomes[n - 1]) {
            before.push(files[n - 1]->Ok_0.sum)
        } else {
            before
        }
    }
}

/// The first failure among the first `n` files.
pub open spec fn first_failure(
    paths: Seq<String>,
    files: Seq<Result<FileText, String>>,
    outcomes: Seq<Result<SymbolTable, String>>,
    n: int,
) -> Option<Seq<char>>
    decreases n,
{
    if n <= 0 {
        None
    } else {
        let before = first_failure(paths, files, outcomes, n - 1);
        if before is Some || is_blank(paths[n - 1]@) {
            before
        } else {
            failure(paths[n - 1]@, files[n - 1], outcomes[n - 1])
        }
    }
}

/// How many messages the tables declare, each on its own.
pub open spec fn message_total(tables: Seq<SymbolTable>) -> int
    decreases tables.len(),
{
    if tables.len() == 0 {
        0
    } else {
        message_total(tables.drop_last()) + tables.last().order@.len()
    }
}

/// `steps` are the tables merged one after the other.
pub open spec fn are_merges(tables: Seq<SymbolTable>, steps: Seq<SymbolTable>) -> bool {
    &&& steps.len() == tables.len()
    &&& tables.len() > 0 ==> steps[0] == tables[0]
    &&& forall|i: int|
        #![trigger tables[i]]
        0 < i < tables.len() ==> is_absorbed(steps[i - 1], tables[i], steps[i])
}

/// `merged` is the tables merged, the earlier one winning.
pub open spec fn is_merged(tables: Seq<SymbolTable>, merged: SymbolTable) -> bool {
    exists|steps: Seq<SymbolTable>|
        #[trigger] are_merges(tables, steps) && steps.len() > 0 && merged == steps.last()
}

/// What the files of a bus gave: the merged table, how many files and messages
/// went into it, the checksums, and the first failure.
pub struct LoadedFiles {
    pub table: Option<SymbolTable>,
    pub files: usize,
    pub messages: u64,
    pub sums: Vec<u64>,
    pub first_error: Option<String>,
}

/// A text behind an option.
pub open spec fn read_text(t: Option<String>) -> Option<Seq<char>> {
    match t {
        Some(s) => Some(s@),
        None => None,
    }
}

impl LoadedFiles {
    pub open spec fn is_by(
        self,
        paths: Seq<String>,
        files: Seq<Result<FileText, String>>,
        outcomes: Seq<Result<SymbolTable, String>>,
    ) -> bool {
        let n = paths.len() as int;
        let tables = tables_of(paths, files, outcomes, n);
        &&& self.files == tables.len()
        &&& self.messages == (if message_total(tables) <= u64::MAX {
            message_total(tables)
        } else {
            u64::MAX as int
        })
        &&& self.sums@ == sums_of(paths, files, outcomes, n)
        &&& read_text(self.first_error) == first_failure(paths, files, outcomes, n)
        &&& self.table is Some == (tables.len() > 0)
        &&& self.table is Some ==> is_merged(tables, self.table->0) && is_indexed(self.table->0)
    }

    /// What the files give.
    pub open spec fn is_of(
        self,
        paths: Seq<String>,
        files: Seq<Result<FileText, String>>,
    ) -> bool {
        exists|outcomes: Seq<Result<SymbolTable, String>>|
            #[trigger] are_outcomes(paths, files, outcomes, paths.len() as int) && self.is_by(
                paths,
                files,
                outcomes,
            )
    }
}

fn failed_file(path: &str, e: &str) -> (r: String)
    ensures
        r@ == text::trimmed(path@) + ": "@ + e@,
{
    let mut s: String = text::trim(path);
    s.append(": ");
    s.append(e);
    s
}

proof fn lemma_outcomes_extend(
    paths: Seq<String>,
    files: Seq<Result<FileText, String>>,
    a: Seq<Result<SymbolTable, String>>,
    b: Seq<Result<SymbolTable, String>>,
    n: int,
)
    requires
        n <= a.len(),
        n <= b.len(),
        forall|i: int| 0 <= i < n ==> a[i] == b[i],
    ensures
        tables_of(paths, files, a, n) == tables_of(paths, files, b, n),
        sums_of(paths, files, a, n) == sums_of(paths, files, b, n),
        first_failure(paths, files, a, n) == first_failure(paths, files, b, n),
    decreases n,
{
    if n > 0 {
        lemma_outcomes_extend(paths, files, a, b, n - 1);
    }
}

/// One more table joins those merged so far.
fn join_table(merged: Option<SymbolTable>, table: SymbolTable) -> (r: SymbolTable)
    requires
        merged matches Some(m) ==> is_indexed(m),
        is_indexed(table),
    ensures
        is_indexed(r),
        match merged {
            Some(m) => is_absorbed(m, table, r),
            None => r == table,
        },
{
    match merged {
        Some(m) => {
            let mut t: SymbolTable = m;
            absorb(&mut t, table);
            t
        },
        None => table,
    }
}

/// Reads every database text of a bus, primary first, and merges the tables: on a
/// duplicate message id the earlier database wins. Files that fail are skipped;
/// the first failure is kept.
pub fn read_files(paths: &Vec<String>, files: &Vec<Result<FileText, String>>) -> (r: LoadedFiles)
    requires
        files@.len() == paths@.len(),
    ensures
        r.is_of(paths@, files@),
{
    let mut merged: Option<SymbolTable> = None;
    let mut count: usize = 0;
    let mut messages: u64 = 0;
    let mut sums: Vec<u64> = Vec::new();
    let mut first_error: Option<String> = None;
    let ghost mut outcomes: Seq<Result<SymbolTable, String>> = Seq::empty();
    let ghost mut steps: Seq<SymbolTable> = Seq::empty();
    let total: usize = paths.len();
    for i in 0..total
        invariant
            total == paths@.len(),
            files@.len() == paths@.len(),
            are_outcomes(paths@, files@, outcomes, i as int),
            count <= i,
            count == tables_of(paths@, files@, outcomes, i as int).len(),
            messages == (if message_total(tables_of(paths@, files@, outcomes, i as int))
                <= u64::MAX {
                message_total(tables_of(paths@, files@, outcomes, i as int))
            } else {
                u64::MAX as int
            }),
            sums@ == sums_of(paths@, files@, outcomes, i as int),
            read_text(first_error) == first_failure(paths@, files@, outcomes, i as int),
            are_merges(tables_of(paths@, files@, outcomes, i as int), steps),
            merged is Some == (steps.len() > 0),
            merged matches Some(m) ==> m == steps.last() && is_indexed(m),
    {
        let path: &str = paths[i].as_str();
        let ghost before = outcomes;
        let ghost held = tables_of(paths@, files@, outcomes, i as int);
        let ghost mut outcome: Result<SymbolTable, String> = arbitrary();
        if text::trim_chars(path).len() != 0 {
            match &files[i] {
                Ok(file) => {
                    match load_dbc_str(file.content.as_str()) {
                        Ok(table) => {
                            proof {
                                outcome = Ok(table);
                                let file = dbc_source_of(files@[i as int]->Ok_0.content@);
                                assert(table.is_read_from(file));
                                assert(is_indexed(table));
                            }
                            let n: u64 = table.order.len() as u64;
                            messages = if messages <= u64::MAX - n {
                                messages + n
                            } else {
                                u64::MAX
                            };
                            sums.push(file.sum);
                            count = count + 1;
                            let ghost grown = held.push(table);
                            let ghost old_steps = steps;
                            let joined: SymbolTable = join_table(merged, table);
                            proof {
                                steps = steps.push(joined);
                                assert(grown.drop_last() =~= held);
                                assert forall|k: int|
                                    #![trigger grown[k]]
                                    0 < k < grown.len() implies is_absorbed(
                                    steps[k - 1],
                                    grown[k],
                                    steps[k],
                                ) by {
                                    if k < held.len() {
                                        assert(held[k] == grown[k]);
                                        assert(is_absorbed(old_steps[k - 1], held[k], old_steps[k]));
                                    }
                                }
                                assert(are_merges(grown, steps));
                            }
                            merged = Some(joined);
                        },
                        Err(e) => {
                            proof {
                                outcome = Err(e);
                            }
                            if first_error.is_none() {
                                first_error = Some(failed_file(path, e.as_str()));
                            }
                        },
                    }
                },
                Err(e) => {
                    if first_error.is_none() {
                        first_error = Some(failed_file(path, e.as_str()));
                    }
                },
            }
        }
        proof {
            outcomes = outcomes.push(outcome);
            lemma_outcomes_extend(paths@, files@, before, outcomes, i as int);
            assert forall|k: int|
                0 <= k < i + 1 && !is_blank(#[trigger] paths@[k]@)
                    && files@[k] is Ok implies dbc::is_loaded(
                files@[k]->Ok_0.content@,
                outcomes[k],
            ) by {
                if k < i {
                    assert(outcomes[k] == before[k]);
                }
            }
        }
    }
    proof {
        let tables = tables_of(paths@, files@, outcomes, total as int);
        if steps.len() > 0 {
            assert(is_merged(tables, steps.last()));
        }
    }
    let r: LoadedFiles = LoadedFiles { table: merged, files: count, messages, sums, first_error };
    assert(r.is_by(paths@, files@, outcomes));
    r
}

/// What the parser reads a text as.
pub open spec fn dbc_source_of(content: Seq<char>) -> can_dbc::Dbc {
    crate::dbc_source::parsed_dbc(content)->Ok_0
}

/// Why a text gives no table, if it gives none: it could not be read, or the parser
/// refuses it.
pub open spec fn refusal(read: Result<String, String>) -> Option<Seq<char>> {
    match read {
        Err(e) => Some(e@),
        Ok(content) => match crate::dbc_source::parsed_dbc(content@) {
            Err(e) => Some("parse error: "@ + e),
            Ok(_) => None,
        },
    }
}

/// The tables are those of the texts, one each.
pub open spec fn are_tables(texts: Seq<Result<String, String>>, tables: Seq<SymbolTable>) -> bool {
    &&& tables.len() == texts.len()
    &&& forall|i: int|
        0 <= i < tables.len() ==> (#[trigger] tables[i]).is_read_from(
            dbc_source_of(texts[i]->Ok_0@),
        )
}

/// The first text that gives no table.
pub open spec fn is_first_refused(texts: Seq<Result<String, String>>, k: int) -> bool {
    &&& 0 <= k < texts.len()
    &&& refusal(texts[k]) is Some
    &&& forall|i: int| 0 <= i < k ==> refusal(#[trigger] texts[i]) is None
}

/// Reads the databases in their order and merges their tables, the earlier one winning.
/// The first that cannot be read ends it.
pub fn merge_databases(paths: &Vec<String>, texts: &Vec<Result<String, String>>) -> (r: Result<
    Option<SymbolTable>,
    String,
>)
    requires
        texts@.len() == paths@.len(),
    ensures
        r is Err == exists|k: int| is_first_refused(texts@, k),
        r matches Err(e) ==> exists|k: int|
            #[trigger] is_first_refused(texts@, k) && e@ == paths@[k]@ + ": "@ + refusal(
                texts@[k],
            )->0,
        r matches Ok(None) ==> texts@.len() == 0,
        r matches Ok(Some(merged)) ==> exists|tables: Seq<SymbolTable>| #[trigger]
            are_tables(texts@, tables) && is_merged(tables, merged),
{
    let mut merged: Option<SymbolTable> = None;
    let ghost mut tables: Seq<SymbolTable> = Seq::empty();
    let ghost mut steps: Seq<SymbolTable> = Seq::empty();
    let total: usize = paths.len();
    for i in 0..total
        invariant
            total == paths@.len(),
            texts@.len() == paths@.len(),
            tables.len() == i,
            forall|k: int|
                0 <= k < i ==> (#[trigger] tables[k]).is_read_from(
                    dbc_source_of(texts@[k]->Ok_0@),
                ),
            forall|k: int| 0 <= k < i ==> refusal(#[trigger] texts@[k]) is None,
            are_merges(tables, steps),
            merged is Some == (steps.len() > 0),
            merged matches Some(m) ==> m == steps.last() && is_indexed(m),
    {
        let path: &str = paths[i].as_str();
        let loaded: Result<SymbolTable, String> = match &texts[i] {
            Ok(content) => load_dbc_str(content.as_str()),
            Err(e) => Err(e.clone()),
        };
        match loaded {
            Ok(table) => {
                let ghost held = tables;
                let ghost old_steps = steps;
                assert(table.is_read_from(dbc_source_of(texts@[i as int]->Ok_0@)));
                assert(is_indexed(table));
                let joined: SymbolTable = join_table(merged, table);
                proof {
                    tables = tables.push(table);
                    steps = steps.push(joined);
                    assert forall|k: int|
                        #![trigger tables[k]]
                        0 < k < tables.len() implies is_absorbed(
                        steps[k - 1],
                        tables[k],
                        steps[k],
                    ) by {
                        if k < held.len() {
                            assert(held[k] == tables[k]);
                            assert(is_absorbed(old_steps[k - 1], held[k], old_steps[k]));
                        }
                    }
                }
                merged = Some(joined);
            },
            Err(e) => {
                let mut line: String = path.to_owned();
                line.append(": ");
                line.append(e.as_str());
                assert(is_first_refused(texts@, i as int));
                return Err(line);
            },
        }
    }
    assert(are_tables(texts@, tables));
    if merged.is_some() {
        assert(is_merged(tables, steps.last()));
    }
    Ok(merged)
}

pub const FNV_BASIS: u64 = 0xcbf2_9ce4_8422_2325;

pub const FNV_PRIME: u64 = 0x100_0000_01b3;

/// The checksum of the first `n` bytes: each byte is mixed in, and the sum is
/// multiplied by the prime, overflow dropped.
pub open spec fn fnv1a(bytes: Seq<u8>, n: int) -> u64
    decreases n,
{
    if n <= 0 {
        FNV_BASIS
    } else {
        vstd::wrapping::u64_specs::wrapping_mul(
            fnv1a(bytes, n - 1) ^ bytes[n - 1] as u64,
            FNV_PRIME,
        )
    }
}

/// FNV-1a content checksum of a file, for noticing edits from outside without
/// parsing it again.
pub fn content_sum(bytes: &[u8]) -> (h: u64)
    ensures
        h == fnv1a(bytes@, bytes@.len() as int),
{
    let mut h: u64 = FNV_BASIS;
    for i in 0..bytes.len()
        invariant
            h == fnv1a(bytes@, i as int),
    {
        h = h ^ (bytes[i] as u64);
        h = h.wrapping_mul(FNV_PRIME);
    }
    h
}

/// Where two databases declare the same message, the merged table has the
/// earlier one's.
pub proof fn law_earlier_database_wins(
    before: SymbolTable,
    extra: SymbolTable,
    after: SymbolTable,
    id: u32,
)
    requires
        is_absorbed(before, extra, after),
    ensures
        before.messages@.dom().contains(id) ==> after.messages@.dom().contains(id)
            && after.messages@[id] == before.messages@[id],
        !before.messages@.dom().contains(id) && extra.messages@.dom().contains(id)
            ==> after.messages@.dom().contains(id) && after.messages@[id] == extra.messages@[id],
        after.messages@.dom().contains(id) == (before.messages@.dom().contains(id)
            || extra.messages@.dom().contains(id)),
{
}

} // verus!
