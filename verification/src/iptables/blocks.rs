//! How the tables of a parsed ruleset relate to the lines of its dump.
//!
//! Every table of a ruleset comes from one block of the dump: the line that
//! opens it, the lines up to the one that closes it, and nothing else. The
//! chains of the table are the chains that the block declares, once each.

use crate::iptables::chain::chain_of_line;
use crate::iptables::rule::rule_of_line;
use crate::iptables::table::{lemma_with_chain_wf, lemma_with_rule_wf, TableView};
use crate::iptables::{ruleset_of, scan, step, Place, ScanView};
use crate::text::lines_of;
use vstd::prelude::*;

verus! {

/// The line declares a chain of that name.
pub open spec fn declares(line: Seq<char>, name: Seq<char>) -> bool {
    &&& line.len() > 0
    &&& line[0] == ':'
    &&& chain_of_line(line) matches Ok(chain)
    &&& chain.name == name
}

/// The names of the chains that the lines from `from` up to, and without,
/// `to` declare.
pub open spec fn declared_names(lines: Seq<Seq<char>>, from: int, to: int) -> Set<Seq<char>> {
    Set::new(
        |name: Seq<char>| exists|i: int| from <= i < to && #[trigger] declares(lines[i], name),
    )
}

/// The line is a remark, a chain declaration or a rule.
pub open spec fn is_inner_line(line: Seq<char>) -> bool {
    line.len() > 0 && (line[0] == '#' || line[0] == ':' || line[0] == '[')
}

/// `table` is what the block of `lines` holds that opens at line `from` and
/// runs up to, and without, line `to`: the line at `from` opens a table of
/// its name, the lines after it are remarks, chains and rules, and the chains
/// of the table are the chains that these lines declare, each of them once.
pub open spec fn is_block(lines: Seq<Seq<char>>, table: TableView, from: int, to: int) -> bool {
    &&& 0 <= from < to <= lines.len()
    &&& lines[from].len() > 0
    &&& lines[from][0] == '*'
    &&& table.name == lines[from].skip(1)
    &&& forall|i: int| from < i < to ==> is_inner_line(#[trigger] lines[i])
    &&& table.wf()
    &&& table.chain_names().to_set() == declared_names(lines, from + 1, to)
}

/// `table` is what the block from `from` to `to` holds, and the line at `to`
/// closes it.
pub open spec fn is_closed_block(lines: Seq<Seq<char>>, table: TableView, from: int, to: int) -> bool {
    &&& is_block(lines, table, from, to)
    &&& to < lines.len()
    &&& lines[to] == "COMMIT"@
}

/// `table` comes from a block that is closed before line `n`.
pub open spec fn closed_before(lines: Seq<Seq<char>>, table: TableView, n: int) -> bool {
    exists|from: int, to: int| #[trigger] is_closed_block(lines, table, from, to) && to < n
}

/// `table` comes from a block that runs up to line `n`.
pub open spec fn open_until(lines: Seq<Seq<char>>, table: TableView, n: int) -> bool {
    exists|from: int| #[trigger] is_block(lines, table, from, n)
}

/// Every table of a scan of the first `n` lines comes from a block of them.
pub open spec fn blocks_hold(lines: Seq<Seq<char>>, n: int, state: ScanView) -> bool {
    &&& forall|k: int|
        0 <= k < state.tables.len() ==> closed_before(lines, #[trigger] state.tables[k], n)
    &&& state.place matches Place::InsideTable(table) ==> open_until(lines, table, n)
}

/// A line that is no chain declaration adds nothing to the declared names.
proof fn lemma_declared_names_stay(lines: Seq<Seq<char>>, from: int, n: int)
    requires
        0 <= from < n <= lines.len(),
        lines[n - 1].len() == 0 || lines[n - 1][0] != ':',
    ensures
        declared_names(lines, from, n) == declared_names(lines, from, n - 1),
{
    assert forall|name: Seq<char>|
        declared_names(lines, from, n).contains(name) <==> declared_names(
            lines,
            from,
            n - 1,
        ).contains(name) by {
        if declared_names(lines, from, n).contains(name) {
            let i = choose|i: int| from <= i < n && #[trigger] declares(lines[i], name);
            assert(i != n - 1);
            assert(from <= i < n - 1 && declares(lines[i], name));
        }
        if declared_names(lines, from, n - 1).contains(name) {
            let i = choose|i: int| from <= i < n - 1 && #[trigger] declares(lines[i], name);
            assert(from <= i < n && declares(lines[i], name));
        }
    }
    assert(declared_names(lines, from, n) =~= declared_names(lines, from, n - 1));
}

/// A chain declaration adds its name to the declared names.
proof fn lemma_declared_names_grow(lines: Seq<Seq<char>>, from: int, n: int, added: Seq<char>)
    requires
        0 <= from < n <= lines.len(),
        declares(lines[n - 1], added),
    ensures
        declared_names(lines, from, n) == declared_names(lines, from, n - 1).insert(added),
{
    assert forall|name: Seq<char>|
        declared_names(lines, from, n).contains(name) <==> declared_names(
            lines,
            from,
            n - 1,
        ).insert(added).contains(name) by {
        if declared_names(lines, from, n).contains(name) {
            let i = choose|i: int| from <= i < n && #[trigger] declares(lines[i], name);
            if i != n - 1 {
                assert(from <= i < n - 1 && declares(lines[i], name));
            }
        }
        if declared_names(lines, from, n - 1).contains(name) {
            let i = choose|i: int| from <= i < n - 1 && #[trigger] declares(lines[i], name);
            assert(from <= i < n && declares(lines[i], name));
        }
        if name == added {
            assert(from <= n - 1 < n && declares(lines[n - 1], name));
        }
    }
    assert(declared_names(lines, from, n) =~= declared_names(lines, from, n - 1).insert(added));
}

/// The set of the elements of a sequence with one more element at its end.
proof fn lemma_push_to_set(names: Seq<Seq<char>>, added: Seq<char>)
    ensures
        names.push(added).to_set() == names.to_set().insert(added),
{
    let longer = names.push(added);
    assert forall|name: Seq<char>| longer.to_set().contains(name) <==> names.to_set().insert(
        added,
    ).contains(name) by {
        if longer.contains(name) {
            let i = choose|i: int| 0 <= i < longer.len() && longer[i] == name;
            if i < names.len() {
                assert(names[i] == name);
            }
        }
        if names.contains(name) {
            let i = choose|i: int| 0 <= i < names.len() && names[i] == name;
            assert(longer[i] == name);
        }
        if name == added {
            assert(longer[names.len() as int] == name);
        }
    }
    assert(longer.to_set() =~= names.to_set().insert(added));
}

/// A block that runs up to a line runs on over that line where the line is
/// accepted as a remark, a chain or a rule.
proof fn lemma_block_grows(lines: Seq<Seq<char>>, n: int, table: TableView, from: int)
    requires
        0 < n <= lines.len(),
        is_block(lines, table, from, n - 1),
        is_inner_line(lines[n - 1]),
        step(ScanView { tables: Seq::empty(), place: Place::InsideTable(table) }, lines[n - 1])
            is Ok,
    ensures
        step(
            ScanView { tables: Seq::empty(), place: Place::InsideTable(table) },
            lines[n - 1],
        )->Ok_0.place matches Place::InsideTable(next) && is_block(lines, next, from, n),
{
    let line = lines[n - 1];
    let next = step(
        ScanView { tables: Seq::empty(), place: Place::InsideTable(table) },
        line,
    )->Ok_0.place->InsideTable_0;
    assert forall|i: int| from < i < n implies is_inner_line(#[trigger] lines[i]) by {}
    if line[0] == '#' {
        lemma_declared_names_stay(lines, from + 1, n);
    } else if line[0] == ':' {
        let chain = chain_of_line(line)->Ok_0;
        lemma_with_chain_wf(table, chain);
        lemma_push_to_set(table.chain_names(), chain.name);
        assert(declares(line, chain.name));
        lemma_declared_names_grow(lines, from + 1, n, chain.name);
    } else {
        lemma_with_rule_wf(table, rule_of_line(line)->Ok_0);
        lemma_declared_names_stay(lines, from + 1, n);
    }
}

/// Every table of a scan comes from a block of the lines that were scanned.
pub proof fn lemma_scan_blocks(lines: Seq<Seq<char>>, n: int)
    requires
        0 <= n <= lines.len(),
        scan(lines.take(n)) is Ok,
    ensures
        blocks_hold(lines, n, scan(lines.take(n))->Ok_0),
    decreases n,
{
    if n > 0 {
        assert(lines.take(n).drop_last() =~= lines.take(n - 1));
        assert(lines.take(n).last() == lines[n - 1]);
        lemma_scan_blocks(lines, n - 1);
        let before = scan(lines.take(n - 1))->Ok_0;
        let line = lines[n - 1];
        let after = scan(lines.take(n))->Ok_0;
        assert(step(before, line) == Ok::<ScanView, crate::error::MalformedKind>(after));
        assert forall|k: int| 0 <= k < after.tables.len() implies closed_before(
            lines,
            #[trigger] after.tables[k],
            n,
        ) by {
            if k < before.tables.len() {
                assert(after.tables[k] == before.tables[k]);
                assert(closed_before(lines, before.tables[k], n - 1));
                let (from, to) = choose|from: int, to: int| #[trigger]
                    is_closed_block(lines, before.tables[k], from, to) && to < n - 1;
                assert(is_closed_block(lines, after.tables[k], from, to) && to < n);
            } else {
                let table = before.place->InsideTable_0;
                assert(after.tables[k] == table);
                let from = choose|from: int| #[trigger] is_block(lines, table, from, n - 1);
                assert(is_closed_block(lines, table, from, n - 1) && n - 1 < n);
            }
        }
        if let Place::InsideTable(next) = after.place {
            if line[0] == '*' {
                assert(next.chain_names() =~= Seq::<Seq<char>>::empty());
                assert(next.chain_names().to_set() =~= declared_names(lines, n, n));
                assert(is_block(lines, next, n - 1, n));
            } else if line[0] == '#' || line[0] == ':' || line[0] == '[' {
                let table = before.place->InsideTable_0;
                let from = choose|from: int| #[trigger] is_block(lines, table, from, n - 1);
                lemma_block_grows(lines, n, table, from);
                assert(is_block(lines, next, from, n));
            }
        }
    }
}

/// The number of chains of a table of a parsed ruleset is the number of
/// distinct chain names that its block of the dump declares: the table comes
/// from a block that a `COMMIT` line closes, and its chains are the chains
/// that the lines of the block declare, each of them once.
pub proof fn lemma_chains_of_table_are_declared_names(text: Seq<char>, k: int)
    requires
        ruleset_of(text) is Ok,
        0 <= k < ruleset_of(text)->Ok_0.len(),
    ensures
        exists|from: int, to: int| #[trigger]
            is_closed_block(lines_of(text), ruleset_of(text)->Ok_0[k], from, to)
                && ruleset_of(text)->Ok_0[k].chains.len() == declared_names(
                lines_of(text),
                from + 1,
                to,
            ).len(),
{
    let lines = lines_of(text);
    let table = ruleset_of(text)->Ok_0[k];
    assert(lines.take(lines.len() as int) =~= lines);
    lemma_scan_blocks(lines, lines.len() as int);
    assert(closed_before(lines, table, lines.len() as int));
    let (from, to) = choose|from: int, to: int| #[trigger]
        is_closed_block(lines, table, from, to) && to < lines.len();
    table.chain_names().unique_seq_to_set();
    assert(is_closed_block(lines, table, from, to) && table.chains.len() == declared_names(
        lines,
        from + 1,
        to,
    ).len());
}

} // verus!
