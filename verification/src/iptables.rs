//! The model of a firewall ruleset and the parser of its dump.

pub mod blocks;
pub mod chain;
pub mod counter;
pub mod metrics;
pub mod rule;
pub mod table;

pub use chain::{Chain, Policy};
pub use counter::Counter;
pub use rule::{Comment, Rule};
pub use table::Table;

use crate::error::{MalformedKind, ParseError};
use crate::text::{chars_equal, line_views, lines_of, split_lines, string_from_chars, to_chars};
use table::{table_views, TableView};
use vstd::prelude::*;

verus! {

/// Where a scan stands among the tables of a dump: outside of every table, or
/// inside the table that is open and holds what was read of it so far.
pub enum Place {
    OutsideTable,
    InsideTable(TableView),
}

/// Where a scan of a dump stands: the tables that were closed so far, and the
/// place of the scan.
pub struct ScanView {
    pub tables: Seq<TableView>,
    pub place: Place,
}

impl ScanView {
    /// The state before the first line.
    pub open spec fn start() -> ScanView {
        ScanView { tables: Seq::empty(), place: Place::OutsideTable }
    }

    /// No two chains of a table share a name.
    pub open spec fn wf(self) -> bool {
        &&& forall|i: int| 0 <= i < self.tables.len() ==> (#[trigger] self.tables[i]).wf()
        &&& self.place matches Place::InsideTable(t) ==> t.wf()
    }
}

/// What one line does to a scan. The first character of the line decides:
/// `#` is a remark and changes nothing; `*` opens the table that the rest of
/// the line names; `:` declares a chain of the open table and `[` appends a
/// rule to one of its chains, and both change nothing while no table is open;
/// the line `COMMIT` closes the open table. A table cannot open inside
/// another, nothing can be closed while no table is open, and every other
/// line, the empty one too, is refused.
pub open spec fn step(state: ScanView, line: Seq<char>) -> Result<ScanView, MalformedKind> {
    if line.len() == 0 {
        Err(MalformedKind::UnexpectedToken)
    } else if line[0] == '#' {
        Ok(state)
    } else if line[0] == '*' {
        match state.place {
            Place::InsideTable(_) => Err(MalformedKind::NestedTable),
            Place::OutsideTable => Ok(
                ScanView { place: Place::InsideTable(TableView::empty(line.skip(1))), ..state },
            ),
        }
    } else if line[0] == ':' {
        match state.place {
            Place::OutsideTable => Ok(state),
            Place::InsideTable(table) => match table.with_chain_line(line) {
                Err(kind) => Err(kind),
                Ok(t) => Ok(ScanView { place: Place::InsideTable(t), ..state }),
            },
        }
    } else if line[0] == '[' {
        match state.place {
            Place::OutsideTable => Ok(state),
            Place::InsideTable(table) => match table.with_rule_line(line) {
                Err(kind) => Err(kind),
                Ok(t) => Ok(ScanView { place: Place::InsideTable(t), ..state }),
            },
        }
    } else if line == "COMMIT"@ {
        match state.place {
            Place::OutsideTable => Err(MalformedKind::StrayCommit),
            Place::InsideTable(table) => Ok(
                ScanView { tables: state.tables.push(table), place: Place::OutsideTable },
            ),
        }
    } else {
        Err(MalformedKind::UnexpectedToken)
    }
}

/// The scan of a sequence of lines from the first to the last. It stops at
/// the first line that is refused and reports that line's number, counted
/// from one.
pub open spec fn scan(lines: Seq<Seq<char>>) -> Result<ScanView, ParseError>
    decreases lines.len(),
{
    if lines.len() == 0 {
        Ok(ScanView::start())
    } else {
        match scan(lines.drop_last()) {
            Err(e) => Err(e),
            Ok(state) => match step(state, lines.last()) {
                Err(kind) => Err(ParseError::MalformedInput { line: lines.len() as usize, kind }),
                Ok(next) => Ok(next),
            },
        }
    }
}

/// The tables that a dump describes. A dump that ends while a table is open
/// describes nothing: it is truncated.
pub open spec fn ruleset_of(text: Seq<char>) -> Result<Seq<TableView>, ParseError> {
    match scan(lines_of(text)) {
        Err(e) => Err(e),
        Ok(state) => if state.place is InsideTable {
            Err(ParseError::TruncatedInput)
        } else {
            Ok(state.tables)
        },
    }
}

/// A line keeps the chain names of every table distinct.
pub proof fn lemma_step_wf(state: ScanView, line: Seq<char>)
    requires
        state.wf(),
        step(state, line) is Ok,
    ensures
        step(state, line)->Ok_0.wf(),
{
    let next = step(state, line)->Ok_0;
    if line[0] == '#' {
    } else if line[0] == '*' {
        assert(TableView::empty(line.skip(1)).chain_names() =~= Seq::<Seq<char>>::empty());
    } else if line[0] == ':' {
        if let Place::InsideTable(table) = state.place {
            table::lemma_with_chain_wf(table, crate::iptables::chain::chain_of_line(line)->Ok_0);
        }
    } else if line[0] == '[' {
        if let Place::InsideTable(table) = state.place {
            table::lemma_with_rule_wf(table, crate::iptables::rule::rule_of_line(line)->Ok_0);
        }
    } else {
        let table = state.place->InsideTable_0;
        assert forall|i: int| 0 <= i < next.tables.len() implies (#[trigger] next.tables[i]).wf() by {
            if i < state.tables.len() {
                assert(next.tables[i] == state.tables[i]);
            }
        }
    }
}

/// In every table that a scan has closed or holds open, the chain names are
/// distinct.
pub proof fn lemma_scan_wf(lines: Seq<Seq<char>>)
    requires
        scan(lines) is Ok,
    ensures
        scan(lines)->Ok_0.wf(),
    decreases lines.len(),
{
    if lines.len() > 0 {
        lemma_scan_wf(lines.drop_last());
        lemma_step_wf(scan(lines.drop_last())->Ok_0, lines.last());
    }
}

/// A scan that has refused a line refuses every text that goes on from there,
/// for the same reason.
pub proof fn lemma_scan_error_stays(lines: Seq<Seq<char>>, k: int)
    requires
        0 <= k <= lines.len(),
        scan(lines.take(k)) is Err,
    ensures
        scan(lines) == scan(lines.take(k)),
    decreases lines.len() - k,
{
    if k == lines.len() {
        assert(lines.take(k) =~= lines);
    } else {
        assert(lines.take(k + 1).drop_last() =~= lines.take(k));
        lemma_scan_error_stays(lines, k + 1);
    }
}

/// Parsing is a function of the text: two states that were parsed from the
/// same text, each into an empty state, hold the same tables.
pub proof fn lemma_reparse_agrees(text: Seq<char>, first: IptablesState, second: IptablesState)
    requires
        ruleset_of(text) == Ok::<Seq<TableView>, ParseError>(first@),
        ruleset_of(text) == Ok::<Seq<TableView>, ParseError>(second@),
    ensures
        first@ == second@,
{
}

/// No table of a parsed ruleset declares a chain twice, so the number of its
/// chains is the number of distinct chain names declared in it.
pub proof fn lemma_chains_are_distinct_names(text: Seq<char>, i: int)
    requires
        ruleset_of(text) is Ok,
        0 <= i < ruleset_of(text)->Ok_0.len(),
    ensures
        ruleset_of(text)->Ok_0[i].wf(),
        ruleset_of(text)->Ok_0[i].chain_names().to_set().len() == ruleset_of(text)->Ok_0[i].chains.len(),
{
    lemma_scan_wf(lines_of(text));
    let table = ruleset_of(text)->Ok_0[i];
    assert(table.wf());
    table.chain_names().unique_seq_to_set();
}

/// The place of a scan as it runs.
enum ScanPlace {
    OutsideTable,
    InsideTable(Table),
}

/// The scan of a dump as it runs.
struct Scanner {
    tables: Vec<Table>,
    place: ScanPlace,
}

impl View for Scanner {
    type V = ScanView;

    closed spec fn view(&self) -> ScanView {
        ScanView {
            tables: table_views(self.tables@),
            place: match self.place {
                ScanPlace::InsideTable(t) => Place::InsideTable(t@),
                ScanPlace::OutsideTable => Place::OutsideTable,
            },
        }
    }
}

impl Scanner {
    /// Takes one line.
    fn feed(&mut self, line: &[char]) -> (r: Result<(), MalformedKind>)
        ensures
            match step(old(self)@, line@) {
                Ok(next) => r is Ok && final(self)@ == next,
                Err(kind) => r == Err::<(), MalformedKind>(kind),
            },
    {
        if line.len() == 0 {
            return Err(MalformedKind::UnexpectedToken);
        }
        let first = line[0];
        if first == '#' {
            Ok(())
        } else if first == '*' {
            if let ScanPlace::InsideTable(_) = &self.place {
                return Err(MalformedKind::NestedTable);
            }
            let name = &line[1..line.len()];
            assert(name@ == line@.skip(1));
            self.place = ScanPlace::InsideTable(Table::with_name(string_from_chars(name)));
            Ok(())
        } else if first == ':' {
            match &mut self.place {
                ScanPlace::OutsideTable => Ok(()),
                ScanPlace::InsideTable(table) => table.add_chain_line(line),
            }
        } else if first == '[' {
            match &mut self.place {
                ScanPlace::OutsideTable => Ok(()),
                ScanPlace::InsideTable(table) => table.add_rule_line(line),
            }
        } else {
            let commit = to_chars("COMMIT");
            if !chars_equal(line, commit.as_slice()) {
                return Err(MalformedKind::UnexpectedToken);
            }
            let mut place = ScanPlace::OutsideTable;
            core::mem::swap(&mut self.place, &mut place);
            match place {
                ScanPlace::OutsideTable => Err(MalformedKind::StrayCommit),
                ScanPlace::InsideTable(table) => {
                    self.tables.push(table);
                    assert(self@.tables =~= old(self)@.tables.push(table@));
                    Ok(())
                },
            }
        }
    }
}

/// The rulesets that were parsed for one firewall family.
#[derive(Clone, Debug, PartialEq, Eq)]
pub struct IptablesState {
    tables: Vec<Table>,
}

impl View for IptablesState {
    type V = Seq<TableView>;

    closed spec fn view(&self) -> Seq<TableView> {
        table_views(self.tables@)
    }
}

impl IptablesState {
    /// No two chains of a table share a name.
    pub open spec fn wf(&self) -> bool {
        forall|i: int| 0 <= i < self@.len() ==> (#[trigger] self@[i]).wf()
    }

    /// A state without tables.
    pub fn new() -> (s: IptablesState)
        ensures
            s@ == Seq::<TableView>::empty(),
            s.wf(),
    {
        let s = IptablesState { tables: Vec::new() };
        assert(s@ =~= Seq::<TableView>::empty());
        s
    }

    /// The tables, in the order in which they were closed.
    pub fn tables(&self) -> (t: &Vec<Table>)
        ensures
            table_views(t@) == self@,
    {
        &self.tables
    }

    /// Parses the dump of a ruleset and adds its tables to the state. A dump
    /// that is malformed or truncated adds nothing: the state stays as it was.
    pub fn parse(&mut self, text: &str) -> (r: Result<(), ParseError>)
        ensures
            match ruleset_of(text@) {
                Ok(tables) => r is Ok && final(self)@ == old(self)@ + tables,
                Err(e) => r == Err::<(), ParseError>(e) && final(self)@ == old(self)@,
            },
            old(self).wf() ==> final(self).wf(),
    {
        let chars = to_chars(text);
        let lines = split_lines(chars.as_slice());
        let ghost all = line_views(lines@);
        let mut scanner = Scanner { tables: Vec::new(), place: ScanPlace::OutsideTable };
        assert(scanner@.tables =~= Seq::<TableView>::empty());
        assert(all.take(0) =~= Seq::<Seq<char>>::empty());
        let mut i: usize = 0;
        while i < lines.len()
            invariant
                i <= lines.len(),
                all == line_views(lines@),
                all == lines_of(text@),
                scan(all.take(i as int)) == Ok::<ScanView, ParseError>(scanner@),
            decreases lines.len() - i,
        {
            proof {
                assert(all.take(i + 1).drop_last() =~= all.take(i as int));
                assert(all.take(i + 1).last() == lines@[i as int]@);
            }
            match scanner.feed(lines[i].as_slice()) {
                Ok(()) => {},
                Err(kind) => {
                    proof {
                        lemma_scan_error_stays(all, i + 1);
                    }
                    return Err(ParseError::MalformedInput { line: i + 1, kind });
                },
            }
            i = i + 1;
        }
        proof {
            assert(all.take(i as int) =~= all);
            lemma_scan_wf(all);
        }
        if let ScanPlace::InsideTable(_) = &scanner.place {
            return Err(ParseError::TruncatedInput);
        }
        let mut closed = scanner.tables;
        self.tables.append(&mut closed);
        proof {
            assert(self@ =~= old(self)@ + scanner@.tables);
            if old(self).wf() {
                assert forall|k: int| 0 <= k < self@.len() implies (#[trigger] self@[k]).wf() by {
                    if k < old(self)@.len() {
                        assert(self@[k] == old(self)@[k]);
                    } else {
                        assert(self@[k] == scanner@.tables[k - old(self)@.len()]);
                    }
                }
            }
        }
        Ok(())
    }
}

} // verus!
