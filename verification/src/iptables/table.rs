//! Tables: named groups of chains, in the order of their declaration.

use crate::error::MalformedKind;
use crate::iptables::chain::{chain_of_line, chain_views, parse_chain_line, Chain, ChainView};
use crate::iptables::rule::{parse_rule_line, rule_of_line, rule_views, RuleLine, RuleLineView};
use crate::text::{first_index, to_chars};
use crate::text::{lemma_first_index_absent, lemma_first_index_found, lemma_first_index_props};
use vstd::prelude::*;

verus! {

/// A named group of chains. No two chains of a table share a name, and the
/// chains stay in the order in which they were declared.
#[derive(Clone, Debug, PartialEq, Eq)]
pub struct Table {
    name: String,
    chains: Vec<Chain>,
}

/// What a `Table` holds.
pub struct TableView {
    pub name: Seq<char>,
    pub chains: Seq<ChainView>,
}

impl TableView {
    /// The table of that name without chains.
    pub open spec fn empty(name: Seq<char>) -> TableView {
        TableView { name, chains: Seq::empty() }
    }

    /// The names of the chains, in order.
    pub open spec fn chain_names(self) -> Seq<Seq<char>> {
        Seq::new(self.chains.len(), |i: int| self.chains[i].name)
    }

    /// No two chains share a name.
    pub open spec fn wf(self) -> bool {
        self.chain_names().no_duplicates()
    }

    /// The table with `chain` declared after the chains it has, unless a
    /// chain of that name is there already.
    pub open spec fn with_chain(self, chain: ChainView) -> Result<TableView, MalformedKind> {
        match first_index(self.chain_names(), chain.name) {
            Some(_) => Err(MalformedKind::DuplicateChain),
            None => Ok(TableView { chains: self.chains.push(chain), ..self }),
        }
    }

    /// The table with the rule appended to the chain that the line names,
    /// unless the table declares no such chain.
    pub open spec fn with_rule(self, line: RuleLineView) -> Result<TableView, MalformedKind> {
        match first_index(self.chain_names(), line.chain) {
            None => Err(MalformedKind::UnknownChain),
            Some(i) => Ok(
                TableView {
                    chains: self.chains.update(i, self.chains[i].with_rule(line.rule)),
                    ..self
                },
            ),
        }
    }

    /// The table after a chain declaration.
    pub open spec fn with_chain_line(self, line: Seq<char>) -> Result<TableView, MalformedKind> {
        match chain_of_line(line) {
            Err(kind) => Err(kind),
            Ok(chain) => self.with_chain(chain),
        }
    }

    /// The table after a rule line.
    pub open spec fn with_rule_line(self, line: Seq<char>) -> Result<TableView, MalformedKind> {
        match rule_of_line(line) {
            Err(kind) => Err(kind),
            Ok(parsed) => self.with_rule(parsed),
        }
    }
}

impl View for Table {
    type V = TableView;

    closed spec fn view(&self) -> TableView {
        TableView { name: self.name@, chains: chain_views(self.chains@) }
    }
}

/// What the tables of a vector hold, in order.
pub open spec fn table_views(tables: Seq<Table>) -> Seq<TableView> {
    Seq::new(tables.len(), |i: int| tables[i]@)
}

/// Declaring a chain keeps the names of a table distinct.
pub proof fn lemma_with_chain_wf(table: TableView, chain: ChainView)
    requires
        table.wf(),
        table.with_chain(chain) is Ok,
    ensures
        table.with_chain(chain)->Ok_0.wf(),
        table.with_chain(chain)->Ok_0.chain_names() == table.chain_names().push(chain.name),
{
    let after = table.with_chain(chain)->Ok_0;
    lemma_first_index_props(table.chain_names(), chain.name);
    assert(after.chain_names() =~= table.chain_names().push(chain.name));
}

/// Appending a rule changes neither the names of the chains nor their order.
pub proof fn lemma_with_rule_wf(table: TableView, line: RuleLineView)
    requires
        table.with_rule(line) is Ok,
    ensures
        table.with_rule(line)->Ok_0.chain_names() == table.chain_names(),
        table.with_rule(line)->Ok_0.chains.len() == table.chains.len(),
{
    let after = table.with_rule(line)->Ok_0;
    lemma_first_index_props(table.chain_names(), line.chain);
    assert(after.chain_names() =~= table.chain_names());
}

impl Table {
    /// A table of that name without chains.
    pub fn new(name: &str) -> (t: Table)
        ensures
            t@ == TableView::empty(name@),
    {
        Table::with_name(name.to_owned())
    }

    /// A table of that name without chains.
    pub fn with_name(name: String) -> (t: Table)
        ensures
            t@ == TableView::empty(name@),
    {
        let t = Table { name, chains: Vec::new() };
        assert(t@.chains =~= Seq::<ChainView>::empty());
        t
    }

    /// The name of the table.
    pub fn name(&self) -> (s: &str)
        ensures
            s@ == self@.name,
    {
        self.name.as_str()
    }

    /// The chains of the table, in the order of their declaration.
    pub fn chains(&self) -> (c: &Vec<Chain>)
        ensures
            chain_views(c@) == self@.chains,
    {
        &self.chains
    }

    /// The place of the chain of that name.
    pub fn position(&self, name: &String) -> (r: Option<usize>)
        ensures
            match r {
                Some(i) => first_index(self@.chain_names(), name@) == Some(i as int),
                None => first_index(self@.chain_names(), name@) is None,
            },
    {
        let ghost names = self@.chain_names();
        let mut i: usize = 0;
        while i < self.chains.len()
            invariant
                i <= self.chains.len(),
                names == self@.chain_names(),
                names.len() == self.chains.len(),
                forall|j: int| 0 <= j < i ==> names[j] != name@,
            decreases self.chains.len() - i,
        {
            if self.chains[i].name == *name {
                proof {
                    assert(names[i as int] == self.chains@[i as int]@.name);
                    lemma_first_index_found(names, name@, i as int);
                }
                return Some(i);
            }
            assert(names[i as int] == self.chains@[i as int]@.name);
            i = i + 1;
        }
        proof {
            lemma_first_index_absent(names, name@);
        }
        None
    }

    /// Declares a chain after the chains that the table has. A chain whose
    /// name the table has already is refused, and the table stays as it is.
    pub fn add_chain(&mut self, chain: Chain) -> (r: Result<(), MalformedKind>)
        ensures
            match old(self)@.with_chain(chain@) {
                Ok(t) => r is Ok && final(self)@ == t,
                Err(kind) => r == Err::<(), MalformedKind>(kind) && final(self)@ == old(self)@,
            },
            old(self)@.wf() ==> final(self)@.wf(),
    {
        match self.position(&chain.name) {
            Some(_) => Err(MalformedKind::DuplicateChain),
            None => {
                proof {
                    if old(self)@.wf() {
                        lemma_with_chain_wf(old(self)@, chain@);
                    }
                }
                self.chains.push(chain);
                assert(self@.chains =~= old(self)@.chains.push(chain@));
                Ok(())
            },
        }
    }

    /// Appends a rule to the chain that the line names. Where the table
    /// declares no such chain the rule is refused, and the table stays as it
    /// is.
    pub fn add_rule(&mut self, line: RuleLine) -> (r: Result<(), MalformedKind>)
        ensures
            match old(self)@.with_rule(line@) {
                Ok(t) => r is Ok && final(self)@ == t,
                Err(kind) => r == Err::<(), MalformedKind>(kind) && final(self)@ == old(self)@,
            },
            old(self)@.wf() ==> final(self)@.wf(),
    {
        match self.position(&line.chain) {
            None => Err(MalformedKind::UnknownChain),
            Some(i) => {
                proof {
                    lemma_first_index_props(old(self)@.chain_names(), line@.chain);
                    lemma_with_rule_wf(old(self)@, line@);
                }
                let ghost before = self.chains@[i as int]@;
                self.chains[i].rules.push(line.rule);
                proof {
                    assert(self.chains@[i as int]@.rules =~= before.rules.push(line@.rule));
                    assert(self.chains@[i as int]@ == before.with_rule(line@.rule));
                    assert(self@.chains =~= old(self)@.chains.update(
                        i as int,
                        before.with_rule(line@.rule),
                    ));
                }
                Ok(())
            },
        }
    }

    /// Reads a chain declaration and declares the chain.
    pub fn add_chain_line(&mut self, line: &[char]) -> (r: Result<(), MalformedKind>)
        ensures
            match old(self)@.with_chain_line(line@) {
                Ok(t) => r is Ok && final(self)@ == t,
                Err(kind) => r == Err::<(), MalformedKind>(kind) && final(self)@ == old(self)@,
            },
            old(self)@.wf() ==> final(self)@.wf(),
    {
        match parse_chain_line(line) {
            Err(kind) => Err(kind),
            Ok(chain) => self.add_chain(chain),
        }
    }

    /// Reads a rule line and appends the rule to its chain.
    pub fn add_rule_line(&mut self, line: &[char]) -> (r: Result<(), MalformedKind>)
        ensures
            match old(self)@.with_rule_line(line@) {
                Ok(t) => r is Ok && final(self)@ == t,
                Err(kind) => r == Err::<(), MalformedKind>(kind) && final(self)@ == old(self)@,
            },
            old(self)@.wf() ==> final(self)@.wf(),
    {
        match parse_rule_line(line) {
            Err(kind) => Err(kind),
            Ok(parsed) => self.add_rule(parsed),
        }
    }

    /// Reads a chain declaration of the form `:name POLICY [packets:bytes]`
    /// and declares the chain.
    pub fn parse_chain(&mut self, line: &str) -> (r: Result<(), MalformedKind>)
        ensures
            match old(self)@.with_chain_line(line@) {
                Ok(t) => r is Ok && final(self)@ == t,
                Err(kind) => r == Err::<(), MalformedKind>(kind) && final(self)@ == old(self)@,
            },
            old(self)@.wf() ==> final(self)@.wf(),
    {
        let chars = to_chars(line);
        self.add_chain_line(chars.as_slice())
    }

    /// Reads a rule line of the form `[packets:bytes] -A chain ...` and
    /// appends the rule to its chain.
    pub fn parse_rule(&mut self, line: &str) -> (r: Result<(), MalformedKind>)
        ensures
            match old(self)@.with_rule_line(line@) {
                Ok(t) => r is Ok && final(self)@ == t,
                Err(kind) => r == Err::<(), MalformedKind>(kind) && final(self)@ == old(self)@,
            },
            old(self)@.wf() ==> final(self)@.wf(),
    {
        let chars = to_chars(line);
        self.add_rule_line(chars.as_slice())
    }
}

} // verus!
