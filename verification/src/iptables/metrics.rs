//! What a ruleset yields for export.

use crate::iptables::chain::{chain_views, Chain, ChainView};
use crate::iptables::rule::{rule_views, Rule, RuleView};
use crate::iptables::table::{table_views, Table, TableView};
use crate::iptables::IptablesState;
use crate::metrics::translator::{baselines_after, translated, KeyView, Translator};
use crate::metrics::translator::lemma_translated_keeps_labels;
use crate::metrics::{describe_all, descriptor_views, descriptors_of, Descriptor};
use crate::metrics::{labels1, labels2, labels3, push_sample, sample, sample_views};
use crate::metrics::{samples_fit, Metric, Sample, SampleView};
use crate::text::first_index;
use crate::text::{lemma_first_index_absent, lemma_first_index_found};
use vstd::prelude::*;

verus! {

/// The samples of a rule: its packets and its bytes, and, where the rule has
/// a comment, the packets and bytes of the comment.
pub open spec fn rule_samples(table: Seq<char>, chain: Seq<char>, rule: RuleView) -> Seq<
    SampleView,
> {
    let own = seq![
        sample(Metric::RulePacketsTotal, seq![table, chain, rule.rule], rule.counter.packets),
        sample(Metric::RuleBytesTotal, seq![table, chain, rule.rule], rule.counter.bytes),
    ];
    match rule.comment {
        None => own,
        Some(c) => own + seq![
            sample(Metric::CommentPacketsTotal, seq![table, chain, c.comment], c.counter.packets),
            sample(Metric::CommentBytesTotal, seq![table, chain, c.comment], c.counter.bytes),
        ],
    }
}

/// The samples of the rules of a chain, rule after rule.
pub open spec fn rules_samples(table: Seq<char>, chain: Seq<char>, rules: Seq<RuleView>) -> Seq<
    SampleView,
>
    decreases rules.len(),
{
    if rules.len() == 0 {
        Seq::empty()
    } else {
        rules_samples(table, chain, rules.drop_last()) + rule_samples(table, chain, rules.last())
    }
}

/// The samples of a chain: its bytes, its packets and the number of its
/// rules, and then the samples of its rules.
pub open spec fn chain_samples(table: Seq<char>, chain: ChainView) -> Seq<SampleView> {
    seq![
        sample(Metric::ChainBytesTotal, seq![table, chain.name], chain.counter.bytes),
        sample(Metric::ChainPacketsTotal, seq![table, chain.name], chain.counter.packets),
        sample(Metric::RulesTotal, seq![table, chain.name], chain.rules.len() as u64),
    ] + rules_samples(table, chain.name, chain.rules)
}

/// The samples of the chains of a table, chain after chain.
pub open spec fn chains_samples(table: Seq<char>, chains: Seq<ChainView>) -> Seq<SampleView>
    decreases chains.len(),
{
    if chains.len() == 0 {
        Seq::empty()
    } else {
        chains_samples(table, chains.drop_last()) + chain_samples(table, chains.last())
    }
}

/// The samples of a table: the number of its chains, and then the samples of
/// its chains.
pub open spec fn table_samples(table: TableView) -> Seq<SampleView> {
    seq![sample(Metric::ChainsTotal, seq![table.name], table.chains.len() as u64)]
        + chains_samples(table.name, table.chains)
}

/// The samples of a ruleset, table after table. Counters carry the snapshots
/// that were read.
pub open spec fn ruleset_samples(tables: Seq<TableView>) -> Seq<SampleView>
    decreases tables.len(),
{
    if tables.len() == 0 {
        Seq::empty()
    } else {
        ruleset_samples(tables.drop_last()) + table_samples(tables.last())
    }
}

/// Every sample of a rule has as many label values as its metric has names.
pub proof fn lemma_rule_samples_fit(table: Seq<char>, chain: Seq<char>, rule: RuleView)
    ensures
        samples_fit(rule_samples(table, chain, rule)),
{
}

/// Every sample of the rules of a chain has as many label values as its
/// metric has names.
pub proof fn lemma_rules_samples_fit(table: Seq<char>, chain: Seq<char>, rules: Seq<RuleView>)
    ensures
        samples_fit(rules_samples(table, chain, rules)),
    decreases rules.len(),
{
    if rules.len() > 0 {
        lemma_rules_samples_fit(table, chain, rules.drop_last());
        lemma_rule_samples_fit(table, chain, rules.last());
    }
}

/// Every sample of the chains of a table has as many label values as its
/// metric has names.
pub proof fn lemma_chains_samples_fit(table: Seq<char>, chains: Seq<ChainView>)
    ensures
        samples_fit(chains_samples(table, chains)),
    decreases chains.len(),
{
    if chains.len() > 0 {
        lemma_chains_samples_fit(table, chains.drop_last());
        lemma_rules_samples_fit(table, chains.last().name, chains.last().rules);
    }
}

/// Every sample of a ruleset has as many label values as its metric has
/// names.
pub proof fn lemma_ruleset_samples_fit(tables: Seq<TableView>)
    ensures
        samples_fit(ruleset_samples(tables)),
    decreases tables.len(),
{
    if tables.len() > 0 {
        lemma_ruleset_samples_fit(tables.drop_last());
        lemma_chains_samples_fit(tables.last().name, tables.last().chains);
    }
}

/// The first sample of a table is the gauge of its chains, and its value is
/// the number of chains of the table.
pub proof fn lemma_chains_total(table: TableView)
    ensures
        table_samples(table)[0] == sample(
            Metric::ChainsTotal,
            seq![table.name],
            table.chains.len() as u64,
        ),
{
}

/// Adds the samples of a rule.
fn push_rule_samples(out: &mut Vec<Sample>, table: &str, chain: &str, rule: &Rule)
    ensures
        sample_views(final(out)@) == sample_views(old(out)@) + rule_samples(table@, chain@, rule@),
{
    let ghost start = sample_views(out@);
    push_sample(
        out,
        Metric::RulePacketsTotal,
        labels3(table, chain, rule.rule.as_str()),
        rule.counter.packets,
    );
    push_sample(
        out,
        Metric::RuleBytesTotal,
        labels3(table, chain, rule.rule.as_str()),
        rule.counter.bytes,
    );
    match &rule.comment {
        None => {},
        Some(c) => {
            push_sample(
                out,
                Metric::CommentPacketsTotal,
                labels3(table, chain, c.comment.as_str()),
                c.counter.packets,
            );
            push_sample(
                out,
                Metric::CommentBytesTotal,
                labels3(table, chain, c.comment.as_str()),
                c.counter.bytes,
            );
        },
    }
    assert(sample_views(out@) =~= start + rule_samples(table@, chain@, rule@));
}

/// Adds the samples of a chain.
fn push_chain_samples(out: &mut Vec<Sample>, table: &str, chain: &Chain)
    ensures
        sample_views(final(out)@) == sample_views(old(out)@) + chain_samples(table@, chain@),
{
    let ghost start = sample_views(out@);
    let name = chain.name.as_str();
    push_sample(out, Metric::ChainBytesTotal, labels2(table, name), chain.counter.bytes);
    push_sample(out, Metric::ChainPacketsTotal, labels2(table, name), chain.counter.packets);
    push_sample(out, Metric::RulesTotal, labels2(table, name), chain.rules.len() as u64);
    let ghost head = sample_views(out@);
    let ghost rules = chain@.rules;
    let mut i: usize = 0;
    assert(rules.take(0) =~= Seq::<RuleView>::empty());
    assert(head + Seq::<SampleView>::empty() =~= head);
    while i < chain.rules.len()
        invariant
            i <= chain.rules.len(),
            rules == rule_views(chain.rules@),
            name@ == chain@.name,
            sample_views(out@) == head + rules_samples(table@, chain@.name, rules.take(i as int)),
        decreases chain.rules.len() - i,
    {
        let ghost before = sample_views(out@);
        push_rule_samples(out, table, name, &chain.rules[i]);
        proof {
            assert(rules.take(i + 1).drop_last() =~= rules.take(i as int));
            assert(rules.take(i + 1).last() == chain.rules@[i as int]@);
            assert(sample_views(out@) =~= head + rules_samples(
                table@,
                chain@.name,
                rules.take(i + 1),
            ));
        }
        i = i + 1;
    }
    assert(rules.take(i as int) =~= rules);
    assert(sample_views(out@) =~= start + chain_samples(table@, chain@));
}

/// Adds the samples of a table.
fn push_table_samples(out: &mut Vec<Sample>, table: &Table)
    ensures
        sample_views(final(out)@) == sample_views(old(out)@) + table_samples(table@),
{
    let ghost start = sample_views(out@);
    let name = table.name();
    let chains = table.chains();
    push_sample(out, Metric::ChainsTotal, labels1(name), chains.len() as u64);
    let ghost head = sample_views(out@);
    let ghost all = table@.chains;
    let mut i: usize = 0;
    assert(all.take(0) =~= Seq::<ChainView>::empty());
    assert(head + Seq::<SampleView>::empty() =~= head);
    while i < chains.len()
        invariant
            i <= chains.len(),
            all == chain_views(chains@),
            all == table@.chains,
            name@ == table@.name,
            sample_views(out@) == head + chains_samples(table@.name, all.take(i as int)),
        decreases chains.len() - i,
    {
        push_chain_samples(out, name, &chains[i]);
        proof {
            assert(all.take(i + 1).drop_last() =~= all.take(i as int));
            assert(all.take(i + 1).last() == chains@[i as int]@);
            assert(sample_views(out@) =~= head + chains_samples(table@.name, all.take(i + 1)));
        }
        i = i + 1;
    }
    assert(all.take(i as int) =~= all);
    assert(sample_views(out@) =~= start + table_samples(table@));
}

/// Walks a ruleset and yields its samples: for every table the number of its
/// chains; for every chain its bytes, its packets and the number of its rules;
/// for every rule its packets and bytes and those of its comment. Counters
/// carry the snapshots that were read.
pub fn observe_ruleset(state: &IptablesState) -> (out: Vec<Sample>)
    ensures
        sample_views(out@) == ruleset_samples(state@),
        samples_fit(sample_views(out@)),
{
    let tables = state.tables();
    let ghost all = state@;
    let mut out: Vec<Sample> = Vec::new();
    let mut i: usize = 0;
    assert(all.take(0) =~= Seq::<TableView>::empty());
    assert(sample_views(out@) =~= Seq::<SampleView>::empty());
    while i < tables.len()
        invariant
            i <= tables.len(),
            all == table_views(tables@),
            sample_views(out@) == ruleset_samples(all.take(i as int)),
        decreases tables.len() - i,
    {
        push_table_samples(&mut out, &tables[i]);
        proof {
            assert(all.take(i + 1).drop_last() =~= all.take(i as int));
            assert(all.take(i + 1).last() == tables@[i as int]@);
        }
        i = i + 1;
    }
    proof {
        assert(all.take(i as int) =~= all);
        lemma_ruleset_samples_fit(all);
    }
    out
}

/// The metrics of a ruleset, in the order in which they are registered.
pub open spec fn ruleset_metrics() -> Seq<Metric> {
    seq![
        Metric::ChainBytesTotal,
        Metric::ChainPacketsTotal,
        Metric::CommentBytesTotal,
        Metric::CommentPacketsTotal,
        Metric::RuleBytesTotal,
        Metric::RulePacketsTotal,
        Metric::RulesTotal,
        Metric::ChainsTotal,
    ]
}

/// What a registry is told of the metrics of a ruleset target before the
/// first scrape.
pub fn ruleset_descriptors(target: &str) -> (out: Vec<Descriptor>)
    ensures
        descriptor_views(out@) == descriptors_of(target@, ruleset_metrics()),
{
    let mut metrics: Vec<Metric> = Vec::new();
    metrics.push(Metric::ChainBytesTotal);
    metrics.push(Metric::ChainPacketsTotal);
    metrics.push(Metric::CommentBytesTotal);
    metrics.push(Metric::CommentPacketsTotal);
    metrics.push(Metric::RuleBytesTotal);
    metrics.push(Metric::RulePacketsTotal);
    metrics.push(Metric::RulesTotal);
    metrics.push(Metric::ChainsTotal);
    assert(metrics@ =~= ruleset_metrics());
    describe_all(target, &metrics)
}

/// The exported counters of one ruleset target: what was seen of them last.
pub struct TargetMetricsIptables {
    translator: Translator,
}

impl View for TargetMetricsIptables {
    type V = Map<KeyView, u64>;

    closed spec fn view(&self) -> Map<KeyView, u64> {
        self.translator@
    }
}

impl TargetMetricsIptables {
    /// The baselines are in order.
    pub closed spec fn wf(&self) -> bool {
        self.translator.wf()
    }

    /// The metrics of a target that was never scraped.
    pub fn new() -> (t: TargetMetricsIptables)
        ensures
            t.wf(),
            t@ == Map::<KeyView, u64>::empty(),
    {
        TargetMetricsIptables { translator: Translator::new() }
    }

    /// Takes the ruleset of a scrape and returns what is to be written to the
    /// registry, in the order of the walk: for every gauge the value to set,
    /// for every counter the increment to add. The snapshots of the scrape
    /// become the baselines of the next one.
    pub fn update(&mut self, state: &IptablesState) -> (out: Vec<Sample>)
        requires
            old(self).wf(),
        ensures
            final(self).wf(),
            final(self)@ == baselines_after(old(self)@, ruleset_samples(state@)),
            sample_views(out@) == translated(old(self)@, ruleset_samples(state@)),
            samples_fit(sample_views(out@)),
    {
        let snapshots = observe_ruleset(state);
        proof {
            lemma_translated_keeps_labels(self@, ruleset_samples(state@));
        }
        self.translator.translate(snapshots)
    }
}

/// The exported counters of the ruleset targets, by the name of the target.
pub struct MetricsIptables {
    names: Vec<String>,
    targets: Vec<TargetMetricsIptables>,
}

impl MetricsIptables {
    /// The names of the targets, in the order in which they were given.
    pub closed spec fn names(&self) -> Seq<Seq<char>> {
        Seq::new(self.names@.len(), |i: int| self.names@[i]@)
    }

    /// The baselines of the target at an index.
    pub closed spec fn baselines(&self, i: int) -> Map<KeyView, u64> {
        self.targets@[i]@
    }

    /// Every target has its baselines, and they are in order.
    pub closed spec fn wf(&self) -> bool {
        &&& self.names@.len() == self.targets@.len()
        &&& forall|i: int| 0 <= i < self.targets@.len() ==> (#[trigger] self.targets@[i]).wf()
    }

    /// The metrics of the given targets, none of which was scraped yet.
    pub fn new(targets: &Vec<String>) -> (m: MetricsIptables)
        ensures
            m.wf(),
            m.names() == Seq::new(targets@.len(), |i: int| targets@[i]@),
            forall|i: int| 0 <= i < targets@.len() ==> m.baselines(i) == Map::<KeyView, u64>::empty(),
    {
        let mut names: Vec<String> = Vec::new();
        let mut metrics: Vec<TargetMetricsIptables> = Vec::new();
        let mut i: usize = 0;
        while i < targets.len()
            invariant
                i <= targets.len(),
                names@.len() == i,
                metrics@.len() == i,
                forall|j: int| 0 <= j < i ==> (#[trigger] names@[j])@ == targets@[j]@,
                forall|j: int|
                    0 <= j < i ==> (#[trigger] metrics@[j]).wf() && metrics@[j]@ == Map::<
                        KeyView,
                        u64,
                    >::empty(),
            decreases targets.len() - i,
        {
            names.push(targets[i].clone());
            metrics.push(TargetMetricsIptables::new());
            i = i + 1;
        }
        let m = MetricsIptables { names, targets: metrics };
        assert(m.names() =~= Seq::new(targets@.len(), |i: int| targets@[i]@));
        m
    }

    /// Where the target of that name stands.
    fn position(&self, target: &str) -> (r: Option<usize>)
        requires
            self.wf(),
        ensures
            match r {
                Some(i) => first_index(self.names(), target@) == Some(i as int) && i
                    < self.targets@.len(),
                None => first_index(self.names(), target@) is None,
            },
    {
        let wanted = target.to_owned();
        let mut i: usize = 0;
        while i < self.names.len()
            invariant
                i <= self.names.len(),
                wanted@ == target@,
                self.wf(),
                forall|j: int| 0 <= j < i ==> self.names()[j] != target@,
            decreases self.names.len() - i,
        {
            if self.names[i] == wanted {
                proof {
                    assert(self.names()[i as int] == target@);
                    lemma_first_index_found(self.names(), target@, i as int);
                }
                return Some(i);
            }
            assert(self.names()[i as int] == self.names@[i as int]@);
            i = i + 1;
        }
        proof {
            lemma_first_index_absent(self.names(), target@);
        }
        None
    }

    /// Takes the ruleset of a scrape of one target and returns what is to be
    /// written to the registry for it. For a name that is not among the
    /// targets nothing is returned and nothing changes. Where a name stands
    /// twice among the targets, the first one is meant.
    pub fn update(&mut self, target: &str, state: &IptablesState) -> (out: Vec<Sample>)
        requires
            old(self).wf(),
        ensures
            final(self).wf(),
            final(self).names() == old(self).names(),
            match first_index(old(self).names(), target@) {
                None => out@.len() == 0 && forall|j: int|
                    0 <= j < old(self).names().len() ==> final(self).baselines(j) == old(
                        self,
                    ).baselines(j),
                Some(i) => {
                    &&& sample_views(out@) == translated(
                        old(self).baselines(i),
                        ruleset_samples(state@),
                    )
                    &&& final(self).baselines(i) == baselines_after(
                        old(self).baselines(i),
                        ruleset_samples(state@),
                    )
                    &&& forall|j: int|
                        0 <= j < old(self).names().len() && j != i ==> final(self).baselines(j)
                            == old(self).baselines(j)
                },
            },
            samples_fit(sample_views(out@)),
    {
        match self.position(target) {
            None => Vec::new(),
            Some(i) => {
                proof {
                    crate::text::lemma_first_index_props(self.names(), target@);
                }
                let out = self.targets[i].update(state);
                out
            },
        }
    }
}

} // verus!
