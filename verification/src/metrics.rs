//! The metrics that are exported, and the samples that a scrape yields.

pub mod scrapes;
pub mod translator;

use crate::text::{string_from_chars, to_chars};
use vstd::prelude::*;

verus! {

/// The metrics that are exported for a scrape target.
#[derive(Clone, Copy, Debug, PartialEq, Eq, Hash, Structural)]
pub enum Metric {
    /// The number of chains of a table.
    ChainsTotal,
    /// The number of rules of a chain.
    RulesTotal,
    /// The bytes that went through a chain.
    ChainBytesTotal,
    /// The packets that went through a chain.
    ChainPacketsTotal,
    /// The bytes that matched a rule.
    RuleBytesTotal,
    /// The packets that matched a rule.
    RulePacketsTotal,
    /// The bytes that matched a comment of a rule.
    CommentBytesTotal,
    /// The packets that matched a comment of a rule.
    CommentPacketsTotal,
    /// The number of members of a network set.
    EntriesTotal,
    /// The usable addresses of a network set.
    IpsTotal,
}

impl Metric {
    /// Whether the metric is a counter: a value that only grows, fed with the
    /// increments between snapshots. The other metrics are gauges, set to the
    /// value of each scrape.
    pub open spec fn is_counter(self) -> bool {
        match self {
            Metric::ChainsTotal | Metric::RulesTotal | Metric::EntriesTotal | Metric::IpsTotal => false,
            _ => true,
        }
    }

    /// Whether the metric is a counter.
    pub fn counter(&self) -> (b: bool)
        ensures
            b == self.is_counter(),
    {
        match self {
            Metric::ChainsTotal | Metric::RulesTotal | Metric::EntriesTotal | Metric::IpsTotal => false,
            _ => true,
        }
    }
}

impl Metric {
    /// The name of the metric, without the prefix of its scrape target.
    pub open spec fn name(self) -> Seq<char> {
        match self {
            Metric::ChainsTotal => "chains_total"@,
            Metric::RulesTotal => "rules_total"@,
            Metric::ChainBytesTotal => "chain_bytes_total"@,
            Metric::ChainPacketsTotal => "chain_packets_total"@,
            Metric::RuleBytesTotal => "rule_bytes_total"@,
            Metric::RulePacketsTotal => "rule_packets_total"@,
            Metric::CommentBytesTotal => "comment_bytes_total"@,
            Metric::CommentPacketsTotal => "comment_packets_total"@,
            Metric::EntriesTotal => "entries_total"@,
            Metric::IpsTotal => "ips_total"@,
        }
    }

    /// The names of the labels of the metric, in the order of their values.
    pub open spec fn label_names(self) -> Seq<Seq<char>> {
        match self {
            Metric::ChainsTotal => seq!["table"@],
            Metric::RulesTotal | Metric::ChainBytesTotal | Metric::ChainPacketsTotal => seq![
                "table"@,
                "chain"@,
            ],
            Metric::RuleBytesTotal | Metric::RulePacketsTotal => seq!["table"@, "chain"@, "rule"@],
            Metric::CommentBytesTotal | Metric::CommentPacketsTotal => seq![
                "table"@,
                "chain"@,
                "comment"@,
            ],
            Metric::EntriesTotal | Metric::IpsTotal => seq!["list"@],
        }
    }

    /// The name of the metric, without the prefix of its scrape target.
    pub fn name_str(&self) -> (s: &'static str)
        ensures
            s@ == self.name(),
    {
        match self {
            Metric::ChainsTotal => "chains_total",
            Metric::RulesTotal => "rules_total",
            Metric::ChainBytesTotal => "chain_bytes_total",
            Metric::ChainPacketsTotal => "chain_packets_total",
            Metric::RuleBytesTotal => "rule_bytes_total",
            Metric::RulePacketsTotal => "rule_packets_total",
            Metric::CommentBytesTotal => "comment_bytes_total",
            Metric::CommentPacketsTotal => "comment_packets_total",
            Metric::EntriesTotal => "entries_total",
            Metric::IpsTotal => "ips_total",
        }
    }

    /// What the metric measures, in a sentence for its readers.
    pub open spec fn help_text(self) -> Seq<char> {
        match self {
            Metric::ChainsTotal => "Total number of chains in a table"@,
            Metric::RulesTotal => "Total number of rules in a chain in a table"@,
            Metric::ChainBytesTotal => "Total bytes flowing through a given chain"@,
            Metric::ChainPacketsTotal => "Total packets flowing through a given chain"@,
            Metric::RuleBytesTotal => "Total bytes matching a given rule"@,
            Metric::RulePacketsTotal => "Total packets matching a given rule"@,
            Metric::CommentBytesTotal => "Total bytes matching a given comment inside a rule"@,
            Metric::CommentPacketsTotal => "Total packets matching a given comment inside a rule"@,
            Metric::EntriesTotal => "Total number of entries in the ipset"@,
            Metric::IpsTotal => "Total number individual IPs"@,
        }
    }

    /// What the metric measures, in a sentence for its readers.
    pub fn help(&self) -> (s: &'static str)
        ensures
            s@ == self.help_text(),
    {
        match self {
            Metric::ChainsTotal => "Total number of chains in a table",
            Metric::RulesTotal => "Total number of rules in a chain in a table",
            Metric::ChainBytesTotal => "Total bytes flowing through a given chain",
            Metric::ChainPacketsTotal => "Total packets flowing through a given chain",
            Metric::RuleBytesTotal => "Total bytes matching a given rule",
            Metric::RulePacketsTotal => "Total packets matching a given rule",
            Metric::CommentBytesTotal => "Total bytes matching a given comment inside a rule",
            Metric::CommentPacketsTotal => "Total packets matching a given comment inside a rule",
            Metric::EntriesTotal => "Total number of entries in the ipset",
            Metric::IpsTotal => "Total number individual IPs",
        }
    }

    /// The names of the labels of the metric, in the order of their values.
    pub fn label_names_vec(&self) -> (names: Vec<String>)
        ensures
            label_views(names@) == self.label_names(),
    {
        match self {
            Metric::ChainsTotal => labels1("table"),
            Metric::RulesTotal | Metric::ChainBytesTotal | Metric::ChainPacketsTotal => labels2(
                "table",
                "chain",
            ),
            Metric::RuleBytesTotal | Metric::RulePacketsTotal => labels3("table", "chain", "rule"),
            Metric::CommentBytesTotal | Metric::CommentPacketsTotal => labels3(
                "table",
                "chain",
                "comment",
            ),
            Metric::EntriesTotal | Metric::IpsTotal => labels1("list"),
        }
    }
}

/// A tuple of one label value.
pub fn labels1(a: &str) -> (v: Vec<String>)
    ensures
        label_views(v@) == seq![a@],
{
    let mut v: Vec<String> = Vec::new();
    v.push(a.to_owned());
    assert(label_views(v@) =~= seq![a@]);
    v
}

/// A tuple of two label values.
pub fn labels2(a: &str, b: &str) -> (v: Vec<String>)
    ensures
        label_views(v@) == seq![a@, b@],
{
    let mut v: Vec<String> = Vec::new();
    v.push(a.to_owned());
    v.push(b.to_owned());
    assert(label_views(v@) =~= seq![a@, b@]);
    v
}

/// A tuple of three label values.
pub fn labels3(a: &str, b: &str, c: &str) -> (v: Vec<String>)
    ensures
        label_views(v@) == seq![a@, b@, c@],
{
    let mut v: Vec<String> = Vec::new();
    v.push(a.to_owned());
    v.push(b.to_owned());
    v.push(c.to_owned());
    assert(label_views(v@) =~= seq![a@, b@, c@]);
    v
}

/// What the strings of a vector hold, in order.
pub open spec fn label_views(labels: Seq<String>) -> Seq<Seq<char>> {
    Seq::new(labels.len(), |i: int| labels[i]@)
}

/// One value of one metric for one combination of labels. For a gauge the
/// value is what the gauge is set to. For a counter it is the snapshot that
/// was read, until the translator has taken the sample, and the increment to
/// add from there on.
#[derive(Clone, Debug, PartialEq, Eq)]
pub struct Sample {
    pub metric: Metric,
    pub labels: Vec<String>,
    pub value: u64,
}

/// What a `Sample` holds.
pub struct SampleView {
    pub metric: Metric,
    pub labels: Seq<Seq<char>>,
    pub value: u64,
}

impl View for Sample {
    type V = SampleView;

    open spec fn view(&self) -> SampleView {
        SampleView { metric: self.metric, labels: label_views(self.labels@), value: self.value }
    }
}

/// What the samples of a vector hold, in order.
pub open spec fn sample_views(samples: Seq<Sample>) -> Seq<SampleView> {
    Seq::new(samples.len(), |i: int| samples[i]@)
}

/// The prefix of the metric names of a scrape target: the name of the
/// target with an underscore in place of every hyphen.
pub open spec fn metric_prefix(target: Seq<char>) -> Seq<char> {
    Seq::new(
        target.len(),
        |i: int|
            if target[i] == '-' {
                '_'
            } else {
                target[i]
            },
    )
}

/// The name under which a metric of a scrape target is exported: the prefix
/// of the target, an underscore and the name of the metric.
pub open spec fn full_name(target: Seq<char>, metric: Metric) -> Seq<char> {
    metric_prefix(target) + seq!['_'] + metric.name()
}

/// The name under which a metric of a scrape target is exported.
pub fn full_metric_name(target: &str, metric: Metric) -> (s: String)
    ensures
        s@ == full_name(target@, metric),
{
    let chars = to_chars(target);
    let mut out: Vec<char> = Vec::new();
    let mut i: usize = 0;
    while i < chars.len()
        invariant
            i <= chars.len(),
            chars@ == target@,
            out@ == metric_prefix(target@).take(i as int),
        decreases chars.len() - i,
    {
        let c = chars[i];
        out.push(if c == '-' {
            '_'
        } else {
            c
        });
        assert(out@ =~= metric_prefix(target@).take(i + 1));
        i = i + 1;
    }
    assert(out@ =~= metric_prefix(target@));
    out.push('_');
    let mut name = to_chars(metric.name_str());
    out.append(&mut name);
    assert(out@ =~= full_name(target@, metric));
    string_from_chars(out.as_slice())
}

/// What a registry is told of a metric before the first sample: its kind, its
/// full name, its help text and the names of its labels.
#[derive(Clone, Debug, PartialEq, Eq)]
pub struct Descriptor {
    pub metric: Metric,
    pub name: String,
    pub help: String,
    pub label_names: Vec<String>,
}

/// What a `Descriptor` holds.
pub struct DescriptorView {
    pub metric: Metric,
    pub name: Seq<char>,
    pub help: Seq<char>,
    pub label_names: Seq<Seq<char>>,
}

impl View for Descriptor {
    type V = DescriptorView;

    open spec fn view(&self) -> DescriptorView {
        DescriptorView {
            metric: self.metric,
            name: self.name@,
            help: self.help@,
            label_names: label_views(self.label_names@),
        }
    }
}

/// The descriptor of a metric of a scrape target.
pub open spec fn descriptor_of(target: Seq<char>, metric: Metric) -> DescriptorView {
    DescriptorView {
        metric,
        name: full_name(target, metric),
        help: metric.help_text(),
        label_names: metric.label_names(),
    }
}

/// The descriptors of a sequence of metrics of a scrape target, in order.
pub open spec fn descriptors_of(target: Seq<char>, metrics: Seq<Metric>) -> Seq<DescriptorView> {
    Seq::new(metrics.len(), |i: int| descriptor_of(target, metrics[i]))
}

/// What the descriptors of a vector hold, in order.
pub open spec fn descriptor_views(descriptors: Seq<Descriptor>) -> Seq<DescriptorView> {
    Seq::new(descriptors.len(), |i: int| descriptors[i]@)
}

/// The descriptor of a metric of a scrape target.
pub fn describe(target: &str, metric: Metric) -> (d: Descriptor)
    ensures
        d@ == descriptor_of(target@, metric),
{
    Descriptor {
        metric,
        name: full_metric_name(target, metric),
        help: metric.help().to_owned(),
        label_names: metric.label_names_vec(),
    }
}

/// The descriptors of some metrics of a scrape target, in the order of the
/// metrics.
pub fn describe_all(target: &str, metrics: &Vec<Metric>) -> (out: Vec<Descriptor>)
    ensures
        descriptor_views(out@) == descriptors_of(target@, metrics@),
{
    let mut out: Vec<Descriptor> = Vec::new();
    let mut i: usize = 0;
    while i < metrics.len()
        invariant
            i <= metrics.len(),
            out@.len() == i,
            forall|j: int| 0 <= j < i ==> (#[trigger] out@[j])@ == descriptor_of(target@, metrics@[j]),
        decreases metrics.len() - i,
    {
        out.push(describe(target, metrics[i]));
        i = i + 1;
    }
    assert(descriptor_views(out@) =~= descriptors_of(target@, metrics@));
    out
}

/// The value that a gauge is set to for a count: the count, or the largest
/// value of a gauge where the count is larger.
pub open spec fn gauge_value(count: u64) -> i64 {
    if count > i64::MAX {
        i64::MAX
    } else {
        count as i64
    }
}

/// The value that a gauge is set to for a count.
pub fn gauge_value_of(count: u64) -> (v: i64)
    ensures
        v == gauge_value(count),
{
    if count > i64::MAX as u64 {
        i64::MAX
    } else {
        count as i64
    }
}

/// The sample of a metric for a tuple of label values.
pub open spec fn sample(metric: Metric, labels: Seq<Seq<char>>, value: u64) -> SampleView {
    SampleView { metric, labels, value }
}

/// Every sample has as many label values as its metric has label names.
pub open spec fn samples_fit(samples: Seq<SampleView>) -> bool {
    forall|i: int|
        0 <= i < samples.len() ==> (#[trigger] samples[i]).labels.len()
            == samples[i].metric.label_names().len()
}

/// Adds a sample at the end of a vector.
pub fn push_sample(out: &mut Vec<Sample>, metric: Metric, labels: Vec<String>, value: u64)
    ensures
        sample_views(final(out)@) == sample_views(old(out)@).push(
            sample(metric, label_views(labels@), value),
        ),
{
    out.push(Sample { metric, labels, value });
    assert(sample_views(out@) =~= sample_views(old(out)@).push(
        sample(metric, label_views(labels@), value),
    ));
}

/// Tells whether two label tuples are the same.
pub fn same_labels(a: &Vec<String>, b: &Vec<String>) -> (r: bool)
    ensures
        r == (label_views(a@) == label_views(b@)),
{
    if a.len() != b.len() {
        assert(label_views(a@).len() != label_views(b@).len());
        return false;
    }
    let mut i: usize = 0;
    while i < a.len()
        invariant
            i <= a.len(),
            a.len() == b.len(),
            forall|j: int| 0 <= j < i ==> a@[j]@ == b@[j]@,
        decreases a.len() - i,
    {
        if a[i] != b[i] {
            assert(label_views(a@)[i as int] != label_views(b@)[i as int]);
            return false;
        }
        i = i + 1;
    }
    assert(label_views(a@) =~= label_views(b@));
    true
}

} // verus!
