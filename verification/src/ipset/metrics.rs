//! What a listing of network sets yields for export.

use crate::ipset::{set_views, IpsetData, IpsetState, SetView};
use crate::metrics::{describe_all, descriptor_views, descriptors_of, Descriptor};
use crate::metrics::{labels1, push_sample, sample, sample_views, samples_fit};
use crate::metrics::{Metric, Sample, SampleView};
use crate::text::{chars_equal, to_chars};
use vstd::prelude::*;

verus! {

/// The name of the scrape target whose listing holds network sets.
pub open spec fn set_target() -> Seq<char> {
    "ipset"@
}

/// The metrics of network sets, in the order in which they are registered.
pub open spec fn set_metrics() -> Seq<Metric> {
    seq![Metric::EntriesTotal, Metric::IpsTotal]
}

/// The samples of the sets of a listing: for every set, in order, the number
/// of its members.
pub open spec fn sets_samples(sets: Seq<SetView>) -> Seq<SampleView> {
    Seq::new(
        sets.len(),
        |i: int| sample(Metric::EntriesTotal, seq![sets[i].name], sets[i].entries.len() as u64),
    )
}

/// What a registry is told of the metrics of network sets before the first
/// scrape.
pub fn set_descriptors() -> (out: Vec<Descriptor>)
    ensures
        descriptor_views(out@) == descriptors_of(set_target(), set_metrics()),
{
    let mut metrics: Vec<Metric> = Vec::new();
    metrics.push(Metric::EntriesTotal);
    metrics.push(Metric::IpsTotal);
    assert(metrics@ =~= set_metrics());
    describe_all("ipset", &metrics)
}

/// The metrics of the target that lists network sets. They are gauges, so
/// nothing is remembered from one scrape to the next.
pub struct TargetMetricsIpset {}

impl TargetMetricsIpset {
    /// Takes the sets of a scrape and returns what is to be written to the
    /// registry: for every set, in order, the number of its members.
    pub fn update(&mut self, state: &IpsetState) -> (out: Vec<Sample>)
        ensures
            sample_views(out@) == sets_samples(state@),
            samples_fit(sample_views(out@)),
    {
        let lists = state.lists();
        let mut out: Vec<Sample> = Vec::new();
        let mut i: usize = 0;
        assert(sample_views(out@) =~= sets_samples(state@).take(0));
        while i < lists.len()
            invariant
                i <= lists.len(),
                set_views(lists@) == state@,
                sample_views(out@) == sets_samples(state@).take(i as int),
            decreases lists.len() - i,
        {
            let list: &IpsetData = &lists[i];
            let ghost before = sample_views(out@);
            push_sample(
                &mut out,
                Metric::EntriesTotal,
                labels1(list.name()),
                list.entries().len() as u64,
            );
            assert(sample_views(out@) =~= sets_samples(state@).take(i + 1));
            i = i + 1;
        }
        assert(sets_samples(state@).take(i as int) =~= sets_samples(state@));
        out
    }
}

/// The metrics of network sets, if network sets are among the scrape targets.
pub struct MetricsIpset {
    target: Option<TargetMetricsIpset>,
}

impl MetricsIpset {
    /// Whether network sets are among the scrape targets.
    pub closed spec fn enabled(&self) -> bool {
        self.target is Some
    }

    /// The metrics for the given scrape targets: those of network sets where
    /// the target of network sets is among them.
    pub fn new(targets: &Vec<String>) -> (m: MetricsIpset)
        ensures
            m.enabled() == exists|i: int| 0 <= i < targets@.len() && targets@[i]@ == set_target(),
    {
        let wanted = to_chars("ipset");
        let mut i: usize = 0;
        while i < targets.len()
            invariant
                i <= targets.len(),
                wanted@ == set_target(),
                forall|j: int| 0 <= j < i ==> targets@[j]@ != set_target(),
            decreases targets.len() - i,
        {
            let name = to_chars(targets[i].as_str());
            if chars_equal(name.as_slice(), wanted.as_slice()) {
                return MetricsIpset { target: Some(TargetMetricsIpset {  }) };
            }
            i = i + 1;
        }
        MetricsIpset { target: None }
    }

    /// Takes the sets of a scrape of a target and returns what is to be
    /// written to the registry for it: the samples of the sets where the
    /// target is the one of network sets and is among the scrape targets, and
    /// nothing otherwise.
    pub fn update(&mut self, target: &str, state: &IpsetState) -> (out: Vec<Sample>)
        ensures
            final(self).enabled() == old(self).enabled(),
            sample_views(out@) == if old(self).enabled() && target@ == set_target() {
                sets_samples(state@)
            } else {
                Seq::<SampleView>::empty()
            },
            samples_fit(sample_views(out@)),
    {
        let name = to_chars(target);
        let wanted = to_chars("ipset");
        if !chars_equal(name.as_slice(), wanted.as_slice()) {
            let out: Vec<Sample> = Vec::new();
            assert(sample_views(out@) =~= Seq::<SampleView>::empty());
            return out;
        }
        match &mut self.target {
            Some(metrics) => metrics.update(state),
            None => {
                let out: Vec<Sample> = Vec::new();
                assert(sample_views(out@) =~= Seq::<SampleView>::empty());
                out
            },
        }
    }
}

} // verus!
