//! From snapshots of kernel counters to increments of exported counters.
//!
//! A kernel counter is read as an absolute value and may fall back when the
//! firewall is flushed or the host restarts. An exported counter may only
//! grow. The translator remembers, for every combination of metric and
//! labels, the snapshot it saw last, and says by how much the exported
//! counter is to grow for the next one.

use crate::metrics::{label_views, same_labels, sample_views, Metric, Sample, SampleView};
use vstd::prelude::*;

verus! {

/// The identity of an exported value: a metric and a tuple of label values.
pub struct KeyView {
    pub metric: Metric,
    pub labels: Seq<Seq<char>>,
}

/// The increment for a snapshot, given the baseline of its key. The first
/// snapshot of a key counts in full. A snapshot that is not below the baseline
/// counts with its distance from it. A snapshot below the baseline shows a
/// reset: it counts in full, and what was counted between the last snapshot
/// and the reset is lost.
pub open spec fn increment(baseline: Option<u64>, snapshot: u64) -> u64 {
    match baseline {
        None => snapshot,
        Some(b) => if snapshot >= b {
            (snapshot - b) as u64
        } else {
            snapshot
        },
    }
}

/// The baseline of a key, if the key was seen.
pub open spec fn baseline_of(baselines: Map<KeyView, u64>, key: KeyView) -> Option<u64> {
    if baselines.dom().contains(key) {
        Some(baselines[key])
    } else {
        None
    }
}

/// The increment for the snapshot at index `i` of a sequence of snapshots that
/// are fed in order for one key, the first of them to a translator that has
/// not seen the key.
pub open spec fn increment_at(snapshots: Seq<u64>, i: int) -> u64 {
    increment(
        if i == 0 {
            None
        } else {
            Some(snapshots[i - 1])
        },
        snapshots[i],
    )
}

/// The exported value after the first `n` snapshots of a sequence: the sum of
/// their increments.
pub open spec fn exported(snapshots: Seq<u64>, n: int) -> int
    decreases n,
{
    if n <= 0 {
        0
    } else {
        exported(snapshots, n - 1) + increment_at(snapshots, n - 1)
    }
}

/// The exported value never falls: after one more snapshot it is at least
/// what it was. After the first snapshot it is that snapshot. Each later
/// snapshot adds its distance from the one before it where it is not below
/// it, and itself where it is.
pub proof fn lemma_exported_steps(snapshots: Seq<u64>, n: int)
    requires
        0 <= n < snapshots.len(),
    ensures
        exported(snapshots, n) <= exported(snapshots, n + 1),
        n == 0 ==> exported(snapshots, n + 1) == snapshots[0],
        n > 0 && snapshots[n] >= snapshots[n - 1] ==> exported(snapshots, n + 1) == exported(
            snapshots,
            n,
        ) + (snapshots[n] - snapshots[n - 1]),
        n > 0 && snapshots[n] < snapshots[n - 1] ==> exported(snapshots, n + 1) == exported(
            snapshots,
            n,
        ) + snapshots[n],
{
    assert(exported(snapshots, n + 1) == exported(snapshots, n) + increment_at(snapshots, n));
    if n == 0 {
        assert(exported(snapshots, 0) == 0);
    }
}

/// The exported value never falls, over any number of snapshots.
pub proof fn lemma_exported_monotone(snapshots: Seq<u64>, m: int, n: int)
    requires
        0 <= m <= n <= snapshots.len(),
    ensures
        exported(snapshots, m) <= exported(snapshots, n),
    decreases n - m,
{
    if m < n {
        lemma_exported_monotone(snapshots, m, n - 1);
        lemma_exported_steps(snapshots, n - 1);
    }
}

/// While the snapshots never fall, the exported value is the last snapshot.
pub proof fn lemma_exported_without_reset(snapshots: Seq<u64>, n: int)
    requires
        0 < n <= snapshots.len(),
        forall|i: int| 0 < i < n ==> snapshots[i - 1] <= #[trigger] snapshots[i],
    ensures
        exported(snapshots, n) == snapshots[n - 1],
    decreases n,
{
    lemma_exported_steps(snapshots, n - 1);
    if n > 1 {
        lemma_exported_without_reset(snapshots, n - 1);
    }
}

/// The key under which the baseline of a sample is kept.
pub open spec fn key_of(sample: SampleView) -> KeyView {
    KeyView { metric: sample.metric, labels: sample.labels }
}

/// The baselines after a sequence of samples was taken in order. Only the
/// samples of counters leave a baseline.
pub open spec fn baselines_after(baselines: Map<KeyView, u64>, samples: Seq<SampleView>) -> Map<
    KeyView,
    u64,
>
    decreases samples.len(),
{
    if samples.len() == 0 {
        baselines
    } else {
        let before = baselines_after(baselines, samples.drop_last());
        if samples.last().metric.is_counter() {
            before.insert(key_of(samples.last()), samples.last().value)
        } else {
            before
        }
    }
}

/// A key that has a baseline keeps one, whatever samples are taken: the
/// baselines never shrink.
pub proof fn lemma_baselines_never_shrink(
    baselines: Map<KeyView, u64>,
    samples: Seq<SampleView>,
    key: KeyView,
)
    requires
        baselines.dom().contains(key),
    ensures
        baselines_after(baselines, samples).dom().contains(key),
    decreases samples.len(),
{
    if samples.len() > 0 {
        lemma_baselines_never_shrink(baselines, samples.drop_last(), key);
    }
}

/// What a sample becomes when it is taken after the samples before it: the
/// sample of a gauge stays as it is, and the sample of a counter has its
/// snapshot replaced by the increment for it.
pub open spec fn translated_one(baselines: Map<KeyView, u64>, sample: SampleView) -> SampleView {
    if sample.metric.is_counter() {
        SampleView {
            value: increment(baseline_of(baselines, key_of(sample)), sample.value),
            ..sample
        }
    } else {
        sample
    }
}

/// What a sequence of samples becomes when its samples are taken in order.
pub open spec fn translated(baselines: Map<KeyView, u64>, samples: Seq<SampleView>) -> Seq<
    SampleView,
>
    decreases samples.len(),
{
    if samples.len() == 0 {
        Seq::empty()
    } else {
        translated(baselines, samples.drop_last()).push(
            translated_one(baselines_after(baselines, samples.drop_last()), samples.last()),
        )
    }
}

/// The samples of one key with the given snapshots as their values.
pub open spec fn samples_of_key(key: KeyView, snapshots: Seq<u64>) -> Seq<SampleView> {
    Seq::new(
        snapshots.len(),
        |i: int| SampleView { metric: key.metric, labels: key.labels, value: snapshots[i] },
    )
}

/// Snapshots of one counter that are taken in order, the first of them where
/// the key has no baseline, are translated to the increments of which the
/// exported value is the sum, and leave the last snapshot as the baseline.
pub proof fn lemma_translated_for_one_key(
    baselines: Map<KeyView, u64>,
    key: KeyView,
    snapshots: Seq<u64>,
)
    requires
        key.metric.is_counter(),
        !baselines.dom().contains(key),
    ensures
        translated(baselines, samples_of_key(key, snapshots)).len() == snapshots.len(),
        forall|i: int|
            0 <= i < snapshots.len() ==> (#[trigger] translated(
                baselines,
                samples_of_key(key, snapshots),
            )[i]).value == increment_at(snapshots, i),
        baseline_of(baselines_after(baselines, samples_of_key(key, snapshots)), key) == if snapshots.len()
            == 0 {
            None
        } else {
            Some(snapshots.last())
        },
    decreases snapshots.len(),
{
    let samples = samples_of_key(key, snapshots);
    if snapshots.len() > 0 {
        let shorter = snapshots.drop_last();
        assert(samples.drop_last() =~= samples_of_key(key, shorter));
        lemma_translated_for_one_key(baselines, key, shorter);
        assert(key_of(samples.last()) == key);
        let n = snapshots.len() - 1;
        assert forall|i: int| 0 <= i < snapshots.len() implies (#[trigger] translated(
            baselines,
            samples,
        )[i]).value == increment_at(snapshots, i) by {
            if i < n {
                assert(translated(baselines, samples)[i] == translated(
                    baselines,
                    samples.drop_last(),
                )[i]);
                assert(increment_at(snapshots, i) == increment_at(shorter, i));
            } else {
                if n > 0 {
                    assert(shorter.last() == snapshots[n - 1]);
                }
            }
        }
    }
}

/// Translation keeps the metric and the labels of every sample.
pub proof fn lemma_translated_keeps_labels(baselines: Map<KeyView, u64>, samples: Seq<SampleView>)
    ensures
        translated(baselines, samples).len() == samples.len(),
        forall|i: int|
            0 <= i < samples.len() ==> (#[trigger] translated(baselines, samples)[i]).metric
                == samples[i].metric && translated(baselines, samples)[i].labels
                == samples[i].labels,
    decreases samples.len(),
{
    if samples.len() > 0 {
        lemma_translated_keeps_labels(baselines, samples.drop_last());
    }
}

/// A metric with a tuple of label values.
struct MetricKey {
    metric: Metric,
    labels: Vec<String>,
}

impl View for MetricKey {
    type V = KeyView;

    closed spec fn view(&self) -> KeyView {
        KeyView { metric: self.metric, labels: label_views(self.labels@) }
    }
}

/// The baselines of the exported counters: for every key that was seen, the
/// snapshot that was seen last. A key that was seen stays.
pub struct Translator {
    keys: Vec<MetricKey>,
    baselines: Vec<u64>,
}

impl Translator {
    /// The keys, in the order in which they were first seen.
    closed spec fn key_views(&self) -> Seq<KeyView> {
        Seq::new(self.keys@.len(), |i: int| self.keys@[i]@)
    }

    /// Every key has one baseline and stands once.
    pub closed spec fn wf(&self) -> bool {
        &&& self.keys@.len() == self.baselines@.len()
        &&& self.key_views().no_duplicates()
    }

    /// Where the key stands, if it was seen.
    fn position(&self, metric: Metric, labels: &Vec<String>) -> (r: Option<usize>)
        ensures
            match r {
                Some(i) => i < self.keys@.len() && self.key_views()[i as int] == (KeyView {
                    metric,
                    labels: label_views(labels@),
                }),
                None => !self.key_views().contains(KeyView { metric, labels: label_views(labels@) }),
            },
    {
        let ghost key = KeyView { metric, labels: label_views(labels@) };
        let mut i: usize = 0;
        while i < self.keys.len()
            invariant
                i <= self.keys.len(),
                key == (KeyView { metric, labels: label_views(labels@) }),
                forall|j: int| 0 <= j < i ==> self.key_views()[j] != key,
            decreases self.keys.len() - i,
        {
            let same = self.keys[i].metric == metric && same_labels(&self.keys[i].labels, labels);
            assert(same == (self.key_views()[i as int] == key));
            if same {
                return Some(i);
            }
            i = i + 1;
        }
        None
    }
}

impl View for Translator {
    type V = Map<KeyView, u64>;

    closed spec fn view(&self) -> Map<KeyView, u64> {
        Map::new(
            |key: KeyView| self.key_views().contains(key),
            |key: KeyView| self.baselines@[self.key_views().index_of(key)],
        )
    }
}

impl Translator {
    /// A translator that has seen nothing.
    pub fn new() -> (t: Translator)
        ensures
            t.wf(),
            t@ == Map::<KeyView, u64>::empty(),
    {
        let t = Translator { keys: Vec::new(), baselines: Vec::new() };
        assert(t@ =~= Map::<KeyView, u64>::empty());
        t
    }

    /// The number of keys that were seen.
    pub fn len(&self) -> (n: usize)
        requires
            self.wf(),
        ensures
            n == self@.dom().len(),
            self@.dom().finite(),
    {
        proof {
            assert(self@.dom() =~= self.key_views().to_set());
            self.key_views().unique_seq_to_set();
            vstd::seq_lib::seq_to_set_is_finite(self.key_views());
        }
        self.keys.len()
    }

    /// The baseline of a key, if the key was seen.
    pub fn baseline(&self, metric: Metric, labels: &Vec<String>) -> (b: Option<u64>)
        requires
            self.wf(),
        ensures
            b == baseline_of(self@, KeyView { metric, labels: label_views(labels@) }),
    {
        match self.position(metric, labels) {
            Some(i) => {
                proof {
                    let key = KeyView { metric, labels: label_views(labels@) };
                    assert(self.key_views().contains(key));
                    let j = self.key_views().index_of(key);
                    assert(self.key_views()[j] == key);
                }
                Some(self.baselines[i])
            },
            None => None,
        }
    }

    /// Takes the next snapshot of a key and returns the increment of its
    /// exported counter. The snapshot becomes the baseline of the key; no
    /// other key changes.
    pub fn observe(&mut self, metric: Metric, labels: &Vec<String>, snapshot: u64) -> (inc: u64)
        requires
            old(self).wf(),
        ensures
            final(self).wf(),
            inc == increment(
                baseline_of(old(self)@, KeyView { metric, labels: label_views(labels@) }),
                snapshot,
            ),
            final(self)@ == old(self)@.insert(
                KeyView { metric, labels: label_views(labels@) },
                snapshot,
            ),
    {
        let ghost key = KeyView { metric, labels: label_views(labels@) };
        let ghost before = self.key_views();
        match self.position(metric, labels) {
            Some(i) => {
                let b = self.baselines[i];
                proof {
                    assert(before.contains(key));
                    assert(before[before.index_of(key)] == key);
                }
                self.baselines.set(i, snapshot);
                proof {
                    assert(self.key_views() == before);
                    assert forall|k: KeyView| self@.dom().contains(k) implies #[trigger] self@[k]
                        == old(self)@.insert(key, snapshot)[k] by {
                        let j = before.index_of(k);
                        assert(before[j] == k);
                    }
                    assert(self@ =~= old(self)@.insert(key, snapshot));
                }
                if snapshot >= b {
                    snapshot - b
                } else {
                    snapshot
                }
            },
            None => {
                let mut owned: Vec<String> = Vec::new();
                let mut k: usize = 0;
                while k < labels.len()
                    invariant
                        k <= labels.len(),
                        owned@.len() == k,
                        forall|j: int| 0 <= j < k ==> owned@[j]@ == labels@[j]@,
                    decreases labels.len() - k,
                {
                    owned.push(labels[k].clone());
                    k = k + 1;
                }
                assert(label_views(owned@) =~= label_views(labels@));
                self.keys.push(MetricKey { metric, labels: owned });
                self.baselines.push(snapshot);
                proof {
                    let after = self.key_views();
                    assert(after =~= before.push(key));
                    assert forall|a: int, b: int|
                        0 <= a < after.len() && 0 <= b < after.len() && a != b implies after[a]
                        != after[b] by {
                        if a < before.len() && b < before.len() {
                        } else if a < before.len() {
                            assert(before.contains(before[a]));
                        } else {
                            assert(before.contains(before[b]));
                        }
                    }
                    assert forall|k: KeyView| self@.dom().contains(k) <==> old(self)@.insert(
                        key,
                        snapshot,
                    ).dom().contains(k) by {
                        if after.contains(k) {
                            let j = after.index_of(k);
                            assert(after[j] == k);
                            if j < before.len() {
                                assert(before[j] == k);
                            }
                        }
                        if before.contains(k) {
                            let j = before.index_of(k);
                            assert(after[j] == k);
                        }
                        if k == key {
                            assert(after[before.len() as int] == k);
                        }
                    }
                    assert forall|k: KeyView| self@.dom().contains(k) implies #[trigger] self@[k]
                        == old(self)@.insert(key, snapshot)[k] by {
                        let j = after.index_of(k);
                        assert(after[j] == k);
                        if k != key {
                            assert(j < before.len());
                            let j0 = before.index_of(k);
                            assert(before[j] == k);
                            assert(before[j0] == k);
                            assert(after[j0] == k);
                        } else {
                            assert(after[before.len() as int] == k);
                        }
                    }
                    assert(self@ =~= old(self)@.insert(key, snapshot));
                }
                snapshot
            },
        }
    }

    /// Takes a sequence of samples in order. The samples of gauges pass as
    /// they are; the snapshot in the sample of a counter is replaced by the
    /// increment for it and becomes the baseline of its key.
    pub fn translate(&mut self, samples: Vec<Sample>) -> (out: Vec<Sample>)
        requires
            old(self).wf(),
        ensures
            final(self).wf(),
            final(self)@ == baselines_after(old(self)@, sample_views(samples@)),
            sample_views(out@) == translated(old(self)@, sample_views(samples@)),
    {
        let ghost all = sample_views(samples@);
        let n = samples.len();
        let mut out: Vec<Sample> = Vec::new();
        let mut i: usize = 0;
        assert(all.take(0) =~= Seq::<SampleView>::empty());
        assert(sample_views(out@) =~= Seq::<SampleView>::empty());
        for item in it: samples
            invariant
                i == it.index(),
                it.seq().len() == n,
                sample_views(it.seq()) == all,
                self.wf(),
                self@ == baselines_after(old(self)@, all.take(i as int)),
                sample_views(out@) == translated(old(self)@, all.take(i as int)),
        {
            let ghost done = all.take(i as int);
            proof {
                assert(all.take(i + 1).drop_last() =~= done);
                assert(all.take(i + 1).last() == item@);
            }
            let ghost before = sample_views(out@);
            if item.metric.counter() {
                let inc = self.observe(item.metric, &item.labels, item.value);
                let translated_item = Sample { metric: item.metric, labels: item.labels, value: inc };
                out.push(translated_item);
                assert(sample_views(out@) =~= before.push(translated_item@));
            } else {
                out.push(item);
                assert(sample_views(out@) =~= before.push(item@));
            }
            i = i + 1;
        }
        assert(all.take(i as int) =~= all);
        out
    }
}

} // verus!
