//! What successive scrapes add up to.
//!
//! Every scrape hands its samples to the translator and gets back, for every
//! counter, the increment to add. The exported value of a counter is the sum
//! of what the scrapes so far gave back for its key. The laws of this file
//! say what that sum is, whatever else the scrapes hold besides the key.

use crate::metrics::translator::{baseline_of, baselines_after, exported, increment};
use crate::metrics::translator::{increment_at, key_of, translated, translated_one, KeyView};
use crate::metrics::SampleView;
use vstd::prelude::*;

verus! {

/// The values of the samples of a key among some samples, in order.
pub open spec fn values_of(samples: Seq<SampleView>, key: KeyView) -> Seq<u64>
    decreases samples.len(),
{
    if samples.len() == 0 {
        Seq::empty()
    } else if key_of(samples.last()) == key {
        values_of(samples.drop_last(), key).push(samples.last().value)
    } else {
        values_of(samples.drop_last(), key)
    }
}

/// The sum of some values.
pub open spec fn total(values: Seq<u64>) -> int
    decreases values.len(),
{
    if values.len() == 0 {
        0
    } else {
        total(values.drop_last()) + values.last()
    }
}

/// The last of some snapshots, or the baseline before them where there are
/// none.
pub open spec fn last_or(baseline: Option<u64>, snapshots: Seq<u64>) -> Option<u64> {
    if snapshots.len() == 0 {
        baseline
    } else {
        Some(snapshots.last())
    }
}

/// The increments for some snapshots of one key that are taken in order, the
/// first of them against the given baseline and each later one against the
/// snapshot before it.
pub open spec fn increments_from(baseline: Option<u64>, snapshots: Seq<u64>) -> Seq<u64> {
    Seq::new(
        snapshots.len(),
        |i: int|
            increment(
                if i == 0 {
                    baseline
                } else {
                    Some(snapshots[i - 1])
                },
                snapshots[i],
            ),
    )
}

/// The baselines after some scrapes, each of which handed its samples to the
/// translator in turn.
pub open spec fn baselines_after_scrapes(
    baselines: Map<KeyView, u64>,
    scrapes: Seq<Seq<SampleView>>,
) -> Map<KeyView, u64>
    decreases scrapes.len(),
{
    if scrapes.len() == 0 {
        baselines
    } else {
        baselines_after(baselines_after_scrapes(baselines, scrapes.drop_last()), scrapes.last())
    }
}

/// What the last of some scrapes got back from the translator.
pub open spec fn returned_by_last(baselines: Map<KeyView, u64>, scrapes: Seq<Seq<SampleView>>) -> Seq<
    SampleView,
> {
    translated(baselines_after_scrapes(baselines, scrapes.drop_last()), scrapes.last())
}

/// The exported value of a key after some scrapes: the sum of what each of
/// the scrapes got back for the key.
pub open spec fn exported_after_scrapes(
    baselines: Map<KeyView, u64>,
    scrapes: Seq<Seq<SampleView>>,
    key: KeyView,
) -> int
    decreases scrapes.len(),
{
    if scrapes.len() == 0 {
        0
    } else {
        exported_after_scrapes(baselines, scrapes.drop_last(), key) + total(
            values_of(returned_by_last(baselines, scrapes), key),
        )
    }
}

/// The snapshots of a key in some scrapes, in the order in which they were
/// taken.
pub open spec fn snapshots_in(scrapes: Seq<Seq<SampleView>>, key: KeyView) -> Seq<u64>
    decreases scrapes.len(),
{
    if scrapes.len() == 0 {
        Seq::empty()
    } else {
        snapshots_in(scrapes.drop_last(), key) + values_of(scrapes.last(), key)
    }
}

/// A sum of values is not negative.
pub proof fn lemma_total_not_negative(values: Seq<u64>)
    ensures
        0 <= total(values),
    decreases values.len(),
{
    if values.len() > 0 {
        lemma_total_not_negative(values.drop_last());
    }
}

/// The exported value after `n` snapshots depends on these snapshots alone.
pub proof fn lemma_exported_prefix(a: Seq<u64>, b: Seq<u64>, n: int)
    requires
        0 <= n <= a.len(),
        n <= b.len(),
        forall|i: int| 0 <= i < n ==> a[i] == b[i],
    ensures
        exported(a, n) == exported(b, n),
    decreases n,
{
    if n > 0 {
        lemma_exported_prefix(a, b, n - 1);
        assert(increment_at(a, n - 1) == increment_at(b, n - 1));
    }
}

/// What the translator gives back for a key, and the baseline that it keeps
/// for it, depend on the snapshots of that key alone: the samples of other
/// keys between them change neither.
pub proof fn lemma_translated_values(
    baselines: Map<KeyView, u64>,
    samples: Seq<SampleView>,
    key: KeyView,
)
    requires
        key.metric.is_counter(),
    ensures
        values_of(translated(baselines, samples), key) == increments_from(
            baseline_of(baselines, key),
            values_of(samples, key),
        ),
        baseline_of(baselines_after(baselines, samples), key) == last_or(
            baseline_of(baselines, key),
            values_of(samples, key),
        ),
    decreases samples.len(),
{
    let first = baseline_of(baselines, key);
    if samples.len() == 0 {
        assert(increments_from(first, values_of(samples, key)) =~= Seq::<u64>::empty());
    } else {
        let rest = samples.drop_last();
        let s = samples.last();
        lemma_translated_values(baselines, rest, key);
        let before = baselines_after(baselines, rest);
        let out = translated(baselines, samples);
        assert(out.drop_last() =~= translated(baselines, rest));
        assert(out.last() == translated_one(before, s));
        assert(key_of(out.last()) == key_of(s));
        let shorter = values_of(rest, key);
        if key_of(s) == key {
            let values = values_of(samples, key);
            assert(values == shorter.push(s.value));
            assert(values.drop_last() =~= shorter);
            assert(out.last().value == increment(last_or(first, shorter), s.value));
            assert(increments_from(first, values) =~= increments_from(first, shorter).push(
                increment(last_or(first, shorter), s.value),
            ));
        }
    }
}

/// Snapshots that follow a history add their increments to the exported
/// value of the history.
pub proof fn lemma_exported_grows_by_increments(history: Seq<u64>, snapshots: Seq<u64>)
    ensures
        exported(history + snapshots, (history + snapshots).len() as int) == exported(
            history,
            history.len() as int,
        ) + total(increments_from(last_or(None, history), snapshots)),
    decreases snapshots.len(),
{
    let first = last_or(None, history);
    if snapshots.len() == 0 {
        assert(history + snapshots =~= history);
        assert(increments_from(first, snapshots) =~= Seq::<u64>::empty());
    } else {
        let shorter = snapshots.drop_last();
        let all = history + snapshots;
        let n = all.len() as int;
        lemma_exported_grows_by_increments(history, shorter);
        lemma_exported_prefix(all, history + shorter, n - 1);
        let increments = increments_from(first, snapshots);
        assert(increments.drop_last() =~= increments_from(first, shorter));
        assert(increments.last() == increment_at(all, n - 1));
        assert(exported(all, n) == exported(all, n - 1) + increment_at(all, n - 1));
    }
}

/// The exported value of a counter after some scrapes is what its snapshots
/// in these scrapes, taken in order, add up to, and its baseline is the last
/// of them. This holds for a key that the translator had not seen before the
/// first of the scrapes, whatever else the scrapes hold and however often
/// each of them holds the key.
pub proof fn lemma_exported_after_scrapes(
    baselines: Map<KeyView, u64>,
    scrapes: Seq<Seq<SampleView>>,
    key: KeyView,
)
    requires
        key.metric.is_counter(),
        !baselines.dom().contains(key),
    ensures
        baseline_of(baselines_after_scrapes(baselines, scrapes), key) == last_or(
            None,
            snapshots_in(scrapes, key),
        ),
        exported_after_scrapes(baselines, scrapes, key) == exported(
            snapshots_in(scrapes, key),
            snapshots_in(scrapes, key).len() as int,
        ),
    decreases scrapes.len(),
{
    if scrapes.len() > 0 {
        let earlier = scrapes.drop_last();
        lemma_exported_after_scrapes(baselines, earlier, key);
        lemma_translated_values(baselines_after_scrapes(baselines, earlier), scrapes.last(), key);
        lemma_exported_grows_by_increments(
            snapshots_in(earlier, key),
            values_of(scrapes.last(), key),
        );
    }
}

/// The exported value of a key never falls from one scrape to a later one,
/// whatever the scrapes hold.
pub proof fn lemma_exported_after_scrapes_never_falls(
    baselines: Map<KeyView, u64>,
    scrapes: Seq<Seq<SampleView>>,
    key: KeyView,
    m: int,
    n: int,
)
    requires
        0 <= m <= n <= scrapes.len(),
    ensures
        exported_after_scrapes(baselines, scrapes.take(m), key) <= exported_after_scrapes(
            baselines,
            scrapes.take(n),
            key,
        ),
    decreases n - m,
{
    if m < n {
        lemma_exported_after_scrapes_never_falls(baselines, scrapes, key, m, n - 1);
        assert(scrapes.take(n).drop_last() =~= scrapes.take(n - 1));
        lemma_total_not_negative(values_of(returned_by_last(baselines, scrapes.take(n)), key));
    }
}

/// Where every scrape holds a key once, the snapshots of the key are one for
/// each scrape.
pub proof fn lemma_one_snapshot_per_scrape(
    scrapes: Seq<Seq<SampleView>>,
    key: KeyView,
    snapshots: Seq<u64>,
    n: int,
)
    requires
        snapshots.len() == scrapes.len(),
        forall|j: int|
            0 <= j < scrapes.len() ==> values_of(#[trigger] scrapes[j], key) == seq![snapshots[j]],
        0 <= n <= scrapes.len(),
    ensures
        snapshots_in(scrapes.take(n), key) == snapshots.take(n),
    decreases n,
{
    if n == 0 {
        assert(snapshots_in(scrapes.take(n), key) =~= snapshots.take(n));
    } else {
        lemma_one_snapshot_per_scrape(scrapes, key, snapshots, n - 1);
        assert(scrapes.take(n).drop_last() =~= scrapes.take(n - 1));
        assert(scrapes.take(n).last() == scrapes[n - 1]);
        assert(snapshots.take(n - 1) + seq![snapshots[n - 1]] =~= snapshots.take(n));
    }
}

/// The law of the exported counter over successive scrapes. Let the
/// snapshots `s0, s1, ...` of one counter be read by one scrape each, the
/// first of them by the first scrape that holds the key. The scrape with
/// index `i` gets back one increment for the key: the snapshot itself where
/// it is the first or lies below the snapshot before it, and its distance
/// from the snapshot before it otherwise. The snapshot becomes the baseline
/// of the key. The exported value after that scrape is the sum of the
/// increments so far, so it is `s0` after the first scrape, and it is never
/// below what it was after the scrape before.
pub proof fn lemma_successive_scrapes(
    baselines: Map<KeyView, u64>,
    scrapes: Seq<Seq<SampleView>>,
    key: KeyView,
    snapshots: Seq<u64>,
    i: int,
)
    requires
        key.metric.is_counter(),
        !baselines.dom().contains(key),
        snapshots.len() == scrapes.len(),
        forall|j: int|
            0 <= j < scrapes.len() ==> values_of(#[trigger] scrapes[j], key) == seq![snapshots[j]],
        0 <= i < scrapes.len(),
    ensures
        values_of(returned_by_last(baselines, scrapes.take(i + 1)), key) == seq![
            increment_at(snapshots, i),
        ],
        increment_at(snapshots, i) == if i == 0 || snapshots[i] < snapshots[i - 1] {
            snapshots[i] as int
        } else {
            snapshots[i] - snapshots[i - 1]
        },
        baseline_of(baselines_after_scrapes(baselines, scrapes.take(i + 1)), key) == Some(
            snapshots[i],
        ),
        exported_after_scrapes(baselines, scrapes.take(i + 1), key) == exported(snapshots, i + 1),
        exported_after_scrapes(baselines, scrapes.take(i + 1), key) == exported_after_scrapes(
            baselines,
            scrapes.take(i),
            key,
        ) + increment_at(snapshots, i),
        exported_after_scrapes(baselines, scrapes.take(i), key) <= exported_after_scrapes(
            baselines,
            scrapes.take(i + 1),
            key,
        ),
        i == 0 ==> exported_after_scrapes(baselines, scrapes.take(i + 1), key) == snapshots[0],
{
    let earlier = scrapes.take(i);
    let now = scrapes.take(i + 1);
    assert(now.drop_last() =~= earlier);
    assert(now.last() == scrapes[i]);
    lemma_one_snapshot_per_scrape(scrapes, key, snapshots, i);
    lemma_one_snapshot_per_scrape(scrapes, key, snapshots, i + 1);
    lemma_exported_after_scrapes(baselines, earlier, key);
    lemma_exported_after_scrapes(baselines, now, key);
    let before = baselines_after_scrapes(baselines, earlier);
    lemma_translated_values(before, scrapes[i], key);
    assert(baseline_of(before, key) == if i == 0 {
        None
    } else {
        Some(snapshots[i - 1])
    });
    assert(increments_from(baseline_of(before, key), seq![snapshots[i]]) =~= seq![
        increment_at(snapshots, i),
    ]);
    lemma_exported_prefix(snapshots.take(i + 1), snapshots, i + 1);
    lemma_exported_prefix(snapshots.take(i), snapshots, i);
    assert(exported(snapshots, i + 1) == exported(snapshots, i) + increment_at(snapshots, i));
    if i == 0 {
        assert(exported(snapshots, 0) == 0);
    }
}

} // verus!
