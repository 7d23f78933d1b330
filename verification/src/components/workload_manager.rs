//! The workload manager: an empirical distribution of message lengths and the
//! unscheduled partition boundaries derived from it.
use crate::config::{
    Config,
    MINIMUM_WORKLOAD_SAMPLE_SIZE,
    UNSCHEDULED_PRIORITY_LEVELS,
    UNSCHEDULED_PRIORITY_PARTITIONS,
};
use crate::utils::{
    lemma_quantile_bounds,
    lemma_quantile_monotone,
    quantile,
    spec_quantile,
    spec_sorted,
};
use vstd::prelude::*;

verus! {

/// `samples` with `sample` put in after every element that is not larger.
pub open spec fn spec_insert_sorted(samples: Seq<u64>, sample: u64) -> Seq<u64>
    decreases samples.len(),
{
    if samples.len() == 0 {
        seq![sample]
    } else if samples.last() <= sample {
        samples.push(sample)
    } else {
        spec_insert_sorted(samples.drop_last(), sample).push(samples.last())
    }
}

/// Boundary `index` (from one) of the unscheduled partition: below the
/// minimum sample count `index` equal shares of the unscheduled window, from
/// then on the `index`-th quantile of the samples.
pub open spec fn spec_partition(samples: Seq<u64>, rtt_bytes: u64, index: int) -> int {
    if samples.len() < MINIMUM_WORKLOAD_SAMPLE_SIZE {
        index * (rtt_bytes / UNSCHEDULED_PRIORITY_LEVELS as u64)
    } else {
        spec_quantile(samples, index, UNSCHEDULED_PRIORITY_LEVELS as int)
    }
}

/// The unscheduled partition vector for `samples`.
pub open spec fn spec_partitions(samples: Seq<u64>, rtt_bytes: u64) -> Seq<u64> {
    Seq::new(
        UNSCHEDULED_PRIORITY_PARTITIONS as nat,
        |i: int| spec_partition(samples, rtt_bytes, i + 1) as u64,
    )
}

/// Whether `partitions` holds the quantiles of `samples`: from the minimum
/// sample count on, boundary `index` (from one) is the interpolated quantile
/// `index` out of the number of unscheduled levels.
pub open spec fn spec_quantiles(samples: Seq<u64>, partitions: Seq<u64>) -> bool {
    samples.len() >= MINIMUM_WORKLOAD_SAMPLE_SIZE ==> {
        &&& partitions.len() == UNSCHEDULED_PRIORITY_PARTITIONS
        &&& forall|k: int|
            0 <= k < UNSCHEDULED_PRIORITY_PARTITIONS ==> #[trigger] partitions[k] == spec_quantile(
                samples,
                k + 1,
                UNSCHEDULED_PRIORITY_LEVELS as int,
            )
    }
}

/// Whether a partition vector never decreases.
pub open spec fn spec_non_decreasing(partitions: Seq<u64>) -> bool {
    forall|i: int, j: int| 0 <= i <= j < partitions.len() ==> partitions[i] <= partitions[j]
}

/// A sorted insertion at the place a search found is the sorted insertion.
pub proof fn lemma_insert_at(samples: Seq<u64>, sample: u64, at: int)
    requires
        0 <= at <= samples.len(),
        forall|i: int| 0 <= i < at ==> samples[i] <= sample,
        forall|i: int| at <= i < samples.len() ==> sample < samples[i],
    ensures
        spec_insert_sorted(samples, sample) == samples.insert(at, sample),
    decreases samples.len(),
{
    if samples.len() == 0 {
        assert(seq![sample] =~= samples.insert(at, sample));
    } else if samples.last() <= sample {
        assert(samples.push(sample) =~= samples.insert(at, sample));
    } else {
        lemma_insert_at(samples.drop_last(), sample, at);
        assert(samples.drop_last().insert(at, sample).push(samples.last()) =~= samples.insert(
            at,
            sample,
        ));
    }
}

/// Sorted insertion keeps the samples sorted, adds exactly the new sample and
/// lengthens them by one.
pub proof fn lemma_insert_sorted(samples: Seq<u64>, sample: u64)
    requires
        spec_sorted(samples),
    ensures
        spec_sorted(spec_insert_sorted(samples, sample)),
        spec_insert_sorted(samples, sample).len() == samples.len() + 1,
        spec_insert_sorted(samples, sample).to_multiset() == samples.to_multiset().insert(sample),
    decreases samples.len(),
{
    broadcast use vstd::seq_lib::group_to_multiset_ensures;

    let after = spec_insert_sorted(samples, sample);
    if samples.len() == 0 {
        assert(samples =~= Seq::empty());
        assert(after =~= Seq::<u64>::empty().push(sample));
    } else if samples.last() <= sample {
    } else {
        let front = samples.drop_last();
        lemma_insert_sorted(front, sample);
        let inner = spec_insert_sorted(front, sample);
        assert(samples =~= front.push(samples.last()));
        assert forall|i: int| 0 <= i < inner.len() implies inner[i] <= samples.last() by {
            assert(inner.to_multiset().count(inner[i]) > 0);
            if inner[i] != sample {
                assert(front.to_multiset().count(inner[i]) > 0);
                assert(front.contains(inner[i]));
            }
        }
        assert(after.to_multiset() =~= samples.to_multiset().insert(sample));
    }
}

/// The partition boundaries of sorted samples are representable and never
/// decrease.
pub proof fn lemma_partitions_non_decreasing(samples: Seq<u64>, rtt_bytes: u64)
    requires
        spec_sorted(samples),
    ensures
        spec_non_decreasing(spec_partitions(samples, rtt_bytes)),
        forall|index: int|
            1 <= index <= UNSCHEDULED_PRIORITY_PARTITIONS ==> 0 <= #[trigger] spec_partition(
                samples,
                rtt_bytes,
                index,
            ) <= u64::MAX,
{
    let share = (rtt_bytes / UNSCHEDULED_PRIORITY_LEVELS as u64) as int;
    assert forall|index: int| 1 <= index <= UNSCHEDULED_PRIORITY_PARTITIONS implies 0
        <= #[trigger] spec_partition(samples, rtt_bytes, index) <= u64::MAX by {
        if samples.len() < MINIMUM_WORKLOAD_SAMPLE_SIZE {
            assert(0 <= index * share <= 5 * share) by (nonlinear_arith)
                requires
                    1 <= index <= 5,
                    0 <= share,
            ;
        } else {
            lemma_quantile_bounds(samples, index, UNSCHEDULED_PRIORITY_LEVELS as int);
        }
    }
    let partitions = spec_partitions(samples, rtt_bytes);
    assert forall|i: int, j: int| 0 <= i <= j < partitions.len() implies partitions[i]
        <= partitions[j] by {
        if samples.len() < MINIMUM_WORKLOAD_SAMPLE_SIZE {
            assert((i + 1) * share <= (j + 1) * share) by (nonlinear_arith)
                requires
                    0 <= i <= j,
                    0 <= share,
            ;
        } else {
            lemma_quantile_monotone(samples, i + 1, j + 1, UNSCHEDULED_PRIORITY_LEVELS as int);
        }
    }
}

/// The manager's state: the lengths seen so far, sorted, and the partition
/// vector they give.
pub struct WorkloadManager {
    message_lengths: Vec<u64>,
    workload: [u64; UNSCHEDULED_PRIORITY_PARTITIONS],
    rtt_bytes: u64,
}

/// The manager's state as a mathematical value.
pub struct WorkloadManagerView {
    pub message_lengths: Seq<u64>,
    pub workload: Seq<u64>,
    pub rtt_bytes: u64,
}

impl WorkloadManagerView {
    /// The samples are sorted and the vector is the one they give.
    pub open spec fn wf(self) -> bool {
        &&& spec_sorted(self.message_lengths)
        &&& self.workload == spec_partitions(self.message_lengths, self.rtt_bytes)
    }
}

impl View for WorkloadManager {
    type V = WorkloadManagerView;

    closed spec fn view(&self) -> WorkloadManagerView {
        WorkloadManagerView {
            message_lengths: self.message_lengths@,
            workload: self.workload@,
            rtt_bytes: self.rtt_bytes,
        }
    }
}

impl WorkloadManager {
    /// A manager that has seen no message yet; its vector divides the
    /// unscheduled window of `config` evenly.
    pub fn new(config: &Config) -> (manager: WorkloadManager)
        requires
            config.wf(),
        ensures
            manager@.wf(),
            manager@.message_lengths == Seq::<u64>::empty(),
            manager@.rtt_bytes == config.spec_rtt_bytes(),
    {
        let mut manager = WorkloadManager {
            message_lengths: Vec::new(),
            workload: [0u64, 0u64, 0u64, 0u64, 0u64],
            rtt_bytes: config.rtt_bytes(),
        };
        manager.calculate_priority_level_partitions();
        manager
    }

    /// The lengths seen so far, in ascending order.
    pub fn message_lengths(&self) -> (samples: &Vec<u64>)
        ensures
            samples@ == self@.message_lengths,
    {
        &self.message_lengths
    }

    /// Boundary `index`, from one, for the current samples.
    fn partition(&self, index: u64) -> (boundary: u64)
        requires
            1 <= index <= UNSCHEDULED_PRIORITY_PARTITIONS,
            spec_sorted(self.message_lengths@),
        ensures
            boundary == spec_partition(self.message_lengths@, self.rtt_bytes, index as int),
    {
        proof {
            lemma_partitions_non_decreasing(self.message_lengths@, self.rtt_bytes);
        }
        if self.message_lengths.len() < MINIMUM_WORKLOAD_SAMPLE_SIZE {
            let share = self.rtt_bytes / (UNSCHEDULED_PRIORITY_LEVELS as u64);
            assert(index * share <= 5 * share) by (nonlinear_arith)
                requires
                    index <= 5,
                    0 <= share,
            ;
            assert(share == self.rtt_bytes / 6 && 5 * share <= self.rtt_bytes);
            index * share
        } else {
            quantile(&self.message_lengths, index, UNSCHEDULED_PRIORITY_LEVELS as u64)
        }
    }

    /// Recomputes the partition vector from the samples, which stay as they
    /// are: the vector never decreases, and from the minimum sample count on
    /// each of its boundaries is the interpolated quantile of its index.
    pub fn calculate_priority_level_partitions(&mut self)
        requires
            spec_sorted(old(self)@.message_lengths),
        ensures
            final(self)@.wf(),
            final(self)@.message_lengths == old(self)@.message_lengths,
            final(self)@.rtt_bytes == old(self)@.rtt_bytes,
            spec_non_decreasing(final(self)@.workload),
            spec_quantiles(final(self)@.message_lengths, final(self)@.workload),
    {
        self.workload = [
            self.partition(1),
            self.partition(2),
            self.partition(3),
            self.partition(4),
            self.partition(5),
        ];
        proof {
            assert(self.workload@ =~= spec_partitions(self.message_lengths@, self.rtt_bytes));
            lemma_partitions_non_decreasing(self.message_lengths@, self.rtt_bytes);
        }
    }

    /// The current partition vector.
    pub fn handle_get_workload(&self) -> (workload: [u64; UNSCHEDULED_PRIORITY_PARTITIONS])
        requires
            self@.wf(),
        ensures
            workload@ == self@.workload,
            spec_non_decreasing(workload@),
            spec_quantiles(self@.message_lengths, workload@),
    {
        proof {
            lemma_partitions_non_decreasing(self.message_lengths@, self.rtt_bytes);
        }
        self.workload
    }

    /// Records one more message length and returns the partition vector that
    /// the samples now give.
    pub fn handle_update_workload(&mut self, message_length: u64) -> (workload: [u64;
        UNSCHEDULED_PRIORITY_PARTITIONS])
        requires
            old(self)@.wf(),
        ensures
            final(self)@.wf(),
            final(self)@.message_lengths == spec_insert_sorted(
                old(self)@.message_lengths,
                message_length,
            ),
            final(self)@.rtt_bytes == old(self)@.rtt_bytes,
            workload@ == final(self)@.workload,
            spec_non_decreasing(workload@),
            spec_quantiles(final(self)@.message_lengths, workload@),
    {
        let mut low: usize = 0;
        let mut high: usize = self.message_lengths.len();
        while low < high
            invariant
                low <= high <= self.message_lengths.len(),
                spec_sorted(self.message_lengths@),
                forall|i: int| 0 <= i < low ==> self.message_lengths[i] <= message_length,
                forall|i: int|
                    high <= i < self.message_lengths.len() ==> message_length
                        < self.message_lengths[i],
            decreases high - low,
        {
            let middle = low + (high - low) / 2;
            if self.message_lengths[middle] <= message_length {
                low = middle + 1;
            } else {
                high = middle;
            }
        }
        proof {
            lemma_insert_at(self.message_lengths@, message_length, low as int);
            lemma_insert_sorted(self.message_lengths@, message_length);
        }
        self.message_lengths.insert(low, message_length);
        self.calculate_priority_level_partitions();
        proof {
            lemma_partitions_non_decreasing(self.message_lengths@, self.rtt_bytes);
        }
        self.workload
    }
}

} // verus!
