//! The decisions of the sampling loop: when to stop, when to repair
//! HWiNFO, what each sample must hold, and when the GPU figures fall back
//! from PDH to HWiNFO.
use vstd::prelude::*;
use crate::data::ProcessFilter;

verus! {

/// After this many PDH collections in a row have failed (or when PDH is not
/// available at all), the system GPU figure comes from HWiNFO instead.
pub const PDH_FAILURE_THRESHOLD: u32 = 3;

// ---------------------------------------------------------------------------
// PDH failures and the HWiNFO fallback
// ---------------------------------------------------------------------------

/// How a round of PDH collection went.
#[derive(Debug, Clone, Copy, PartialEq, Eq, Structural)]
pub enum PdhOutcome {
    /// The snapshot was read.
    Collected,
    /// Reading the snapshot failed.
    Failed,
    /// There is no PDH collector.
    Unavailable,
}

/// The failure count before the first sample: none with a collector, the
/// threshold without one.
pub fn initial_pdh_failures(pdh_available: bool) -> (f: u32)
    ensures
        f == (if pdh_available {
            0
        } else {
            PDH_FAILURE_THRESHOLD
        }),
{
    if pdh_available {
        0
    } else {
        PDH_FAILURE_THRESHOLD
    }
}

/// The failure count after a round: reset by a success, raised by one
/// (saturating) by a failure, set to the threshold without a collector.
pub open spec fn failures_after_round(failures: u32, outcome: PdhOutcome) -> u32 {
    match outcome {
        PdhOutcome::Collected => 0,
        PdhOutcome::Failed => if failures < u32::MAX {
            (failures + 1) as u32
        } else {
            u32::MAX
        },
        PdhOutcome::Unavailable => PDH_FAILURE_THRESHOLD,
    }
}

/// The failure count after a round, as `failures_after_round` gives it.
pub fn next_pdh_failures(failures: u32, outcome: PdhOutcome) -> (f: u32)
    ensures
        f == failures_after_round(failures, outcome),
{
    match outcome {
        PdhOutcome::Collected => 0,
        PdhOutcome::Failed => failures.saturating_add(1),
        PdhOutcome::Unavailable => PDH_FAILURE_THRESHOLD,
    }
}

/// Whether the system GPU figure comes from HWiNFO after this many failures.
pub fn use_hwinfo_gpu_fallback(failures: u32) -> (b: bool)
    ensures
        b == (failures >= PDH_FAILURE_THRESHOLD),
{
    failures >= PDH_FAILURE_THRESHOLD
}

/// The failure count after a run of outcomes, starting from `failures`:
/// `next_pdh_failures` applied round by round.
pub open spec fn failures_after(failures: u32, outcomes: Seq<PdhOutcome>) -> u32
    decreases outcomes.len(),
{
    if outcomes.len() == 0 {
        failures
    } else {
        failures_after_round(failures_after(failures, outcomes.drop_last()), outcomes.last())
    }
}

/// The fallback is used exactly when no collection succeeded in the last
/// `PDH_FAILURE_THRESHOLD` rounds: after that many failures in a row it is
/// always used, and right after a success it never is.
pub proof fn law_fallback_after_consecutive_failures(failures: u32, outcomes: Seq<PdhOutcome>)
    ensures
        outcomes.len() >= PDH_FAILURE_THRESHOLD && (forall|k: int|
            outcomes.len() - PDH_FAILURE_THRESHOLD <= k < outcomes.len() ==> #[trigger] outcomes[k]
                == PdhOutcome::Failed) ==> failures_after(failures, outcomes)
            >= PDH_FAILURE_THRESHOLD,
        outcomes.len() > 0 && outcomes.last() == PdhOutcome::Collected ==> failures_after(
            failures,
            outcomes,
        ) < PDH_FAILURE_THRESHOLD,
        failures == 0 && (forall|k: int| 0 <= k < outcomes.len() ==> #[trigger] outcomes[k]
            != PdhOutcome::Unavailable) && failures_after(failures, outcomes)
            >= PDH_FAILURE_THRESHOLD ==> outcomes.len() >= PDH_FAILURE_THRESHOLD,
{
    if outcomes.len() >= PDH_FAILURE_THRESHOLD && (forall|k: int|
        outcomes.len() - PDH_FAILURE_THRESHOLD <= k < outcomes.len() ==> #[trigger] outcomes[k]
            == PdhOutcome::Failed) {
        lemma_failures_grow(failures, outcomes, PDH_FAILURE_THRESHOLD as int);
    }
    lemma_failures_bounded(failures, outcomes);
}

/// How many rounds at the end of `outcomes` failed, one after another.
pub open spec fn trailing_failures(outcomes: Seq<PdhOutcome>) -> nat
    decreases outcomes.len(),
{
    if outcomes.len() > 0 && outcomes.last() == PdhOutcome::Failed {
        trailing_failures(outcomes.drop_last()) + 1
    } else {
        0
    }
}

/// A successful collection resets the count whatever it was, and, while PDH
/// stays available, the count is the number of failures in a row since the
/// last success (or since the start, added to the starting count), held at
/// `u32::MAX`.
pub proof fn law_failures_count_since_last_success(failures: u32, outcomes: Seq<PdhOutcome>)
    ensures
        failures_after_round(failures, PdhOutcome::Collected) == 0,
        (forall|k: int| 0 <= k < outcomes.len() ==> #[trigger] outcomes[k] != PdhOutcome::Unavailable)
            ==> failures_after(failures, outcomes) as int == {
            let base: int = if outcomes.contains(PdhOutcome::Collected) {
                0
            } else {
                failures as int
            };
            if base + trailing_failures(outcomes) < u32::MAX {
                base + trailing_failures(outcomes)
            } else {
                u32::MAX as int
            }
        },
    decreases outcomes.len(),
{
    if outcomes.len() > 0 {
        let d = outcomes.drop_last();
        law_failures_count_since_last_success(failures, d);
        if forall|k: int| 0 <= k < outcomes.len() ==> #[trigger] outcomes[k]
            != PdhOutcome::Unavailable {
            assert forall|k: int| 0 <= k < d.len() implies #[trigger] d[k]
                != PdhOutcome::Unavailable by {
                assert(d[k] == outcomes[k]);
            }
            assert(outcomes.last() != PdhOutcome::Unavailable);
            assert(outcomes.contains(PdhOutcome::Collected) <==> (d.contains(
                PdhOutcome::Collected,
            ) || outcomes.last() == PdhOutcome::Collected)) by {
                if d.contains(PdhOutcome::Collected) {
                    let i = choose|i: int| 0 <= i < d.len() && d[i] == PdhOutcome::Collected;
                    assert(outcomes[i] == d[i]);
                }
                if outcomes.contains(PdhOutcome::Collected) {
                    let i = choose|i: int|
                        0 <= i < outcomes.len() && outcomes[i] == PdhOutcome::Collected;
                    if i < d.len() {
                        assert(d[i] == outcomes[i]);
                    }
                }
                if outcomes.last() == PdhOutcome::Collected {
                    assert(outcomes[outcomes.len() - 1] == PdhOutcome::Collected);
                }
            }
        }
    }
}

/// Each failure in a row at the end adds one to the count, up to the
/// saturation point.
proof fn lemma_failures_grow(failures: u32, outcomes: Seq<PdhOutcome>, m: int)
    requires
        0 <= m <= outcomes.len(),
        forall|k: int|
            outcomes.len() - m <= k < outcomes.len() ==> #[trigger] outcomes[k] == PdhOutcome::Failed,
    ensures
        failures_after(failures, outcomes) >= m || failures_after(failures, outcomes) == u32::MAX,
    decreases m,
{
    if m > 0 {
        let d = outcomes.drop_last();
        assert(outcomes[outcomes.len() - 1] == PdhOutcome::Failed);
        assert forall|k: int| d.len() - (m - 1) <= k < d.len() implies #[trigger] d[k]
            == PdhOutcome::Failed by {
            assert(d[k] == outcomes[k]);
        }
        lemma_failures_grow(failures, d, m - 1);
    }
}

/// Starting from zero with no `Unavailable` round, the count never exceeds
/// the number of rounds.
proof fn lemma_failures_bounded(failures: u32, outcomes: Seq<PdhOutcome>)
    ensures
        failures == 0 && (forall|k: int| 0 <= k < outcomes.len() ==> #[trigger] outcomes[k]
            != PdhOutcome::Unavailable) ==> failures_after(failures, outcomes) <= outcomes.len(),
    decreases outcomes.len(),
{
    if outcomes.len() > 0 {
        lemma_failures_bounded(failures, outcomes.drop_last());
        if failures == 0 && (forall|k: int| 0 <= k < outcomes.len() ==> #[trigger] outcomes[k]
            != PdhOutcome::Unavailable) {
            assert forall|k: int| 0 <= k < outcomes.drop_last().len() implies #[trigger] outcomes.drop_last()[k]
                != PdhOutcome::Unavailable by {
                assert(outcomes.drop_last()[k] == outcomes[k]);
            }
            assert(outcomes[outcomes.len() - 1] != PdhOutcome::Unavailable);
        }
    }
}

// ---------------------------------------------------------------------------
// The loop
// ---------------------------------------------------------------------------

/// Whether the run has lasted its allotted time: `limit_nanos` is the
/// configured duration (`None` for no limit), `elapsed_nanos` the time since
/// the start.
pub fn duration_reached(limit_nanos: Option<u128>, elapsed_nanos: u128) -> (b: bool)
    ensures
        b == (limit_nanos matches Some(d) && elapsed_nanos >= d),
{
    match limit_nanos {
        Some(d) => elapsed_nanos >= d,
        None => false,
    }
}

/// HWiNFO's configuration is looked at before a sample: the shared memory
/// could not be opened, no repair was made yet, and the HWiNFO process is
/// managed here.
pub open spec fn hwinfo_check_due(
    collector_present: bool,
    already_restarted: bool,
    manager_present: bool,
) -> bool {
    !collector_present && !already_restarted && manager_present
}

/// Whether to look at HWiNFO's configuration before a sample, as
/// `hwinfo_check_due` says.
pub fn should_check_hwinfo(collector_present: bool, already_restarted: bool, manager_present: bool) -> (b:
    bool)
    ensures
        b == hwinfo_check_due(collector_present, already_restarted, manager_present),
{
    !collector_present && !already_restarted && manager_present
}

/// What came of looking at HWiNFO before a sample.
#[derive(Debug, Clone, Copy, PartialEq, Eq, Structural)]
pub enum HwinfoRepair {
    /// The configuration was not looked at, or it already turns on shared
    /// memory.
    NotNeeded,
    /// `SensorsSM=1` was missing; repairing it and restarting HWiNFO failed.
    Failed,
    /// `SensorsSM=1` was missing; it was put back and HWiNFO restarted.
    Succeeded,
}

/// HWiNFO counts as restarted once a repair has succeeded, and stays so.
pub open spec fn restarted_after_repair(already_restarted: bool, repair: HwinfoRepair) -> bool {
    already_restarted || repair is Succeeded
}

/// Whether HWiNFO counts as restarted after a round whose repair came to
/// `repair`; a failed repair is tried again in a later round.
pub fn hwinfo_restarted_after(already_restarted: bool, repair: HwinfoRepair) -> (b: bool)
    ensures
        b == restarted_after_repair(already_restarted, repair),
{
    match repair {
        HwinfoRepair::Succeeded => true,
        _ => already_restarted,
    }
}

/// What the loop sees of HWiNFO in one round.
pub struct HwinfoRound {
    pub collector_present: bool,
    pub manager_present: bool,
    /// What the configuration file says, had it been looked at.
    pub shared_memory_enabled: bool,
    /// Whether repairing and restarting would succeed, had it been tried.
    pub repair_succeeds: bool,
}

/// What a round's repair comes to: tried when `should_check_hwinfo` says
/// so and the configuration lacks the setting.
pub open spec fn round_repair(restarted: bool, r: HwinfoRound) -> HwinfoRepair {
    if hwinfo_check_due(r.collector_present, restarted, r.manager_present) && !r.shared_memory_enabled {
        if r.repair_succeeds {
            HwinfoRepair::Succeeded
        } else {
            HwinfoRepair::Failed
        }
    } else {
        HwinfoRepair::NotNeeded
    }
}

/// Whether HWiNFO counts as restarted after `rounds`, starting from
/// `restarted`.
pub open spec fn restarted_after_rounds(restarted: bool, rounds: Seq<HwinfoRound>) -> bool
    decreases rounds.len(),
{
    if rounds.len() == 0 {
        restarted
    } else {
        let prev = restarted_after_rounds(restarted, rounds.drop_last());
        restarted_after_repair(prev, round_repair(prev, rounds.last()))
    }
}

/// How many of `rounds` repaired and restarted HWiNFO successfully.
pub open spec fn successful_repairs(restarted: bool, rounds: Seq<HwinfoRound>) -> nat
    decreases rounds.len(),
{
    if rounds.len() == 0 {
        0
    } else {
        let prev = restarted_after_rounds(restarted, rounds.drop_last());
        successful_repairs(restarted, rounds.drop_last()) + if round_repair(
            prev,
            rounds.last(),
        ) is Succeeded {
            1nat
        } else {
            0nat
        }
    }
}

/// HWiNFO is repaired and restarted successfully at most once over any run,
/// never once a repair has succeeded, and a run ends counted as restarted
/// exactly when it started so or one of its repairs succeeded.
pub proof fn law_repair_at_most_once(restarted: bool, rounds: Seq<HwinfoRound>)
    ensures
        successful_repairs(restarted, rounds) <= 1,
        restarted ==> successful_repairs(restarted, rounds) == 0,
        restarted_after_rounds(restarted, rounds) == (restarted || successful_repairs(
            restarted,
            rounds,
        ) == 1),
    decreases rounds.len(),
{
    if rounds.len() > 0 {
        law_repair_at_most_once(restarted, rounds.drop_last());
    }
}

// ---------------------------------------------------------------------------
// What a sample holds
// ---------------------------------------------------------------------------

/// What each sample must hold, as the configuration asks.
#[derive(Debug, Clone, Copy, PartialEq, Eq, Structural)]
pub struct SamplePlan {
    /// The system CPU figure is taken (the process collector is on).
    pub cpu_percent: bool,
    /// The filtered process list is reported.
    pub processes: bool,
    /// Same-name processes among the filtered ones are summed up.
    pub aggregated: bool,
    /// How many process groups to rank by CPU, if any.
    pub top_n_cpu: Option<usize>,
    /// How many process groups to rank by GPU, if any.
    pub top_n_gpu: Option<usize>,
    /// The process list must be read at all.
    pub any_process_data: bool,
}

/// The plan for every sample: processes are read when a filter or a ranking
/// needs them, and summed by name only for a name filter with aggregation on.
pub fn plan_sample(
    enable_sysinfo: bool,
    enable_aggregation: bool,
    process_filter: &Option<ProcessFilter>,
    top_n_cpu: Option<usize>,
    top_n_gpu: Option<usize>,
) -> (p: SamplePlan)
    ensures
        p.cpu_percent == enable_sysinfo,
        p.processes == (process_filter is Some),
        p.aggregated == (enable_aggregation && (process_filter matches Some(f) && (f is Name
            || f is Names))),
        p.top_n_cpu == top_n_cpu,
        p.top_n_gpu == top_n_gpu,
        p.any_process_data == (process_filter is Some || top_n_cpu is Some || top_n_gpu is Some),
{
    let processes = process_filter.is_some();
    let by_name = match process_filter {
        Some(ProcessFilter::Name(_)) => true,
        Some(ProcessFilter::Names(_)) => true,
        _ => false,
    };
    SamplePlan {
        cpu_percent: enable_sysinfo,
        processes,
        aggregated: enable_aggregation && processes && by_name,
        top_n_cpu,
        top_n_gpu,
        any_process_data: processes || top_n_cpu.is_some() || top_n_gpu.is_some(),
    }
}

} // verus!
