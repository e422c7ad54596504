//! The entanglement fabric: thermodynamic phases of Bell pairs, recycling policies and
//! routing metrics.
use vstd::prelude::*;
use vstd::string::*;

verus! {

/// Thermodynamic phase of an entangled pair.
#[derive(Debug, Clone, Copy, PartialEq, Eq, Hash, Structural)]
pub enum ThermodynamicPhase {
    /// Generation (4+ to 1+): high-ergotropy creation
    Generation,
    /// Usage (1+): pair in active use
    Active,
    /// Degradation (1+ to 0=): loss of coherence
    Degradation,
    /// Radiation (1- to 4-): final dissipation
    Radiation,
    /// Inertia (0=): resting/recycling state
    Inertia,
}

/// Calculator of entanglement metrics (fidelity, concurrence, entropy, ergotropy).
pub struct EntanglementMetricsCalculator;

/// Classifier of the thermodynamic phase of a pair.
pub struct ThermodynamicPhaseClassifier;

/// Aggregator of pool-wide metrics.
pub struct EMFPoolMetricsAggregator;

impl ThermodynamicPhaseClassifier {
    /// A pair is due for recycling in the Radiation and Degradation phases.
    pub fn should_recycle_phase(phase: ThermodynamicPhase) -> (r: bool)
        ensures
            r == (phase == ThermodynamicPhase::Radiation || phase == ThermodynamicPhase::Degradation),
    {
        match phase {
            ThermodynamicPhase::Radiation | ThermodynamicPhase::Degradation => true,
            _ => false,
        }
    }
}

/// Route selection metric.
#[derive(Debug, Clone, Copy, PartialEq, Eq, Structural)]
pub enum RoutingMetric {
    /// Minimize distance (hops)
    MinHops,
    /// Maximize fidelity
    MaxFidelity,
    /// Minimize latency
    MinLatency,
    /// Minimize cost (energy/resources)
    MinCost,
    /// Balance load (use underutilized links)
    LoadBalance,
    /// Follow the pressure gradient
    PressureGradient,
}

/// Recycling policy.
#[derive(Debug, Clone, Copy, PartialEq, Eq, Structural)]
pub enum RecyclingPolicy {
    /// Recycle only pairs in the Radiation phase
    Conservative,
    /// Recycle Radiation and Degradation
    Balanced,
    /// Recycle any pair with fidelity below the threshold (a percentage, 0-100)
    Aggressive { threshold: u8 },
    /// Adapt to the pool pressure
    Adaptive,
}

/// Resource extraction strategy.
#[derive(Debug, Clone, Copy, PartialEq, Eq, Structural)]
pub enum RecyclingStrategy {
    /// Residual ergotropy extraction
    ErgotropyExtraction,
    /// Purification (combine degraded pairs to improve fidelity)
    Purification,
    /// Distillation (extract entanglement from multiple pairs)
    Distillation,
    /// Discard without extraction
    Discard,
}

/// Pressure bands of the adaptive policy: above 80 %, above 50 %, or lower.
#[derive(Debug, Clone, Copy, PartialEq, Eq, Structural)]
pub enum PressureBand {
    High,
    Elevated,
    Normal,
}

/// What a policy decides from the pair's phase, with the fidelity test already made
/// where the policy asks for one (`below_fidelity_cut`: fidelity under the policy's cut,
/// the Aggressive threshold or 0.8 under high pressure).
pub open spec fn spec_should_recycle(
    policy: RecyclingPolicy,
    phase: ThermodynamicPhase,
    band: PressureBand,
    below_fidelity_cut: bool,
) -> bool {
    match policy {
        RecyclingPolicy::Conservative => phase == ThermodynamicPhase::Radiation,
        RecyclingPolicy::Balanced => phase == ThermodynamicPhase::Radiation || phase
            == ThermodynamicPhase::Degradation,
        RecyclingPolicy::Aggressive { .. } => below_fidelity_cut,
        RecyclingPolicy::Adaptive => match band {
            PressureBand::High => below_fidelity_cut,
            PressureBand::Elevated => phase == ThermodynamicPhase::Radiation || phase
                == ThermodynamicPhase::Degradation,
            PressureBand::Normal => phase == ThermodynamicPhase::Radiation,
        },
    }
}

impl RecyclingPolicy {
    /// Whether a pair should be recycled, given its phase, the pool's pressure band and
    /// the outcome of the policy's fidelity test.
    pub fn should_recycle(
        &self,
        phase: ThermodynamicPhase,
        band: PressureBand,
        below_fidelity_cut: bool,
    ) -> (r: bool)
        ensures
            r == spec_should_recycle(*self, phase, band, below_fidelity_cut),
    {
        match self {
            RecyclingPolicy::Conservative => phase == ThermodynamicPhase::Radiation,
            RecyclingPolicy::Balanced => {
                phase == ThermodynamicPhase::Radiation || phase == ThermodynamicPhase::Degradation
            },
            RecyclingPolicy::Aggressive { .. } => below_fidelity_cut,
            RecyclingPolicy::Adaptive => match band {
                PressureBand::High => below_fidelity_cut,
                PressureBand::Elevated => {
                    phase == ThermodynamicPhase::Radiation || phase
                        == ThermodynamicPhase::Degradation
                },
                PressureBand::Normal => phase == ThermodynamicPhase::Radiation,
            },
        }
    }
}

/// The Balanced policy recycles everything the Conservative one does.
pub proof fn law_balanced_covers_conservative(phase: ThermodynamicPhase, band: PressureBand, cut: bool)
    ensures
        spec_should_recycle(RecyclingPolicy::Conservative, phase, band, cut) ==> spec_should_recycle(
            RecyclingPolicy::Balanced,
            phase,
            band,
            cut,
        ),
{
}

/// The Adaptive policy tightens with pressure. At normal pressure it recycles exactly the
/// pairs in the Radiation phase, as the Conservative policy does at any pressure; at
/// elevated pressure exactly the Radiation and Degradation pairs, as the Balanced policy
/// does; at high pressure exactly the pairs under the fidelity cut.
pub proof fn law_adaptive_follows_pressure(phase: ThermodynamicPhase, band: PressureBand, cut: bool)
    ensures
        spec_should_recycle(RecyclingPolicy::Adaptive, phase, PressureBand::Normal, cut) == (phase
            == ThermodynamicPhase::Radiation),
        spec_should_recycle(RecyclingPolicy::Adaptive, phase, PressureBand::Normal, cut) == spec_should_recycle(
            RecyclingPolicy::Conservative,
            phase,
            band,
            cut,
        ),
        spec_should_recycle(RecyclingPolicy::Conservative, phase, band, cut) == (phase
            == ThermodynamicPhase::Radiation),
        spec_should_recycle(RecyclingPolicy::Adaptive, phase, PressureBand::Elevated, cut) == (phase
            == ThermodynamicPhase::Radiation || phase == ThermodynamicPhase::Degradation),
        spec_should_recycle(RecyclingPolicy::Adaptive, phase, PressureBand::Elevated, cut) == spec_should_recycle(
            RecyclingPolicy::Balanced,
            phase,
            band,
            cut,
        ),
        spec_should_recycle(RecyclingPolicy::Adaptive, phase, PressureBand::High, cut) == cut,
{
}

/// Recycler settings. (The ergotropy threshold of extraction is kept by the caller that
/// extracts.)
#[derive(Debug, Clone, Copy)]
pub struct RecyclerConfig {
    /// Scan interval (ms)
    pub scan_interval_ms: u64,
    /// Maximum queue size
    pub max_queue_size: usize,
    /// Enable purification?
    pub enable_purification: bool,
    /// Minimum number of pairs for distillation
    pub min_pairs_for_distillation: usize,
}

impl Default for RecyclerConfig {
    /// Scan every second, queue up to 1000 pairs, purify, distill from 3 pairs.
    fn default() -> (r: Self)
        ensures
            r.scan_interval_ms == 1000,
            r.max_queue_size == 1000,
            r.enable_purification,
            r.min_pairs_for_distillation == 3,
    {
        RecyclerConfig {
            scan_interval_ms: 1000,
            max_queue_size: 1000,
            enable_purification: true,
            min_pairs_for_distillation: 3,
        }
    }
}

/// What the recycler needs to know of a pair when scanning the pool: its id, its phase,
/// and whether its fidelity is under the policy's cut.
#[derive(Debug, Clone, Copy)]
pub struct PairFacts {
    pub id: u128,
    pub phase: ThermodynamicPhase,
    pub below_fidelity_cut: bool,
}

/// Entangled-pair recycler: its policy, strategy and queue of pairs to recycle.
pub struct EntanglementRecycler {
    pub policy: RecyclingPolicy,
    pub default_strategy: RecyclingStrategy,
    /// Pairs waiting to be recycled, first in first out
    pub recycling_queue: Vec<u128>,
    pub config: RecyclerConfig,
}

/// The queue after offering, in order, the pairs of `pairs` that the policy picks:
/// each is appended while the queue has room, and turned away once it is full.
pub open spec fn queue_after_scan(
    q: Seq<u128>,
    pairs: Seq<PairFacts>,
    policy: RecyclingPolicy,
    band: PressureBand,
    max: nat,
) -> Seq<u128>
    decreases pairs.len(),
{
    if pairs.len() == 0 {
        q
    } else {
        let before = queue_after_scan(q, pairs.drop_last(), policy, band, max);
        let p = pairs.last();
        if spec_should_recycle(policy, p.phase, band, p.below_fidelity_cut) && before.len() < max {
            before.push(p.id)
        } else {
            before
        }
    }
}

impl EntanglementRecycler {
    /// A recycler with the default settings and an empty queue.
    pub fn new(policy: RecyclingPolicy, strategy: RecyclingStrategy) -> (r: Self)
        ensures
            r.policy == policy,
            r.default_strategy == strategy,
            r.recycling_queue@.len() == 0,
            r.config.max_queue_size == 1000,
    {
        EntanglementRecycler {
            policy,
            default_strategy: strategy,
            recycling_queue: Vec::new(),
            config: RecyclerConfig::default(),
        }
    }

    /// The recycler with settings `config`.
    pub fn with_config(self, config: RecyclerConfig) -> (r: Self)
        ensures
            r.config == config,
            r.policy == self.policy,
            r.default_strategy == self.default_strategy,
            r.recycling_queue@ == self.recycling_queue@,
    {
        EntanglementRecycler { config, ..self }
    }

    /// Appends a pair to the queue, unless the queue is full.
    pub fn enqueue_for_recycling(&mut self, pair_id: u128) -> (r: Result<(), String>)
        ensures
            final(self).policy == old(self).policy,
            final(self).default_strategy == old(self).default_strategy,
            final(self).config == old(self).config,
            old(self).recycling_queue@.len() >= old(self).config.max_queue_size ==> (r matches Err(m) && m@
                == "Recycling queue is full"@ && final(self).recycling_queue@ == old(self).recycling_queue@),
            old(self).recycling_queue@.len() < old(self).config.max_queue_size ==> (r is Ok
                && final(self).recycling_queue@ == old(self).recycling_queue@.push(pair_id)),
    {
        if self.recycling_queue.len() >= self.config.max_queue_size {
            return Err(String::from_str("Recycling queue is full"));
        }
        self.recycling_queue.push(pair_id);
        Ok(())
    }

    /// Offers every pair that the policy picks (under pressure band `band`) to the queue;
    /// returns how many were queued.
    pub fn scan_and_enqueue(&mut self, pairs: &Vec<PairFacts>, band: PressureBand) -> (r: usize)
        ensures
            final(self).recycling_queue@ == queue_after_scan(
                old(self).recycling_queue@,
                pairs@,
                old(self).policy,
                band,
                old(self).config.max_queue_size as nat,
            ),
            r == final(self).recycling_queue@.len() - old(self).recycling_queue@.len(),
            final(self).policy == old(self).policy,
            final(self).default_strategy == old(self).default_strategy,
            final(self).config == old(self).config,
    {
        let ghost q0 = self.recycling_queue@;
        let mut enqueued: usize = 0;
        let mut i: usize = 0;
        while i < pairs.len()
            invariant
                i <= pairs@.len(),
                self.policy == old(self).policy,
                self.default_strategy == old(self).default_strategy,
                self.config == old(self).config,
                q0 == old(self).recycling_queue@,
                self.recycling_queue@ == queue_after_scan(q0, pairs@.subrange(0, i as int), self.policy, band,
                    self.config.max_queue_size as nat),
                q0.len() <= self.recycling_queue@.len(),
                enqueued == self.recycling_queue@.len() - q0.len(),
                self.recycling_queue@.subrange(0, q0.len() as int) == q0,
            decreases pairs@.len() - i,
        {
            let p = pairs[i];
            proof {
                assert(pairs@.subrange(0, i + 1).drop_last() =~= pairs@.subrange(0, i as int));
                assert(pairs@.subrange(0, i + 1).last() == p);
            }
            if self.policy.should_recycle(p.phase, band, p.below_fidelity_cut) {
                let ghost before = self.recycling_queue@;
                match self.enqueue_for_recycling(p.id) {
                    Ok(()) => {
                        proof {
                            assert(self.recycling_queue@.subrange(0, q0.len() as int) =~= before.subrange(0, q0.len() as int));
                        }
                        enqueued = enqueued + 1;
                    },
                    Err(_) => {},
                }
            }
            i = i + 1;
        }
        assert(pairs@.subrange(0, pairs@.len() as int) =~= pairs@);
        enqueued
    }

    /// Number of queued pairs.
    pub fn queue_size(&self) -> (r: usize)
        ensures
            r == self.recycling_queue@.len(),
    {
        self.recycling_queue.len()
    }

    /// Empties the queue.
    pub fn clear_queue(&mut self)
        ensures
            final(self).recycling_queue@.len() == 0,
            final(self).policy == old(self).policy,
            final(self).default_strategy == old(self).default_strategy,
            final(self).config == old(self).config,
    {
        self.recycling_queue.clear();
    }

    /// Takes the pair at the head of the queue, if any.
    pub fn next_queued(&mut self) -> (r: Option<u128>)
        ensures
            old(self).recycling_queue@.len() == 0 ==> r is None && final(self).recycling_queue@.len() == 0,
            old(self).recycling_queue@.len() > 0 ==> r == Some(old(self).recycling_queue@[0])
                && final(self).recycling_queue@ == old(self).recycling_queue@.drop_first(),
            final(self).policy == old(self).policy,
            final(self).default_strategy == old(self).default_strategy,
            final(self).config == old(self).config,
    {
        if self.recycling_queue.len() == 0 {
            None
        } else {
            Some(self.recycling_queue.remove(0))
        }
    }
}

/// Slot of a phase among the five, in declaration order.
pub open spec fn phase_slot(p: ThermodynamicPhase) -> int {
    match p {
        ThermodynamicPhase::Generation => 0,
        ThermodynamicPhase::Active => 1,
        ThermodynamicPhase::Degradation => 2,
        ThermodynamicPhase::Radiation => 3,
        ThermodynamicPhase::Inertia => 4,
    }
}

/// The five phases, in declaration order.
pub open spec fn all_phases() -> Seq<ThermodynamicPhase> {
    seq![
        ThermodynamicPhase::Generation,
        ThermodynamicPhase::Active,
        ThermodynamicPhase::Degradation,
        ThermodynamicPhase::Radiation,
        ThermodynamicPhase::Inertia,
    ]
}

fn slot_of(p: ThermodynamicPhase) -> (r: usize)
    ensures
        r == phase_slot(p),
        r < 5,
{
    match p {
        ThermodynamicPhase::Generation => 0,
        ThermodynamicPhase::Active => 1,
        ThermodynamicPhase::Degradation => 2,
        ThermodynamicPhase::Radiation => 3,
        ThermodynamicPhase::Inertia => 4,
    }
}

/// Number of times `p` occurs in `s`.
pub open spec fn occurrences(s: Seq<ThermodynamicPhase>, p: ThermodynamicPhase) -> nat
    decreases s.len(),
{
    if s.len() == 0 {
        0
    } else {
        occurrences(s.drop_last(), p) + if s.last() == p {
            1nat
        } else {
            0nat
        }
    }
}

/// The phases with a nonzero count among the first `n`, in declaration order, with their
/// counts.
pub open spec fn counted(counts: Seq<usize>, n: nat) -> Seq<(ThermodynamicPhase, usize)>
    decreases n,
{
    if n == 0 {
        Seq::empty()
    } else {
        let before = counted(counts, (n - 1) as nat);
        if counts[n - 1] > 0 {
            before.push((all_phases()[n - 1], counts[n - 1]))
        } else {
            before
        }
    }
}

/// Most transitions a lifecycle manager remembers.
pub const TRANSITION_HISTORY_LIMIT: usize = 1000;

/// A recorded change of thermodynamic phase of a pair. (The pair's fidelity and ergotropy
/// at that time are floating-point values kept by the caller.)
#[derive(Debug, Clone, Copy, PartialEq, Eq, Structural)]
pub struct PhaseTransition {
    pub pair_id: u128,
    pub from_phase: ThermodynamicPhase,
    pub to_phase: ThermodynamicPhase,
    pub timestamp: u64,
}

/// The history after recording `t`: the oldest entry leaves once the limit is passed.
pub open spec fn history_after(h: Seq<PhaseTransition>, t: PhaseTransition) -> Seq<PhaseTransition> {
    if h.push(t).len() > TRANSITION_HISTORY_LIMIT {
        h.push(t).drop_first()
    } else {
        h.push(t)
    }
}

/// Lifecycle bookkeeping of the pairs: how many are in each phase, and the latest phase
/// transitions.
pub struct EntanglementLifecycleManager {
    recycler: EntanglementRecycler,
    /// Count per phase, by slot
    phase_counts: [usize; 5],
    /// Transition history, oldest first
    transition_history: Vec<PhaseTransition>,
}

impl EntanglementLifecycleManager {
    /// Count per phase, by slot.
    pub closed spec fn counts(&self) -> Seq<usize> {
        self.phase_counts@
    }

    /// The remembered transitions, oldest first.
    pub closed spec fn history(&self) -> Seq<PhaseTransition> {
        self.transition_history@
    }

    /// A manager with no counts and no history.
    pub fn new(recycler: EntanglementRecycler) -> (r: Self)
        ensures
            r.counts() == seq![0usize, 0usize, 0usize, 0usize, 0usize],
            r.history().len() == 0,
    {
        let r = EntanglementLifecycleManager {
            recycler,
            phase_counts: [0, 0, 0, 0, 0],
            transition_history: Vec::new(),
        };
        assert(r.phase_counts@ =~= seq![0usize, 0usize, 0usize, 0usize, 0usize]);
        r
    }

    /// Recounts the phases from the phases of the pool's pairs.
    pub fn update_phase_counts(&mut self, phases: &Vec<ThermodynamicPhase>)
        ensures
            final(self).counts().len() == 5,
            forall|p: ThermodynamicPhase| #[trigger] final(self).counts()[phase_slot(p)] == occurrences(phases@, p),
            final(self).history() == old(self).history(),
    {
        let mut counts: [usize; 5] = [0, 0, 0, 0, 0];
        let mut i: usize = 0;
        while i < phases.len()
            invariant
                i <= phases@.len(),
                counts@.len() == 5,
                forall|p: ThermodynamicPhase|
                    #[trigger] counts@[phase_slot(p)] == occurrences(phases@.subrange(0, i as int), p),
            decreases phases@.len() - i,
        {
            let slot = slot_of(phases[i]);
            proof {
                let pre = phases@.subrange(0, i as int);
                let next = phases@.subrange(0, i + 1);
                assert(next.drop_last() =~= pre);
                assert(next.last() == phases@[i as int]);
                assert forall|p: ThermodynamicPhase| occurrences(pre, p) <= i by {
                    lemma_occurrences_bound(pre, p);
                }
                assert(occurrences(pre, phases@[i as int]) <= i);
            }
            counts[slot] = counts[slot] + 1;
            i = i + 1;
            proof {
                let next = phases@.subrange(0, i as int);
                assert forall|p: ThermodynamicPhase| #[trigger] counts@[phase_slot(p)] == occurrences(next, p) by {
                    assert(next.drop_last() =~= phases@.subrange(0, i - 1));
                }
            }
        }
        assert(phases@.subrange(0, phases@.len() as int) =~= phases@);
        self.phase_counts = counts;
    }

    /// The count of one phase.
    pub fn phase_count(&self, phase: ThermodynamicPhase) -> (r: usize)
        ensures
            r == self.counts()[phase_slot(phase)],
    {
        self.phase_counts[slot_of(phase)]
    }

    /// The phases with a nonzero count, in declaration order, with their counts.
    pub fn counted_phases(&self) -> (r: Vec<(ThermodynamicPhase, usize)>)
        ensures
            r@ == counted(self.counts(), 5),
    {
        let phases = [
            ThermodynamicPhase::Generation,
            ThermodynamicPhase::Active,
            ThermodynamicPhase::Degradation,
            ThermodynamicPhase::Radiation,
            ThermodynamicPhase::Inertia,
        ];
        assert(phases@ =~= all_phases());
        let mut r: Vec<(ThermodynamicPhase, usize)> = Vec::new();
        let mut k: usize = 0;
        while k < 5
            invariant
                k <= 5,
                phases@ == all_phases(),
                self.phase_counts@.len() == 5,
                r@ == counted(self.phase_counts@, k as nat),
            decreases 5 - k,
        {
            if self.phase_counts[k] > 0 {
                r.push((phases[k], self.phase_counts[k]));
            }
            k = k + 1;
        }
        r
    }

    /// The remembered transitions, oldest first.
    pub fn transitions(&self) -> (r: &[PhaseTransition])
        ensures
            r@ == self.history(),
    {
        self.transition_history.as_slice()
    }

    /// Records a phase transition of a pair at time `now`; the history keeps the latest
    /// `TRANSITION_HISTORY_LIMIT` transitions.
    pub fn record_transition(
        &mut self,
        pair_id: u128,
        from_phase: ThermodynamicPhase,
        to_phase: ThermodynamicPhase,
        now: u64,
    )
        ensures
            final(self).history() == history_after(
                old(self).history(),
                PhaseTransition { pair_id, from_phase, to_phase, timestamp: now },
            ),
            final(self).counts() == old(self).counts(),
    {
        let t = PhaseTransition { pair_id, from_phase, to_phase, timestamp: now };
        self.transition_history.push(t);
        if self.transition_history.len() > TRANSITION_HISTORY_LIMIT {
            self.transition_history.remove(0);
            assert(self.transition_history@ =~= old(self).transition_history@.push(t).drop_first());
        }
    }
}

proof fn lemma_occurrences_bound(s: Seq<ThermodynamicPhase>, p: ThermodynamicPhase)
    ensures
        occurrences(s, p) <= s.len(),
    decreases s.len(),
{
    if s.len() > 0 {
        lemma_occurrences_bound(s.drop_last(), p);
    }
}

/// The transition history never holds more than its limit, and its newest entry is the
/// transition just recorded.
pub proof fn law_history_keeps_latest(h: Seq<PhaseTransition>, t: PhaseTransition)
    requires
        h.len() <= TRANSITION_HISTORY_LIMIT,
    ensures
        history_after(h, t).len() <= TRANSITION_HISTORY_LIMIT,
        history_after(h, t).last() == t,
{
}

/// Every pair is counted in exactly one phase: the counts over the five phases add up to
/// the number of pairs.
pub proof fn law_counts_cover_all_pairs(s: Seq<ThermodynamicPhase>)
    ensures
        occurrences(s, ThermodynamicPhase::Generation) + occurrences(s, ThermodynamicPhase::Active)
            + occurrences(s, ThermodynamicPhase::Degradation) + occurrences(s, ThermodynamicPhase::Radiation)
            + occurrences(s, ThermodynamicPhase::Inertia) == s.len(),
    decreases s.len(),
{
    if s.len() > 0 {
        law_counts_cover_all_pairs(s.drop_last());
    }
}

/// The recycling queue never grows past its limit by scanning.
pub proof fn law_scan_respects_queue_limit(
    q: Seq<u128>,
    pairs: Seq<PairFacts>,
    policy: RecyclingPolicy,
    band: PressureBand,
    max: nat,
)
    requires
        q.len() <= max,
    ensures
        queue_after_scan(q, pairs, policy, band, max).len() <= max,
    decreases pairs.len(),
{
    if pairs.len() > 0 {
        law_scan_respects_queue_limit(q, pairs.drop_last(), policy, band, max);
    }
}

} // verus!
