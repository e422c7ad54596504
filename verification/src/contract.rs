//! Temporal SLA contracts: severities, validation verdicts, and how violations are handled.
use vstd::prelude::*;
use vstd::string::*;
use crate::text::{concat, decimal, decimal_string};
use crate::ids::new_uuid;

verus! {

/// SLA contract type.
#[derive(Debug, Clone, Copy, PartialEq, Eq, Hash, Structural)]
pub enum ContractType {
    Temporal,
    Fidelity,
    Coherence,
    Bandwidth,
}

/// Contract severity level, from Low (1) to Critical (4).
#[derive(Debug, Clone, Copy, PartialEq, Eq, Structural)]
pub enum ContractSeverity {
    /// Critical - failure is unacceptable
    Critical,
    /// High - requires immediate action
    High,
    /// Medium - requires warning
    Medium,
    /// Low - best effort
    Low,
}

/// The numeric level of a severity: Critical 4, High 3, Medium 2, Low 1.
pub open spec fn severity_level(s: ContractSeverity) -> int {
    match s {
        ContractSeverity::Critical => 4,
        ContractSeverity::High => 3,
        ContractSeverity::Medium => 2,
        ContractSeverity::Low => 1,
    }
}

impl ContractSeverity {
    /// The numeric level of the severity; severities compare by it.
    pub fn level(&self) -> (r: u8)
        ensures
            r as int == severity_level(*self),
    {
        match self {
            ContractSeverity::Critical => 4,
            ContractSeverity::High => 3,
            ContractSeverity::Medium => 2,
            ContractSeverity::Low => 1,
        }
    }
}

/// Temporal contract variant.
#[derive(Debug, Clone, Copy, PartialEq, Eq, Structural)]
pub enum TemporalVariant {
    /// Strict: no tolerance, maximum priority
    Strict,
    /// Flexible: with tolerance, medium priority
    Flexible,
    /// Relaxed: high tolerance, low priority
    Relaxed,
}

/// Fidelity metric.
#[derive(Debug, Clone, Copy, PartialEq, Eq, Structural)]
pub enum FidelityMetric {
    State,
    Process,
    Gate,
    Entanglement,
}

/// Kind of contract violation.
#[derive(Debug, Clone, Copy, PartialEq, Eq, Structural)]
pub enum ViolationType {
    TimingExceeded,
    FidelityBelowThreshold,
    PhaseCoherence,
    CoherenceLoss,
    ThroughputBelowTarget,
}

/// Action taken on a violation.
#[derive(Debug, Clone, Copy, PartialEq, Eq, Structural)]
pub enum ViolationAction {
    /// No action (logged only)
    NoAction,
    /// Rollback to snapshot
    Rollback,
    /// Retry operation
    Retry,
    /// Optimization applied
    Optimize,
    /// Operation aborted
    Abort,
}

/// Contract validation result.
#[derive(Debug, Clone)]
pub enum ValidationResult {
    /// Contract fulfilled
    Success,
    /// Contract violated
    Violation {
        contract_id: u128,
        violation_type: ViolationType,
        severity: ContractSeverity,
        details: String,
    },
}

impl ValidationResult {
    /// Whether the contract was fulfilled.
    pub fn is_success(&self) -> (r: bool)
        ensures
            r == (*self is Success),
    {
        match self {
            ValidationResult::Success => true,
            _ => false,
        }
    }

    /// The severity of a violation; `None` on success.
    pub fn severity(&self) -> (r: Option<ContractSeverity>)
        ensures
            match *self {
                ValidationResult::Success => r is None,
                ValidationResult::Violation { severity, .. } => r == Some(severity),
            },
    {
        match self {
            ValidationResult::Violation { severity, .. } => Some(*severity),
            _ => None,
        }
    }
}

/// The text of a timing violation.
pub open spec fn duration_violation_text(actual: nat, bound: nat) -> Seq<char> {
    "Duration "@ + decimal(actual) + " ns exceeds limit "@ + decimal(bound) + " ns (violation: "@
        + decimal((actual - bound) as nat) + " ns)"@
}

/// `r` is the verdict on `actual` of a timing contract (id `id`, severity `severity`) that
/// allows `max` plus `tol` nanoseconds: success within the bound, else a timing violation
/// that reports the duration, the bound and the excess.
pub open spec fn duration_verdict(
    id: u128,
    max: u64,
    tol: u64,
    severity: ContractSeverity,
    actual: u64,
    r: ValidationResult,
) -> bool {
    if actual <= max + tol {
        r is Success
    } else {
        r matches ValidationResult::Violation { contract_id, violation_type, severity: s, details }
            && contract_id == id && violation_type == ViolationType::TimingExceeded && s == severity
            && details@ == duration_violation_text(actual as nat, (max + tol) as nat)
    }
}

/// Checks a duration against a timing contract allowing `max_duration_ns` plus
/// `tolerance_ns`.
pub fn validate_duration(
    contract_id: u128,
    max_duration_ns: u64,
    tolerance_ns: u64,
    severity: ContractSeverity,
    actual_duration_ns: u64,
) -> (r: ValidationResult)
    requires
        max_duration_ns + tolerance_ns <= u64::MAX,
    ensures
        duration_verdict(contract_id, max_duration_ns, tolerance_ns, severity, actual_duration_ns, r),
{
    let upper_bound = max_duration_ns + tolerance_ns;
    if actual_duration_ns <= upper_bound {
        ValidationResult::Success
    } else {
        let violation_ns = actual_duration_ns - upper_bound;
        let a = decimal_string(actual_duration_ns as u128);
        let b = decimal_string(upper_bound as u128);
        let v = decimal_string(violation_ns as u128);
        let mut d = concat("Duration ", a.as_str());
        d.append(" ns exceeds limit ");
        d.append(b.as_str());
        d.append(" ns (violation: ");
        d.append(v.as_str());
        d.append(" ns)");
        ValidationResult::Violation {
            contract_id,
            violation_type: ViolationType::TimingExceeded,
            severity,
            details: d,
        }
    }
}

/// A logged violation.
#[derive(Debug, Clone)]
pub struct ViolationRecord {
    /// When the violation was handled (nanoseconds, caller's clock)
    pub timestamp: u64,
    pub contract_id: u128,
    pub contract_type: ContractType,
    pub violation_type: ViolationType,
    pub severity: ContractSeverity,
    pub details: String,
    pub action_taken: ViolationAction,
}

/// Contract statistics.
#[derive(Debug, Clone, Copy)]
pub struct ContractStatistics {
    pub total_validations: u64,
    pub successful_validations: u64,
    pub total_violations: u64,
    pub critical_violations: u64,
    pub rollbacks_triggered: u64,
    pub retries_attempted: u64,
}

impl ContractStatistics {
    /// All counters at zero.
    pub open spec fn default_spec() -> Self {
        ContractStatistics {
            total_validations: 0,
            successful_validations: 0,
            total_violations: 0,
            critical_violations: 0,
            rollbacks_triggered: 0,
            retries_attempted: 0,
        }
    }
}

impl Default for ContractStatistics {
    fn default() -> (r: Self)
        ensures
            r == Self::default_spec(),
            r.total_validations == 0,
            r.successful_validations == 0,
            r.total_violations == 0,
            r.critical_violations == 0,
            r.rollbacks_triggered == 0,
            r.retries_attempted == 0,
    {
        ContractStatistics {
            total_validations: 0,
            successful_validations: 0,
            total_violations: 0,
            critical_violations: 0,
            rollbacks_triggered: 0,
            retries_attempted: 0,
        }
    }
}

/// The action a violation calls for: with corrective action allowed, a timing violation of
/// severity High or above is rolled back and a fidelity violation is retried; anything else
/// is only logged.
pub open spec fn spec_violation_action(
    violation_type: ViolationType,
    severity: ContractSeverity,
    allow_corrective_action: bool,
) -> ViolationAction {
    if !allow_corrective_action {
        ViolationAction::NoAction
    } else {
        match violation_type {
            ViolationType::TimingExceeded => if severity_level(severity) >= 3 {
                ViolationAction::Rollback
            } else {
                ViolationAction::NoAction
            },
            ViolationType::FidelityBelowThreshold => ViolationAction::Retry,
            _ => ViolationAction::NoAction,
        }
    }
}

/// The statistics after handling one violation.
pub open spec fn stats_after_violation(
    s: ContractStatistics,
    severity: ContractSeverity,
    action: ViolationAction,
) -> ContractStatistics {
    ContractStatistics {
        total_violations: (s.total_violations + 1) as u64,
        critical_violations: if severity == ContractSeverity::Critical {
            (s.critical_violations + 1) as u64
        } else {
            s.critical_violations
        },
        rollbacks_triggered: if action == ViolationAction::Rollback {
            (s.rollbacks_triggered + 1) as u64
        } else {
            s.rollbacks_triggered
        },
        retries_attempted: if action == ViolationAction::Retry {
            (s.retries_attempted + 1) as u64
        } else {
            s.retries_attempted
        },
        ..s
    }
}

/// Records a validation result: a success changes nothing; a violation is counted, an action
/// is chosen for it, and it is logged with that action.
pub fn handle_violation(
    stats: &mut ContractStatistics,
    history: &mut Vec<ViolationRecord>,
    contract_type: ContractType,
    result: &ValidationResult,
    allow_corrective_action: bool,
    timestamp: u64,
)
    requires
        *result matches ValidationResult::Violation { violation_type, severity, .. } ==> {
            let action = spec_violation_action(violation_type, severity, allow_corrective_action);
            &&& old(stats).total_violations < u64::MAX
            &&& severity == ContractSeverity::Critical ==> old(stats).critical_violations < u64::MAX
            &&& action == ViolationAction::Rollback ==> old(stats).rollbacks_triggered < u64::MAX
            &&& action == ViolationAction::Retry ==> old(stats).retries_attempted < u64::MAX
        },
    ensures
        match *result {
            ValidationResult::Success => *final(stats) == *old(stats) && final(history)@ == old(history)@,
            ValidationResult::Violation { contract_id, violation_type, severity, details } => {
                let action = spec_violation_action(violation_type, severity, allow_corrective_action);
                &&& *final(stats) == stats_after_violation(*old(stats), severity, action)
                &&& final(history)@ == old(history)@.push(ViolationRecord {
                    timestamp,
                    contract_id,
                    contract_type,
                    violation_type,
                    severity,
                    details,
                    action_taken: action,
                })
            },
        },
{
    match result {
        ValidationResult::Success => {},
        ValidationResult::Violation { contract_id, violation_type, severity, details } => {
            stats.total_violations = stats.total_violations + 1;
            if *severity == ContractSeverity::Critical {
                stats.critical_violations = stats.critical_violations + 1;
            }
            let action = if allow_corrective_action {
                match violation_type {
                    ViolationType::TimingExceeded => {
                        if severity.level() >= 3 {
                            stats.rollbacks_triggered = stats.rollbacks_triggered + 1;
                            ViolationAction::Rollback
                        } else {
                            ViolationAction::NoAction
                        }
                    },
                    ViolationType::FidelityBelowThreshold => {
                        stats.retries_attempted = stats.retries_attempted + 1;
                        ViolationAction::Retry
                    },
                    _ => ViolationAction::NoAction,
                }
            } else {
                ViolationAction::NoAction
            };
            history.push(
                ViolationRecord {
                    timestamp,
                    contract_id: *contract_id,
                    contract_type,
                    violation_type: *violation_type,
                    severity: *severity,
                    details: details.clone(),
                    action_taken: action,
                },
            );
        },
    }
}

/// Without permission for corrective action no violation, of any type or severity, is
/// acted on: it is only logged, and neither the rollback nor the retry counter moves.
pub proof fn law_no_action_without_permission(
    s: ContractStatistics,
    violation_type: ViolationType,
    severity: ContractSeverity,
)
    ensures
        spec_violation_action(violation_type, severity, false) == ViolationAction::NoAction,
        stats_after_violation(s, severity, spec_violation_action(violation_type, severity, false)).rollbacks_triggered
            == s.rollbacks_triggered,
        stats_after_violation(s, severity, spec_violation_action(violation_type, severity, false)).retries_attempted
            == s.retries_attempted,
{
}

/// The counters stay ordered: critical violations, and corrective actions taken, are
/// among the violations counted.
pub open spec fn stats_consistent(s: ContractStatistics) -> bool {
    &&& s.critical_violations <= s.total_violations
    &&& s.rollbacks_triggered + s.retries_attempted <= s.total_violations
    &&& s.successful_validations <= s.total_validations
}

/// Handling a violation keeps the counters ordered.
pub proof fn law_violation_keeps_stats_consistent(
    s: ContractStatistics,
    severity: ContractSeverity,
    violation_type: ViolationType,
    allow: bool,
)
    requires
        stats_consistent(s),
        s.total_violations < u64::MAX,
    ensures
        stats_consistent(stats_after_violation(s, severity, spec_violation_action(violation_type, severity, allow))),
{
}

/// A violation is rolled back only when corrective action is allowed, it is a timing
/// violation, and its severity is High or Critical.
pub proof fn law_rollback_only_for_severe_timing(
    violation_type: ViolationType,
    severity: ContractSeverity,
    allow: bool,
)
    ensures
        spec_violation_action(violation_type, severity, allow) == ViolationAction::Rollback <==> (allow
            && violation_type == ViolationType::TimingExceeded && (severity == ContractSeverity::High
            || severity == ContractSeverity::Critical)),
{
}

/// Temporal contract: timing guarantees of an operation.
#[derive(Debug)]
pub struct TemporalContract {
    /// Unique contract ID
    pub id: u128,
    /// Contract name
    pub name: String,
    /// Strict, Flexible or Relaxed
    pub variant: TemporalVariant,
    /// Maximum allowed duration (nanoseconds)
    pub max_duration_ns: u64,
    /// Tolerance (nanoseconds)
    pub tolerance_ns: u64,
    /// Absolute deadline (nanoseconds on the caller's clock), if any
    pub deadline: Option<u64>,
    /// Scheduler priority
    pub priority: u8,
    /// Severity
    pub severity: ContractSeverity,
    /// Whether a violation may be rolled back
    pub allow_rollback: bool,
}

impl Clone for TemporalContract {
    fn clone(&self) -> (r: Self)
        ensures
            r == *self,
    {
        TemporalContract {
            id: self.id,
            name: self.name.clone(),
            variant: self.variant,
            max_duration_ns: self.max_duration_ns,
            tolerance_ns: self.tolerance_ns,
            deadline: self.deadline,
            priority: self.priority,
            severity: self.severity,
            allow_rollback: self.allow_rollback,
        }
    }
}

impl TemporalContract {
    /// A strict contract: 100 ns, no tolerance, top priority, critical, rollback allowed.
    pub fn strict() -> (r: Self)
        ensures
            r.name@ == "strict_timing"@,
            r.variant == TemporalVariant::Strict,
            r.max_duration_ns == 100,
            r.tolerance_ns == 0,
            r.deadline is None,
            r.priority == 255,
            r.severity == ContractSeverity::Critical,
            r.allow_rollback,
    {
        proof {
            reveal_strlit("strict_timing");
        }
        TemporalContract {
            id: new_uuid(),
            name: String::from_str("strict_timing"),
            variant: TemporalVariant::Strict,
            max_duration_ns: 100,
            tolerance_ns: 0,
            deadline: None,
            priority: 255,
            severity: ContractSeverity::Critical,
            allow_rollback: true,
        }
    }

    /// A flexible contract: 500 ns plus `tolerance_ns`, medium priority and severity,
    /// rollback allowed.
    pub fn flexible(tolerance_ns: u64) -> (r: Self)
        ensures
            r.name@ == "flexible_timing"@,
            r.variant == TemporalVariant::Flexible,
            r.max_duration_ns == 500,
            r.tolerance_ns == tolerance_ns,
            r.deadline is None,
            r.priority == 128,
            r.severity == ContractSeverity::Medium,
            r.allow_rollback,
    {
        proof {
            reveal_strlit("flexible_timing");
        }
        TemporalContract {
            id: new_uuid(),
            name: String::from_str("flexible_timing"),
            variant: TemporalVariant::Flexible,
            max_duration_ns: 500,
            tolerance_ns,
            deadline: None,
            priority: 128,
            severity: ContractSeverity::Medium,
            allow_rollback: true,
        }
    }

    /// A relaxed contract: 2000 ns plus `tolerance_ns`, low priority and severity, no
    /// rollback.
    pub fn relaxed(tolerance_ns: u64) -> (r: Self)
        ensures
            r.name@ == "relaxed_timing"@,
            r.variant == TemporalVariant::Relaxed,
            r.max_duration_ns == 2000,
            r.tolerance_ns == tolerance_ns,
            r.deadline is None,
            r.priority == 50,
            r.severity == ContractSeverity::Low,
            !r.allow_rollback,
    {
        proof {
            reveal_strlit("relaxed_timing");
        }
        TemporalContract {
            id: new_uuid(),
            name: String::from_str("relaxed_timing"),
            variant: TemporalVariant::Relaxed,
            max_duration_ns: 2000,
            tolerance_ns,
            deadline: None,
            priority: 50,
            severity: ContractSeverity::Low,
            allow_rollback: false,
        }
    }

    /// The contract's bound fits in a `u64`.
    pub open spec fn bound_fits(&self) -> bool {
        self.max_duration_ns + self.tolerance_ns <= u64::MAX
    }

    /// Checks a duration against the contract.
    pub fn validate_duration(&self, actual_duration_ns: u64) -> (r: ValidationResult)
        requires
            self.bound_fits(),
        ensures
            duration_verdict(self.id, self.max_duration_ns, self.tolerance_ns, self.severity, actual_duration_ns, r),
    {
        validate_duration(self.id, self.max_duration_ns, self.tolerance_ns, self.severity, actual_duration_ns)
    }
}

/// Holds of the contracts that a duration of `d` nanoseconds violates.
pub open spec fn exceeded_by(d: u64) -> spec_fn(TemporalContract) -> bool {
    |c: TemporalContract| d > c.max_duration_ns + c.tolerance_ns
}

/// Holds of critical contracts.
pub open spec fn critical() -> spec_fn(TemporalContract) -> bool {
    |c: TemporalContract| c.severity == ContractSeverity::Critical
}

/// Holds of contracts whose timing violations are rolled back.
pub open spec fn rolled_back_on_violation() -> spec_fn(TemporalContract) -> bool {
    |c: TemporalContract| spec_violation_action(ViolationType::TimingExceeded, c.severity, c.allow_rollback)
        == ViolationAction::Rollback
}

/// `rec` logs the violation of contract `c` by a duration of `d` ns, handled at `now`.
pub open spec fn logs_violation(rec: ViolationRecord, c: TemporalContract, d: u64, now: u64) -> bool {
    &&& rec.timestamp == now
    &&& rec.contract_id == c.id
    &&& rec.contract_type == ContractType::Temporal
    &&& rec.violation_type == ViolationType::TimingExceeded
    &&& rec.severity == c.severity
    &&& rec.details@ == duration_violation_text(d as nat, (c.max_duration_ns + c.tolerance_ns) as nat)
    &&& rec.action_taken == spec_violation_action(ViolationType::TimingExceeded, c.severity, c.allow_rollback)
}

/// Central contract manager for temporal contracts.
pub struct ContractManager {
    /// Active temporal contracts, in order of registration; no id occurs twice
    pub temporal_contracts: Vec<TemporalContract>,
    /// Violation history
    pub violation_history: Vec<ViolationRecord>,
    /// Statistics
    pub stats: ContractStatistics,
}

impl ContractManager {
    /// No contract id occurs twice.
    pub open spec fn wf(&self) -> bool {
        forall|i: int, j: int|
            0 <= i < self.temporal_contracts@.len() && 0 <= j < self.temporal_contracts@.len() && i != j
                ==> self.temporal_contracts@[i].id != self.temporal_contracts@[j].id
    }

    /// A manager with no contracts, history or statistics.
    pub fn new() -> (r: Self)
        ensures
            r.wf(),
            r.temporal_contracts@.len() == 0,
            r.violation_history@.len() == 0,
            r.stats == ContractStatistics::default_spec(),
    {
        ContractManager {
            temporal_contracts: Vec::new(),
            violation_history: Vec::new(),
            stats: ContractStatistics::default(),
        }
    }

    /// Registers a temporal contract, replacing one with the same id; returns its id.
    pub fn register_temporal(&mut self, contract: TemporalContract) -> (r: u128)
        requires
            old(self).wf(),
        ensures
            final(self).wf(),
            r == contract.id,
            ({
                let cs = old(self).temporal_contracts@;
                final(self).temporal_contracts@ == if exists|i: int| 0 <= i < cs.len() && cs[i].id == contract.id {
                    cs.update(choose|i: int| 0 <= i < cs.len() && cs[i].id == contract.id, contract)
                } else {
                    cs.push(contract)
                }
            }),
            final(self).temporal_contracts@.contains(contract),
            final(self).violation_history@ == old(self).violation_history@,
            final(self).stats == old(self).stats,
    {
        let id = contract.id;
        let ghost cs = self.temporal_contracts@;
        match self.position(id) {
            Some(i) => {
                self.temporal_contracts.set(i, contract);
                proof {
                    let t = self.temporal_contracts@;
                    assert(t[i as int] == contract);
                    assert forall|a: int, b: int| 0 <= a < t.len() && 0 <= b < t.len() && a != b implies t[a].id != t[b].id by {
                        if a != i && b != i {
                            assert(t[a] == cs[a] && t[b] == cs[b]);
                        } else if a == i {
                            assert(t[b] == cs[b]);
                        } else {
                            assert(t[a] == cs[a]);
                        }
                    }
                }
                return id;
            },
            None => {},
        }
        self.temporal_contracts.push(contract);
        proof {
            let t = self.temporal_contracts@;
            assert(t[cs.len() as int] == contract);
            assert forall|a: int, b: int| 0 <= a < t.len() && 0 <= b < t.len() && a != b implies t[a].id != t[b].id by {
                if a < cs.len() && b < cs.len() {
                    assert(t[a] == cs[a] && t[b] == cs[b]);
                } else if a < cs.len() {
                    assert(t[a] == cs[a]);
                } else {
                    assert(t[b] == cs[b]);
                }
            }
        }
        id
    }

    /// Where the contract with id `id` stands, if it is registered.
    fn position(&self, id: u128) -> (r: Option<usize>)
        requires
            self.wf(),
        ensures
            ({
                let cs = self.temporal_contracts@;
                match r {
                    Some(i) => i < cs.len() && cs[i as int].id == id
                        && (choose|j: int| 0 <= j < cs.len() && cs[j].id == id) == i,
                    None => !(exists|j: int| 0 <= j < cs.len() && cs[j].id == id),
                }
            }),
    {
        let ghost cs = self.temporal_contracts@;
        let mut i: usize = 0;
        while i < self.temporal_contracts.len()
            invariant
                i <= cs.len(),
                cs == self.temporal_contracts@,
                self.wf(),
                forall|k: int| 0 <= k < i ==> cs[k].id != id,
            decreases cs.len() - i,
        {
            if self.temporal_contracts[i].id == id {
                proof {
                    assert(cs[i as int].id == id);
                    let c = choose|j: int| 0 <= j < cs.len() && cs[j].id == id;
                    if c != i {
                        assert(cs[c].id != cs[i as int].id);
                    }
                }
                return Some(i);
            }
            i = i + 1;
        }
        None
    }

    /// Every registered contract's bound fits in a `u64`, and the counters can absorb one
    /// validation round.
    pub open spec fn can_validate(&self) -> bool {
        let n = self.temporal_contracts@.len();
        &&& forall|i: int| 0 <= i < n ==> (#[trigger] self.temporal_contracts@[i]).bound_fits()
        &&& self.stats.total_validations + n <= u64::MAX
        &&& self.stats.successful_validations + n <= u64::MAX
        &&& self.stats.total_violations + n <= u64::MAX
        &&& self.stats.critical_violations + n <= u64::MAX
        &&& self.stats.rollbacks_triggered + n <= u64::MAX
    }

    /// What validating a duration of `d` ns at time `now` against every registered temporal
    /// contract turns `pre` into, with verdicts `r`: one verdict per contract, in order of
    /// registration; each violation is counted and logged with the action it calls for.
    pub open spec fn validation_outcome(pre: &Self, post: &Self, d: u64, now: u64, r: Seq<ValidationResult>) -> bool {
        let cs = pre.temporal_contracts@;
        let over = cs.filter(exceeded_by(d));
        let s = pre.stats;
        let h = pre.violation_history@;
        &&& post.temporal_contracts@ == cs
        &&& r.len() == cs.len()
        &&& forall|i: int| 0 <= i < r.len() ==> {
            let c = #[trigger] cs[i];
            duration_verdict(c.id, c.max_duration_ns, c.tolerance_ns, c.severity, d, r[i])
        }
        &&& post.stats == (ContractStatistics {
            total_validations: (s.total_validations + cs.len()) as u64,
            successful_validations: (s.successful_validations + cs.len() - over.len()) as u64,
            total_violations: (s.total_violations + over.len()) as u64,
            critical_violations: (s.critical_violations + over.filter(critical()).len()) as u64,
            rollbacks_triggered: (s.rollbacks_triggered + over.filter(rolled_back_on_violation()).len()) as u64,
            ..s
        })
        &&& post.violation_history@.len() == h.len() + over.len()
        &&& post.violation_history@.subrange(0, h.len() as int) == h
        &&& forall|k: int| 0 <= k < over.len() ==> logs_violation(
            #[trigger] post.violation_history@[h.len() + k], over[k], d, now)
    }

    /// Checks a duration against every registered temporal contract, in order of
    /// registration: one verdict per contract. Each violation is counted and logged at time
    /// `now` with the action it calls for.
    pub fn validate_temporal_all(&mut self, duration_ns: u64, now: u64) -> (r: Vec<ValidationResult>)
        requires
            old(self).can_validate(),
        ensures
            Self::validation_outcome(old(self), final(self), duration_ns, now, r@),
    {
        let ghost cs = self.temporal_contracts@;
        let ghost s0 = self.stats;
        let ghost h0 = self.violation_history@;
        let n = self.temporal_contracts.len();
        self.stats.total_validations = self.stats.total_validations + n as u64;
        let mut results: Vec<ValidationResult> = Vec::new();
        let mut i: usize = 0;
        while i < n
            invariant
                n == cs.len(),
                i <= n,
                cs == self.temporal_contracts@,
                forall|j: int| 0 <= j < n ==> (#[trigger] cs[j]).bound_fits(),
                results@.len() == i,
                forall|j: int| 0 <= j < i ==> {
                    let c = #[trigger] cs[j];
                    duration_verdict(c.id, c.max_duration_ns, c.tolerance_ns, c.severity, duration_ns, results@[j])
                },
                s0.successful_validations + n <= u64::MAX,
                s0.total_violations + n <= u64::MAX,
                s0.critical_violations + n <= u64::MAX,
                s0.rollbacks_triggered + n <= u64::MAX,
                ({
                    let over = cs.subrange(0, i as int).filter(exceeded_by(duration_ns));
                    &&& over.len() <= i
                    &&& over.filter(critical()).len() <= over.len()
                    &&& over.filter(rolled_back_on_violation()).len() <= over.len()
                    &&& self.stats == (ContractStatistics {
                        total_validations: (s0.total_validations + n) as u64,
                        successful_validations: (s0.successful_validations + i - over.len()) as u64,
                        total_violations: (s0.total_violations + over.len()) as u64,
                        critical_violations: (s0.critical_violations + over.filter(critical()).len()) as u64,
                        rollbacks_triggered: (s0.rollbacks_triggered + over.filter(rolled_back_on_violation()).len()) as u64,
                        ..s0
                    })
                    &&& self.violation_history@.len() == h0.len() + over.len()
                    &&& self.violation_history@.subrange(0, h0.len() as int) == h0
                    &&& forall|k: int| 0 <= k < over.len() ==> logs_violation(
                        #[trigger] self.violation_history@[h0.len() + k], over[k], duration_ns, now)
                }),
            decreases n - i,
        {
            let ghost pre = cs.subrange(0, i as int);
            let ghost over = pre.filter(exceeded_by(duration_ns));
            let ghost hist = self.violation_history@;
            let c = &self.temporal_contracts[i];
            let result = c.validate_duration(duration_ns);
            proof {
                assert(cs.subrange(0, i + 1) =~= pre.push(cs[i as int]));
                pre.lemma_filter_push(cs[i as int], exceeded_by(duration_ns));
                over.lemma_filter_push(cs[i as int], critical());
                over.lemma_filter_push(cs[i as int], rolled_back_on_violation());
            }
            if !result.is_success() {
                handle_violation(&mut self.stats, &mut self.violation_history, ContractType::Temporal, &result,
                    c.allow_rollback, now);
                proof {
                    let over2 = over.push(cs[i as int]);
                    assert forall|k: int| 0 <= k < over2.len() implies logs_violation(
                        #[trigger] self.violation_history@[h0.len() + k], over2[k], duration_ns, now) by {
                        if k < over.len() {
                            assert(self.violation_history@[h0.len() + k] == hist[h0.len() + k]);
                        }
                    }
                    assert(self.violation_history@.subrange(0, h0.len() as int) =~= hist.subrange(0, h0.len() as int));
                }
            } else {
                self.stats.successful_validations = self.stats.successful_validations + 1;
            }
            results.push(result);
            i = i + 1;
        }
        assert(cs.subrange(0, n as int) =~= cs);
        results
    }

    /// The statistics gathered so far.
    pub fn get_statistics(&self) -> (r: &ContractStatistics)
        ensures
            *r == self.stats,
    {
        &self.stats
    }

    /// The last `limit` violations (all of them when there are fewer).
    pub fn get_recent_violations(&self, limit: usize) -> (r: &[ViolationRecord])
        ensures
            ({
                let h = self.violation_history@;
                r@ == if h.len() <= limit { h } else { h.subrange(h.len() - limit, h.len() as int) }
            }),
    {
        let len = self.violation_history.len();
        if len <= limit {
            self.violation_history.as_slice()
        } else {
            vstd::slice::slice_subrange(self.violation_history.as_slice(), len - limit, len)
        }
    }

    /// Drops expired contracts; no contract expires yet, so nothing changes.
    pub fn cleanup_expired(&mut self)
        ensures
            *final(self) == *old(self),
    {
    }
}

impl Default for ContractManager {
    fn default() -> (r: Self)
        ensures
            r.wf(),
            r.temporal_contracts@.len() == 0,
            r.violation_history@.len() == 0,
            r.stats == ContractStatistics::default_spec(),
    {
        Self::new()
    }
}

} // verus!
