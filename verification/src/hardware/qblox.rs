//! Qblox QCM/QRM pulse-control hardware: module kinds, statuses and pulse timing rules.
use vstd::prelude::*;
use vstd::string::*;
use crate::ids::{new_uuid, uuid_string, uuid_text, uuid_version};
use crate::text::{concat, upper_hex, upper_hex_string_padded, zero_padded};

verus! {

/// NCO phase resolution in bits.
pub const QBLOX_PHASE_RESOLUTION_BITS: u32 = 32;

/// Maximum number of sequencers per module.
pub const MAX_SEQUENCERS: usize = 6;

/// Qblox module type.
#[allow(non_camel_case_types)]
#[derive(Debug, Clone, Copy, PartialEq, Eq, Structural)]
pub enum QbloxModuleType {
    /// Qubit Control Module (microwave, 4 outputs)
    QCM,
    /// QCM with integrated RF up-conversion
    QCM_RF,
    /// Qubit Readout Module (1 input, 1 output)
    QRM,
    /// QRM with integrated RF down-conversion
    QRM_RF,
}

/// Qblox-specific errors.
#[derive(Debug, Clone, Copy, PartialEq, Eq, Structural)]
pub enum QbloxError {
    SequencerTimeout,
    FIFOOverflow,
    CalibrationFailed,
    ConnectionLost,
    InvalidPulseParams,
}

/// Module status.
#[derive(Debug, Clone, Copy, PartialEq, Eq, Structural)]
pub enum ModuleStatus {
    Idle,
    Armed,
    Running,
    Error(QbloxError),
}

/// A pulse duration rounded down to the 4 ns grid of the sequencer.
pub fn aligned_duration_ns(duration_ns: u64) -> (r: u64)
    ensures
        r % 4 == 0,
        r <= duration_ns,
        duration_ns - r < 4,
{
    (duration_ns / 4) * 4
}

/// A sequencer index clamped to the last sequencer of a module.
pub fn clamped_sequencer(sequencer: usize) -> (r: usize)
    ensures
        r == if sequencer < MAX_SEQUENCERS { sequencer } else { (MAX_SEQUENCERS - 1) as usize },
{
    if sequencer < MAX_SEQUENCERS - 1 {
        sequencer
    } else {
        MAX_SEQUENCERS - 1
    }
}

/// The timing rules of a pulse: its duration lies on the 4 ns grid and its sequencer exists.
pub fn validate_pulse_timing(duration_ns: u64, sequencer: usize) -> (r: Result<(), QbloxError>)
    ensures
        r is Ok <==> (duration_ns % 4 == 0 && sequencer < MAX_SEQUENCERS),
        r is Err ==> r == Err::<(), QbloxError>(QbloxError::InvalidPulseParams),
{
    if duration_ns % 4 != 0 {
        return Err(QbloxError::InvalidPulseParams);
    }
    if sequencer >= MAX_SEQUENCERS {
        return Err(QbloxError::InvalidPulseParams);
    }
    Ok(())
}

/// A pulse for a Qblox sequencer. The hardware rules read its duration, its sequencer and
/// whether its I and Q amplitudes lie within [-1, 1]; its waveform `W` (oscillator
/// frequencies, amplitudes, phase and envelope, all floating point) travels with it for the
/// caller.
#[derive(Debug, Clone)]
pub struct QbloxPulse<W> {
    /// Unique pulse identifier
    pub id: u128,
    /// Duration in ns (multiple of 4)
    pub duration_ns: u64,
    /// Sequencer index (0-5)
    pub sequencer: usize,
    /// Whether the I and Q amplitudes both lie within [-1, 1]
    pub amplitudes_in_range: bool,
    /// Frequencies, amplitudes, phase and envelope
    pub waveform: W,
}

/// A pulse the hardware accepts: amplitudes in range, duration on the 4 ns grid, and an
/// existing sequencer.
pub open spec fn pulse_valid<W>(p: QbloxPulse<W>) -> bool {
    p.amplitudes_in_range && p.duration_ns % 4 == 0 && p.sequencer < MAX_SEQUENCERS
}

impl<W> QbloxPulse<W> {
    /// A pulse put on the sequencer grid: its duration rounded down to a multiple of 4 ns
    /// and its sequencer clamped to the last one.
    pub fn rectangular(sequencer: usize, duration_ns: u64, amplitudes_in_range: bool, waveform: W) -> (r: Self)
        ensures
            r.duration_ns == (duration_ns / 4) * 4,
            r.sequencer == if sequencer < MAX_SEQUENCERS { sequencer } else { (MAX_SEQUENCERS - 1) as usize },
            r.amplitudes_in_range == amplitudes_in_range,
            r.waveform == waveform,
    {
        QbloxPulse {
            id: new_uuid(),
            duration_ns: aligned_duration_ns(duration_ns),
            sequencer: clamped_sequencer(sequencer),
            amplitudes_in_range,
            waveform,
        }
    }

    /// The X gate (a pi pulse): 40 ns at amplitude 0.5.
    pub fn x_gate(sequencer: usize, waveform: W) -> (r: Self)
        ensures
            r.duration_ns == 40,
            r.sequencer == if sequencer < MAX_SEQUENCERS { sequencer } else { (MAX_SEQUENCERS - 1) as usize },
            r.amplitudes_in_range,
            r.waveform == waveform,
    {
        Self::rectangular(sequencer, 40, true, waveform)
    }

    /// The H gate: 40 ns at amplitude 0.25.
    pub fn h_gate(sequencer: usize, waveform: W) -> (r: Self)
        ensures
            r.duration_ns == 40,
            r.sequencer == if sequencer < MAX_SEQUENCERS { sequencer } else { (MAX_SEQUENCERS - 1) as usize },
            r.amplitudes_in_range,
            r.waveform == waveform,
    {
        Self::rectangular(sequencer, 40, true, waveform)
    }

    /// Checks the pulse against the hardware's rules.
    pub fn validate(&self) -> (r: Result<(), QbloxError>)
        ensures
            r is Ok <==> pulse_valid(*self),
            r is Err ==> r == Err::<(), QbloxError>(QbloxError::InvalidPulseParams),
    {
        if !self.amplitudes_in_range {
            return Err(QbloxError::InvalidPulseParams);
        }
        validate_pulse_timing(self.duration_ns, self.sequencer)
    }
}

/// One of the sequencers of a Qblox module. (The oscillator frequencies it is tuned to
/// are those of the last pulse queued on it, in that pulse's waveform.)
#[derive(Debug)]
pub struct QbloxSequencer<W> {
    pub index: usize,
    pub enabled: bool,
    /// Pulses waiting to be played, oldest first
    pub pulse_queue: Vec<QbloxPulse<W>>,
    pub total_pulses_sent: usize,
}

/// Sum of the durations of the first `n` pulses.
pub open spec fn duration_sum<W>(q: Seq<QbloxPulse<W>>, n: nat) -> nat
    decreases n,
{
    if n == 0 {
        0
    } else {
        duration_sum(q, (n - 1) as nat) + q[n - 1].duration_ns as nat
    }
}

impl<W> QbloxSequencer<W> {
    /// A disabled sequencer with nothing queued.
    pub fn new(index: usize) -> (r: Self)
        ensures
            r.index == index,
            !r.enabled,
            r.pulse_queue@.len() == 0,
            r.total_pulses_sent == 0,
    {
        QbloxSequencer { index, enabled: false, pulse_queue: Vec::new(), total_pulses_sent: 0 }
    }

    /// Queues a pulse, if the hardware accepts it.
    pub fn queue_pulse(&mut self, pulse: QbloxPulse<W>) -> (r: Result<(), QbloxError>)
        ensures
            pulse_valid(pulse) ==> r is Ok && final(self).pulse_queue@ == old(self).pulse_queue@.push(pulse)
                && final(self).index == old(self).index && final(self).enabled == old(self).enabled
                && final(self).total_pulses_sent == old(self).total_pulses_sent,
            !pulse_valid(pulse) ==> r == Err::<(), QbloxError>(QbloxError::InvalidPulseParams) && *final(self)
                == *old(self),
    {
        match pulse.validate() {
            Ok(()) => {
                self.pulse_queue.push(pulse);
                Ok(())
            },
            Err(e) => Err(e),
        }
    }

    /// Plays the queued pulses: the queue empties and its length is added to the count of
    /// pulses sent and returned.
    pub fn flush(&mut self) -> (r: usize)
        requires
            old(self).total_pulses_sent + old(self).pulse_queue@.len() <= usize::MAX,
        ensures
            r == old(self).pulse_queue@.len(),
            final(self).pulse_queue@.len() == 0,
            final(self).total_pulses_sent == old(self).total_pulses_sent + r,
            final(self).index == old(self).index,
            final(self).enabled == old(self).enabled,
    {
        let n = self.pulse_queue.len();
        self.total_pulses_sent = self.total_pulses_sent + n;
        self.pulse_queue.clear();
        n
    }

    /// Total duration of the queued pulses, in ns.
    pub fn total_duration_ns(&self) -> (r: u64)
        requires
            duration_sum(self.pulse_queue@, self.pulse_queue@.len()) <= u64::MAX,
        ensures
            r == duration_sum(self.pulse_queue@, self.pulse_queue@.len()),
    {
        let mut total: u64 = 0;
        let mut i: usize = 0;
        while i < self.pulse_queue.len()
            invariant
                i <= self.pulse_queue@.len(),
                total == duration_sum(self.pulse_queue@, i as nat),
                duration_sum(self.pulse_queue@, self.pulse_queue@.len()) <= u64::MAX,
            decreases self.pulse_queue@.len() - i,
        {
            proof {
                lemma_duration_sum_monotone(self.pulse_queue@, (i + 1) as nat, self.pulse_queue@.len());
            }
            total = total + self.pulse_queue[i].duration_ns;
            i = i + 1;
        }
        total
    }
}

proof fn lemma_duration_sum_monotone<W>(q: Seq<QbloxPulse<W>>, m: nat, n: nat)
    requires
        m <= n,
    ensures
        duration_sum(q, m) <= duration_sum(q, n),
    decreases n,
{
    if m < n {
        lemma_duration_sum_monotone(q, m, (n - 1) as nat);
    }
}

/// Qblox module (QCM or QRM) with its sequencers. (Its temperature reading is a
/// floating-point value kept by the caller.)
#[derive(Debug)]
pub struct QbloxModule<W> {
    pub slot: u8,
    pub module_type: QbloxModuleType,
    pub serial_number: String,
    pub sequencers: Vec<QbloxSequencer<W>>,
    pub status: ModuleStatus,
}

/// The serial number of the module in `slot`: "QB-" and the slot times 0x1234 in
/// upper-case hexadecimal, at least four digits.
pub open spec fn serial_text(slot: u8) -> Seq<char> {
    "QB-"@ + zero_padded(upper_hex(slot as nat * 0x1234), 4)
}

/// A module has one entry per sequencer.
pub open spec fn module_wf<W>(m: QbloxModule<W>) -> bool {
    m.sequencers@.len() == MAX_SEQUENCERS
}

/// A module as it comes out of the box: idle, its sequencers numbered, disabled and empty.
pub open spec fn fresh_module<W>(m: QbloxModule<W>, slot: u8, module_type: QbloxModuleType) -> bool {
    &&& m.slot == slot
    &&& m.module_type == module_type
    &&& m.serial_number@ == serial_text(slot)
    &&& m.status == ModuleStatus::Idle
    &&& module_wf(m)
    &&& forall|k: int|
        0 <= k < MAX_SEQUENCERS ==> {
            let s = #[trigger] m.sequencers@[k];
            s.index == k && !s.enabled && s.pulse_queue@.len() == 0 && s.total_pulses_sent == 0
        }
}

/// Pulses waiting on the enabled sequencers among the first `n`.
pub open spec fn armed_pulses<W>(seqs: Seq<QbloxSequencer<W>>, n: nat) -> nat
    decreases n,
{
    if n == 0 {
        0
    } else {
        armed_pulses(seqs, (n - 1) as nat) + if seqs[n - 1].enabled {
            seqs[n - 1].pulse_queue@.len()
        } else {
            0
        }
    }
}

/// Pulses waiting on the first `n` sequencers, enabled or not.
pub open spec fn waiting_pulses<W>(seqs: Seq<QbloxSequencer<W>>, n: nat) -> nat
    decreases n,
{
    if n == 0 {
        0
    } else {
        waiting_pulses(seqs, (n - 1) as nat) + seqs[n - 1].pulse_queue@.len()
    }
}

proof fn lemma_armed_pulses_monotone<W>(seqs: Seq<QbloxSequencer<W>>, m: nat, n: nat)
    requires
        m <= n,
    ensures
        armed_pulses(seqs, m) <= armed_pulses(seqs, n),
    decreases n,
{
    if m < n {
        lemma_armed_pulses_monotone(seqs, m, (n - 1) as nat);
    }
}

proof fn lemma_armed_pulses_frame<W>(a: Seq<QbloxSequencer<W>>, b: Seq<QbloxSequencer<W>>, n: nat)
    requires
        n <= a.len(),
        n <= b.len(),
        forall|k: int| 0 <= k < n ==> #[trigger] a[k] == b[k],
    ensures
        armed_pulses(a, n) == armed_pulses(b, n),
    decreases n,
{
    if n > 0 {
        lemma_armed_pulses_frame(a, b, (n - 1) as nat);
    }
}

proof fn lemma_all_armed<W>(seqs: Seq<QbloxSequencer<W>>, n: nat)
    requires
        n <= seqs.len(),
        forall|k: int| 0 <= k < n ==> (#[trigger] seqs[k]).enabled,
    ensures
        armed_pulses(seqs, n) == waiting_pulses(seqs, n),
    decreases n,
{
    if n > 0 {
        lemma_all_armed(seqs, (n - 1) as nat);
    }
}

impl<W> QbloxModule<W> {
    /// A fresh module in `slot`.
    pub fn new(slot: u8, module_type: QbloxModuleType) -> (r: Self)
        ensures
            fresh_module(r, slot, module_type),
    {
        let mut sequencers: Vec<QbloxSequencer<W>> = Vec::new();
        let mut i: usize = 0;
        while i < MAX_SEQUENCERS
            invariant
                i <= MAX_SEQUENCERS,
                sequencers@.len() == i,
                forall|k: int|
                    0 <= k < i ==> {
                        let s = #[trigger] sequencers@[k];
                        s.index == k && !s.enabled && s.pulse_queue@.len() == 0 && s.total_pulses_sent == 0
                    },
            decreases MAX_SEQUENCERS - i,
        {
            sequencers.push(QbloxSequencer::new(i));
            i = i + 1;
        }
        let code = upper_hex_string_padded(slot as u128 * 0x1234, 4);
        let serial_number = concat("QB-", code.as_str());
        proof {
            reveal_strlit("QB-");
        }
        QbloxModule { slot, module_type, serial_number, sequencers, status: ModuleStatus::Idle }
    }

    /// Queues a pulse on the sequencer it names, if the hardware accepts it.
    pub fn send_pulse(&mut self, pulse: QbloxPulse<W>) -> (r: Result<(), QbloxError>)
        requires
            module_wf(*old(self)),
            pulse.sequencer < MAX_SEQUENCERS,
        ensures
            pulse_valid(pulse) ==> r is Ok && final(self).slot == old(self).slot && final(self).module_type
                == old(self).module_type && final(self).serial_number == old(self).serial_number
                && final(self).status == old(self).status && final(self).sequencers@ == old(self).sequencers@.update(
                pulse.sequencer as int,
                final(self).sequencers@[pulse.sequencer as int],
            ) && final(self).sequencers@[pulse.sequencer as int].pulse_queue@ == old(self).sequencers@[pulse.sequencer as int].pulse_queue@.push(pulse) && final(self).sequencers@[pulse.sequencer as int].index
                == old(self).sequencers@[pulse.sequencer as int].index && final(self).sequencers@[pulse.sequencer as int].enabled
                == old(self).sequencers@[pulse.sequencer as int].enabled
                && final(self).sequencers@[pulse.sequencer as int].total_pulses_sent == old(self).sequencers@[pulse.sequencer as int].total_pulses_sent,
            !pulse_valid(pulse) ==> r == Err::<(), QbloxError>(QbloxError::InvalidPulseParams) && *final(self)
                == *old(self),
    {
        if let Err(e) = pulse.validate() {
            return Err(e);
        }
        let s = pulse.sequencer;
        let ghost before = self.sequencers@;
        let r = self.sequencers[s].queue_pulse(pulse);
        proof {
            assert(self.sequencers@ =~= before.update(s as int, self.sequencers@[s as int]));
        }
        r
    }

    /// Arms every sequencer for the next trigger.
    pub fn arm(&mut self)
        requires
            module_wf(*old(self)),
        ensures
            module_wf(*final(self)),
            final(self).status == ModuleStatus::Armed,
            final(self).slot == old(self).slot,
            final(self).module_type == old(self).module_type,
            final(self).serial_number == old(self).serial_number,
            forall|k: int|
                0 <= k < MAX_SEQUENCERS ==> {
                    let f = #[trigger] final(self).sequencers@[k];
                    let o = old(self).sequencers@[k];
                    f.enabled && f.index == o.index && f.pulse_queue@ == o.pulse_queue@ && f.total_pulses_sent
                        == o.total_pulses_sent
                },
    {
        let mut i: usize = 0;
        while i < MAX_SEQUENCERS
            invariant
                i <= MAX_SEQUENCERS,
                self.sequencers@.len() == MAX_SEQUENCERS,
                self.slot == old(self).slot,
                self.module_type == old(self).module_type,
                self.serial_number == old(self).serial_number,
                old(self).sequencers@.len() == MAX_SEQUENCERS,
                forall|k: int|
                    0 <= k < MAX_SEQUENCERS ==> {
                        let f = #[trigger] self.sequencers@[k];
                        let o = old(self).sequencers@[k];
                        (k < i ==> f.enabled) && (k >= i ==> f.enabled == o.enabled) && f.index == o.index
                            && f.pulse_queue@ == o.pulse_queue@ && f.total_pulses_sent == o.total_pulses_sent
                    },
            decreases MAX_SEQUENCERS - i,
        {
            self.sequencers[i].enabled = true;
            i = i + 1;
        }
        self.status = ModuleStatus::Armed;
    }

    /// Plays the pulses waiting on every enabled sequencer; returns how many were played.
    pub fn trigger(&mut self) -> (r: usize)
        requires
            module_wf(*old(self)),
            armed_pulses(old(self).sequencers@, MAX_SEQUENCERS as nat) <= usize::MAX,
            forall|k: int|
                0 <= k < MAX_SEQUENCERS && (#[trigger] old(self).sequencers@[k]).enabled ==> old(self).sequencers@[k].total_pulses_sent + old(self).sequencers@[k].pulse_queue@.len() <= usize::MAX,
        ensures
            r == armed_pulses(old(self).sequencers@, MAX_SEQUENCERS as nat),
            module_wf(*final(self)),
            final(self).status == ModuleStatus::Idle,
            final(self).slot == old(self).slot,
            final(self).module_type == old(self).module_type,
            final(self).serial_number == old(self).serial_number,
            forall|k: int|
                0 <= k < MAX_SEQUENCERS ==> {
                    let f = #[trigger] final(self).sequencers@[k];
                    let o = old(self).sequencers@[k];
                    &&& o.enabled ==> f.pulse_queue@.len() == 0 && f.total_pulses_sent == o.total_pulses_sent
                        + o.pulse_queue@.len() && f.enabled && f.index == o.index
                    &&& !o.enabled ==> f == o
                },
    {
        self.status = ModuleStatus::Running;
        let ghost start = self.sequencers@;
        let mut total: usize = 0;
        let mut i: usize = 0;
        while i < MAX_SEQUENCERS
            invariant
                i <= MAX_SEQUENCERS,
                start == old(self).sequencers@,
                start.len() == MAX_SEQUENCERS,
                self.sequencers@.len() == MAX_SEQUENCERS,
                self.slot == old(self).slot,
                self.module_type == old(self).module_type,
                self.serial_number == old(self).serial_number,
                armed_pulses(start, MAX_SEQUENCERS as nat) <= usize::MAX,
                total == armed_pulses(start, i as nat),
                forall|k: int|
                    0 <= k < MAX_SEQUENCERS && (#[trigger] start[k]).enabled ==> start[k].total_pulses_sent
                        + start[k].pulse_queue@.len() <= usize::MAX,
                forall|k: int| i <= k < MAX_SEQUENCERS ==> #[trigger] self.sequencers@[k] == start[k],
                forall|k: int|
                    0 <= k < i ==> {
                        let f = #[trigger] self.sequencers@[k];
                        let o = start[k];
                        &&& o.enabled ==> f.pulse_queue@.len() == 0 && f.total_pulses_sent == o.total_pulses_sent
                            + o.pulse_queue@.len() && f.enabled && f.index == o.index
                        &&& !o.enabled ==> f == o
                    },
            decreases MAX_SEQUENCERS - i,
        {
            proof {
                lemma_armed_pulses_monotone(start, (i + 1) as nat, MAX_SEQUENCERS as nat);
            }
            if self.sequencers[i].enabled && self.sequencers[i].pulse_queue.len() > 0 {
                let n = self.sequencers[i].flush();
                total = total + n;
            }
            i = i + 1;
        }
        self.status = ModuleStatus::Idle;
        total
    }

    /// Empties and disables every sequencer.
    pub fn reset(&mut self)
        requires
            module_wf(*old(self)),
        ensures
            module_wf(*final(self)),
            final(self).status == ModuleStatus::Idle,
            final(self).slot == old(self).slot,
            final(self).module_type == old(self).module_type,
            final(self).serial_number == old(self).serial_number,
            forall|k: int|
                0 <= k < MAX_SEQUENCERS ==> {
                    let f = #[trigger] final(self).sequencers@[k];
                    let o = old(self).sequencers@[k];
                    !f.enabled && f.pulse_queue@.len() == 0 && f.index == o.index && f.total_pulses_sent
                        == o.total_pulses_sent
                },
    {
        let mut i: usize = 0;
        while i < MAX_SEQUENCERS
            invariant
                i <= MAX_SEQUENCERS,
                self.sequencers@.len() == MAX_SEQUENCERS,
                old(self).sequencers@.len() == MAX_SEQUENCERS,
                self.slot == old(self).slot,
                self.module_type == old(self).module_type,
                self.serial_number == old(self).serial_number,
                forall|k: int|
                    0 <= k < MAX_SEQUENCERS ==> {
                        let f = #[trigger] self.sequencers@[k];
                        let o = old(self).sequencers@[k];
                        (k < i ==> !f.enabled && f.pulse_queue@.len() == 0) && f.index == o.index
                            && f.total_pulses_sent == o.total_pulses_sent
                    },
            decreases MAX_SEQUENCERS - i,
        {
            self.sequencers[i].pulse_queue.clear();
            self.sequencers[i].enabled = false;
            i = i + 1;
        }
        self.status = ModuleStatus::Idle;
    }
}

/// Cluster statistics.
#[derive(Debug, Clone)]
pub struct ClusterStats {
    pub num_modules: usize,
    pub connected: bool,
    pub firmware: String,
    pub total_sequencers: usize,
}

impl ClusterStats {
    /// Statistics of a cluster of `num_modules` modules, each with its sequencers.
    pub fn new(num_modules: usize, connected: bool, firmware: String) -> (r: Self)
        requires
            num_modules * MAX_SEQUENCERS <= usize::MAX,
        ensures
            r.num_modules == num_modules,
            r.connected == connected,
            r.firmware == firmware,
            r.total_sequencers == num_modules * MAX_SEQUENCERS,
    {
        ClusterStats { num_modules, connected, firmware, total_sequencers: num_modules * MAX_SEQUENCERS }
    }
}


/// Number of slots of a cluster chassis that can be addressed (one per `u8` value).
pub const CLUSTER_SLOTS: usize = 256;

/// Qblox cluster: a chassis whose slots hold modules. (Its modules are kept by slot.)
#[derive(Debug)]
pub struct QbloxCluster<W> {
    pub cluster_id: String,
    pub ip_address: String,
    /// The module in each slot, if any
    pub modules: Vec<Option<QbloxModule<W>>>,
    pub connected: bool,
    pub firmware_version: String,
}

/// Number of modules among the first `n` slots.
pub open spec fn module_count<W>(ms: Seq<Option<QbloxModule<W>>>, n: nat) -> nat
    decreases n,
{
    if n == 0 {
        0
    } else {
        module_count(ms, (n - 1) as nat) + if ms[n - 1] is Some {
            1nat
        } else {
            0nat
        }
    }
}

/// Pulses waiting in the modules of the first `n` slots.
pub open spec fn cluster_waiting<W>(ms: Seq<Option<QbloxModule<W>>>, n: nat) -> nat
    decreases n,
{
    if n == 0 {
        0
    } else {
        cluster_waiting(ms, (n - 1) as nat) + match ms[n - 1] {
            Some(m) => waiting_pulses(m.sequencers@, MAX_SEQUENCERS as nat),
            None => 0,
        }
    }
}

/// `f` is module `o` after a trigger of all its sequencers: every queue played.
pub open spec fn fired<W>(o: QbloxModule<W>, f: QbloxModule<W>) -> bool {
    &&& f.slot == o.slot
    &&& f.module_type == o.module_type
    &&& f.serial_number == o.serial_number
    &&& f.status == ModuleStatus::Idle
    &&& module_wf(f)
    &&& forall|k: int|
        0 <= k < MAX_SEQUENCERS ==> {
            let fs = #[trigger] f.sequencers@[k];
            let os = o.sequencers@[k];
            fs.enabled && fs.pulse_queue@.len() == 0 && fs.index == os.index && fs.total_pulses_sent
                == os.total_pulses_sent + os.pulse_queue@.len()
        }
}

/// `f` is module `o` after `pulse` was queued on its sequencer.
pub open spec fn pulse_queued<W>(o: QbloxModule<W>, f: QbloxModule<W>, pulse: QbloxPulse<W>) -> bool {
    let s = pulse.sequencer as int;
    &&& f.slot == o.slot
    &&& f.module_type == o.module_type
    &&& f.serial_number == o.serial_number
    &&& f.status == o.status
    &&& f.sequencers@ == o.sequencers@.update(s, f.sequencers@[s])
    &&& f.sequencers@[s].pulse_queue@ == o.sequencers@[s].pulse_queue@.push(pulse)
    &&& f.sequencers@[s].index == o.sequencers@[s].index
    &&& f.sequencers@[s].enabled == o.sequencers@[s].enabled
    &&& f.sequencers@[s].total_pulses_sent == o.sequencers@[s].total_pulses_sent
}

/// The module type the standard six-qubit configuration puts in `slot` (1 to 6).
pub open spec fn standard_module_type(slot: int) -> QbloxModuleType {
    if slot <= 4 {
        QbloxModuleType::QCM_RF
    } else {
        QbloxModuleType::QRM_RF
    }
}

/// The standard six-qubit layout: four RF control modules, in slots 1 to 4, and two RF
/// readout modules, in slots 5 and 6.
pub proof fn law_standard_layout(slot: int)
    ensures
        1 <= slot <= 4 ==> standard_module_type(slot) == QbloxModuleType::QCM_RF,
        (slot == 5 || slot == 6) ==> standard_module_type(slot) == QbloxModuleType::QRM_RF,
{
}

proof fn lemma_waiting_frame<W>(a: Seq<QbloxSequencer<W>>, b: Seq<QbloxSequencer<W>>, n: nat)
    requires
        n <= a.len(),
        n <= b.len(),
        forall|k: int| 0 <= k < n ==> (#[trigger] a[k]).pulse_queue@.len() == b[k].pulse_queue@.len(),
    ensures
        waiting_pulses(a, n) == waiting_pulses(b, n),
    decreases n,
{
    if n > 0 {
        lemma_waiting_frame(a, b, (n - 1) as nat);
    }
}

proof fn lemma_cluster_waiting_monotone<W>(ms: Seq<Option<QbloxModule<W>>>, m: nat, n: nat)
    requires
        m <= n,
    ensures
        cluster_waiting(ms, m) <= cluster_waiting(ms, n),
    decreases n,
{
    if m < n {
        lemma_cluster_waiting_monotone(ms, m, (n - 1) as nat);
    }
}

proof fn lemma_module_count_bound<W>(ms: Seq<Option<QbloxModule<W>>>, n: nat)
    ensures
        module_count(ms, n) <= n,
    decreases n,
{
    if n > 0 {
        lemma_module_count_bound(ms, (n - 1) as nat);
    }
}

impl<W> QbloxCluster<W> {
    /// The module in each slot, if any.
    pub open spec fn slots(&self) -> Seq<Option<QbloxModule<W>>> {
        self.modules@
    }

    /// One entry per slot, each module in its own slot and well formed.
    pub open spec fn wf(&self) -> bool {
        &&& self.slots().len() == CLUSTER_SLOTS
        &&& forall|s: int|
            0 <= s < CLUSTER_SLOTS ==> (#[trigger] self.slots()[s] matches Some(m) ==> m.slot == s && module_wf(m))
    }

    /// A connected cluster at `ip` with empty slots, running firmware 0.6.2.
    pub fn new_simulated(ip: String) -> (r: Self)
        ensures
            r.wf(),
            forall|s: int| 0 <= s < CLUSTER_SLOTS ==> (#[trigger] r.slots()[s]) is None,
            r.ip_address == ip,
            r.connected,
            r.firmware_version@ == "0.6.2"@,
            exists|u: u128| uuid_version(u) == 4 && r.cluster_id@ == uuid_text(u),
    {
        let mut modules: Vec<Option<QbloxModule<W>>> = Vec::new();
        let mut i: usize = 0;
        while i < CLUSTER_SLOTS
            invariant
                i <= CLUSTER_SLOTS,
                modules@.len() == i,
                forall|s: int| 0 <= s < i ==> (#[trigger] modules@[s]) is None,
            decreases CLUSTER_SLOTS - i,
        {
            modules.push(None);
            i = i + 1;
        }
        let u = new_uuid();
        QbloxCluster {
            cluster_id: uuid_string(u),
            ip_address: ip,
            modules,
            connected: true,
            firmware_version: String::from_str("0.6.2"),
        }
    }

    /// The module in `slot`, if any.
    pub fn get_module(&self, slot: u8) -> (r: Option<&QbloxModule<W>>)
        requires
            self.wf(),
        ensures
            match self.slots()[slot as int] {
                Some(m) => r matches Some(x) && *x == m,
                None => r is None,
            },
    {
        match &self.modules[slot as usize] {
            Some(m) => Some(m),
            None => None,
        }
    }

    /// Puts a fresh module of this type in `slot`, replacing one there.
    pub fn add_module(&mut self, slot: u8, module_type: QbloxModuleType)
        requires
            old(self).wf(),
        ensures
            final(self).wf(),
            final(self).slots() == old(self).slots().update(slot as int, final(self).slots()[slot as int]),
            final(self).slots()[slot as int] matches Some(m) && fresh_module(m, slot, module_type),
            final(self).cluster_id == old(self).cluster_id,
            final(self).ip_address == old(self).ip_address,
            final(self).connected == old(self).connected,
            final(self).firmware_version == old(self).firmware_version,
    {
        self.modules.set(slot as usize, Some(QbloxModule::new(slot, module_type)));
    }

    /// The usual cluster: control modules (QCM-RF) in slots 1 to 4 and readout modules
    /// (QRM-RF) in slots 5 and 6.
    pub fn configure_standard_6_qubit(&mut self)
        requires
            old(self).wf(),
        ensures
            final(self).wf(),
            forall|s: int|
                1 <= s <= 6 ==> (#[trigger] final(self).slots()[s] matches Some(m) && fresh_module(
                    m,
                    s as u8,
                    standard_module_type(s),
                )),
            forall|s: int|
                0 <= s < CLUSTER_SLOTS && !(1 <= s <= 6) ==> #[trigger] final(self).slots()[s] == old(self).slots()[s],
            final(self).cluster_id == old(self).cluster_id,
            final(self).ip_address == old(self).ip_address,
            final(self).connected == old(self).connected,
            final(self).firmware_version == old(self).firmware_version,
    {
        self.add_module(1, QbloxModuleType::QCM_RF);
        self.add_module(2, QbloxModuleType::QCM_RF);
        self.add_module(3, QbloxModuleType::QCM_RF);
        self.add_module(4, QbloxModuleType::QCM_RF);
        self.add_module(5, QbloxModuleType::QRM_RF);
        self.add_module(6, QbloxModuleType::QRM_RF);
    }

    /// Sends a pulse to the module in `slot`; an empty slot means the connection to it is
    /// lost.
    pub fn send_pulse(&mut self, slot: u8, pulse: QbloxPulse<W>) -> (r: Result<(), QbloxError>)
        requires
            old(self).wf(),
            old(self).slots()[slot as int] is Some ==> pulse.sequencer < MAX_SEQUENCERS,
        ensures
            final(self).wf(),
            final(self).cluster_id == old(self).cluster_id,
            final(self).ip_address == old(self).ip_address,
            final(self).connected == old(self).connected,
            final(self).firmware_version == old(self).firmware_version,
            old(self).slots()[slot as int] is None ==> r == Err::<(), QbloxError>(QbloxError::ConnectionLost)
                && final(self).slots() == old(self).slots(),
            old(self).slots()[slot as int] is Some && !pulse_valid(pulse) ==> r == Err::<(), QbloxError>(
                QbloxError::InvalidPulseParams,
            ) && final(self).slots() == old(self).slots(),
            old(self).slots()[slot as int] matches Some(o) ==> (pulse_valid(pulse) ==> r is Ok && final(self).slots()
                == old(self).slots().update(slot as int, final(self).slots()[slot as int]) && (final(self).slots()[slot as int] matches Some(f) && pulse_queued(o, f, pulse))),
    {
        let i = slot as usize;
        if self.modules[i].is_none() {
            return Err(QbloxError::ConnectionLost);
        }
        if let Err(e) = pulse.validate() {
            return Err(e);
        }
        let ghost before = self.modules@;
        let taken = self.modules[i].take();
        match taken {
            Some(mut m) => {
                let r = m.send_pulse(pulse);
                self.modules.set(i, Some(m));
                proof {
                    assert(self.modules@ =~= before.update(i as int, self.modules@[i as int]));
                }
                r
            },
            None => Err(QbloxError::ConnectionLost),
        }
    }

    /// Arms and triggers every module; returns how many pulses were played in all.
    pub fn trigger_all(&mut self) -> (r: usize)
        requires
            old(self).wf(),
            cluster_waiting(old(self).slots(), CLUSTER_SLOTS as nat) <= usize::MAX,
            forall|s: int, k: int|
                0 <= s < CLUSTER_SLOTS && 0 <= k < MAX_SEQUENCERS && old(self).slots()[s] is Some ==> (#[trigger] old(self).slots()[s]->0.sequencers@[k]).total_pulses_sent + old(self).slots()[s]->0.sequencers@[k].pulse_queue@.len()
                    <= usize::MAX,
        ensures
            r == cluster_waiting(old(self).slots(), CLUSTER_SLOTS as nat),
            final(self).wf(),
            forall|s: int|
                0 <= s < CLUSTER_SLOTS ==> match (#[trigger] old(self).slots()[s]) {
                    None => final(self).slots()[s] is None,
                    Some(o) => final(self).slots()[s] matches Some(f) && fired(o, f),
                },
            final(self).cluster_id == old(self).cluster_id,
            final(self).ip_address == old(self).ip_address,
            final(self).connected == old(self).connected,
            final(self).firmware_version == old(self).firmware_version,
    {
        let ghost start = self.modules@;
        let mut total: usize = 0;
        let mut i: usize = 0;
        while i < CLUSTER_SLOTS
            invariant
                i <= CLUSTER_SLOTS,
                start == old(self).slots(),
                start.len() == CLUSTER_SLOTS,
                self.modules@.len() == CLUSTER_SLOTS,
                forall|s: int|
                    0 <= s < CLUSTER_SLOTS ==> (#[trigger] start[s] matches Some(m) ==> m.slot == s && module_wf(m)),
                cluster_waiting(start, CLUSTER_SLOTS as nat) <= usize::MAX,
                forall|s: int, k: int|
                    0 <= s < CLUSTER_SLOTS && 0 <= k < MAX_SEQUENCERS && start[s] is Some ==> (#[trigger] start[s]->0.sequencers@[k]).total_pulses_sent
                        + start[s]->0.sequencers@[k].pulse_queue@.len() <= usize::MAX,
                total == cluster_waiting(start, i as nat),
                forall|s: int| i <= s < CLUSTER_SLOTS ==> #[trigger] self.modules@[s] == start[s],
                forall|s: int|
                    0 <= s < i ==> match (#[trigger] start[s]) {
                        None => self.modules@[s] is None,
                        Some(o) => self.modules@[s] matches Some(f) && fired(o, f),
                    },
                self.cluster_id == old(self).cluster_id,
                self.ip_address == old(self).ip_address,
                self.connected == old(self).connected,
                self.firmware_version == old(self).firmware_version,
            decreases CLUSTER_SLOTS - i,
        {
            proof {
                lemma_cluster_waiting_monotone(start, (i + 1) as nat, CLUSTER_SLOTS as nat);
            }
            let ghost before = self.modules@;
            let taken = self.modules[i].take();
            match taken {
                Some(mut m) => {
                    let ghost o = m;
                    m.arm();
                    proof {
                        lemma_all_armed(m.sequencers@, MAX_SEQUENCERS as nat);
                        lemma_waiting_frame(m.sequencers@, o.sequencers@, MAX_SEQUENCERS as nat);
                        assert forall|k: int| 0 <= k < MAX_SEQUENCERS && (#[trigger] m.sequencers@[k]).enabled implies m.sequencers@[k].total_pulses_sent
                            + m.sequencers@[k].pulse_queue@.len() <= usize::MAX by {
                            assert(start[i as int]->0.sequencers@[k].total_pulses_sent + start[i as int]->0.sequencers@[k].pulse_queue@.len() <= usize::MAX);
                        }
                    }
                    let n = m.trigger();
                    total = total + n;
                    self.modules.set(i, Some(m));
                    proof {
                        assert(self.modules@ =~= before.update(i as int, Some(m)));
                    }
                },
                None => {
                    self.modules.set(i, None);
                    proof {
                        assert(self.modules@ =~= before);
                    }
                },
            }
            i = i + 1;
        }
        proof {
            assert forall|s: int| 0 <= s < CLUSTER_SLOTS implies (#[trigger] self.modules@[s] matches Some(m) ==> m.slot == s
                && module_wf(m)) by {
                assert(start[s] is Some || start[s] is None);
            }
        }
        proof {
            assert forall|s: int| 0 <= s < CLUSTER_SLOTS implies (#[trigger] self.modules@[s] matches Some(m) ==> m.slot == s
                && module_wf(m)) by {
                assert(start[s] is Some || start[s] is None);
            }
        }
        total
    }

    /// The cluster's statistics.
    pub fn stats(&self) -> (r: ClusterStats)
        requires
            self.wf(),
        ensures
            r.num_modules == module_count(self.slots(), CLUSTER_SLOTS as nat),
            r.connected == self.connected,
            r.firmware == self.firmware_version,
            r.total_sequencers == r.num_modules * MAX_SEQUENCERS,
    {
        let mut count: usize = 0;
        let mut i: usize = 0;
        while i < CLUSTER_SLOTS
            invariant
                i <= CLUSTER_SLOTS,
                self.modules@.len() == CLUSTER_SLOTS,
                count == module_count(self.modules@, i as nat),
            decreases CLUSTER_SLOTS - i,
        {
            proof {
                lemma_module_count_bound(self.modules@, i as nat);
            }
            if self.modules[i].is_some() {
                count = count + 1;
            }
            i = i + 1;
        }
        proof {
            lemma_module_count_bound(self.modules@, CLUSTER_SLOTS as nat);
        }
        ClusterStats::new(count, self.connected, self.firmware_version.clone())
    }
}


/// A pulse sent to a module is played by the next trigger of the cluster: its sequencer's
/// count of pulses sent grows by everything that waited there, the new pulse included.
pub proof fn law_sent_pulse_is_played<W>(
    before: QbloxModule<W>,
    queued: QbloxModule<W>,
    after: QbloxModule<W>,
    pulse: QbloxPulse<W>,
)
    requires
        module_wf(before),
        pulse.sequencer < MAX_SEQUENCERS,
        pulse_queued(before, queued, pulse),
        fired(queued, after),
    ensures
        after.sequencers@[pulse.sequencer as int].total_pulses_sent == before.sequencers@[pulse.sequencer as int].total_pulses_sent
            + before.sequencers@[pulse.sequencer as int].pulse_queue@.len() + 1,
        after.sequencers@[pulse.sequencer as int].pulse_queue@.len() == 0,
{
    let s = pulse.sequencer as int;
    assert(after.sequencers@[s].total_pulses_sent == queued.sequencers@[s].total_pulses_sent
        + queued.sequencers@[s].pulse_queue@.len());
}

} // verus!
