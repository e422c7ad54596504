//! The ether field layer: channels between topological defects, defects (physical qubits)
//! and their status transitions.
use vstd::prelude::*;
use vstd::string::*;
use crate::octave::OctavePosition;
use crate::spaces::ConnectionType;
use crate::text::{hex, hex_string};

verus! {

/// Errors of the ether field layer.
#[derive(Debug, Clone)]
pub enum EFALError {
    DefectNotFound,
    InvalidPosition,
    TopologyError(String),
}

/// Goal of a topology reconfiguration.
#[derive(Debug, Clone, Copy, PartialEq, Eq, Structural)]
pub enum OptimizationGoal {
    MinimizeLatency,
    MaximizeFidelity,
    BalanceLoad,
}

/// A logical quantum node of a topology.
#[derive(Debug, Clone)]
pub struct TopologyNode {
    pub id: String,
}

/// Physical medium of a propagation channel.
#[derive(Debug, Clone, Copy, PartialEq, Eq, Structural)]
pub enum ChannelType {
    Optical,
    Microwave,
    Phononic,
    IonMotional,
    Virtual,
}

/// Status of a propagation channel.
#[derive(Debug, Clone, Copy, PartialEq, Eq, Structural)]
pub enum ChannelStatus {
    Idle,
    Active,
    Degraded,
    Failed,
}

impl ChannelType {
    /// The fiber-bundle connection a channel of this medium realises (ion motion is
    /// approximated by microwave).
    pub fn to_connection_type(&self) -> (r: ConnectionType)
        ensures
            r == match *self {
                ChannelType::Optical => ConnectionType::Optical,
                ChannelType::Microwave => ConnectionType::Microwave,
                ChannelType::Phononic => ConnectionType::Phononic,
                ChannelType::IonMotional => ConnectionType::Microwave,
                ChannelType::Virtual => ConnectionType::Virtual,
            },
    {
        match self {
            ChannelType::Optical => ConnectionType::Optical,
            ChannelType::Microwave => ConnectionType::Microwave,
            ChannelType::Phononic => ConnectionType::Phononic,
            ChannelType::IonMotional => ConnectionType::Microwave,
            ChannelType::Virtual => ConnectionType::Virtual,
        }
    }
}

impl ChannelStatus {
    /// Activating a channel: a failed channel stays failed and is refused.
    pub fn activate(&self) -> (r: Result<ChannelStatus, String>)
        ensures
            *self == ChannelStatus::Failed ==> (r matches Err(m) && m@ == "Cannot activate failed channel"@),
            *self != ChannelStatus::Failed ==> r == Ok::<ChannelStatus, String>(ChannelStatus::Active),
    {
        if *self == ChannelStatus::Failed {
            return Err(String::from_str("Cannot activate failed channel"));
        }
        Ok(ChannelStatus::Active)
    }

    /// Deactivating a channel leaves it idle.
    pub fn deactivate(&self) -> (r: ChannelStatus)
        ensures
            r == ChannelStatus::Idle,
    {
        ChannelStatus::Idle
    }
}

/// Kind of topological defect.
#[derive(Debug, Clone, Copy, PartialEq, Eq, Structural)]
pub enum DefectType {
    Qubit,
    Qudit(usize),
    NetworkNode,
    AncillaQubit,
    MeasurementPoint,
}

/// Status of a topological defect.
#[derive(Debug, Clone, Copy, PartialEq, Eq, Structural)]
pub enum DefectStatus {
    Idle,
    InUse,
    Entangled,
    Measured,
    Failed,
}

impl DefectType {
    /// The dimension of the defect's Hilbert space.
    pub fn hilbert_dimension(&self) -> (r: usize)
        ensures
            r == match *self {
                DefectType::Qubit => 2,
                DefectType::Qudit(d) => d,
                DefectType::NetworkNode => 2,
                DefectType::AncillaQubit => 2,
                DefectType::MeasurementPoint => 1,
            },
    {
        match self {
            DefectType::Qubit => 2,
            DefectType::Qudit(d) => *d,
            DefectType::NetworkNode => 2,
            DefectType::AncillaQubit => 2,
            DefectType::MeasurementPoint => 1,
        }
    }
}

/// The part of a topological defect that its status transitions read and write.
#[derive(Debug, Clone, Copy)]
pub struct DefectState {
    pub status: DefectStatus,
    pub octave_state: OctavePosition,
}

impl DefectState {
    /// A fresh defect: idle, at rest at the Inertia point.
    pub fn new() -> (r: Self)
        ensures
            r.status == DefectStatus::Idle,
            r.octave_state == OctavePosition::Inertia0,
    {
        DefectState { status: DefectStatus::Idle, octave_state: OctavePosition::Inertia0 }
    }

    /// Allocates the defect for use; a failed defect is refused and left unchanged.
    pub fn allocate(&mut self) -> (r: Result<(), String>)
        ensures
            old(self).status == DefectStatus::Failed ==> (r matches Err(m) && m@
                == "Cannot allocate failed defect"@ && *final(self) == *old(self)),
            old(self).status != DefectStatus::Failed ==> (r is Ok && final(self).status
                == DefectStatus::InUse && final(self).octave_state == old(self).octave_state),
    {
        if self.status == DefectStatus::Failed {
            return Err(String::from_str("Cannot allocate failed defect"));
        }
        self.status = DefectStatus::InUse;
        Ok(())
    }

    /// Releases the defect: idle again and back at rest.
    pub fn release(&mut self)
        ensures
            final(self).status == DefectStatus::Idle,
            final(self).octave_state == OctavePosition::Inertia0,
    {
        self.status = DefectStatus::Idle;
        self.octave_state = OctavePosition::Inertia0;
    }

    /// Marks the defect as entangled.
    pub fn entangle(&mut self)
        ensures
            final(self).status == DefectStatus::Entangled,
            final(self).octave_state == old(self).octave_state,
    {
        self.status = DefectStatus::Entangled;
    }

    /// Moves the defect to another octave.
    pub fn transition_to_octave(&mut self, target: OctavePosition)
        ensures
            final(self).octave_state == target,
            final(self).status == old(self).status,
    {
        self.octave_state = target;
    }

    /// Whether the defect can take work: idle or in use.
    pub fn is_available(&self) -> (r: bool)
        ensures
            r == (self.status == DefectStatus::Idle || self.status == DefectStatus::InUse),
    {
        match self.status {
            DefectStatus::Idle | DefectStatus::InUse => true,
            _ => false,
        }
    }
}

/// Driver of the ether field: a first-in first-out queue of control signals, by id, the
/// signal being applied and the signals applied so far. (The signals themselves, and the
/// output power and operating frequency they set, are floating-point values kept by the
/// caller.)
#[derive(Debug, Clone)]
pub struct FieldDriver {
    /// Control signal queue, oldest first
    pub signal_queue: Vec<u128>,
    /// Current active signal
    pub active_signal: Option<u128>,
    /// History of executed signals, oldest first
    pub signal_history: Vec<u128>,
    /// Is the driver enabled?
    pub enabled: bool,
}

impl FieldDriver {
    /// An enabled driver with nothing queued or applied.
    pub fn new() -> (r: Self)
        ensures
            r.signal_queue@.len() == 0,
            r.active_signal is None,
            r.signal_history@.len() == 0,
            r.enabled,
    {
        FieldDriver { signal_queue: Vec::new(), active_signal: None, signal_history: Vec::new(), enabled: true }
    }

    /// Puts a signal at the back of the queue.
    pub fn enqueue_signal(&mut self, signal_id: u128)
        ensures
            final(self).signal_queue@ == old(self).signal_queue@.push(signal_id),
            final(self).active_signal == old(self).active_signal,
            final(self).signal_history@ == old(self).signal_history@,
            final(self).enabled == old(self).enabled,
    {
        self.signal_queue.push(signal_id);
    }

    /// Takes the signal at the front of the queue, makes it the active one and records it;
    /// with an empty queue no signal is active.
    pub fn execute_next_signal(&mut self) -> (r: Option<u128>)
        ensures
            final(self).enabled == old(self).enabled,
            old(self).signal_queue@.len() == 0 ==> r is None && final(self).active_signal is None
                && final(self).signal_queue@ == old(self).signal_queue@ && final(self).signal_history@
                == old(self).signal_history@,
            old(self).signal_queue@.len() > 0 ==> r == Some(old(self).signal_queue@[0]) && final(self).active_signal
                == r && final(self).signal_queue@ == old(self).signal_queue@.drop_first()
                && final(self).signal_history@ == old(self).signal_history@.push(old(self).signal_queue@[0]),
    {
        if self.signal_queue.len() == 0 {
            self.active_signal = None;
            None
        } else {
            let signal = self.signal_queue.remove(0);
            self.active_signal = Some(signal);
            self.signal_history.push(signal);
            Some(signal)
        }
    }

    /// Stops the driver: disabled, with no active signal.
    pub fn stop(&mut self)
        ensures
            !final(self).enabled,
            final(self).active_signal is None,
            final(self).signal_queue@ == old(self).signal_queue@,
            final(self).signal_history@ == old(self).signal_history@,
    {
        self.enabled = false;
        self.active_signal = None;
    }

    /// Enables the driver again.
    pub fn resume(&mut self)
        ensures
            final(self).enabled,
            final(self).active_signal == old(self).active_signal,
            final(self).signal_queue@ == old(self).signal_queue@,
            final(self).signal_history@ == old(self).signal_history@,
    {
        self.enabled = true;
    }

    /// Empties the queue.
    pub fn clear_queue(&mut self)
        ensures
            final(self).signal_queue@.len() == 0,
            final(self).active_signal == old(self).active_signal,
            final(self).signal_history@ == old(self).signal_history@,
            final(self).enabled == old(self).enabled,
    {
        self.signal_queue.clear();
    }

    /// Number of signals in the queue.
    pub fn queue_length(&self) -> (r: usize)
        ensures
            r == self.signal_queue@.len(),
    {
        self.signal_queue.len()
    }
}

impl Default for FieldDriver {
    fn default() -> (r: Self)
        ensures
            r.signal_queue@.len() == 0,
            r.active_signal is None,
            r.signal_history@.len() == 0,
            r.enabled,
    {
        FieldDriver::new()
    }
}

/// Identifier source of the ether field layer: the current time in hexadecimal.
pub struct Uuid;

impl Uuid {
    /// The identifier for a clock reading of `now_nanos` nanoseconds since the epoch,
    /// in lower-case hexadecimal.
    pub fn new_v4(now_nanos: u128) -> (r: String)
        ensures
            r@ == hex(now_nanos as nat),
    {
        hex_string(now_nanos)
    }
}

} // verus!
