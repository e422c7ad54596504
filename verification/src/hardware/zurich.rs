//! Zurich Instruments SHFQA/SHFSG/HDAWG: instrument kinds and channel layout.
use vstd::prelude::*;
use vstd::string::*;
use crate::hardware::manager::name_index;
use crate::ids::{new_uuid, uuid_string, uuid_text, uuid_version};
use crate::text::{decimal, decimal_string};

verus! {

/// Number of SHFQA channels.
pub const SHFQA_CHANNELS: usize = 4;

/// Number of SHFSG channels.
pub const SHFSG_CHANNELS: usize = 8;

/// Number of HDAWG channels.
pub const HDAWG_CHANNELS: usize = 8;

/// Zurich Instruments instrument type.
#[derive(Debug, Clone, Copy, PartialEq, Eq, Structural)]
pub enum ZIInstrumentType {
    SHFQA,
    SHFSG,
    HDAWG,
    PQSC,
    UHFQA,
}

/// Channel operation mode.
#[derive(Debug, Clone, Copy, PartialEq, Eq, Structural)]
pub enum ChannelMode {
    /// Spectroscopy mode (frequency sweep)
    Spectroscopy,
    /// Readout mode (I/Q demodulation)
    Readout,
    /// Drive mode (pulse generation)
    Drive,
}

/// How many readout channels a simulated instrument of this type is given.
pub fn simulated_channel_count(instr_type: ZIInstrumentType) -> (r: usize)
    ensures
        r == match instr_type {
            ZIInstrumentType::SHFQA => SHFQA_CHANNELS,
            ZIInstrumentType::SHFSG => SHFSG_CHANNELS,
            _ => 0,
        },
{
    match instr_type {
        ZIInstrumentType::SHFQA => SHFQA_CHANNELS,
        ZIInstrumentType::SHFSG => SHFSG_CHANNELS,
        _ => 0,
    }
}


/// Zurich Instruments driver errors. (A frequency out of range is reported without the
/// frequency, a floating-point value the caller keeps with the pulse.)
#[derive(Debug, Clone, PartialEq)]
pub enum ZIError {
    ConnectionFailed(String),
    InvalidChannel(usize),
    FrequencyOutOfRange,
    AWGCompileError(String),
    TimeoutError,
    CalibrationError,
}

/// What the hardware's limits say of a pulse's floating-point parameters: its central
/// frequency must not pass the maximum RF frequency, and its amplitude must lie in [0, 1].
#[derive(Debug, Clone, Copy, PartialEq, Eq, Structural)]
pub enum PulseCheck {
    Valid,
    FrequencyOutOfRange,
    AmplitudeOutOfRange,
}

/// A pulse for an SHFSG/HDAWG channel: its duration, its output channel and the verdict of
/// the limits on its parameters; its waveform `W` (frequencies, amplitude, phase and I/Q
/// samples, all floating point) travels with it for the caller.
#[derive(Debug, Clone)]
pub struct ZIPulse<W> {
    pub id: u128,
    /// Duration in ns
    pub duration_ns: u64,
    /// Output channel (0-indexed)
    pub channel: usize,
    pub check: PulseCheck,
    pub waveform: W,
}

impl<W> ZIPulse<W> {
    /// Validates the pulse parameters.
    pub fn validate(&self) -> (r: Result<(), ZIError>)
        ensures
            self.check == PulseCheck::Valid <==> r is Ok,
            self.check == PulseCheck::FrequencyOutOfRange ==> r matches Err(ZIError::FrequencyOutOfRange),
            self.check == PulseCheck::AmplitudeOutOfRange ==> (r matches Err(ZIError::AWGCompileError(m)) && m@
                == "Amplitude outside [0, 1]"@),
    {
        match self.check {
            PulseCheck::Valid => Ok(()),
            PulseCheck::FrequencyOutOfRange => Err(ZIError::FrequencyOutOfRange),
            PulseCheck::AmplitudeOutOfRange => Err(ZIError::AWGCompileError(String::from_str("Amplitude outside [0, 1]"))),
        }
    }
}


/// How the instrument type is printed.
pub open spec fn instrument_label(t: ZIInstrumentType) -> Seq<char> {
    match t {
        ZIInstrumentType::SHFQA => "SHFQA"@,
        ZIInstrumentType::SHFSG => "SHFSG"@,
        ZIInstrumentType::HDAWG => "HDAWG"@,
        ZIInstrumentType::PQSC => "PQSC"@,
        ZIInstrumentType::UHFQA => "UHFQA"@,
    }
}

fn type_str(t: ZIInstrumentType) -> (r: &'static str)
    ensures
        r@ == instrument_label(t),
{
    match t {
        ZIInstrumentType::SHFQA => "SHFQA",
        ZIInstrumentType::SHFSG => "SHFSG",
        ZIInstrumentType::HDAWG => "HDAWG",
        ZIInstrumentType::PQSC => "PQSC",
        ZIInstrumentType::UHFQA => "UHFQA",
    }
}

/// How a flag is printed.
pub open spec fn bool_text(b: bool) -> Seq<char> {
    if b {
        "true"@
    } else {
        "false"@
    }
}

/// The one-line status of an instrument.
pub open spec fn status_text(t: ZIInstrumentType, serial: Seq<char>, connected: bool, queued: nat, executed: nat) -> Seq<
    char,
> {
    instrument_label(t) + " ["@ + serial + "] — connected="@ + bool_text(connected) + ", queued="@ + decimal(queued)
        + ", executed="@ + decimal(executed)
}

/// A Zurich Instruments instrument with its AWG pulse queue. (Its SHFQA readout channels,
/// with their floating-point frequencies, weights and results, are kept by the caller; the
/// instrument knows how many there are.)
#[derive(Debug)]
pub struct ZIInstrument<W> {
    pub serial: String,
    pub instrument_type: ZIInstrumentType,
    pub ip_address: String,
    pub connected: bool,
    /// Number of readout channels
    pub readout_channels: usize,
    /// Pulses waiting for the AWG, oldest first
    pub pulse_queue: Vec<ZIPulse<W>>,
    pub pulses_executed: usize,
}

/// `f` is instrument `o` after its AWG ran its queue.
pub open spec fn awg_ran<W>(o: ZIInstrument<W>, f: ZIInstrument<W>) -> bool {
    &&& f.serial == o.serial
    &&& f.instrument_type == o.instrument_type
    &&& f.ip_address == o.ip_address
    &&& f.connected == o.connected
    &&& f.readout_channels == o.readout_channels
    &&& f.pulse_queue@.len() == 0
    &&& f.pulses_executed == o.pulses_executed + o.pulse_queue@.len()
}

impl<W> ZIInstrument<W> {
    /// A connected instrument in simulation mode, at 192.168.1.200.
    pub fn new_simulated(instr_type: ZIInstrumentType, serial: String) -> (r: Self)
        ensures
            r.serial == serial,
            r.instrument_type == instr_type,
            r.ip_address@ == "192.168.1.200"@,
            r.connected,
            r.readout_channels == match instr_type {
                ZIInstrumentType::SHFQA => SHFQA_CHANNELS,
                ZIInstrumentType::SHFSG => SHFSG_CHANNELS,
                _ => 0,
            },
            r.pulse_queue@.len() == 0,
            r.pulses_executed == 0,
    {
        ZIInstrument {
            serial,
            instrument_type: instr_type,
            ip_address: String::from_str("192.168.1.200"),
            connected: true,
            readout_channels: simulated_channel_count(instr_type),
            pulse_queue: Vec::new(),
            pulses_executed: 0,
        }
    }

    /// Adds a pulse to the AWG queue, if it passes validation.
    pub fn queue_pulse(&mut self, pulse: ZIPulse<W>) -> (r: Result<(), ZIError>)
        ensures
            pulse.check == PulseCheck::Valid ==> r is Ok && final(self).pulse_queue@ == old(self).pulse_queue@.push(pulse)
                && final(self).serial == old(self).serial && final(self).instrument_type == old(self).instrument_type
                && final(self).ip_address == old(self).ip_address && final(self).connected == old(self).connected
                && final(self).readout_channels == old(self).readout_channels && final(self).pulses_executed == old(self).pulses_executed,
            pulse.check != PulseCheck::Valid ==> *final(self) == *old(self),
            pulse.check == PulseCheck::FrequencyOutOfRange ==> r matches Err(ZIError::FrequencyOutOfRange),
            pulse.check == PulseCheck::AmplitudeOutOfRange ==> (r matches Err(ZIError::AWGCompileError(m)) && m@
                == "Amplitude outside [0, 1]"@),
    {
        match pulse.validate() {
            Ok(()) => {
                self.pulse_queue.push(pulse);
                Ok(())
            },
            Err(e) => Err(e),
        }
    }

    /// Runs the AWG queue: every queued pulse is executed; a disconnected instrument runs
    /// nothing.
    pub fn run_awg(&mut self) -> (r: Result<usize, ZIError>)
        requires
            old(self).connected ==> old(self).pulses_executed + old(self).pulse_queue@.len() <= usize::MAX,
        ensures
            !old(self).connected ==> (r matches Err(ZIError::ConnectionFailed(m)) && m@ == "Not connected"@
                && *final(self) == *old(self)),
            old(self).connected ==> r == Ok::<usize, ZIError>(old(self).pulse_queue@.len() as usize) && awg_ran(
                *old(self),
                *final(self),
            ),
    {
        if !self.connected {
            return Err(ZIError::ConnectionFailed(String::from_str("Not connected")));
        }
        let n = self.pulse_queue.len();
        self.pulses_executed = self.pulses_executed + n;
        self.pulse_queue.clear();
        Ok(n)
    }

    /// Checks that a readout channel exists.
    pub fn check_channel(&self, channel: usize) -> (r: Result<(), ZIError>)
        ensures
            channel < self.readout_channels ==> r is Ok,
            channel >= self.readout_channels ==> r == Err::<(), ZIError>(ZIError::InvalidChannel(channel)),
    {
        if channel >= self.readout_channels {
            return Err(ZIError::InvalidChannel(channel));
        }
        Ok(())
    }

    /// The instrument's status on one line.
    pub fn status_summary(&self) -> (r: String)
        ensures
            r@ == status_text(
                self.instrument_type,
                self.serial@,
                self.connected,
                self.pulse_queue@.len(),
                self.pulses_executed as nat,
            ),
    {
        let mut s = String::from_str(type_str(self.instrument_type));
        s.append(" [");
        s.append(self.serial.as_str());
        s.append("] — connected=");
        s.append(if self.connected { "true" } else { "false" });
        s.append(", queued=");
        let q = decimal_string(self.pulse_queue.len() as u128);
        s.append(q.as_str());
        s.append(", executed=");
        let e = decimal_string(self.pulses_executed as u128);
        s.append(e.as_str());
        s
    }
}

/// A complete Zurich Instruments setup (PQSC with SHFQA and SHFSG instruments), keyed by
/// instrument serial.
#[derive(Debug)]
pub struct ZurichSetup<W> {
    pub setup_id: String,
    pub pqsc_serial: String,
    /// Instruments by serial, in order of insertion
    pub instruments: Vec<(String, ZIInstrument<W>)>,
}

/// Pulses waiting on the first `n` instruments.
pub open spec fn setup_queued<W>(s: Seq<(String, ZIInstrument<W>)>, n: nat) -> nat
    decreases n,
{
    if n == 0 {
        0
    } else {
        setup_queued(s, (n - 1) as nat) + s[n - 1].1.pulse_queue@.len()
    }
}

proof fn lemma_setup_queued_monotone<W>(s: Seq<(String, ZIInstrument<W>)>, m: nat, n: nat)
    requires
        m <= n,
    ensures
        setup_queued(s, m) <= setup_queued(s, n),
    decreases n,
{
    if m < n {
        lemma_setup_queued_monotone(s, m, (n - 1) as nat);
    }
}

impl<W> ZurichSetup<W> {
    /// A setup around the PQSC `pqsc_serial`, with no instruments.
    pub fn new(pqsc_serial: String) -> (r: Self)
        ensures
            r.pqsc_serial == pqsc_serial,
            r.instruments@.len() == 0,
            exists|u: u128| uuid_version(u) == 4 && r.setup_id@ == uuid_text(u),
    {
        let u = new_uuid();
        ZurichSetup { setup_id: uuid_string(u), pqsc_serial, instruments: Vec::new() }
    }

    /// The setup for 17 qubits: PQSC-001 with one SHFQA and two SHFSG instruments.
    pub fn configure_17_qubit_setup() -> (r: Self)
        ensures
            r.pqsc_serial@ == "PQSC-001"@,
            r.instruments@.len() == 3,
            r.instruments@[0].0@ == "SHFQA-001"@,
            r.instruments@[1].0@ == "SHFSG-001"@,
            r.instruments@[2].0@ == "SHFSG-002"@,
            forall|k: int|
                0 <= k < 3 ==> {
                    let i = #[trigger] r.instruments@[k].1;
                    &&& i.serial@ == r.instruments@[k].0@
                    &&& i.instrument_type == if k == 0 { ZIInstrumentType::SHFQA } else { ZIInstrumentType::SHFSG }
                    &&& i.connected
                    &&& i.pulse_queue@.len() == 0
                    &&& i.pulses_executed == 0
                    &&& i.readout_channels == if k == 0 { SHFQA_CHANNELS } else { SHFSG_CHANNELS }
                },
    {
        let mut setup = ZurichSetup::new(String::from_str("PQSC-001"));
        let shfqa = ZIInstrument::new_simulated(ZIInstrumentType::SHFQA, String::from_str("SHFQA-001"));
        let shfsg1 = ZIInstrument::new_simulated(ZIInstrumentType::SHFSG, String::from_str("SHFSG-001"));
        let shfsg2 = ZIInstrument::new_simulated(ZIInstrumentType::SHFSG, String::from_str("SHFSG-002"));
        setup.instruments.push((String::from_str("SHFQA-001"), shfqa));
        setup.instruments.push((String::from_str("SHFSG-001"), shfsg1));
        setup.instruments.push((String::from_str("SHFSG-002"), shfsg2));
        setup
    }

    /// Where the instrument with this serial stands.
    fn position(&self, serial: &str) -> (r: Option<usize>)
        ensures
            match r {
                Some(i) => i < self.instruments@.len() && name_index(self.instruments@, serial@) == Some(i as int),
                None => name_index(self.instruments@, serial@) is None,
            },
    {
        let ghost ds = self.instruments@;
        let wanted = String::from_str(serial);
        let mut i: usize = 0;
        assert(ds.subrange(0, ds.len() as int) =~= ds);
        while i < self.instruments.len()
            invariant
                i <= ds.len(),
                ds == self.instruments@,
                wanted@ == serial@,
                name_index(ds, serial@) == match name_index(ds.subrange(i as int, ds.len() as int), serial@) {
                    Some(k) => Some(k + i),
                    None => None,
                },
            decreases ds.len() - i,
        {
            proof {
                let rest = ds.subrange(i as int, ds.len() as int);
                assert(rest[0] == ds[i as int]);
                assert(rest.drop_first() =~= ds.subrange(i + 1, ds.len() as int));
            }
            if self.instruments[i].0 == wanted {
                return Some(i);
            }
            i = i + 1;
        }
        proof {
            assert(ds.subrange(i as int, ds.len() as int) =~= Seq::<(String, ZIInstrument<W>)>::empty());
        }
        None
    }

    /// Sends a pulse to the instrument with this serial.
    pub fn send_pulse(&mut self, serial: &str, pulse: ZIPulse<W>) -> (r: Result<(), ZIError>)
        ensures
            final(self).setup_id == old(self).setup_id,
            final(self).pqsc_serial == old(self).pqsc_serial,
            name_index(old(self).instruments@, serial@) is None ==> (r matches Err(ZIError::ConnectionFailed(m))
                && m@ == "Instrument "@ + serial@ + " not found"@ && final(self).instruments@ == old(self).instruments@),
            name_index(old(self).instruments@, serial@) is Some && pulse.check != PulseCheck::Valid ==> final(self).instruments@
                == old(self).instruments@ && (pulse.check == PulseCheck::FrequencyOutOfRange ==> r matches Err(
                ZIError::FrequencyOutOfRange,
            )) && (pulse.check == PulseCheck::AmplitudeOutOfRange ==> (r matches Err(ZIError::AWGCompileError(m))
                && m@ == "Amplitude outside [0, 1]"@)),
            name_index(old(self).instruments@, serial@) matches Some(i) ==> (pulse.check == PulseCheck::Valid ==> r is Ok
                && final(self).instruments@ == old(self).instruments@.update(i, final(self).instruments@[i])
                && final(self).instruments@[i].0 == old(self).instruments@[i].0 && final(self).instruments@[i].1.pulse_queue@
                == old(self).instruments@[i].1.pulse_queue@.push(pulse) && final(self).instruments@[i].1.pulses_executed
                == old(self).instruments@[i].1.pulses_executed && final(self).instruments@[i].1.connected
                == old(self).instruments@[i].1.connected),
    {
        match self.position(serial) {
            None => {
                let mut m = String::from_str("Instrument ");
                m.append(serial);
                m.append(" not found");
                Err(ZIError::ConnectionFailed(m))
            },
            Some(i) => {
                if let Err(e) = pulse.validate() {
                    return Err(e);
                }
                let ghost before = self.instruments@;
                let r = self.instruments[i].1.queue_pulse(pulse);
                proof {
                    assert(self.instruments@ =~= before.update(i as int, self.instruments@[i as int]));
                }
                r
            },
        }
    }

    /// Runs the AWG of every instrument, in order; stops at the first disconnected one.
    pub fn trigger_all(&mut self) -> (r: Result<usize, ZIError>)
        requires
            setup_queued(old(self).instruments@, old(self).instruments@.len()) <= usize::MAX,
            forall|k: int|
                0 <= k < old(self).instruments@.len() ==> (#[trigger] old(self).instruments@[k]).1.pulses_executed
                    + old(self).instruments@[k].1.pulse_queue@.len() <= usize::MAX,
        ensures
            final(self).setup_id == old(self).setup_id,
            final(self).pqsc_serial == old(self).pqsc_serial,
            final(self).instruments@.len() == old(self).instruments@.len(),
            r is Ok <==> forall|k: int| 0 <= k < old(self).instruments@.len() ==> (#[trigger] old(self).instruments@[k]).1.connected,
            r is Ok ==> r == Ok::<usize, ZIError>(setup_queued(old(self).instruments@, old(self).instruments@.len()) as usize)
                && forall|k: int|
                0 <= k < old(self).instruments@.len() ==> final(self).instruments@[k].0 == old(self).instruments@[k].0
                    && awg_ran((#[trigger] old(self).instruments@[k]).1, final(self).instruments@[k].1),
            r is Err ==> (r matches Err(ZIError::ConnectionFailed(m)) && m@ == "Not connected"@) && exists|f: int|
                0 <= f < old(self).instruments@.len() && !(#[trigger] old(self).instruments@[f]).1.connected && (forall|k: int|
                    0 <= k < f ==> (#[trigger] old(self).instruments@[k]).1.connected && final(self).instruments@[k].0
                        == old(self).instruments@[k].0 && awg_ran(old(self).instruments@[k].1, final(self).instruments@[k].1))
                    && (forall|k: int| f <= k < old(self).instruments@.len() ==> #[trigger] final(self).instruments@[k] == old(self).instruments@[k]),
    {
        let ghost start = self.instruments@;
        let mut total: usize = 0;
        let mut i: usize = 0;
        while i < self.instruments.len()
            invariant
                i <= start.len(),
                start == old(self).instruments@,
                self.instruments@.len() == start.len(),
                self.setup_id == old(self).setup_id,
                self.pqsc_serial == old(self).pqsc_serial,
                setup_queued(start, start.len()) <= usize::MAX,
                forall|k: int|
                    0 <= k < start.len() ==> (#[trigger] start[k]).1.pulses_executed + start[k].1.pulse_queue@.len() <= usize::MAX,
                total == setup_queued(start, i as nat),
                forall|k: int| 0 <= k < i ==> (#[trigger] start[k]).1.connected,
                forall|k: int|
                    0 <= k < i ==> self.instruments@[k].0 == start[k].0 && awg_ran(
                        (#[trigger] start[k]).1,
                        self.instruments@[k].1,
                    ),
                forall|k: int| i <= k < start.len() ==> #[trigger] self.instruments@[k] == start[k],
            decreases start.len() - i,
        {
            if !self.instruments[i].1.connected {
                proof {
                    assert(!start[i as int].1.connected);
                }
                return Err(ZIError::ConnectionFailed(String::from_str("Not connected")));
            }
            proof {
                lemma_setup_queued_monotone(start, (i + 1) as nat, start.len());
            }
            let ghost before = self.instruments@;
            let n = match self.instruments[i].1.run_awg() {
                Ok(n) => n,
                Err(e) => {
                    return Err(e);
                },
            };
            proof {
                assert(self.instruments@ =~= before.update(i as int, self.instruments@[i as int]));
            }
            total = total + n;
            i = i + 1;
        }
        Ok(total)
    }
}

} // verus!
