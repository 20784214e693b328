//! Telemetry batches from smart plugs and the readings they expand into.
use vstd::prelude::*;

verus! {

/// Timestamps below this are whole seconds since the epoch; the others are milliseconds.
pub const SECONDS_THRESHOLD: i64 = 4000000000;

/// The largest number of milliseconds whose nanosecond count fits an `i64`.
pub const MAX_MILLIS: i64 = 9223372036854;

/// The smallest number of milliseconds whose nanosecond count fits an `i64`.
pub const MIN_MILLIS: i64 = -9223372036854;

/// The instant, in milliseconds since the epoch, that a raw timestamp stands for.
pub open spec fn instant_millis(t: int) -> int {
    if t < SECONDS_THRESHOLD {
        t * 1000
    } else {
        t
    }
}

/// Whether an instant in milliseconds has a nanosecond count that fits an `i64`.
pub open spec fn nanos_in_range(ms: int) -> bool {
    MIN_MILLIS <= ms <= MAX_MILLIS
}

/// Whether an instant in milliseconds fits an `i64`.
pub open spec fn millis_fit(ms: int) -> bool {
    i64::MIN <= ms <= i64::MAX
}

/// Reads a raw timestamp by the dual-unit rule; `None` only when seconds times 1000 overflow an `i64`.
pub fn timestamp_millis(t: i64) -> (r: Option<i64>)
    ensures
        r is Some <==> millis_fit(instant_millis(t as int)),
        r matches Some(ms) ==> ms == instant_millis(t as int),
{
    if t < SECONDS_THRESHOLD {
        if t < i64::MIN / 1000 {
            None
        } else {
            Some(t * 1000)
        }
    } else {
        Some(t)
    }
}

/// A batch of power measurements from one device, as published on the bus.
pub struct KasaPowerMessage {
    /// Human-readable name of the device
    pub alias: String,
    /// Unique identifier of the device
    pub device_id: String,
    /// Total power consumption in milliwatts
    pub power_total: i32,
    /// Voltage measurements in millivolts
    pub voltages_mv: Vec<i32>,
    /// Current measurements in milliamps
    pub currents_ma: Vec<i32>,
    /// Power measurements in milliwatts
    pub powers_mw: Vec<i32>,
    /// Timestamps of the samples, in seconds or milliseconds since the epoch
    pub timestamps: Vec<i64>,
    /// Number of samples in the batch
    pub num_readings: usize,
}

/// One sample of one device.
#[derive(Debug, Clone)]
pub struct PowerReading {
    /// Human-readable name of the device
    pub device_name: String,
    /// Unique identifier of the device
    pub device_id: String,
    /// Voltage in millivolts
    pub voltage_mv: i32,
    /// Current in milliamps
    pub current_ma: i32,
    /// Power in milliwatts
    pub power_mw: i32,
    /// When the sample was taken, in milliseconds since the epoch
    pub timestamp_ms: i64,
}

/// Why a batch could not be expanded.
#[derive(Debug)]
pub enum DecodeError {
    /// The batch announces more samples than one of its arrays holds.
    MissingSamples { num_readings: usize },
    /// The timestamp of sample `index`, read as seconds, overflows an `i64` of milliseconds.
    TimestampOutOfRange { index: usize, value: i64 },
}

impl PowerReading {
    /// The instant in nanoseconds since the epoch; `None` when it does not fit an `i64`.
    pub fn timestamp_nanos(&self) -> (r: Option<i64>)
        ensures
            r is Some <==> nanos_in_range(self.timestamp_ms as int),
            r matches Some(ns) ==> ns == self.timestamp_ms * 1000000,
    {
        if MIN_MILLIS <= self.timestamp_ms && self.timestamp_ms <= MAX_MILLIS {
            Some(self.timestamp_ms * 1000000)
        } else {
            None
        }
    }
}

impl KasaPowerMessage {
    /// Whether every array holds at least `num_readings` samples.
    pub open spec fn samples_present(&self) -> bool {
        &&& self.num_readings <= self.voltages_mv@.len()
        &&& self.num_readings <= self.currents_ma@.len()
        &&& self.num_readings <= self.powers_mw@.len()
        &&& self.num_readings <= self.timestamps@.len()
    }

    /// Whether the timestamp of sample `i` stands for an instant whose milliseconds fit an `i64`.
    pub open spec fn timestamp_ok(&self, i: int) -> bool {
        millis_fit(instant_millis(self.timestamps@[i] as int))
    }

    /// `r` is sample `i` of this batch.
    pub open spec fn is_reading(&self, i: int, r: PowerReading) -> bool {
        &&& r.device_name@ == self.alias@
        &&& r.device_id@ == self.device_id@
        &&& r.voltage_mv == self.voltages_mv@[i]
        &&& r.current_ma == self.currents_ma@[i]
        &&& r.power_mw == self.powers_mw@[i]
        &&& r.timestamp_ms == instant_millis(self.timestamps@[i] as int)
    }

    /// Expands the batch into `num_readings` readings by zipping its arrays. Fails when an array is
    /// short, else at the first sample whose timestamp overflows when read as milliseconds.
    pub fn into_readings(self) -> (r: Result<Vec<PowerReading>, DecodeError>)
        ensures
            self.samples_present() && (forall|i: int| 0 <= i < self.num_readings ==> self.timestamp_ok(i))
                ==> r is Ok,
            !self.samples_present() ==> (r matches Err(DecodeError::MissingSamples { num_readings })
                && num_readings == self.num_readings),
            self.samples_present() ==> match r {
                Ok(v) => v@.len() == self.num_readings && (forall|i: int|
                    0 <= i < v@.len() ==> self.is_reading(i, #[trigger] v@[i])) && (forall|i: int|
                    0 <= i < self.num_readings ==> self.timestamp_ok(i)),
                Err(DecodeError::TimestampOutOfRange { index, value }) => index < self.num_readings
                    && value == self.timestamps@[index as int] && !self.timestamp_ok(index as int)
                    && forall|i: int| 0 <= i < index ==> self.timestamp_ok(i),
                Err(DecodeError::MissingSamples { .. }) => false,
            },
    {
        let n = self.num_readings;
        if n > self.voltages_mv.len() || n > self.currents_ma.len() || n > self.powers_mw.len()
            || n > self.timestamps.len() {
            return Err(DecodeError::MissingSamples { num_readings: n });
        }
        let mut readings: Vec<PowerReading> = Vec::new();
        let mut i: usize = 0;
        while i < n
            invariant
                n == self.num_readings,
                self.samples_present(),
                i <= n,
                readings@.len() == i,
                forall|k: int| 0 <= k < i ==> self.is_reading(k, #[trigger] readings@[k]),
                forall|k: int| 0 <= k < i ==> self.timestamp_ok(k),
            decreases n - i,
        {
            let ts = self.timestamps[i];
            match timestamp_millis(ts) {
                None => {
                    assert(!self.timestamp_ok(i as int));
                    return Err(DecodeError::TimestampOutOfRange { index: i, value: ts });
                },
                Some(ms) => {
                    readings.push(
                        PowerReading {
                            device_name: self.alias.clone(),
                            device_id: self.device_id.clone(),
                            voltage_mv: self.voltages_mv[i],
                            current_ma: self.currents_ma[i],
                            power_mw: self.powers_mw[i],
                            timestamp_ms: ms,
                        },
                    );
                },
            }
            i = i + 1;
        }
        Ok(readings)
    }
}

/// A timestamp written in seconds and the same instant written in milliseconds decode alike,
/// wherever the millisecond form reaches the threshold.
pub proof fn lemma_units_agree(seconds: int)
    requires
        SECONDS_THRESHOLD / 1000 <= seconds < SECONDS_THRESHOLD,
    ensures
        instant_millis(seconds * 1000) == instant_millis(seconds),
{
}

} // verus!
