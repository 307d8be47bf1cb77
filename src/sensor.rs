//! The sensors' cached state: instantaneous power and integrated energy for
//! a board, temperature and humidity for the ambient sensor.

use vstd::prelude::*;
use crate::decimal::{parse_reading, reading_value, ParseError};

verus! {

/// Why a sample was not taken. The sensor's state is left as it was.
#[derive(Debug, Clone, Copy, PartialEq, Eq, Structural)]
pub enum SensorError {
    /// The source's text is not an integer of the reading's range.
    Parse,
    /// A power source reported a negative power over a positive time; the
    /// energy counter only grows.
    NegativePower,
    /// The energy counter would exceed its range.
    EnergyOverflow,
}

impl From<ParseError> for SensorError {
    fn from(e: ParseError) -> (r: SensorError)
        ensures
            r == SensorError::Parse,
    {
        SensorError::Parse
    }
}

impl vstd::std_specs::convert::FromSpecImpl<ParseError> for SensorError {
    open spec fn obeys_from_spec() -> bool {
        true
    }

    open spec fn from_spec(e: ParseError) -> SensorError {
        SensorError::Parse
    }
}

/// What a power sensor holds: the last power read, in micro-watts, and the
/// energy consumed since start, in femto-joules (micro-watts times
/// nanoseconds).
pub struct PowerModel {
    pub power_uw: int,
    pub energy_fj: int,
}

/// The energy, in femto-joules, that `power_uw` micro-watts deliver over
/// `elapsed_ns` nanoseconds.
pub open spec fn energy_increment(power_uw: int, elapsed_ns: int) -> int {
    power_uw * elapsed_ns
}

/// The state after one sample of `power_uw` taken `elapsed_ns` after the last.
pub open spec fn sampled(m: PowerModel, power_uw: int, elapsed_ns: int) -> PowerModel {
    PowerModel { power_uw, energy_fj: m.energy_fj + energy_increment(power_uw, elapsed_ns) }
}

/// Whether a sample of `power_uw` over `elapsed_ns` can be taken from `m`: a
/// negative power only where no time has passed, so that the energy never
/// falls, and a total that stays in range.
pub open spec fn sample_fits(m: PowerModel, power_uw: int, elapsed_ns: int) -> bool {
    (power_uw >= 0 || elapsed_ns == 0) && m.energy_fj + energy_increment(power_uw, elapsed_ns) <= u128::MAX
}

/// Power drawn by one board and the energy it has consumed.
pub struct PowerSensor {
    last_power_uw: i32,
    energy_fj: u128,
}

impl View for PowerSensor {
    type V = PowerModel;

    closed spec fn view(&self) -> PowerModel {
        PowerModel { power_uw: self.last_power_uw as int, energy_fj: self.energy_fj as int }
    }
}

impl PowerSensor {
    /// A sensor that has read nothing yet: no power, no energy.
    pub fn new() -> (r: PowerSensor)
        ensures
            r@ == (PowerModel { power_uw: 0, energy_fj: 0 }),
    {
        PowerSensor { last_power_uw: 0, energy_fj: 0 }
    }

    /// Takes a sample of `power_uw` micro-watts, `elapsed_ns` nanoseconds
    /// after the previous one: the energy grows by their product, which is
    /// returned. A negative power is refused only where time has passed,
    /// since over no time it adds no energy.
    pub fn sample(&mut self, power_uw: i32, elapsed_ns: u64) -> (r: Result<u128, SensorError>)
        ensures
            power_uw < 0 && elapsed_ns > 0 ==> r == Err::<u128, SensorError>(
                SensorError::NegativePower,
            ),
            (power_uw >= 0 || elapsed_ns == 0) && !sample_fits(old(self)@, power_uw as int, elapsed_ns as int) ==> r
                == Err::<u128, SensorError>(SensorError::EnergyOverflow),
            sample_fits(old(self)@, power_uw as int, elapsed_ns as int) ==> r == Ok::<
                u128,
                SensorError,
            >(energy_increment(power_uw as int, elapsed_ns as int) as u128),
            r is Ok ==> final(self)@ == sampled(old(self)@, power_uw as int, elapsed_ns as int),
            r is Err ==> final(self)@ == old(self)@,
    {
        if power_uw < 0 {
            if elapsed_ns > 0 {
                return Err(SensorError::NegativePower);
            }
            self.last_power_uw = power_uw;
            return Ok(0);
        }
        assert((power_uw as u128) * (elapsed_ns as u128) <= 0x8000_0000u128 * 0x1_0000_0000_0000_0000u128) by (nonlinear_arith)
            requires
                0 <= power_uw <= 0x8000_0000u128,
                elapsed_ns <= 0x1_0000_0000_0000_0000u128,
        ;
        let de = (power_uw as u128) * (elapsed_ns as u128);
        assert(de == energy_increment(power_uw as int, elapsed_ns as int)) by (nonlinear_arith)
            requires
                de == (power_uw as u128) * (elapsed_ns as u128),
                power_uw >= 0,
        ;
        if de > u128::MAX - self.energy_fj {
            return Err(SensorError::EnergyOverflow);
        }
        self.last_power_uw = power_uw;
        self.energy_fj = self.energy_fj + de;
        Ok(de)
    }

    /// Reads the power source's text (micro-watts) and takes a sample of it,
    /// `elapsed_ns` nanoseconds after the previous one.
    pub fn read(&mut self, text: &str, elapsed_ns: u64) -> (r: Result<u128, SensorError>)
        ensures
            reading_value(text@) is None ==> r == Err::<u128, SensorError>(SensorError::Parse),
            reading_value(text@) is Some ==> ({
                let p = reading_value(text@)->Some_0;
                &&& p < 0 && elapsed_ns > 0 ==> r == Err::<u128, SensorError>(
                    SensorError::NegativePower,
                )
                &&& (p >= 0 || elapsed_ns == 0) && !sample_fits(old(self)@, p, elapsed_ns as int) ==> r == Err::<
                    u128,
                    SensorError,
                >(SensorError::EnergyOverflow)
                &&& sample_fits(old(self)@, p, elapsed_ns as int) ==> r == Ok::<
                    u128,
                    SensorError,
                >(energy_increment(p, elapsed_ns as int) as u128)
                &&& r is Ok ==> final(self)@ == sampled(old(self)@, p, elapsed_ns as int)
            }),
            r is Err ==> final(self)@ == old(self)@,
    {
        match parse_reading(text) {
            Ok(p) => self.sample(p, elapsed_ns),
            Err(e) => Err(SensorError::from(e)),
        }
    }

    /// The last power read, in micro-watts.
    pub fn power_uw(&self) -> (r: i32)
        ensures
            r as int == self@.power_uw,
    {
        self.last_power_uw
    }

    /// The energy consumed since start, in femto-joules.
    pub fn energy_fj(&self) -> (r: u128)
        ensures
            r as int == self@.energy_fj,
    {
        self.energy_fj
    }
}

/// What the ambient sensor holds: the last temperature read, in
/// milli-degrees Celsius, and the last relative humidity, in milli-percent;
/// `None` until the first read.
pub struct ClimateModel {
    pub temp_mc: Option<int>,
    pub humidity_mpct: Option<int>,
}

/// Temperature and humidity of one ambient sensor.
pub struct TemperatureSensor {
    temp_mc: Option<i32>,
    humidity_mpct: Option<i32>,
}

impl View for TemperatureSensor {
    type V = ClimateModel;

    closed spec fn view(&self) -> ClimateModel {
        ClimateModel {
            temp_mc: match self.temp_mc {
                Some(t) => Some(t as int),
                None => None,
            },
            humidity_mpct: match self.humidity_mpct {
                Some(h) => Some(h as int),
                None => None,
            },
        }
    }
}

impl TemperatureSensor {
    /// A sensor that has read nothing yet.
    pub fn new() -> (r: TemperatureSensor)
        ensures
            r@ == (ClimateModel { temp_mc: None, humidity_mpct: None }),
    {
        TemperatureSensor { temp_mc: None, humidity_mpct: None }
    }

    /// Reads the temperature source's text (milli-degrees) and the humidity
    /// source's text (milli-percent). Both are kept where both parse;
    /// otherwise nothing changes.
    pub fn read(&mut self, temp_text: &str, humidity_text: &str) -> (r: Result<(), SensorError>)
        ensures
            (reading_value(temp_text@) is Some && reading_value(humidity_text@) is Some) ==> r
                is Ok && final(self)@ == (ClimateModel {
                temp_mc: reading_value(temp_text@),
                humidity_mpct: reading_value(humidity_text@),
            }),
            (reading_value(temp_text@) is None || reading_value(humidity_text@) is None) ==> r
                == Err::<(), SensorError>(SensorError::Parse) && final(self)@ == old(self)@,
    {
        let t = match parse_reading(temp_text) {
            Ok(t) => t,
            Err(e) => {
                return Err(SensorError::from(e));
            },
        };
        let h = match parse_reading(humidity_text) {
            Ok(h) => h,
            Err(e) => {
                return Err(SensorError::from(e));
            },
        };
        self.temp_mc = Some(t);
        self.humidity_mpct = Some(h);
        Ok(())
    }

    /// The last temperature read, in milli-degrees Celsius.
    pub fn temp_milli_celsius(&self) -> (r: Option<i32>)
        ensures
            r is Some <==> self@.temp_mc is Some,
            r is Some ==> r->Some_0 as int == self@.temp_mc->Some_0,
    {
        self.temp_mc
    }

    /// The last relative humidity read, in milli-percent.
    pub fn humidity_milli_percent(&self) -> (r: Option<i32>)
        ensures
            r is Some <==> self@.humidity_mpct is Some,
            r is Some ==> r->Some_0 as int == self@.humidity_mpct->Some_0,
    {
        self.humidity_mpct
    }
}

/// The state after samples of `(power_uw, elapsed_ns)` taken in order.
pub open spec fn sampled_all(m: PowerModel, samples: Seq<(int, int)>) -> PowerModel
    decreases samples.len(),
{
    if samples.len() == 0 {
        m
    } else {
        sampled_all(sampled(m, samples[0].0, samples[0].1), samples.skip(1))
    }
}

/// The sum of the energy increments of `samples`.
pub open spec fn total_increment(samples: Seq<(int, int)>) -> int
    decreases samples.len(),
{
    if samples.len() == 0 {
        0
    } else {
        energy_increment(samples[0].0, samples[0].1) + total_increment(samples.skip(1))
    }
}

/// After any run of samples the energy has grown by exactly the sum of the
/// increments that the samples returned, and nothing else changes it.
pub proof fn lemma_energy_is_sum_of_increments(m: PowerModel, samples: Seq<(int, int)>)
    ensures
        sampled_all(m, samples).energy_fj == m.energy_fj + total_increment(samples),
    decreases samples.len(),
{
    if samples.len() > 0 {
        lemma_energy_is_sum_of_increments(
            sampled(m, samples[0].0, samples[0].1),
            samples.skip(1),
        );
    }
}

/// The path of the file `channel` in the sensor directory `dir`.
fn channel_path(dir: &str, channel: &str) -> (r: String)
    ensures
        r@ == dir@ + seq!['/'] + channel@,
{
    let mut r = String::from_str(dir);
    let sep = "/";
    proof {
        reveal_strlit("/");
    }
    r.append(sep);
    r.append(channel);
    assert(r@ =~= dir@ + seq!['/'] + channel@);
    r
}

/// The file in the ambient sensor's directory `dir` that holds the
/// temperature.
pub fn temp_path(dir: &str) -> (r: String)
    ensures
        r@ == dir@ + seq!['/'] + "in_temp_input"@,
{
    channel_path(dir, "in_temp_input")
}

/// The file in the ambient sensor's directory `dir` that holds the relative
/// humidity.
pub fn humidity_path(dir: &str) -> (r: String)
    ensures
        r@ == dir@ + seq!['/'] + "in_humidityrelative_input"@,
{
    channel_path(dir, "in_humidityrelative_input")
}

} // verus!
