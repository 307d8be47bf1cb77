//! What a board's streaming socket carries: one line of text per metric,
//! and the per-connection publisher that writes it until a write fails.

use vstd::prelude::*;
use crate::decimal::{ascii_digit, decimal, push_decimal};
use crate::sensor::{PowerSensor, TemperatureSensor};

verus! {

/// ASCII `.`.
pub const DOT: u8 = 46;

/// ASCII `-`.
pub const MINUS: u8 = 45;

/// ASCII line feed, which ends each line.
pub const NEWLINE: u8 = 10;

/// Femto-joules in one milli-joule.
pub const FJ_PER_MJ: u128 = 1_000_000_000_000;

/// Milli-seconds between two ambient temperature lines.
pub const AMBIENT_PERIOD_MS: u64 = 10_000;

/// Milli-seconds between two energy lines.
pub const ENERGY_PERIOD_MS: u64 = 250;

/// Three decimal digits of `n < 1000`, zeros kept.
pub open spec fn three_digits(n: int) -> Seq<u8> {
    seq![ascii_digit(n / 100), ascii_digit((n / 10) % 10), ascii_digit(n % 10)]
}

/// An energy in femto-joules rounded to the nearest milli-joule, halves up.
pub open spec fn millijoules(energy_fj: int) -> int {
    (energy_fj + FJ_PER_MJ / 2) / (FJ_PER_MJ as int)
}

/// An energy in joules with three decimals, from femto-joules.
pub open spec fn joules_text(energy_fj: int) -> Seq<u8> {
    let mj = millijoules(energy_fj);
    decimal((mj / 1000) as nat) + seq![DOT] + three_digits(mj % 1000)
}

/// The fractional part of a value in thousandths `f < 1000`, as the
/// shortest decimal: nothing for zero, else a point and the digits without
/// trailing zeros.
pub open spec fn fraction_text(f: int) -> Seq<u8> {
    if f == 0 {
        seq![]
    } else if f % 100 == 0 {
        seq![DOT, ascii_digit(f / 100)]
    } else if f % 10 == 0 {
        seq![DOT, ascii_digit(f / 100), ascii_digit((f / 10) % 10)]
    } else {
        seq![DOT] + three_digits(f)
    }
}

/// A temperature given in milli-degrees as the shortest decimal in degrees
/// (`21500` is `21.5`, `-500` is `-0.5`, `3000` is `3`), or `NaN` while
/// nothing has been read.
pub open spec fn celsius_text(temp_mc: Option<int>) -> Seq<u8> {
    match temp_mc {
        None => seq![78u8, 97u8, 78u8],  // NaN
        Some(t) => {
            let a = if t < 0 {
                -t
            } else {
                t
            };
            (if t < 0 {
                seq![MINUS]
            } else {
                seq![]
            }) + decimal((a / 1000) as nat) + fraction_text(a % 1000)
        },
    }
}

/// `energy=` in ASCII.
pub open spec fn energy_prefix() -> Seq<u8> {
    seq![101u8, 110u8, 101u8, 114u8, 103u8, 121u8, 61u8]
}

/// `ambient=` in ASCII.
pub open spec fn ambient_prefix() -> Seq<u8> {
    seq![97u8, 109u8, 98u8, 105u8, 101u8, 110u8, 116u8, 61u8]
}

/// Appends the three digits of `n < 1000`.
fn push_three_digits(out: &mut Vec<u8>, n: u128)
    requires
        n < 1000,
    ensures
        final(out)@ == old(out)@ + three_digits(n as int),
{
    out.push((n / 100) as u8 + 48);
    out.push(((n / 10) % 10) as u8 + 48);
    out.push((n % 10) as u8 + 48);
    assert(out@ =~= old(out)@ + three_digits(n as int));
}

/// The line that reports a board's energy: `energy=` and the energy in
/// joules with three decimals.
pub fn energy_line(power: &PowerSensor) -> (r: Vec<u8>)
    ensures
        r@ == energy_prefix() + joules_text(power@.energy_fj) + seq![NEWLINE],
{
    let e = power.energy_fj();
    let up: u128 = if e % FJ_PER_MJ >= FJ_PER_MJ / 2 {
        1
    } else {
        0
    };
    let mj = e / FJ_PER_MJ + up;
    assert(mj == millijoules(e as int));
    let mut out: Vec<u8> = vec![101u8, 110u8, 101u8, 114u8, 103u8, 121u8, 61u8];
    assert(out@ =~= energy_prefix());
    push_decimal(&mut out, mj / 1000);
    out.push(DOT);
    push_three_digits(&mut out, mj % 1000);
    out.push(NEWLINE);
    assert(out@ =~= energy_prefix() + joules_text(power@.energy_fj) + seq![NEWLINE]);
    out
}

/// Appends the fractional part of `f < 1000` thousandths, as
/// `fraction_text` gives it.
fn push_fraction(out: &mut Vec<u8>, f: u128)
    requires
        f < 1000,
    ensures
        final(out)@ == old(out)@ + fraction_text(f as int),
{
    if f == 0 {
        assert(out@ =~= old(out)@ + fraction_text(f as int));
    } else if f % 100 == 0 {
        out.push(DOT);
        out.push((f / 100) as u8 + 48);
        assert(out@ =~= old(out)@ + fraction_text(f as int));
    } else if f % 10 == 0 {
        out.push(DOT);
        out.push((f / 100) as u8 + 48);
        out.push(((f / 10) % 10) as u8 + 48);
        assert(out@ =~= old(out)@ + fraction_text(f as int));
    } else {
        out.push(DOT);
        push_three_digits(out, f);
        assert(out@ =~= old(out)@ + fraction_text(f as int));
    }
}

/// The line that reports the ambient temperature: `ambient=` and the
/// temperature in degrees Celsius.
pub fn ambient_line(temp: &TemperatureSensor) -> (r: Vec<u8>)
    ensures
        r@ == ambient_prefix() + celsius_text(temp@.temp_mc) + seq![NEWLINE],
{
    let mut out: Vec<u8> = vec![97u8, 109u8, 98u8, 105u8, 101u8, 110u8, 116u8, 61u8];
    assert(out@ =~= ambient_prefix());
    match temp.temp_milli_celsius() {
        None => {
            out.push(78u8);
            out.push(97u8);
            out.push(78u8);
        },
        Some(t) => {
            let t = t as i64;
            if t < 0 {
                out.push(MINUS);
            }
            let a: u128 = if t < 0 {
                (-t) as u128
            } else {
                t as u128
            };
            push_decimal(&mut out, a / 1000);
            push_fraction(&mut out, a % 1000);
        },
    }
    out.push(NEWLINE);
    assert(out@ =~= ambient_prefix() + celsius_text(temp@.temp_mc) + seq![NEWLINE]);
    out
}

/// The metric that a publisher streams.
#[derive(Debug, Clone, Copy, PartialEq, Eq, Structural)]
pub enum Metric {
    /// The shared ambient temperature, every ten seconds.
    Ambient,
    /// The board's cumulative energy, every quarter second.
    Energy,
}

/// What a publisher does after a write.
#[derive(Debug, Clone, Copy, PartialEq, Eq, Structural)]
pub enum PublisherAction {
    /// Wait this many milli-seconds, then write the next line.
    Wait(u64),
    /// The client is gone: end the loop.
    Stop,
}

/// Milli-seconds between two lines of `metric`.
pub open spec fn period_ms(metric: Metric) -> u64 {
    match metric {
        Metric::Ambient => AMBIENT_PERIOD_MS,
        Metric::Energy => ENERGY_PERIOD_MS,
    }
}

/// A publisher's state: its metric, and whether every write so far went
/// through.
pub struct PublisherModel {
    pub metric: Metric,
    pub connected: bool,
}

/// The state after a write that succeeded where `ok`.
pub open spec fn after_write(p: PublisherModel, ok: bool) -> PublisherModel {
    PublisherModel { metric: p.metric, connected: p.connected && ok }
}

/// The action that follows a write that succeeded where `ok`.
pub open spec fn action_after(p: PublisherModel, ok: bool) -> PublisherAction {
    if p.connected && ok {
        PublisherAction::Wait(period_ms(p.metric))
    } else {
        PublisherAction::Stop
    }
}

/// The state after the writes whose outcomes are `results`, in order.
pub open spec fn after_writes(p: PublisherModel, results: Seq<bool>) -> PublisherModel
    decreases results.len(),
{
    if results.len() == 0 {
        p
    } else {
        after_writes(after_write(p, results[0]), results.skip(1))
    }
}

/// One periodic writer of one metric on one client connection. It stops at
/// the first write that fails and never writes again; a failure is not
/// reported anywhere else.
pub struct Publisher {
    metric: Metric,
    connected: bool,
}

impl View for Publisher {
    type V = PublisherModel;

    closed spec fn view(&self) -> PublisherModel {
        PublisherModel { metric: self.metric, connected: self.connected }
    }
}

impl Publisher {
    /// A publisher on a freshly accepted connection.
    pub fn new(metric: Metric) -> (r: Publisher)
        ensures
            r@ == (PublisherModel { metric, connected: true }),
    {
        Publisher { metric, connected: true }
    }

    /// Whether the publisher is still to write.
    pub fn is_connected(&self) -> (r: bool)
        ensures
            r == self@.connected,
    {
        self.connected
    }

    /// The metric this publisher streams.
    pub fn metric(&self) -> (r: Metric)
        ensures
            r == self@.metric,
    {
        self.metric
    }

    /// Records the outcome of a write and says what comes next: wait for
    /// the metric's period after a write that went through, stop otherwise.
    pub fn on_write(&mut self, ok: bool) -> (r: PublisherAction)
        ensures
            final(self)@ == after_write(old(self)@, ok),
            r == action_after(old(self)@, ok),
    {
        let r = if self.connected && ok {
            match self.metric {
                Metric::Ambient => PublisherAction::Wait(AMBIENT_PERIOD_MS),
                Metric::Energy => PublisherAction::Wait(ENERGY_PERIOD_MS),
            }
        } else {
            PublisherAction::Stop
        };
        self.connected = self.connected && ok;
        r
    }
}

/// A publisher stays connected exactly while every write has gone through:
/// once one write fails it stops, and stays stopped whatever follows. Its
/// state depends on its own writes alone, so a client that stops reading
/// ends only the publishers of its own connection.
pub proof fn lemma_failed_write_is_final(p: PublisherModel, results: Seq<bool>)
    ensures
        after_writes(p, results).connected == (p.connected && forall|i: int|
            0 <= i < results.len() ==> #[trigger] results[i]),
        after_writes(p, results).metric == p.metric,
        !after_writes(p, results).connected ==> forall|ok: bool|
            #[trigger] action_after(after_writes(p, results), ok) == PublisherAction::Stop,
    decreases results.len(),
{
    if results.len() > 0 {
        let rest = results.skip(1);
        lemma_failed_write_is_final(after_write(p, results[0]), rest);
        if (forall|i: int| 0 <= i < results.len() ==> #[trigger] results[i]) {
            assert forall|i: int| 0 <= i < rest.len() implies #[trigger] rest[i] by {
                assert(rest[i] == results[i + 1]);
            }
        }
        if (forall|i: int| 0 <= i < rest.len() ==> #[trigger] rest[i]) && results[0] {
            assert forall|i: int| 0 <= i < results.len() implies #[trigger] results[i] by {
                if i > 0 {
                    assert(results[i] == rest[i - 1]);
                }
            }
        }
    }
}

} // verus!
