//! Temperature monitoring for a sensor: temperatures kept in tenths of a
//! degree Celsius, a fixed-capacity buffer of readings and its statistics.
use vstd::prelude::*;
use crate::readings::{after_push, div_toward_zero, is_greatest, is_least, sum_tenths, TenthsBuffer};
use crate::text::{decimal, owned, push_char, push_decimal};
use vstd::string::StringExecFns;

verus! {

broadcast use vstd::string::group_string_axioms;

/// A temperature in tenths of a degree Celsius.
#[derive(Debug, Clone, Copy, PartialEq, Eq, Structural)]
pub struct Temperature {
    pub celsius_tenths: i16,
}

/// The text of a temperature of `t` tenths: sign, whole degrees, one
/// decimal and the unit, as `{:.1}°C` prints it.
pub open spec fn tenths_text(t: int) -> Seq<char> {
    let a = if t < 0 { -t } else { t };
    (if t < 0 { "-"@ } else { Seq::empty() }) + decimal((a / 10) as nat) + "."@ + decimal(
        (a % 10) as nat,
    ) + "°C"@
}

/// Appends the text of a temperature of `t` tenths to `s`.
pub fn push_tenths(s: &mut String, t: i16)
    ensures
        final(s)@ == old(s)@ + tenths_text(t as int),
{
    let a: u64 = if t < 0 {
        (-(t as i32)) as u64
    } else {
        t as u64
    };
    let ghost start = s@;
    if t < 0 {
        s.append("-");
    }
    push_decimal(s, a / 10);
    s.append(".");
    push_decimal(s, a % 10);
    s.append("°C");
    proof {
        let sign = if t < 0 { "-"@ } else { Seq::<char>::empty() };
        assert(s@ =~= start + sign + decimal((a / 10) as nat) + "."@ + decimal((a % 10) as nat)
            + "°C"@);
    }
}

impl Temperature {
    /// A temperature of `tenths` tenths of a degree.
    pub fn from_tenths(tenths: i16) -> (r: Self)
        ensures
            r.celsius_tenths == tenths,
    {
        Temperature { celsius_tenths: tenths }
    }

    /// The temperature in tenths of a degree.
    pub fn tenths(&self) -> (r: i16)
        ensures
            r == self.celsius_tenths,
    {
        self.celsius_tenths
    }

    /// Whether the temperature is between 15 and 35 degrees, both included.
    pub fn is_normal_range(&self) -> (r: bool)
        ensures
            r == (150 <= self.celsius_tenths <= 350),
    {
        self.celsius_tenths >= 150 && self.celsius_tenths <= 350
    }

    /// Whether the temperature is above 100 degrees.
    pub fn is_overheating(&self) -> (r: bool)
        ensures
            r == (self.celsius_tenths > 1000),
    {
        self.celsius_tenths > 1000
    }

    /// The temperature as text with one decimal, such as `23.7°C`.
    pub fn to_text(&self) -> (r: String)
        ensures
            r@ == tenths_text(self.celsius_tenths as int),
    {
        let mut s = String::new();
        push_tenths(&mut s, self.celsius_tenths);
        s
    }
}

/// The temperatures of a list of tenths.
pub open spec fn temps_of(s: Seq<i16>) -> Seq<Temperature> {
    s.map_values(|t: i16| Temperature { celsius_tenths: t })
}

/// A buffer of at most `N` temperatures, with a count of all readings.
pub struct TemperatureBuffer<const N: usize> {
    inner: TenthsBuffer<N>,
}

/// Statistics of the readings in a buffer.
#[derive(Debug, Clone, Copy, PartialEq, Eq)]
pub struct TemperatureStats {
    /// Readings in the buffer.
    pub count: usize,
    /// Readings taken in all.
    pub total_count: u32,
    pub average: Temperature,
    pub min: Temperature,
    pub max: Temperature,
}

/// What `stats` needs: every running sum of the readings fits in an `i32`.
pub open spec fn sums_fit(v: Seq<i16>) -> bool {
    &&& forall|k: int| 0 <= k <= v.len() ==> i32::MIN <= #[trigger] sum_tenths(v.take(k)) <= i32::MAX
    &&& v.len() <= i32::MAX
}

impl<const N: usize> TemperatureBuffer<N> {
    /// The stored readings in tenths, oldest first.
    pub closed spec fn values(&self) -> Seq<i16> {
        self.inner.values()
    }

    /// The readings taken since the last clear.
    pub closed spec fn total(&self) -> nat {
        self.inner.total()
    }

    /// An empty buffer.
    pub fn new() -> (r: Self)
        ensures
            r.values() == Seq::<i16>::empty(),
            r.total() == 0,
    {
        TemperatureBuffer { inner: TenthsBuffer::new() }
    }

    /// Adds a reading as the newest one; when the buffer is full, the oldest
    /// reading leaves it first.
    pub fn push(&mut self, temperature: Temperature)
        requires
            N > 0,
            old(self).total() < u32::MAX,
        ensures
            final(self).values() == after_push(old(self).values(), temperature.celsius_tenths, N as nat),
            final(self).values().len() <= N,
            final(self).total() == old(self).total() + 1,
    {
        self.inner.push(temperature.celsius_tenths);
    }

    /// The number of stored readings.
    pub fn len(&self) -> (r: usize)
        ensures
            r == self.values().len(),
            r <= N,
    {
        self.inner.len()
    }

    /// Whether no reading is stored.
    pub fn is_empty(&self) -> (r: bool)
        ensures
            r == (self.values().len() == 0),
    {
        self.inner.is_empty()
    }

    /// The capacity `N`.
    pub fn capacity(&self) -> (r: usize)
        ensures
            r == N,
    {
        N
    }

    /// The newest reading, if any.
    pub fn latest(&self) -> (r: Option<Temperature>)
        ensures
            self.values().len() == 0 ==> r is None,
            self.values().len() > 0 ==> r == Some(Temperature { celsius_tenths: self.values().last() }),
    {
        match self.inner.last() {
            Some(t) => Some(Temperature { celsius_tenths: t }),
            None => None,
        }
    }

    /// The average of the readings, rounded toward zero, if any.
    pub fn average(&self) -> (r: Option<Temperature>)
        requires
            sums_fit(self.values()),
        ensures
            self.values().len() == 0 ==> r is None,
            self.values().len() > 0 ==> r == Some(
                Temperature {
                    celsius_tenths: div_toward_zero(
                        sum_tenths(self.values()),
                        self.values().len() as int,
                    ) as i16,
                },
            ),
    {
        match self.inner.average() {
            Some(t) => Some(Temperature { celsius_tenths: t }),
            None => None,
        }
    }

    /// The lowest reading, if any.
    pub fn min(&self) -> (r: Option<Temperature>)
        ensures
            self.values().len() == 0 ==> r is None,
            self.values().len() > 0 ==> (r matches Some(m) && is_least(self.values(), m.celsius_tenths)),
    {
        match self.inner.min() {
            Some(t) => Some(Temperature { celsius_tenths: t }),
            None => None,
        }
    }

    /// The highest reading, if any.
    pub fn max(&self) -> (r: Option<Temperature>)
        ensures
            self.values().len() == 0 ==> r is None,
            self.values().len() > 0 ==> (r matches Some(m) && is_greatest(self.values(), m.celsius_tenths)),
    {
        match self.inner.max() {
            Some(t) => Some(Temperature { celsius_tenths: t }),
            None => None,
        }
    }

    /// The readings taken since the last clear, overwritten ones included.
    pub fn total_readings(&self) -> (r: u32)
        ensures
            r == self.total(),
    {
        self.inner.total_readings()
    }

    /// Forgets every reading and resets the count.
    pub fn clear(&mut self)
        ensures
            final(self).values() == Seq::<i16>::empty(),
            final(self).total() == 0,
    {
        self.inner.clear();
    }

    /// The statistics of the readings, if any.
    pub fn stats(&self) -> (r: Option<TemperatureStats>)
        requires
            sums_fit(self.values()),
        ensures
            self.values().len() == 0 ==> r is None,
            self.values().len() > 0 ==> (r matches Some(st) && st.count == self.values().len()
                && st.total_count == self.total() && st.average.celsius_tenths == div_toward_zero(
                sum_tenths(self.values()),
                self.values().len() as int,
            ) as i16 && is_least(self.values(), st.min.celsius_tenths) && is_greatest(
                self.values(),
                st.max.celsius_tenths,
            )),
    {
        if self.inner.is_empty() {
            return None;
        }
        let average = match self.average() {
            Some(a) => a,
            None => {
                return None;
            },
        };
        let min = match self.min() {
            Some(a) => a,
            None => {
                return None;
            },
        };
        let max = match self.max() {
            Some(a) => a,
            None => {
                return None;
            },
        };
        Some(TemperatureStats {
            count: self.inner.len(),
            total_count: self.inner.total_readings(),
            average,
            min,
            max,
        })
    }
}

impl TemperatureStats {
    /// The statistics as text: counts, then average, lowest and highest.
    pub fn to_text(&self) -> (r: String)
        ensures
            r@ == "Stats: "@ + decimal(self.count as nat) + " readings (total: "@ + decimal(
                self.total_count as nat,
            ) + "), Avg: "@ + tenths_text(self.average.celsius_tenths as int) + ", Min: "@
                + tenths_text(self.min.celsius_tenths as int) + ", Max: "@ + tenths_text(
                self.max.celsius_tenths as int,
            ),
    {
        let mut s = owned("Stats: ");
        push_decimal(&mut s, self.count as u64);
        s.append(" readings (total: ");
        push_decimal(&mut s, self.total_count as u64);
        s.append("), Avg: ");
        push_tenths(&mut s, self.average.celsius_tenths);
        s.append(", Min: ");
        push_tenths(&mut s, self.min.celsius_tenths);
        s.append(", Max: ");
        push_tenths(&mut s, self.max.celsius_tenths);
        s
    }
}

} // verus!
