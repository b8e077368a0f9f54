//! A fixed-capacity store of temperature readings in tenths of a degree:
//! once full, each new reading pushes out the oldest one, so the store keeps
//! the most recent readings, oldest first.
use vstd::prelude::*;

verus! {

/// The sum of `s`.
pub open spec fn sum_tenths(s: Seq<i16>) -> int
    decreases s.len(),
{
    if s.len() == 0 {
        0
    } else {
        sum_tenths(s.drop_last()) + s.last()
    }
}

/// Integer division rounding toward zero, as Rust's `/` does.
pub open spec fn div_toward_zero(a: int, b: int) -> int {
    if a >= 0 {
        a / b
    } else {
        -((-a) / b)
    }
}

/// `m` is the least value of `s`.
pub open spec fn is_least(s: Seq<i16>, m: i16) -> bool {
    s.contains(m) && forall|i: int| 0 <= i < s.len() ==> m <= #[trigger] s[i]
}

/// `m` is the greatest value of `s`.
pub open spec fn is_greatest(s: Seq<i16>, m: i16) -> bool {
    s.contains(m) && forall|i: int| 0 <= i < s.len() ==> #[trigger] s[i] <= m
}

/// The readings after storing `x` in a store of capacity `n` that holds
/// `values`: `x` is appended, after the oldest reading has left a full store.
pub open spec fn after_push(values: Seq<i16>, x: i16, n: nat) -> Seq<i16> {
    if values.len() < n {
        values.push(x)
    } else {
        values.drop_first().push(x)
    }
}

/// The last `n` of the readings `xs`, or all of them when there are fewer.
pub open spec fn latest(xs: Seq<i16>, n: nat) -> Seq<i16> {
    if xs.len() <= n {
        xs
    } else {
        xs.skip(xs.len() - n)
    }
}

/// A store of capacity `n` holds the `n` most recent readings: if it held
/// the latest of the readings `xs`, after storing `x` it holds the latest of
/// `xs` followed by `x`. From an empty store, it therefore always holds the
/// last `n` readings taken, oldest first.
pub proof fn law_store_keeps_latest(xs: Seq<i16>, x: i16, n: nat)
    requires
        n > 0,
    ensures
        after_push(latest(xs, n), x, n) == latest(xs.push(x), n),
{
    let v = latest(xs, n);
    if xs.len() < n {
        assert(after_push(v, x, n) =~= latest(xs.push(x), n));
    } else {
        assert(v.len() == n);
        assert(after_push(v, x, n) =~= latest(xs.push(x), n));
    }
}

/// Readings in tenths of a degree, at most `N` of them, with a count of all
/// readings ever taken.
pub struct TenthsBuffer<const N: usize> {
    readings: Vec<i16>,
    total_readings: u32,
}

impl<const N: usize> TenthsBuffer<N> {
    #[verifier::type_invariant]
    closed spec fn inv(self) -> bool {
        self.readings@.len() <= N
    }

    /// The stored readings, oldest first.
    pub closed spec fn values(&self) -> Seq<i16> {
        self.readings@
    }

    /// The number of readings ever taken since the last clear.
    pub closed spec fn total(&self) -> nat {
        self.total_readings as nat
    }

    /// An empty store.
    pub fn new() -> (r: Self)
        ensures
            r.values() == Seq::<i16>::empty(),
            r.total() == 0,
    {
        TenthsBuffer { readings: Vec::new(), total_readings: 0 }
    }

    /// Stores `x` as the newest reading; when the store is full, the oldest
    /// reading leaves it first.
    pub fn push(&mut self, x: i16)
        requires
            N > 0,
            old(self).total() < u32::MAX,
        ensures
            final(self).values() == after_push(old(self).values(), x, N as nat),
            final(self).values().len() <= N,
            final(self).total() == old(self).total() + 1,
    {
        proof {
            use_type_invariant(&*self);
        }
        let mut readings = Vec::new();
        std::mem::swap(&mut readings, &mut self.readings);
        if readings.len() >= N {
            readings.remove(0);
        }
        readings.push(x);
        self.readings = readings;
        self.total_readings = self.total_readings + 1;
    }

    /// The number of stored readings.
    pub fn len(&self) -> (r: usize)
        ensures
            r == self.values().len(),
            r <= N,
    {
        proof {
            use_type_invariant(self);
        }
        self.readings.len()
    }

    /// Whether no reading is stored.
    pub fn is_empty(&self) -> (r: bool)
        ensures
            r == (self.values().len() == 0),
    {
        self.readings.len() == 0
    }

    /// The newest stored reading, if any.
    pub fn last(&self) -> (r: Option<i16>)
        ensures
            self.values().len() == 0 ==> r is None,
            self.values().len() > 0 ==> r == Some(self.values().last()),
    {
        if self.readings.len() == 0 {
            None
        } else {
            Some(self.readings[self.readings.len() - 1])
        }
    }

    /// The least stored reading, if any.
    pub fn min(&self) -> (r: Option<i16>)
        ensures
            self.values().len() == 0 ==> r is None,
            self.values().len() > 0 ==> (r matches Some(m) && is_least(self.values(), m)),
    {
        if self.readings.len() == 0 {
            return None;
        }
        let mut m = self.readings[0];
        let mut i: usize = 1;
        while i < self.readings.len()
            invariant
                1 <= i <= self.readings@.len(),
                self.readings@.contains(m),
                forall|j: int| 0 <= j < i ==> m <= #[trigger] self.readings@[j],
            decreases self.readings@.len() - i,
        {
            if self.readings[i] < m {
                m = self.readings[i];
            }
            i = i + 1;
        }
        Some(m)
    }

    /// The greatest stored reading, if any.
    pub fn max(&self) -> (r: Option<i16>)
        ensures
            self.values().len() == 0 ==> r is None,
            self.values().len() > 0 ==> (r matches Some(m) && is_greatest(self.values(), m)),
    {
        if self.readings.len() == 0 {
            return None;
        }
        let mut m = self.readings[0];
        let mut i: usize = 1;
        while i < self.readings.len()
            invariant
                1 <= i <= self.readings@.len(),
                self.readings@.contains(m),
                forall|j: int| 0 <= j < i ==> #[trigger] self.readings@[j] <= m,
            decreases self.readings@.len() - i,
        {
            if self.readings[i] > m {
                m = self.readings[i];
            }
            i = i + 1;
        }
        Some(m)
    }

    /// The average of the stored readings, rounded toward zero, if any; the
    /// running sum must fit in an `i32`.
    pub fn average(&self) -> (r: Option<i16>)
        requires
            forall|k: int| 0 <= k <= self.values().len() ==> i32::MIN <= #[trigger] sum_tenths(self.values().take(k)) <= i32::MAX,
            self.values().len() <= i32::MAX,
        ensures
            self.values().len() == 0 ==> r is None,
            self.values().len() > 0 ==> r == Some(
                div_toward_zero(sum_tenths(self.values()), self.values().len() as int) as i16,
            ),
    {
        let n = self.readings.len();
        if n == 0 {
            return None;
        }
        let mut s: i32 = 0;
        let mut i: usize = 0;
        let ghost v = self.readings@;
        assert(v.take(0) =~= Seq::<i16>::empty());
        while i < n
            invariant
                v == self.readings@,
                n == v.len(),
                i <= n,
                forall|k: int| 0 <= k <= v.len() ==> i32::MIN <= #[trigger] sum_tenths(v.take(k)) <= i32::MAX,
                s == sum_tenths(v.take(i as int)),
            decreases n - i,
        {
            assert(v.take(i + 1).drop_last() =~= v.take(i as int));
            assert(v.take(i + 1).last() == v[i as int]);
            assert(i32::MIN <= sum_tenths(v.take(i + 1)) <= i32::MAX);
            s = s + self.readings[i] as i32;
            i = i + 1;
        }
        assert(v.take(n as int) =~= v);
        proof {
            lemma_average_in_range(v);
        }
        let d = n as i64;
        let t = s as i64;
        let avg: i64 = if t >= 0 {
            t / d
        } else {
            -((-t) / d)
        };
        Some(avg as i16)
    }

    /// The number of readings taken since the last clear.
    pub fn total_readings(&self) -> (r: u32)
        ensures
            r == self.total(),
    {
        self.total_readings
    }

    /// Forgets every reading and resets the count.
    pub fn clear(&mut self)
        ensures
            final(self).values() == Seq::<i16>::empty(),
            final(self).total() == 0,
    {
        self.readings = Vec::new();
        self.total_readings = 0;
    }

    /// A copy of the stored readings, oldest first.
    pub fn to_vec(&self) -> (r: Vec<i16>)
        ensures
            r@ == self.values(),
    {
        let mut r: Vec<i16> = Vec::new();
        let mut i: usize = 0;
        while i < self.readings.len()
            invariant
                i <= self.readings@.len(),
                r@ == self.readings@.take(i as int),
            decreases self.readings@.len() - i,
        {
            r.push(self.readings[i]);
            assert(r@ =~= self.readings@.take(i + 1));
            i = i + 1;
        }
        assert(self.readings@.take(self.readings@.len() as int) =~= self.readings@);
        r
    }
}

/// The sum of `s` lies between its length times the least and the greatest
/// `i16`.
proof fn lemma_sum_bounds(s: Seq<i16>)
    ensures
        -32768 * s.len() <= sum_tenths(s) <= 32767 * s.len(),
    decreases s.len(),
{
    if s.len() > 0 {
        lemma_sum_bounds(s.drop_last());
    }
}

/// The average rounded toward zero is again an `i16`.
proof fn lemma_average_in_range(s: Seq<i16>)
    requires
        s.len() > 0,
    ensures
        -32768 <= div_toward_zero(sum_tenths(s), s.len() as int) <= 32767,
{
    lemma_sum_bounds(s);
    let a = sum_tenths(s);
    let n = s.len() as int;
    if a >= 0 {
        assert(a / n <= 32767) by (nonlinear_arith)
            requires
                0 <= a <= 32767 * n,
                n > 0,
        ;
        assert(a / n >= 0) by (nonlinear_arith)
            requires
                0 <= a,
                n > 0,
        ;
    } else {
        assert((-a) / n <= 32768) by (nonlinear_arith)
            requires
                0 < -a <= 32768 * n,
                n > 0,
        ;
        assert((-a) / n >= 0) by (nonlinear_arith)
            requires
                0 < -a,
                n > 0,
        ;
    }
}

} // verus!
