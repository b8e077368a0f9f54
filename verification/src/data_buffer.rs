//! A buffer of at most `N` values that refuses values once full.
use vstd::prelude::*;

verus! {

/// The sum of `s`.
pub open spec fn total_of(s: Seq<u32>) -> int
    decreases s.len(),
{
    if s.len() == 0 {
        0
    } else {
        total_of(s.drop_last()) + s.last()
    }
}

/// At most `N` values, in the order they were accepted.
pub struct DataBuffer<const N: usize> {
    data: Vec<u32>,
}

impl<const N: usize> DataBuffer<N> {
    #[verifier::type_invariant]
    closed spec fn inv(self) -> bool {
        self.data@.len() <= N
    }

    /// The accepted values, in order.
    pub closed spec fn values(&self) -> Seq<u32> {
        self.data@
    }

    /// An empty buffer.
    pub fn new() -> (r: Self)
        ensures
            r.values() == Seq::<u32>::empty(),
    {
        DataBuffer { data: Vec::new() }
    }

    /// Appends `value` if there is room; whether it was accepted.
    pub fn push(&mut self, value: u32) -> (r: bool)
        ensures
            r == (old(self).values().len() < N),
            r ==> final(self).values() == old(self).values().push(value),
            !r ==> final(self).values() == old(self).values(),
    {
        proof {
            use_type_invariant(&*self);
        }
        if self.data.len() >= N {
            return false;
        }
        let mut data = Vec::new();
        std::mem::swap(&mut data, &mut self.data);
        data.push(value);
        self.data = data;
        true
    }

    /// The sum of the values; every running sum must fit in a `u32`.
    pub fn sum(&self) -> (r: u32)
        requires
            forall|k: int| 0 <= k <= self.values().len() ==> #[trigger] total_of(self.values().take(k)) <= u32::MAX,
        ensures
            r == total_of(self.values()),
    {
        let ghost v = self.data@;
        let mut s: u32 = 0;
        let mut i: usize = 0;
        assert(v.take(0) =~= Seq::<u32>::empty());
        assert(v == self.values());
        while i < self.data.len()
            invariant
                v == self.data@,
                i <= v.len(),
                forall|k: int| 0 <= k <= v.len() ==> #[trigger] total_of(v.take(k)) <= u32::MAX,
                s == total_of(v.take(i as int)),
            decreases v.len() - i,
        {
            assert(v.take(i + 1).drop_last() =~= v.take(i as int));
            assert(v.take(i + 1).last() == v[i as int]);
            assert(total_of(v.take(i + 1)) <= u32::MAX);
            s = s + self.data[i];
            i = i + 1;
        }
        assert(v.take(v.len() as int) =~= v);
        s
    }

    /// The number of values.
    pub fn len(&self) -> (r: usize)
        ensures
            r == self.values().len(),
            r <= N,
    {
        proof {
            use_type_invariant(self);
        }
        self.data.len()
    }
}

} // verus!
