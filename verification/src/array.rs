//! A fixed-capacity window over the most recent values of a series.
//!
//! [`Array`] keeps at most `N` values in the order in which they arrived.
//! Once it is full, every push drops the oldest value and appends the newest.
//! Nothing is allocated: the values live in an inline array of `N` slots.

use vstd::prelude::*;

verus! {

/// What a window of capacity `cap` that holds `held` retains after `value`
/// has been pushed.
pub open spec fn pushed<T>(held: Seq<T>, value: T, cap: nat) -> Seq<T> {
    if cap == 0 {
        held
    } else if held.len() < cap {
        held.push(value)
    } else {
        held.subrange(1, held.len() as int).push(value)
    }
}

/// What a window of capacity `cap` that holds `held` retains after all of
/// `values` have been pushed, first to last.
pub open spec fn pushed_all<T>(held: Seq<T>, values: Seq<T>, cap: nat) -> Seq<T>
    decreases values.len(),
{
    if values.len() == 0 {
        held
    } else {
        pushed(pushed_all(held, values.drop_last(), cap), values.last(), cap)
    }
}

/// The last `count` values of `values`, or all of them if there are fewer.
pub open spec fn newest<T>(values: Seq<T>, count: nat) -> Seq<T> {
    if values.len() <= count {
        values
    } else {
        values.subrange(values.len() - count, values.len() as int)
    }
}

/// Fixed-capacity sequence with first-in, first-out eviction.
///
/// The view is the retained values, oldest first. Its length never exceeds
/// `N`; slots of the backing array beyond it hold stale values that no
/// method reveals.
pub struct Array<T, const N: usize> {
    buf: [T; N],
    len: usize,
}

impl<T, const N: usize> View for Array<T, N> {
    type V = Seq<T>;

    closed spec fn view(&self) -> Seq<T> {
        self.buf@.take(self.len as int)
    }
}

impl<T, const N: usize> Array<T, N> {
    #[verifier::type_invariant]
    spec fn bounded(self) -> bool {
        self.len <= N
    }
}

impl<T: Copy, const N: usize> Array<T, N> {
    /// An empty window. `default` fills the unused slots and is never
    /// observable.
    pub fn new(default: T) -> (r: Self)
        ensures
            r@ == Seq::<T>::empty(),
    {
        Self { buf: [default;N], len: 0 }
    }

    /// Appends `value`, evicting the oldest retained value if the window is
    /// full. With a capacity of zero nothing is ever retained.
    pub fn push(&mut self, value: T)
        ensures
            final(self)@ == pushed(old(self)@, value, N as nat),
            final(self)@.len() <= N,
    {
        proof {
            use_type_invariant(&*self);
        }
        if N == 0 {
            return ;
        }
        if self.len < N {
            self.buf[self.len] = value;
            self.len += 1;
        } else {
            let ghost before = self.buf@;
            let mut i: usize = 0;
            while i + 1 < N
                invariant
                    self.len == N,
                    N > 0,
                    i < N,
                    before.len() == N,
                    self.buf@.len() == N,
                    forall|j: int| 0 <= j < i ==> self.buf@[j] == before[j + 1],
                    forall|j: int| i <= j < N ==> self.buf@[j] == before[j],
                decreases N - i,
            {
                self.buf[i] = self.buf[i + 1];
                i += 1;
            }
            self.buf[N - 1] = value;
            assert(self.buf@.take(N as int) =~= before.take(N as int).subrange(1, N as int).push(
                value,
            ));
        }
    }

    /// The retained values, oldest first.
    pub fn as_slice(&self) -> (r: &[T])
        ensures
            r@ == self@,
            r@.len() <= N,
    {
        proof {
            use_type_invariant(self);
        }
        let r = &self.buf[0..self.len];
        assert(r@ =~= self@);
        r
    }

    /// How many values are retained.
    pub fn len(&self) -> (r: usize)
        ensures
            r == self@.len(),
            r <= N,
    {
        proof {
            use_type_invariant(self);
        }
        self.len
    }
}

impl<T: Default + Copy, const N: usize> Array<T, N> {
    /// The oldest retained value, or the type's default if nothing is retained.
    pub fn first(&self) -> (r: T)
        ensures
            self@.len() > 0 ==> r == self@[0],
            self@.len() == 0 ==> call_ensures(T::default, (), r),
    {
        proof {
            use_type_invariant(self);
        }
        if self.len > 0 {
            self.buf[0]
        } else {
            T::default()
        }
    }

    /// The newest retained value, or the type's default if nothing is retained.
    pub fn last(&self) -> (r: T)
        ensures
            self@.len() > 0 ==> r == self@[self@.len() - 1],
            self@.len() == 0 ==> call_ensures(T::default, (), r),
    {
        proof {
            use_type_invariant(self);
        }
        if self.len > 0 {
            self.buf[self.len - 1]
        } else {
            T::default()
        }
    }
}

impl<T: Default + Copy, const N: usize> Default for Array<T, N> {
    /// An empty window whose unused slots hold the type's default.
    fn default() -> (r: Self)
        ensures
            r@ == Seq::<T>::empty(),
    {
        Self { buf: [T::default();N], len: 0 }
    }
}

/// Pushing into a window of capacity zero retains nothing, whatever is pushed.
pub proof fn lemma_zero_capacity_stays_empty<T>(values: Seq<T>)
    ensures
        pushed_all(Seq::<T>::empty(), values, 0) == Seq::<T>::empty(),
    decreases values.len(),
{
    if values.len() > 0 {
        lemma_zero_capacity_stays_empty(values.drop_last());
    }
}

/// After any run of pushes into a window of capacity `cap` that holds
/// `held`, the window retains the last `cap` of all the values, those held
/// before and those pushed, in the order in which they arrived, or all of
/// them if they are fewer than `cap`.
pub proof fn lemma_pushes_retain_newest<T>(held: Seq<T>, values: Seq<T>, cap: nat)
    requires
        held.len() <= cap,
    ensures
        pushed_all(held, values, cap) == newest(held + values, cap),
    decreases values.len(),
{
    if values.len() == 0 {
        assert(held + values =~= held);
    } else {
        let front = values.drop_last();
        lemma_pushes_retain_newest(held, front, cap);
        assert((held + values).drop_last() =~= held + front);
        assert(pushed(newest(held + front, cap), values.last(), cap) =~= newest(
            held + values,
            cap,
        ));
    }
}

/// After a run of at least `cap` pushes into a window of capacity `cap`,
/// whatever it held before, the window retains exactly the last `cap` pushed
/// values in the order in which they were pushed.
pub proof fn lemma_full_run_retains_last<T>(held: Seq<T>, values: Seq<T>, cap: nat)
    requires
        held.len() <= cap,
        values.len() >= cap,
    ensures
        pushed_all(held, values, cap) == newest(values, cap),
{
    lemma_pushes_retain_newest(held, values, cap);
    assert(newest(held + values, cap) =~= newest(values, cap));
}

} // verus!
