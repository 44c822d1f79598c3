//! The change-tracking wrapper [`Rewrite`]: a value together with a sticky
//! "was this touched by a transformation" flag.

use vstd::prelude::*;

verus! {

/// A value that has passed through a transformation that may or may not have
/// affected it.
///
/// The flag records provenance, never structural identity: once any
/// contributing step reports [`Dirty`], every value derived from it by
/// further sequencing stays [`Dirty`] until the payload is extracted.
///
/// [`Dirty`]: Rewrite::Dirty
#[derive(Debug, Clone, Copy, PartialEq, Eq, Hash)]
pub enum Rewrite<T> {
    /// The contained value *was not* affected by the transformation.
    Clean(T),
    /// The contained value *was* affected by the transformation.
    Dirty(T),
}

impl<T> Rewrite<T> {
    /// Whether the flag is [`Dirty`](Rewrite::Dirty).
    pub open spec fn dirty(self) -> bool {
        self is Dirty
    }

    /// The payload, whatever the flag.
    pub open spec fn payload(self) -> T {
        match self {
            Rewrite::Clean(t) => t,
            Rewrite::Dirty(t) => t,
        }
    }

    /// The value with the given flag and payload.
    pub open spec fn with_flag(d: bool, t: T) -> Rewrite<T> {
        if d {
            Rewrite::Dirty(t)
        } else {
            Rewrite::Clean(t)
        }
    }

    /// Returns `true` if the rewrite is [`Clean`](Rewrite::Clean).
    pub fn is_clean(&self) -> (r: bool)
        ensures
            r == !self.dirty(),
    {
        match self {
            Rewrite::Clean(_) => true,
            Rewrite::Dirty(_) => false,
        }
    }

    /// Returns `true` if the rewrite is [`Dirty`](Rewrite::Dirty).
    pub fn is_dirty(&self) -> (r: bool)
        ensures
            r == self.dirty(),
    {
        match self {
            Rewrite::Clean(_) => false,
            Rewrite::Dirty(_) => true,
        }
    }

    /// Takes the contained value, forgetting whether it's
    /// [`Clean`](Rewrite::Clean) or [`Dirty`](Rewrite::Dirty).
    pub fn into_inner(self) -> (r: T)
        ensures
            r == self.payload(),
    {
        match self {
            Rewrite::Clean(clean) => clean,
            Rewrite::Dirty(dirty) => dirty,
        }
    }

    /// Borrows the inner value.
    pub fn inner_ref(&self) -> (r: &T)
        ensures
            *r == self.payload(),
    {
        match self {
            Rewrite::Clean(t) => t,
            Rewrite::Dirty(t) => t,
        }
    }

    /// Mutably borrows the inner value. Writing through the borrow does not
    /// itself change the flag: the caller must re-flag explicitly if the
    /// write constitutes a semantic change.
    pub fn inner_mut(&mut self) -> (r: &mut T)
        ensures
            *r == old(self).payload(),
            final(self).dirty() == old(self).dirty(),
            final(self).payload() == *final(r),
    {
        match self {
            Rewrite::Clean(t) => t,
            Rewrite::Dirty(t) => t,
        }
    }

    /// Converts from `&mut Rewrite<T>` to `Rewrite<&mut T>`.
    pub fn as_mut(&mut self) -> (r: Rewrite<&mut T>)
        ensures
            r.dirty() == old(self).dirty(),
            *r.payload() == old(self).payload(),
            final(self).dirty() == old(self).dirty(),
            final(self).payload() == *final(r.payload()),
    {
        match self {
            Rewrite::Clean(t) => Rewrite::Clean(t),
            Rewrite::Dirty(t) => Rewrite::Dirty(t),
        }
    }

    /// Converts from `&Rewrite<T>` to `Rewrite<&T>`.
    pub fn as_ref(&self) -> (r: Rewrite<&T>)
        ensures
            r.dirty() == self.dirty(),
            *r.payload() == self.payload(),
    {
        match self {
            Rewrite::Clean(t) => Rewrite::Clean(t),
            Rewrite::Dirty(t) => Rewrite::Dirty(t),
        }
    }

    /// Converts from `&Rewrite<T>` to `Rewrite<&T::Target>`.
    pub fn as_deref(&self) -> (r: Rewrite<&<T as core::ops::Deref>::Target>) where
        T: core::ops::Deref,

        ensures
            r.dirty() == self.dirty(),
            call_ensures(<T as core::ops::Deref>::deref, (&self.payload(),), r.payload()),
    {
        match self {
            Rewrite::Clean(t) => Rewrite::Clean(t.deref()),
            Rewrite::Dirty(t) => Rewrite::Dirty(t.deref()),
        }
    }

    /// Converts from `&mut Rewrite<T>` to `Rewrite<&T::Target>`, leaving
    /// the original untouched.
    pub fn as_deref_mut(&mut self) -> (r: Rewrite<&<T as core::ops::Deref>::Target>) where
        T: core::ops::DerefMut,

        ensures
            *final(self) == *old(self),
            r.dirty() == old(self).dirty(),
            call_ensures(<T as core::ops::Deref>::deref, (&old(self).payload(),), r.payload()),
    {
        match self {
            Rewrite::Clean(t) => Rewrite::Clean(T::deref(t)),
            Rewrite::Dirty(t) => Rewrite::Dirty(T::deref(t)),
        }
    }

    /// Maps a function over `self`, retaining whether it's
    /// [`Clean`](Rewrite::Clean) or [`Dirty`](Rewrite::Dirty).
    pub fn map<U, F: FnOnce(T) -> U>(self, f: F) -> (r: Rewrite<U>)
        requires
            call_requires(f, (self.payload(),)),
        ensures
            r.dirty() == self.dirty(),
            call_ensures(f, (self.payload(),), r.payload()),
    {
        match self {
            Rewrite::Clean(t) => Rewrite::Clean(f(t)),
            Rewrite::Dirty(t) => Rewrite::Dirty(f(t)),
        }
    }

    /// Applies a function and makes the result [`Dirty`](Rewrite::Dirty) if
    /// `self` was already dirty or became dirty as a result of the function:
    /// dirtiness never disappears by further composition, only accumulates.
    pub fn bind<F: FnOnce(T) -> Rewrite<T>>(self, f: F) -> (r: Rewrite<T>)
        requires
            call_requires(f, (self.payload(),)),
        ensures
            exists|fr: Rewrite<T>|
                #[trigger] call_ensures(f, (self.payload(),), fr)
                    && r == Rewrite::with_flag(self.dirty() || fr.dirty(), fr.payload()),
            self.dirty() ==> r.dirty(),
    {
        match self {
            Rewrite::Clean(clean) => {
                let res = f(clean);
                proof {
                    assert(call_ensures(f, (self.payload(),), res));
                    assert(res == Rewrite::with_flag(self.dirty() || res.dirty(), res.payload()));
                }
                res
            },
            Rewrite::Dirty(dirty) => {
                let fr = f(dirty);
                let ghost g = fr;
                let res = Rewrite::Dirty(fr.into_inner());
                proof {
                    assert(call_ensures(f, (self.payload(),), g));
                    assert(res == Rewrite::with_flag(self.dirty() || g.dirty(), g.payload()));
                }
                res
            },
        }
    }

    /// A version of [`bind`](Rewrite::bind) that takes a fallible function:
    /// a failure reported by the function propagates immediately, and no
    /// tracked value is produced for it.
    pub fn try_bind<E, F: FnOnce(T) -> Result<Rewrite<T>, E>>(self, f: F) -> (r: Result<
        Rewrite<T>,
        E,
    >)
        requires
            call_requires(f, (self.payload(),)),
        ensures
            exists|fr: Result<Rewrite<T>, E>|
                call_ensures(f, (self.payload(),), fr)
                    && (match fr {
                        Result::Ok(frw) => r == Result::<Rewrite<T>, E>::Ok(
                            Rewrite::with_flag(self.dirty() || frw.dirty(), frw.payload()),
                        ),
                        Result::Err(_) => r == fr,
                    }),
            self.dirty() && r is Ok ==> r->Ok_0.dirty(),
    {
        let ghost sp = self.payload();
        match self {
            Rewrite::Clean(t) => {
                let res = f(t);
                proof {
                    assert(call_ensures(f, (sp,), res));
                }
                res
            },
            Rewrite::Dirty(t) => {
                match f(t) {
                    Ok(frw) => {
                        let ghost g = frw;
                        let res = Ok(Rewrite::Dirty(frw.into_inner()));
                        proof {
                            assert(call_ensures(f, (sp,), Result::<Rewrite<T>, E>::Ok(g)));
                        }
                        res
                    },
                    Err(e) => {
                        let ghost ge = e;
                        let res = Err(e);
                        proof {
                            assert(call_ensures(f, (sp,), Result::<Rewrite<T>, E>::Err(ge)));
                        }
                        res
                    },
                }
            },
        }
    }

    /// Repeatedly applies a function until its result is
    /// [`Clean`](Rewrite::Clean), starting from `initial`.
    ///
    /// The result carries the payload of the final, clean application, and
    /// is [`Dirty`](Rewrite::Dirty) exactly when at least one application
    /// reported a change. The second precondition is the caller's
    /// responsibility stated explicitly: a function that can report a change
    /// forever never lets the loop stop.
    pub fn repeat<F: Fn(T) -> Rewrite<T>>(initial: T, f: F) -> (r: Rewrite<T>)
        requires
            forall|t: T| call_requires(f, (t,)),
            exists|fuel: nat| converges_within(f, initial, fuel),
        ensures
            exists|steps: Seq<T>|
                #![trigger step_chain(f, steps)]
                steps.len() >= 1 && steps[0] == initial && step_chain(f, steps)
                    && call_ensures(f, (steps.last(),), Rewrite::Clean(r.payload()))
                    && r.dirty() == (steps.len() > 1),
    {
        let ghost fuel0 = choose|n: nat| converges_within(f, initial, n);
        let mut cur = initial;
        let mut dirty_acc = false;
        let ghost mut fuel = fuel0;
        let ghost mut steps: Seq<T> = seq![cur];
        loop
            invariant
                forall|t: T| call_requires(f, (t,)),
                converges_within(f, cur, fuel),
                steps.len() >= 1,
                steps[0] == initial,
                steps.last() == cur,
                step_chain(f, steps),
                dirty_acc == (steps.len() > 1),
            decreases fuel,
        {
            let ghost prev = cur;
            let fr = f(cur);
            match fr {
                Rewrite::Clean(done) => {
                    let ghost gd = done;
                    let res = if dirty_acc {
                        Rewrite::Dirty(done)
                    } else {
                        Rewrite::Clean(done)
                    };
                    proof {
                        assert(call_ensures(f, (steps.last(),), Rewrite::Clean(gd)));
                        assert(step_chain(f, steps));
                    }
                    return res;
                },
                Rewrite::Dirty(next) => {
                    let ghost gn = next;
                    proof {
                        assert(call_ensures(f, (prev,), Rewrite::Dirty(gn)));
                        assert(fuel > 0 && converges_within(f, gn, (fuel - 1) as nat));
                        let prior = steps;
                        steps = steps.push(gn);
                        fuel = (fuel - 1) as nat;
                        assert forall|i: int| 0 <= i < steps.len() - 1 implies call_ensures(
                            f,
                            (#[trigger] steps[i],),
                            Rewrite::Dirty(steps[i + 1]),
                        ) by {
                            if i < prior.len() - 1 {
                                assert(step_chain(f, prior));
                                assert(call_ensures(f, (prior[i],), Rewrite::Dirty(prior[i + 1])));
                            }
                        }
                    }
                    cur = next;
                    dirty_acc = true;
                },
            }
        }
    }

    /// A version of [`repeat`](Rewrite::repeat) that takes a fallible
    /// function: any failure at any iteration aborts the loop immediately,
    /// propagating the failure and discarding partial progress.
    pub fn try_repeat<E, F: Fn(T) -> Result<Rewrite<T>, E>>(initial: T, f: F) -> (r: Result<
        Rewrite<T>,
        E,
    >)
        requires
            forall|t: T| call_requires(f, (t,)),
            exists|fuel: nat| try_converges_within(f, initial, fuel),
        ensures
            exists|steps: Seq<T>|
                #![trigger try_step_chain(f, steps)]
                steps.len() >= 1 && steps[0] == initial && try_step_chain(f, steps)
                    && (match r {
                        Result::Ok(rw) => call_ensures(
                            f,
                            (steps.last(),),
                            Result::<Rewrite<T>, E>::Ok(Rewrite::Clean(rw.payload())),
                        ) && rw.dirty() == (steps.len() > 1),
                        Result::Err(_) => call_ensures(f, (steps.last(),), r),
                    }),
    {
        let ghost fuel0 = choose|n: nat| try_converges_within(f, initial, n);
        let mut cur = initial;
        let mut dirty_acc = false;
        let ghost mut fuel = fuel0;
        let ghost mut steps: Seq<T> = seq![cur];
        loop
            invariant
                forall|t: T| call_requires(f, (t,)),
                try_converges_within(f, cur, fuel),
                steps.len() >= 1,
                steps[0] == initial,
                steps.last() == cur,
                try_step_chain(f, steps),
                dirty_acc == (steps.len() > 1),
            decreases fuel,
        {
            let ghost prev = cur;
            match f(cur) {
                Err(e) => {
                    let ghost ge = e;
                    proof {
                        assert(call_ensures(
                            f,
                            (steps.last(),),
                            Result::<Rewrite<T>, E>::Err(ge),
                        ));
                        assert(try_step_chain(f, steps));
                    }
                    return Err(e);
                },
                Ok(Rewrite::Clean(done)) => {
                    let ghost gd = done;
                    let res = if dirty_acc {
                        Rewrite::Dirty(done)
                    } else {
                        Rewrite::Clean(done)
                    };
                    proof {
                        assert(call_ensures(
                            f,
                            (steps.last(),),
                            Result::<Rewrite<T>, E>::Ok(Rewrite::Clean(gd)),
                        ));
                        assert(try_step_chain(f, steps));
                    }
                    return Ok(res);
                },
                Ok(Rewrite::Dirty(next)) => {
                    let ghost gn = next;
                    proof {
                        assert(call_ensures(
                            f,
                            (prev,),
                            Result::<Rewrite<T>, E>::Ok(Rewrite::Dirty(gn)),
                        ));
                        assert(fuel > 0 && try_converges_within(f, gn, (fuel - 1) as nat));
                        let prior = steps;
                        steps = steps.push(gn);
                        fuel = (fuel - 1) as nat;
                        assert forall|i: int| 0 <= i < steps.len() - 1 implies call_ensures(
                            f,
                            (#[trigger] steps[i],),
                            Result::<Rewrite<T>, E>::Ok(Rewrite::Dirty(steps[i + 1])),
                        ) by {
                            if i < prior.len() - 1 {
                                assert(try_step_chain(f, prior));
                                assert(call_ensures(
                                    f,
                                    (prior[i],),
                                    Result::<Rewrite<T>, E>::Ok(Rewrite::Dirty(prior[i + 1])),
                                ));
                            }
                        }
                    }
                    cur = next;
                    dirty_acc = true;
                },
            }
        }
    }

    /// Converts a vector of tracked values into one tracked vector: the
    /// result is [`Dirty`](Rewrite::Dirty) iff at least one element is, and
    /// the payloads keep their order.
    pub fn from_vec(items: Vec<Rewrite<T>>) -> (r: Rewrite<Vec<T>>)
        ensures
            r.payload()@.len() == items@.len(),
            forall|i: int| 0 <= i < items@.len() ==> r.payload()@[i] == items@[i].payload(),
            r.dirty() == exists|i: int| 0 <= i < items@.len() && items@[i].dirty(),
    {
        let ghost orig = items@;
        let mut rest = items;
        let mut out: Vec<T> = Vec::new();
        let mut any_dirty = false;
        while rest.len() > 0
            invariant
                out@.len() + rest@.len() == orig.len(),
                rest@ == orig.subrange(out@.len() as int, orig.len() as int),
                forall|i: int| 0 <= i < out@.len() ==> out@[i] == orig[i].payload(),
                any_dirty == exists|i: int| 0 <= i < out@.len() && orig[i].dirty(),
            decreases rest@.len(),
        {
            let x = rest.remove(0);
            let d = x.is_dirty();
            let ghost k = out@.len() as int;
            any_dirty = any_dirty || d;
            out.push(x.into_inner());
            proof {
                assert(orig[k] == x);
                assert(rest@ == orig.subrange(k + 1, orig.len() as int));
            }
        }
        if any_dirty {
            Rewrite::Dirty(out)
        } else {
            Rewrite::Clean(out)
        }
    }
}

impl<'a, T> Rewrite<&'a T> {
    /// Creates a new [`Rewrite`] by copying the inner value.
    pub fn copied(self) -> (r: Rewrite<T>) where T: Copy
        ensures
            r == Rewrite::with_flag(self.dirty(), *self.payload()),
    {
        match self {
            Rewrite::Clean(t) => Rewrite::Clean(*t),
            Rewrite::Dirty(t) => Rewrite::Dirty(*t),
        }
    }

    /// Creates a new [`Rewrite`] by cloning the inner value.
    pub fn cloned(self) -> (r: Rewrite<T>) where T: Clone
        ensures
            r.dirty() == self.dirty(),
            cloned::<T>(*self.payload(), r.payload()),
    {
        match self {
            Rewrite::Clean(t) => Rewrite::Clean(t.clone()),
            Rewrite::Dirty(t) => Rewrite::Dirty(t.clone()),
        }
    }
}

impl<T> Rewrite<Rewrite<T>> {
    /// The two flags swapped, the payload untouched.
    pub open spec fn transposed(self) -> Rewrite<Rewrite<T>> {
        Rewrite::with_flag(
            self.payload().dirty(),
            Rewrite::with_flag(self.dirty(), self.payload().payload()),
        )
    }

    /// Swaps two layers of [`Rewrite`]: the outer flag becomes the inner one
    /// and the inner flag the outer one, with the payload untouched.
    pub fn transpose(self) -> (r: Rewrite<Rewrite<T>>)
        ensures
            r == self.transposed(),
    {
        match self {
            Rewrite::Clean(Rewrite::Clean(t)) => Rewrite::Clean(Rewrite::Clean(t)),
            Rewrite::Clean(Rewrite::Dirty(t)) => Rewrite::Dirty(Rewrite::Clean(t)),
            Rewrite::Dirty(Rewrite::Clean(t)) => Rewrite::Clean(Rewrite::Dirty(t)),
            Rewrite::Dirty(Rewrite::Dirty(t)) => Rewrite::Dirty(Rewrite::Dirty(t)),
        }
    }
}

/// Swapping the two layers of a doubly tracked value exchanges the two
/// flags and leaves the payload untouched, and doing it twice gives the
/// value back: [`transposed`](Rewrite::transposed) is an involution.
pub proof fn lemma_transpose_involution<T>(v: Rewrite<Rewrite<T>>)
    ensures
        v.transposed().transposed() == v,
        v.transposed().dirty() == v.payload().dirty(),
        v.transposed().payload().dirty() == v.dirty(),
        v.transposed().payload().payload() == v.payload().payload(),
{
}

impl<T, E> Rewrite<Result<T, E>> {
    /// Converts `Rewrite<Result<T, E>>` into `Result<Rewrite<T>, E>`: on
    /// failure the flag is dropped (a failure carries no flag), on success
    /// it is preserved.
    pub fn transpose_result(self) -> (r: Result<Rewrite<T>, E>)
        ensures
            match self.payload() {
                Result::Ok(t) => r == Result::<Rewrite<T>, E>::Ok(
                    Rewrite::with_flag(self.dirty(), t),
                ),
                Result::Err(e) => r == Result::<Rewrite<T>, E>::Err(e),
            },
    {
        match self {
            Rewrite::Clean(Ok(t)) => Ok(Rewrite::Clean(t)),
            Rewrite::Clean(Err(e)) => Err(e),
            Rewrite::Dirty(Ok(t)) => Ok(Rewrite::Dirty(t)),
            Rewrite::Dirty(Err(e)) => Err(e),
        }
    }
}

/// A run of the fixpoint loop: each listed payload steps to the next by an
/// application of `f` that reported a change.
pub open spec fn step_chain<T, F: Fn(T) -> Rewrite<T>>(f: F, steps: Seq<T>) -> bool {
    forall|i: int|
        #![trigger steps[i]]
        0 <= i < steps.len() - 1 ==> call_ensures(f, (steps[i],), Rewrite::Dirty(steps[i + 1]))
}

/// Every run of changed applications of `f` from `t` reaches a payload on
/// which `f` reports no change within `fuel` applications.
pub open spec fn converges_within<T, F: Fn(T) -> Rewrite<T>>(f: F, t: T, fuel: nat) -> bool
    decreases fuel,
{
    forall|fr: Rewrite<T>|
        #[trigger] call_ensures(f, (t,), fr) && fr.dirty() ==> fuel > 0 && converges_within(
            f,
            fr.payload(),
            (fuel - 1) as nat,
        )
}

/// Introduction rule for [`converges_within`]: show of every changed
/// application's result that the rest converges with one application fewer,
/// and the starting payload converges.
pub proof fn lemma_converges_within_step<T, F: Fn(T) -> Rewrite<T>>(f: F, t: T, fuel: nat)
    requires
        forall|fr: Rewrite<T>|
            #[trigger] call_ensures(f, (t,), fr) && fr.dirty() ==> fuel > 0 && converges_within(
                f,
                fr.payload(),
                (fuel - 1) as nat,
            ),
    ensures
        converges_within(f, t, fuel),
{
}

/// A run of the fallible fixpoint loop: each listed payload steps to the
/// next by a successful application of `f` that reported a change.
pub open spec fn try_step_chain<T, E, F: Fn(T) -> Result<Rewrite<T>, E>>(
    f: F,
    steps: Seq<T>,
) -> bool {
    forall|i: int|
        #![trigger steps[i]]
        0 <= i < steps.len() - 1 ==> call_ensures(
            f,
            (steps[i],),
            Result::<Rewrite<T>, E>::Ok(Rewrite::Dirty(steps[i + 1])),
        )
}

/// Every run of successful changed applications of `f` from `t` reaches a
/// failure or a payload on which `f` reports no change within `fuel`
/// applications.
pub open spec fn try_converges_within<T, E, F: Fn(T) -> Result<Rewrite<T>, E>>(
    f: F,
    t: T,
    fuel: nat,
) -> bool
    decreases fuel,
{
    forall|rw: Rewrite<T>|
        #[trigger] call_ensures(f, (t,), Result::<Rewrite<T>, E>::Ok(rw)) && rw.dirty() ==> fuel
            > 0 && try_converges_within(f, rw.payload(), (fuel - 1) as nat)
}

/// Introduction rule for [`try_converges_within`]: show of every changed
/// successful application's result that the rest converges with one
/// application fewer, and the starting payload converges.
pub proof fn lemma_try_converges_within_step<T, E, F: Fn(T) -> Result<Rewrite<T>, E>>(
    f: F,
    t: T,
    fuel: nat,
)
    requires
        forall|rw: Rewrite<T>|
            #[trigger] call_ensures(f, (t,), Result::<Rewrite<T>, E>::Ok(rw)) && rw.dirty()
                ==> fuel > 0 && try_converges_within(f, rw.payload(), (fuel - 1) as nat),
    ensures
        try_converges_within(f, t, fuel),
{
}

} // verus!
