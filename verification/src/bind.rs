//! The effect-sequencing abstraction [`Bind`].

use vstd::prelude::*;
use crate::rewrite::Rewrite;

verus! {

/// Trait for types that support a monad-like bind operation.
///
/// `FS` is the type of `Self` wrapped in some effect: no effect at all
/// (`FS = Self`), possible failure (`FS = Result<Self, E>`), change tracking
/// (`FS = Rewrite<Self>`), or both (`FS = Result<Rewrite<Self>, E>`).
///
/// The three spec functions give every effect one abstract shape — did the
/// step succeed, what plain value does it carry, and was that value touched —
/// so that [`bind_mut`](Bind::bind_mut) can promise the same sequencing law
/// whatever the effect: failure propagates unchanged, and the change flag of
/// a successful composition is the disjunction of the flags of its parts.
pub trait Bind<FS>: Sized {
    /// Whether the wrapped value carries a success rather than a failure.
    spec fn effect_ok(w: FS) -> bool;

    /// The plain value inside a successful wrapped value.
    spec fn effect_value(w: FS) -> Self;

    /// Whether the wrapped value's change flag is set; always false for
    /// effects that do not track change.
    spec fn effect_dirty(w: FS) -> bool;

    /// Binds an effectful function to an already wrapped value.
    fn bind_mut<F: Fn(Self) -> FS>(wrapped: FS, f: F) -> (r: FS)
        requires
            Self::effect_ok(wrapped) ==> call_requires(f, (Self::effect_value(wrapped),)),
        ensures
            !Self::effect_ok(wrapped) ==> r == wrapped,
            Self::effect_ok(wrapped) ==> exists|fr: FS|
                #[trigger] call_ensures(f, (Self::effect_value(wrapped),), fr) && (if Self::effect_ok(fr) {
                    Self::effect_ok(r) && Self::effect_value(r) == Self::effect_value(fr)
                        && Self::effect_dirty(r) == (Self::effect_dirty(wrapped)
                        || Self::effect_dirty(fr))
                } else {
                    r == fr
                }),
    ;
}

/// Every result the effectful function can return succeeds.
pub open spec fn always_ok<S: Bind<FS>, FS, F: Fn(S) -> FS>(f: F) -> bool {
    forall|t: S, fr: FS| #[trigger] call_ensures(f, (t,), fr) ==> S::effect_ok(fr)
}

/// Every result the effectful function can return succeeds without
/// reporting a change.
pub open spec fn always_clean<S: Bind<FS>, FS, F: Fn(S) -> FS>(f: F) -> bool {
    forall|t: S, fr: FS|
        #[trigger] call_ensures(f, (t,), fr) ==> S::effect_ok(fr) && !S::effect_dirty(fr)
}

/// Every result the effectful function can return succeeds and reports a
/// change.
pub open spec fn always_dirty<S: Bind<FS>, FS, F: Fn(S) -> FS>(f: F) -> bool {
    forall|t: S, fr: FS|
        #[trigger] call_ensures(f, (t,), fr) ==> S::effect_ok(fr) && S::effect_dirty(fr)
}

/// The trivial effect that does nothing, with binding just applying the
/// function directly.
impl<T> Bind<T> for T {
    open spec fn effect_ok(w: T) -> bool {
        true
    }

    open spec fn effect_value(w: T) -> T {
        w
    }

    open spec fn effect_dirty(w: T) -> bool {
        false
    }

    fn bind_mut<F: Fn(T) -> T>(wrapped: T, f: F) -> (r: T) {
        let ghost w = wrapped;
        let res = f(wrapped);
        proof {
            assert(call_ensures(f, (Self::effect_value(w),), res));
            assert(Self::effect_ok(res) && Self::effect_value(res) == Self::effect_value(res)
                && Self::effect_dirty(res) == (Self::effect_dirty(w)
                || Self::effect_dirty(res)));
        }
        res
    }
}

/// The failable effect: a failure short-circuits, a success is handed on.
impl<T, E> Bind<Result<T, E>> for T {
    open spec fn effect_ok(w: Result<T, E>) -> bool {
        w is Ok
    }

    open spec fn effect_value(w: Result<T, E>) -> T {
        w->Ok_0
    }

    open spec fn effect_dirty(w: Result<T, E>) -> bool {
        false
    }

    fn bind_mut<F: Fn(T) -> Result<T, E>>(wrapped: Result<T, E>, f: F) -> (r: Result<T, E>) {
        let ghost w = wrapped;
        match wrapped {
            Ok(t) => {
                let ghost tt = t;
                let res = f(t);
                proof {
                    assert(call_ensures(f, (Self::effect_value(w),), res));
                    assert(if Self::effect_ok(res) {
                        Self::effect_ok(res) && Self::effect_value(res) == Self::effect_value(res)
                            && Self::effect_dirty(res) == (Self::effect_dirty(w)
                            || Self::effect_dirty(res))
                    } else {
                        res == res
                    });
                }
                res
            },
            Err(e) => Err(e),
        }
    }
}

/// The change-tracking effect: binding accumulates the change flag through
/// [`Rewrite::bind`].
impl<T> Bind<Rewrite<T>> for T {
    open spec fn effect_ok(w: Rewrite<T>) -> bool {
        true
    }

    open spec fn effect_value(w: Rewrite<T>) -> T {
        w.payload()
    }

    open spec fn effect_dirty(w: Rewrite<T>) -> bool {
        w.dirty()
    }

    fn bind_mut<F: Fn(T) -> Rewrite<T>>(wrapped: Rewrite<T>, f: F) -> (r: Rewrite<T>) {
        let ghost w = wrapped;
        let res = wrapped.bind(f);
        proof {
            let fr = choose|fr: Rewrite<T>|
                #[trigger] call_ensures(f, (w.payload(),), fr) && res == Rewrite::with_flag(
                    w.dirty() || fr.dirty(),
                    fr.payload(),
                );
            assert(call_ensures(f, (Self::effect_value(w),), fr));
            assert(Self::effect_ok(res) && Self::effect_value(res) == Self::effect_value(fr)
                && Self::effect_dirty(res) == (Self::effect_dirty(w) || Self::effect_dirty(fr)));
        }
        res
    }
}

/// The effect stack consisting of both `Result` and [`Rewrite`]: a failure
/// short-circuits, and absent failure the change flag accumulates through
/// [`Rewrite::try_bind`].
impl<T, E> Bind<Result<Rewrite<T>, E>> for T {
    open spec fn effect_ok(w: Result<Rewrite<T>, E>) -> bool {
        w is Ok
    }

    open spec fn effect_value(w: Result<Rewrite<T>, E>) -> T {
        w->Ok_0.payload()
    }

    open spec fn effect_dirty(w: Result<Rewrite<T>, E>) -> bool {
        w is Ok && w->Ok_0.dirty()
    }

    fn bind_mut<F: Fn(T) -> Result<Rewrite<T>, E>>(
        wrapped: Result<Rewrite<T>, E>,
        f: F,
    ) -> (r: Result<Rewrite<T>, E>) {
        let ghost w = wrapped;
        match wrapped {
            Ok(rw) => {
                let ghost grw = rw;
                let res = rw.try_bind(f);
                proof {
                    let fr = choose|fr: Result<Rewrite<T>, E>|
                        #[trigger] call_ensures(f, (grw.payload(),), fr) && (match fr {
                            Result::Ok(frw) => res == Result::<Rewrite<T>, E>::Ok(
                                Rewrite::with_flag(grw.dirty() || frw.dirty(), frw.payload()),
                            ),
                            Result::Err(_) => res == fr,
                        });
                    assert(call_ensures(f, (Self::effect_value(w),), fr));
                    assert(if Self::effect_ok(fr) {
                        Self::effect_ok(res) && Self::effect_value(res) == Self::effect_value(fr)
                            && Self::effect_dirty(res) == (Self::effect_dirty(w)
                            || Self::effect_dirty(fr))
                    } else {
                        res == fr
                    });
                }
                res
            },
            Err(e) => Err(e),
        }
    }
}

} // verus!
