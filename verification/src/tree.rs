//! The generic bottom-up tree traversal [`TreeWalk`].

use vstd::prelude::*;
use crate::bind::Bind;
use crate::bind::always_ok;
use crate::bind::always_clean;
use crate::bind::always_dirty;

verus! {

/// Trait for tree-like structures that can be recursively transformed with
/// effectful computations.
///
/// An implementer supplies [`height`](TreeWalk::height), the structural
/// measure that bounds the recursion, and
/// [`each_branch`](TreeWalk::each_branch), the hook that rewrites the
/// immediate branches of a node — and only those — and reassembles it.
/// [`bottom_up`] then visits every node of the tree, children strictly
/// before their parent, under any effect with a [`Bind`] instance.
pub trait TreeWalk<FS>: Bind<FS> {
    /// The height of the tree rooted at this node: more than any immediate
    /// branch's height. The default, zero, fits only a type whose values
    /// never have branches: an implementation overrides it so that
    /// [`each_branch`](TreeWalk::each_branch) may hand its function any
    /// branch and [`bottom_up`] may recurse.
    open spec fn height(&self) -> nat {
        0
    }

    /// Applies an effectful function to each immediate branch of the tree
    /// (each of smaller height), wrapping the reassembled node in the same
    /// type of effect. The hook does not recurse into deeper descendants:
    /// recursion is [`bottom_up`]'s job, not the hook's.
    ///
    /// The promises mirror the effect laws: a function that always
    /// succeeds reassembles into a success; one that never reports a change
    /// reassembles into an unchanged success; and a failure is never the
    /// hook's own — it is some branch's result, surfaced verbatim.
    fn each_branch<F: Fn(Self) -> FS>(self, f: F) -> (r: FS)
        requires
            forall|b: Self| b.height() < self.height() ==> call_requires(f, (b,)),
        ensures
            always_ok(f) ==> Self::effect_ok(r),
            always_clean(f) ==> Self::effect_ok(r) && !Self::effect_dirty(r),
            !Self::effect_ok(r) ==> exists|b: Self, fb: FS|
                #[trigger] call_ensures(f, (b,), fb) && r == fb,
    ;
}

/// Applies an effectful function to every node of a tree, including the
/// root itself, in a bottom-up manner: every branch is fully transformed
/// strictly before its parent is reassembled and handed to the function,
/// which is applied to the root exactly once, last of all.
///
/// The promises lift the function's guarantees through the whole walk: a
/// function that always succeeds yields a success; one that never reports a
/// change yields an unchanged success; one that always reports a change
/// leaves the root changed. A successful result's value is some
/// application's value (the root's own, applied last), and a failure is
/// some application's failure, surfaced verbatim.
pub fn bottom_up<S: TreeWalk<FS>, FS, F: Fn(S) -> FS + Copy>(node: S, f: F) -> (r: FS)
    requires
        forall|t: S| call_requires(f, (t,)),
    ensures
        always_ok(f) ==> S::effect_ok(r),
        always_clean(f) ==> S::effect_ok(r) && !S::effect_dirty(r),
        always_dirty(f) ==> S::effect_ok(r) && S::effect_dirty(r),
        S::effect_ok(r) ==> exists|t: S, fr: FS|
            #[trigger] call_ensures(f, (t,), fr) && S::effect_ok(fr) && S::effect_value(r)
                == S::effect_value(fr),
        !S::effect_ok(r) ==> exists|t: S, fr: FS| #[trigger] call_ensures(f, (t,), fr) && r == fr,
    decreases node.height(),
{
    let ghost h = node.height();
    let step = (|b: S| -> (rb: FS)
        requires
            b.height() < h,
            forall|t: S| call_requires(f, (t,)),
        ensures
            always_ok(f) ==> S::effect_ok(rb),
            always_clean(f) ==> S::effect_ok(rb) && !S::effect_dirty(rb),
            !S::effect_ok(rb) ==> exists|t: S, fr: FS|
                #[trigger] call_ensures(f, (t,), fr) && rb == fr,
        {
            bottom_up(b, f)
        });
    let ghost gstep = step;
    let rest = node.each_branch(step);
    proof {
        if always_ok(f) || always_dirty(f) {
            assert forall|b: S, rb: FS| #[trigger] call_ensures(gstep, (b,), rb) implies
                S::effect_ok(rb) by {
                if always_dirty(f) {
                    assert forall|t: S, fr: FS| #[trigger] call_ensures(f, (t,), fr) implies
                        S::effect_ok(fr) by {}
                }
                assert(always_ok(f));
            }
            assert(always_ok(gstep));
        }
        if always_clean(f) {
            assert forall|b: S, rb: FS| #[trigger] call_ensures(gstep, (b,), rb) implies
                S::effect_ok(rb) && !S::effect_dirty(rb) by {}
            assert(always_clean(gstep));
        }
    }
    let res = S::bind_mut(rest, f);
    proof {
        if always_ok(f) || always_clean(f) || always_dirty(f) {
            if always_dirty(f) {
                assert forall|t: S, fr: FS| #[trigger] call_ensures(f, (t,), fr) implies
                    S::effect_ok(fr) by {}
                assert(always_ok(f));
            }
            if always_clean(f) {
                assert forall|t: S, fr: FS| #[trigger] call_ensures(f, (t,), fr) implies
                    S::effect_ok(fr) by {}
                assert(always_ok(f));
            }
            assert(S::effect_ok(rest));
            let fr = choose|fr: FS|
                #[trigger] call_ensures(f, (S::effect_value(rest),), fr) && (if S::effect_ok(fr) {
                    S::effect_ok(res) && S::effect_value(res) == S::effect_value(fr)
                        && S::effect_dirty(res) == (S::effect_dirty(rest) || S::effect_dirty(fr))
                } else {
                    res == fr
                });
            assert(S::effect_ok(fr));
            assert(S::effect_ok(res));
        }
        if !S::effect_ok(res) {
            if S::effect_ok(rest) {
                let fr = choose|fr: FS|
                    #[trigger] call_ensures(f, (S::effect_value(rest),), fr) && (if S::effect_ok(
                        fr,
                    ) {
                        S::effect_ok(res) && S::effect_value(res) == S::effect_value(fr)
                            && S::effect_dirty(res) == (S::effect_dirty(rest)
                            || S::effect_dirty(fr))
                    } else {
                        res == fr
                    });
                assert(call_ensures(f, (S::effect_value(rest),), fr) && res == fr);
            } else {
                let (b, fb) = choose|b: S, fb: FS|
                    #[trigger] call_ensures(gstep, (b,), fb) && rest == fb;
                assert(call_ensures(gstep, (b,), fb));
                let (t, fr) = choose|t: S, fr: FS|
                    #[trigger] call_ensures(f, (t,), fr) && fb == fr;
                assert(call_ensures(f, (t,), fr) && res == fr);
            }
        }
        if S::effect_ok(res) {
            if S::effect_ok(rest) {
                let fr = choose|fr: FS|
                    #[trigger] call_ensures(f, (S::effect_value(rest),), fr) && (if S::effect_ok(
                        fr,
                    ) {
                        S::effect_ok(res) && S::effect_value(res) == S::effect_value(fr)
                            && S::effect_dirty(res) == (S::effect_dirty(rest)
                            || S::effect_dirty(fr))
                    } else {
                        res == fr
                    });
                assert(call_ensures(f, (S::effect_value(rest),), fr) && S::effect_ok(fr)
                    && S::effect_value(res) == S::effect_value(fr));
            }
        }
    }
    res
}

} // verus!
