//! Around-advice composition for component methods.
//!
//! A hook wraps an inner operation `f` on a contract state: it may run
//! effects before and after `f`, or abort the whole call (the host then rolls
//! every effect back). Hooks compose by type pairing — `(H1, H2)` runs `H1`
//! around `H2` around `f` — with the unit type as the identity hook.
use vstd::prelude::*;

verus! {

/// A host abort: the moment the wire layer sees it, it panics with the
/// message and the host rolls the call back.
#[derive(Debug)]
pub struct HostAbort {
    pub message: String,
}

/// The value `r` is something the inner operation `f` can return: every hook
/// that completes must hand back `f`'s result unchanged.
pub open spec fn result_from_inner<C, R, F: FnOnce(&mut C) -> Result<R, HostAbort>>(
    f: F,
    r: Result<R, HostAbort>,
) -> bool {
    r is Ok ==> exists|x: &mut C| call_ensures(f, (x,), r)
}

/// Around-advice over a contract state `C` for operations described by `A`.
///
/// `hook` must call `f` at most once, and when it completes without aborting
/// it returns exactly what `f` returned.
pub trait Hook<C, A> {
    fn hook<R, F: FnOnce(&mut C) -> Result<R, HostAbort>>(
        contract: &mut C,
        args: &A,
        f: F,
    ) -> (r: Result<R, HostAbort>)
        requires
            forall|x: &mut C| call_requires(f, (x,)),
        ensures
            result_from_inner(f, r),
    ;
}

/// The identity hook: runs the inner operation and nothing else.
impl<C, A> Hook<C, A> for () {
    fn hook<R, F: FnOnce(&mut C) -> Result<R, HostAbort>>(
        contract: &mut C,
        args: &A,
        f: F,
    ) -> (r: Result<R, HostAbort>)
        ensures
            exists|x: &mut C|
                #[trigger] call_ensures(f, (x,), r) && mut_ref_current(x) == *old(contract)
                    && mut_ref_future(x) == *final(contract),
    {
        f(contract)
    }
}

/// Pair composition: the first hook wraps the second, which wraps `f`.
impl<C, A, H1: Hook<C, A>, H2: Hook<C, A>> Hook<C, A> for (H1, H2) {
    fn hook<R, F: FnOnce(&mut C) -> Result<R, HostAbort>>(
        contract: &mut C,
        args: &A,
        f: F,
    ) -> (r: Result<R, HostAbort>) {
        let inner = |c: &mut C| -> (rr: Result<R, HostAbort>)
            ensures
                result_from_inner(f, rr),
            {
                H2::hook(c, args, f)
            };
        H1::hook(contract, args, inner)
    }
}

/// The effect shape of a hook: what it runs before and after the inner
/// operation, with pairing as composition. `E` is the kind of observable
/// effect (a log line, a store write).
pub enum HookShape<E> {
    /// The identity hook.
    Unit,
    /// A primitive hook with fixed before- and after-effects.
    Leaf { before: Seq<E>, after: Seq<E> },
    /// One hook wrapped around another.
    Pair(Box<HookShape<E>>, Box<HookShape<E>>),
}

/// The observable effect sequence of running `h` around an inner operation
/// whose own effects are `inner`.
pub open spec fn wrapped_effects<E>(h: HookShape<E>, inner: Seq<E>) -> Seq<E>
    decreases h,
{
    match h {
        HookShape::Unit => inner,
        HookShape::Leaf { before, after } => before + inner + after,
        HookShape::Pair(h1, h2) => wrapped_effects(*h1, wrapped_effects(*h2, inner)),
    }
}

/// Hook pairing is associative: wrapping `((H1, H2), H3)` around an inner
/// operation produces the same observable effect sequence as `(H1, (H2, H3))`.
pub proof fn lemma_hook_pairing_associative<E>(
    h1: HookShape<E>,
    h2: HookShape<E>,
    h3: HookShape<E>,
    inner: Seq<E>,
)
    ensures
        wrapped_effects(
            HookShape::Pair(Box::new(HookShape::Pair(Box::new(h1), Box::new(h2))), Box::new(h3)),
            inner,
        ) == wrapped_effects(
            HookShape::Pair(Box::new(h1), Box::new(HookShape::Pair(Box::new(h2), Box::new(h3)))),
            inner,
        ),
{
    let left = HookShape::Pair(
        Box::new(HookShape::Pair(Box::new(h1), Box::new(h2))),
        Box::new(h3),
    );
    let right = HookShape::Pair(
        Box::new(h1),
        Box::new(HookShape::Pair(Box::new(h2), Box::new(h3))),
    );
    let core = wrapped_effects(h3, inner);
    assert(wrapped_effects(left, inner) == wrapped_effects(
        HookShape::Pair(Box::new(h1), Box::new(h2)),
        core,
    ));
    assert(wrapped_effects(HookShape::Pair(Box::new(h1), Box::new(h2)), core) == wrapped_effects(
        h1,
        wrapped_effects(h2, core),
    ));
    assert(wrapped_effects(right, inner) == wrapped_effects(
        h1,
        wrapped_effects(HookShape::Pair(Box::new(h2), Box::new(h3)), inner),
    ));
    assert(wrapped_effects(HookShape::Pair(Box::new(h2), Box::new(h3)), inner) == wrapped_effects(
        h2,
        core,
    ));
}

/// The unit hook is the identity of pairing: wrapping `((), H)` or `(H, ())`
/// produces exactly `H`'s effect sequence.
pub proof fn lemma_hook_unit_identity<E>(h: HookShape<E>, inner: Seq<E>)
    ensures
        wrapped_effects(HookShape::Pair(Box::new(HookShape::Unit), Box::new(h)), inner)
            == wrapped_effects(h, inner),
        wrapped_effects(HookShape::Pair(Box::new(h), Box::new(HookShape::Unit)), inner)
            == wrapped_effects(h, inner),
{
    assert(wrapped_effects(HookShape::Pair(Box::new(HookShape::Unit), Box::new(h)), inner)
        == wrapped_effects(HookShape::Unit, wrapped_effects(h, inner)));
    assert(wrapped_effects(HookShape::Pair(Box::new(h), Box::new(HookShape::Unit)), inner)
        == wrapped_effects(h, wrapped_effects(HookShape::Unit, inner)));
    assert(wrapped_effects(HookShape::<E>::Unit, inner) == inner);
}

} // verus!
