//! Laws that the futures and their combinators obey, stated over `ready` and `yields`.
use vstd::prelude::*;

use crate::base::{ChannelClosed, Future, FutureBind, FutureThen, FutureWrap};

verus! {

/// Lifting a value and resolving gives the value back: the lifted future can always be
/// resolved, and `Ok(x)` is its only outcome.
pub proof fn lemma_lift_identity<T>(x: T)
    ensures
        FutureWrap(x).ready(),
        forall|r: Result<T, ChannelClosed>| #[trigger]
            FutureWrap(x).yields(r) <==> r == Ok::<T, ChannelClosed>(x),
{
}

/// What a mapped future does: it can be resolved when the inner one can and the function
/// accepts every value the inner one may give; it resolves to the function's result on one
/// of those values, or fails exactly as the inner future fails.
pub proof fn lemma_map_unfold<F, Func, U>(m: FutureThen<F, Func>)
    where
        F: Future,
        Func: FnOnce(F::Output) -> U,
    ensures
        m.ready() == (m.inner().ready() && forall|t: F::Output| #[trigger]
            m.inner().yields(Ok(t)) ==> m.closure().requires((t,))),
        forall|v: U| #[trigger]
            m.yields(Ok(v)) == exists|t: F::Output| #[trigger]
                m.inner().yields(Ok(t)) && m.closure().ensures((t,), v),
        forall|e: ChannelClosed| #[trigger] m.yields(Err(e)) == m.inner().yields(Err(e)),
{
}

/// Binding flattens one level: the bound future's outcomes are of the next future's own
/// output type, namely the outcomes of the future built from a value of the inner one, or
/// the inner future's failure.
pub proof fn lemma_bind_flattens<F, Func, Next>(b: FutureBind<F, Func>)
    where
        F: Future,
        Func: FnOnce(F::Output) -> Next,
        Next: Future,
    ensures
        b.ready() == (b.inner().ready() && (forall|t: F::Output| #[trigger]
            b.inner().yields(Ok(t)) ==> b.closure().requires((t,))) && (forall|t: F::Output, n: Next|
            b.inner().yields(Ok(t)) && #[trigger] b.closure().ensures((t,), n) ==> n.ready())),
        forall|r: Result<Next::Output, ChannelClosed>| #[trigger]
            b.yields(r) == ((exists|t: F::Output, n: Next|
                b.inner().yields(Ok(t)) && #[trigger] b.closure().ensures((t,), n) && n.yields(r))
                || (r is Err && b.inner().yields(Err(r->Err_0)))),
{
}

/// Mapping twice applies the first function, then the second: `lift(x).map(f).map(g)`
/// can be resolved when `f` accepts `x` and `g` accepts every result of `f(x)`, it resolves
/// to exactly the values `g(f(x))` may take, and it never fails.
pub proof fn lemma_map_composition<T, U, V, F1, F2>(
    x: T,
    f: F1,
    g: F2,
    m: FutureThen<FutureThen<FutureWrap<T>, F1>, F2>,
)
    where
        F1: FnOnce(T) -> U,
        F2: FnOnce(U) -> V,
    requires
        m.inner().inner() == FutureWrap(x),
        m.inner().closure() == f,
        m.closure() == g,
    ensures
        m.ready() == (f.requires((x,)) && forall|y: U| #[trigger] f.ensures((x,), y) ==> g.requires((y,))),
        forall|v: V| #[trigger]
            m.yields(Ok(v)) == exists|y: U| #[trigger] f.ensures((x,), y) && g.ensures((y,), v),
        forall|e: ChannelClosed| !#[trigger] m.yields(Err(e)),
{
    let inner = m.inner();
    assert forall|y: U| #[trigger] inner.yields(Ok(y)) == f.ensures((x,), y) by {
        if f.ensures((x,), y) {
            assert(inner.inner().yields(Ok(x)));
        }
    }
    assert forall|v: V| #[trigger] m.yields(Ok(v)) == exists|y: U| #[trigger]
        f.ensures((x,), y) && g.ensures((y,), v) by {
        if m.yields(Ok(v)) {
            let y = choose|y: U| #[trigger] inner.yields(Ok(y)) && g.ensures((y,), v);
            assert(f.ensures((x,), y));
        }
        if exists|y: U| #[trigger] f.ensures((x,), y) && g.ensures((y,), v) {
            let y = choose|y: U| #[trigger] f.ensures((x,), y) && g.ensures((y,), v);
            assert(inner.yields(Ok(y)));
        }
    }
    assert(inner.ready() == f.requires((x,))) by {
        if f.requires((x,)) {
            assert forall|t: T| #[trigger] inner.inner().yields(Ok(t)) implies f.requires((t,)) by {}
        }
        if inner.ready() {
            assert(inner.inner().yields(Ok(x)));
        }
    }
    if forall|y: U| #[trigger] f.ensures((x,), y) ==> g.requires((y,)) {
        assert forall|t: U| #[trigger] inner.yields(Ok(t)) implies g.requires((t,)) by {
            assert(f.ensures((x,), t));
        }
    }
    if forall|t: U| #[trigger] inner.yields(Ok(t)) ==> g.requires((t,)) {
        assert forall|y: U| #[trigger] f.ensures((x,), y) implies g.requires((y,)) by {
            assert(inner.yields(Ok(y)));
        }
    }
}

/// Binding to a function that lifts `f`'s result is mapping `f`: where the bound function
/// accepts what `f` accepts and returns exactly the lifted results of `f`, both forms can be
/// resolved in the same cases and have the same outcomes.
pub proof fn lemma_bind_lift_is_map<F, Func, H, U>(b: FutureBind<F, H>, m: FutureThen<F, Func>)
    where
        F: Future,
        Func: FnOnce(F::Output) -> U,
        H: FnOnce(F::Output) -> FutureWrap<U>,
    requires
        b.inner() == m.inner(),
        forall|t: F::Output| #[trigger] b.closure().requires((t,)) == m.closure().requires((t,)),
        forall|t: F::Output, w: FutureWrap<U>| #[trigger]
            b.closure().ensures((t,), w) == m.closure().ensures((t,), w.0),
    ensures
        b.ready() == m.ready(),
        forall|r: Result<U, ChannelClosed>| #[trigger] b.yields(r) == m.yields(r),
{
    assert forall|r: Result<U, ChannelClosed>| #[trigger] b.yields(r) == m.yields(r) by {
        if b.yields(r) {
            if exists|t: F::Output, n: FutureWrap<U>|
                b.inner().yields(Ok(t)) && #[trigger] b.closure().ensures((t,), n) && n.yields(r) {
                let (t, n) = choose|t: F::Output, n: FutureWrap<U>|
                    b.inner().yields(Ok(t)) && #[trigger] b.closure().ensures((t,), n) && n.yields(r);
                assert(m.closure().ensures((t,), n.0));
            }
        }
        if m.yields(r) {
            if let Ok(v) = r {
                let t = choose|t: F::Output| #[trigger]
                    m.inner().yields(Ok(t)) && m.closure().ensures((t,), v);
                assert(b.closure().ensures((t,), FutureWrap(v)));
                assert(FutureWrap(v).yields(r));
            }
        }
    }
}

/// Binding to a function whose contract only promises lifted results of `f` refines mapping
/// `f`: the bind form can be resolved whenever the map form can, and each of its outcomes is
/// one the map form may have; where the map form has a single outcome, both have it.
pub proof fn lemma_bind_lift_refines_map<F, Func, H, U>(b: FutureBind<F, H>, m: FutureThen<F, Func>)
    where
        F: Future,
        Func: FnOnce(F::Output) -> U,
        H: FnOnce(F::Output) -> FutureWrap<U>,
    requires
        b.inner() == m.inner(),
        forall|t: F::Output| #[trigger] m.closure().requires((t,)) ==> b.closure().requires((t,)),
        forall|t: F::Output, w: FutureWrap<U>| #[trigger]
            b.closure().ensures((t,), w) ==> m.closure().ensures((t,), w.0),
    ensures
        m.ready() ==> b.ready(),
        forall|r: Result<U, ChannelClosed>| #[trigger] b.yields(r) ==> m.yields(r),
        (forall|r1: Result<U, ChannelClosed>, r2: Result<U, ChannelClosed>|
            m.yields(r1) && m.yields(r2) ==> r1 == r2) ==> forall|
            r1: Result<U, ChannelClosed>,
            r2: Result<U, ChannelClosed>,
        | #[trigger] b.yields(r1) && #[trigger] m.yields(r2) ==> r1 == r2,
{
    assert forall|r: Result<U, ChannelClosed>| #[trigger] b.yields(r) implies m.yields(r) by {
        if exists|t: F::Output, n: FutureWrap<U>|
            b.inner().yields(Ok(t)) && #[trigger] b.closure().ensures((t,), n) && n.yields(r) {
            let (t, n) = choose|t: F::Output, n: FutureWrap<U>|
                b.inner().yields(Ok(t)) && #[trigger] b.closure().ensures((t,), n) && n.yields(r);
            assert(m.closure().ensures((t,), n.0));
        }
    }
}

/// Binding is associative: `m.bind(f).bind(g)` and `m.bind(|t| f(t).bind(g))` agree. Where
/// the second form's function accepts what `f` accepts and returns exactly the futures
/// `f(t).bind(g)`, both forms can be resolved in the same cases and have the same outcomes.
pub proof fn lemma_bind_associative<M, F1, N1, G, N2, K>(
    left: FutureBind<FutureBind<M, F1>, G>,
    right: FutureBind<M, K>,
)
    where
        M: Future,
        F1: FnOnce(M::Output) -> N1,
        N1: Future,
        G: FnOnce(N1::Output) -> N2,
        N2: Future,
        K: FnOnce(M::Output) -> FutureBind<N1, G>,
    requires
        left.inner().inner() == right.inner(),
        forall|t: M::Output| #[trigger]
            right.closure().requires((t,)) == left.inner().closure().requires((t,)),
        forall|t: M::Output, n: FutureBind<N1, G>| #[trigger]
            right.closure().ensures((t,), n) ==> left.inner().closure().ensures((t,), n.inner())
                && n.closure() == left.closure(),
        forall|t: M::Output, n1: N1| #[trigger]
            left.inner().closure().ensures((t,), n1) ==> exists|n: FutureBind<N1, G>|
                #[trigger] right.closure().ensures((t,), n) && n.inner() == n1,
    ensures
        left.ready() == right.ready(),
        forall|r: Result<N2::Output, ChannelClosed>| #[trigger] left.yields(r) == right.yields(r),
{
    let first = left.inner();
    let m = right.inner();
    let f = first.closure();
    let g = left.closure();
    let k = right.closure();
    // values of the inner bind, through the futures that `f` builds
    assert forall|u: N1::Output| #[trigger] first.yields(Ok(u)) <==> exists|t: M::Output, n: FutureBind<N1, G>|
        m.yields(Ok(t)) && #[trigger] k.ensures((t,), n) && n.inner().yields(Ok(u)) by {
        if first.yields(Ok(u)) {
            let (t, n1) = choose|t: M::Output, n1: N1|
                m.yields(Ok(t)) && #[trigger] f.ensures((t,), n1) && n1.yields(Ok(u));
            let n = choose|n: FutureBind<N1, G>| #[trigger] k.ensures((t,), n) && n.inner() == n1;
        }
        if exists|t: M::Output, n: FutureBind<N1, G>|
            m.yields(Ok(t)) && #[trigger] k.ensures((t,), n) && n.inner().yields(Ok(u)) {
            let (t, n) = choose|t: M::Output, n: FutureBind<N1, G>|
                m.yields(Ok(t)) && #[trigger] k.ensures((t,), n) && n.inner().yields(Ok(u));
            assert(f.ensures((t,), n.inner()));
        }
    }
    assert forall|r: Result<N2::Output, ChannelClosed>| #[trigger] left.yields(r) implies right.yields(r) by {
        if exists|u: N1::Output, n2: N2|
            first.yields(Ok(u)) && #[trigger] g.ensures((u,), n2) && n2.yields(r) {
            let (u, n2) = choose|u: N1::Output, n2: N2|
                first.yields(Ok(u)) && #[trigger] g.ensures((u,), n2) && n2.yields(r);
            let (t, n) = choose|t: M::Output, n: FutureBind<N1, G>|
                m.yields(Ok(t)) && #[trigger] k.ensures((t,), n) && n.inner().yields(Ok(u));
            assert(n.closure().ensures((u,), n2));
            assert(n.yields(r));
        } else {
            let e = r->Err_0;
            assert(first.yields(Err(e)));
            if exists|t: M::Output, n1: N1|
                m.yields(Ok(t)) && #[trigger] f.ensures((t,), n1) && n1.yields(Err(e)) {
                let (t, n1) = choose|t: M::Output, n1: N1|
                    m.yields(Ok(t)) && #[trigger] f.ensures((t,), n1) && n1.yields(Err(e));
                let n = choose|n: FutureBind<N1, G>| #[trigger] k.ensures((t,), n) && n.inner() == n1;
                assert(n.yields(r));
            }
        }
    }
    assert forall|r: Result<N2::Output, ChannelClosed>| #[trigger] right.yields(r) implies left.yields(r) by {
        if exists|t: M::Output, n: FutureBind<N1, G>|
            m.yields(Ok(t)) && #[trigger] k.ensures((t,), n) && n.yields(r) {
            let (t, n) = choose|t: M::Output, n: FutureBind<N1, G>|
                m.yields(Ok(t)) && #[trigger] k.ensures((t,), n) && n.yields(r);
            assert(f.ensures((t,), n.inner()));
            if exists|u: N1::Output, n2: N2|
                n.inner().yields(Ok(u)) && #[trigger] n.closure().ensures((u,), n2) && n2.yields(r) {
                let (u, n2) = choose|u: N1::Output, n2: N2|
                    n.inner().yields(Ok(u)) && #[trigger] n.closure().ensures((u,), n2) && n2.yields(r);
                assert(first.yields(Ok(u)));
                assert(g.ensures((u,), n2));
            } else {
                assert(first.yields(Err(r->Err_0)));
            }
        } else {
            assert(first.yields(Err(r->Err_0)));
        }
    }
    if left.ready() {
        assert forall|t: M::Output, n: FutureBind<N1, G>|
            m.yields(Ok(t)) && #[trigger] k.ensures((t,), n) implies n.ready() by {
            let n1 = n.inner();
            assert(f.ensures((t,), n1));
            assert(n1.ready());
            assert forall|u: N1::Output| #[trigger] n1.yields(Ok(u)) implies g.requires((u,)) by {
                assert(first.yields(Ok(u)));
            }
            assert forall|u: N1::Output, n2: N2|
                n1.yields(Ok(u)) && #[trigger] n.closure().ensures((u,), n2) implies n2.ready() by {
                assert(first.yields(Ok(u)));
            }
        }
        assert forall|t: M::Output| #[trigger] m.yields(Ok(t)) implies k.requires((t,)) by {
            assert(f.requires((t,)));
        }
    }
    if right.ready() {
        assert forall|t: M::Output, n1: N1|
            m.yields(Ok(t)) && #[trigger] f.ensures((t,), n1) implies n1.ready() by {
            let n = choose|n: FutureBind<N1, G>| #[trigger] k.ensures((t,), n) && n.inner() == n1;
            assert(n.ready());
        }
        assert forall|t: M::Output| #[trigger] m.yields(Ok(t)) implies f.requires((t,)) by {
            assert(k.requires((t,)));
        }
        assert forall|u: N1::Output| #[trigger] first.yields(Ok(u)) implies g.requires((u,)) by {
            let (t, n) = choose|t: M::Output, n: FutureBind<N1, G>|
                m.yields(Ok(t)) && #[trigger] k.ensures((t,), n) && n.inner().yields(Ok(u));
            assert(n.ready());
        }
        assert forall|u: N1::Output, n2: N2|
            first.yields(Ok(u)) && #[trigger] g.ensures((u,), n2) implies n2.ready() by {
            let (t, n) = choose|t: M::Output, n: FutureBind<N1, G>|
                m.yields(Ok(t)) && #[trigger] k.ensures((t,), n) && n.inner().yields(Ok(u));
            assert(n.ready());
            assert(n.closure().ensures((u,), n2));
        }
    }
}

/// A future built as `first.bind(|a| second.map(|y| c(a, y)))` depends only on the outcomes
/// of the two futures, whatever the order in which their values became available: each
/// value it resolves to is `c(a, y)` for some value `a` of `first` and `y` of `second`, and
/// each failure it has is a failure of one of them.
pub proof fn lemma_bind_pair<F1, F2, H, G, V>(
    first: F1,
    second: F2,
    c: spec_fn(F1::Output, F2::Output) -> V,
    b: FutureBind<F1, H>,
)
    where
        F1: Future,
        F2: Future,
        H: FnOnce(F1::Output) -> FutureThen<F2, G>,
        G: FnOnce(F2::Output) -> V,
    requires
        b.inner() == first,
        forall|a: F1::Output, n: FutureThen<F2, G>| #[trigger] b.closure().ensures((a,), n) ==> {
            &&& n.inner() == second
            &&& forall|y: F2::Output, v: V| #[trigger] n.closure().ensures((y,), v) ==> v == c(a, y)
        },
    ensures
        forall|v: V| #[trigger] b.yields(Ok(v)) ==> exists|a: F1::Output, y: F2::Output|
            first.yields(Ok(a)) && second.yields(Ok(y)) && v == c(a, y),
        forall|e: ChannelClosed| #[trigger] b.yields(Err(e)) ==> first.yields(Err(e))
            || second.yields(Err(e)),
{
    assert forall|v: V| #[trigger] b.yields(Ok(v)) implies exists|a: F1::Output, y: F2::Output|
        first.yields(Ok(a)) && second.yields(Ok(y)) && v == c(a, y) by {
        let (a, n) = choose|a: F1::Output, n: FutureThen<F2, G>|
            b.inner().yields(Ok(a)) && #[trigger] b.closure().ensures((a,), n) && n.yields(Ok(v));
        let y = choose|y: F2::Output| #[trigger]
            n.inner().yields(Ok(y)) && n.closure().ensures((y,), v);
        assert(first.yields(Ok(a)) && second.yields(Ok(y)) && v == c(a, y));
    }
    assert forall|e: ChannelClosed| #[trigger] b.yields(Err(e)) implies first.yields(Err(e))
        || second.yields(Err(e)) by {
        if exists|a: F1::Output, n: FutureThen<F2, G>|
            b.inner().yields(Ok(a)) && #[trigger] b.closure().ensures((a,), n) && n.yields(Err(e)) {
            let (a, n) = choose|a: F1::Output, n: FutureThen<F2, G>|
                b.inner().yields(Ok(a)) && #[trigger] b.closure().ensures((a,), n) && n.yields(Err(e));
            assert(second.yields(Err(e)));
        }
    }
}

} // verus!
