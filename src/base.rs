//! The `Future` trait and the immediate future.
use vstd::prelude::*;

verus! {

/// A value that becomes available later.
///
/// An implementation provides `resolve`, which consumes the future and returns its value,
/// possibly blocking the calling thread until the value arrives, or [`ChannelClosed`] where
/// the value can never arrive. It describes itself with `ready` and `yields`; one that
/// leaves them out claims nothing beyond that it can be resolved at any time, to some value
/// of its output type or to the failure.
pub trait Future: Sized {
    /// The type of the value that `resolve` returns.
    type Output;

    /// Holds when `resolve` may be called: every function in the chain accepts the value
    /// that it will be handed.
    open spec fn ready(&self) -> bool {
        true
    }

    /// `r` is an outcome that `resolve` may return.
    open spec fn yields(&self, r: Result<Self::Output, ChannelClosed>) -> bool {
        true
    }

    /// Returns the value behind the future, consuming it, or the failure that kept it from
    /// arriving. May block the calling thread.
    fn resolve(self) -> (r: Result<Self::Output, ChannelClosed>)
        requires
            self.ready(),
        ensures
            self.yields(r),
    ;

    /// Returns a future whose value is `f` applied to this future's value; a failure of this
    /// future passes through without calling `f`. Nothing runs until the returned future is
    /// resolved.
    fn map<U, Func>(self, f: Func) -> (r: FutureThen<Self, Func>)
        where
            Func: FnOnce(Self::Output) -> U,
        ensures
            r.inner() == self,
            r.closure() == f,
    {
        FutureThen { inner: self, closure: f }
    }

    /// Same as `map`.
    fn then<U, Func>(self, f: Func) -> (r: FutureThen<Self, Func>)
        where
            Func: FnOnce(Self::Output) -> U,
        ensures
            r.inner() == self,
            r.closure() == f,
    {
        FutureThen { inner: self, closure: f }
    }

    /// Returns a future that resolves this one, hands its value to `f`, and resolves the
    /// future that `f` returns; a failure of either future passes through. Nothing runs
    /// until the returned future is resolved.
    fn bind<Next, Func>(self, f: Func) -> (r: FutureBind<Self, Func>)
        where
            Func: FnOnce(Self::Output) -> Next,
        ensures
            r.inner() == self,
            r.closure() == f,
    {
        FutureBind { inner: self, closure: f }
    }
}

/// A future whose value is already known.
pub struct FutureWrap<T>(pub T);

impl<T> Future for FutureWrap<T> {
    type Output = T;

    open spec fn ready(&self) -> bool {
        true
    }

    open spec fn yields(&self, r: Result<T, ChannelClosed>) -> bool {
        r == Ok::<T, ChannelClosed>(self.0)
    }

    fn resolve(self) -> (r: Result<T, ChannelClosed>)
        ensures
            r == Ok::<T, ChannelClosed>(self.0),
    {
        Ok(self.0)
    }
}

/// Lifts a value into a future that resolves to it, with no blocking.
pub fn lift<T>(obj: T) -> (r: FutureWrap<T>)
    ensures
        r.0 == obj,
{
    FutureWrap(obj)
}

/// Resolving a future failed: the channel its value was to come from was closed with no
/// value sent.
#[derive(Debug, Clone, Copy, PartialEq, Eq, Structural)]
pub struct ChannelClosed;

/// The future of a function applied to the value of another future.
pub struct FutureThen<F, Func> {
    inner: F,
    closure: Func,
}

impl<F, Func> FutureThen<F, Func> {
    /// The future whose value the function is applied to.
    pub closed spec fn inner(&self) -> F {
        self.inner
    }

    /// The function applied to the inner future's value.
    pub closed spec fn closure(&self) -> Func {
        self.closure
    }
}

impl<F, Func, U> Future for FutureThen<F, Func>
    where
        F: Future,
        Func: FnOnce(F::Output) -> U,
{
    type Output = U;

    open spec fn ready(&self) -> bool {
        &&& self.inner().ready()
        &&& forall|t: F::Output| #[trigger]
            self.inner().yields(Ok(t)) ==> self.closure().requires((t,))
    }

    /// The function's result on a value of the inner future, or the inner future's failure.
    open spec fn yields(&self, r: Result<U, ChannelClosed>) -> bool {
        match r {
            Ok(v) => exists|t: F::Output| #[trigger]
                self.inner().yields(Ok(t)) && self.closure().ensures((t,), v),
            Err(e) => self.inner().yields(Err(e)),
        }
    }

    /// Resolves the inner future, then applies the function to its value. A failure of the
    /// inner future is returned as it is, and the function is not called.
    fn resolve(self) -> (r: Result<U, ChannelClosed>) {
        match self.inner.resolve() {
            Ok(v) => Ok((self.closure)(v)),
            Err(e) => Err(e),
        }
    }
}

/// Builds the future of `foo` applied to the value of `future`, without running either.
pub fn then<F, U, Func>(future: F, foo: Func) -> (r: FutureThen<F, Func>)
    where
        F: Future,
        Func: FnOnce(F::Output) -> U,
    ensures
        r.inner() == future,
        r.closure() == foo,
{
    FutureThen { inner: future, closure: foo }
}

/// The future that resolves another one, passes its value to a function, and resolves the
/// future that the function returns.
pub struct FutureBind<F, Func> {
    inner: F,
    closure: Func,
}

impl<F, Func> FutureBind<F, Func> {
    /// The future resolved first.
    pub closed spec fn inner(&self) -> F {
        self.inner
    }

    /// The function that builds the next future from the first value.
    pub closed spec fn closure(&self) -> Func {
        self.closure
    }
}

impl<F, Func, Next> Future for FutureBind<F, Func>
    where
        F: Future,
        Func: FnOnce(F::Output) -> Next,
        Next: Future,
{
    type Output = Next::Output;

    open spec fn ready(&self) -> bool {
        &&& self.inner().ready()
        &&& forall|t: F::Output| #[trigger]
            self.inner().yields(Ok(t)) ==> self.closure().requires((t,))
        &&& forall|t: F::Output, n: Next|
            self.inner().yields(Ok(t)) && #[trigger] self.closure().ensures((t,), n) ==> n.ready()
    }

    /// An outcome of the future built from a value of the inner future, or the inner
    /// future's failure.
    open spec fn yields(&self, r: Result<Next::Output, ChannelClosed>) -> bool {
        ||| exists|t: F::Output, n: Next|
            self.inner().yields(Ok(t)) && #[trigger] self.closure().ensures((t,), n) && n.yields(r)
        ||| (r is Err && self.inner().yields(Err(r->Err_0)))
    }

    /// Resolves the inner future, builds the next future from its value, and resolves that.
    /// A failure of either future is returned as it is; after a failure of the inner one the
    /// function is not called.
    fn resolve(self) -> (r: Result<Next::Output, ChannelClosed>) {
        match self.inner.resolve() {
            Ok(v) => {
                let next = (self.closure)(v);
                next.resolve()
            },
            Err(e) => Err(e),
        }
    }
}

/// Builds the future that resolves `future`, hands its value to `foo`, and resolves the
/// future that `foo` returns. Runs nothing.
pub fn bind<F, Next, Func>(future: F, foo: Func) -> (r: FutureBind<F, Func>)
    where
        F: Future,
        Func: FnOnce(F::Output) -> Next,
        Next: Future,
    ensures
        r.inner() == future,
        r.closure() == foo,
{
    FutureBind { inner: future, closure: foo }
}

} // verus!
