//! Values that become available later, composed before they exist.
//!
//! A [`Future`] is resolved once, by value. `map` and `bind` build new futures on top of an
//! existing one without running anything; only `resolve` on the outermost future drives
//! the chain, innermost value first. [`ChannelFuture`] takes its value from a channel that
//! another thread may send on.
mod base;
pub mod mpsc;
pub mod laws;

pub use base::ChannelClosed;
pub use base::Future;
pub use base::FutureWrap;
pub use base::lift;
pub use base::FutureThen;
pub use base::FutureBind;
pub use base::then;
pub use base::bind;

pub use mpsc::ChannelFuture;
pub use mpsc::Resolver;
