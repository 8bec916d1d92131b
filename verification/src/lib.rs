//! A counting semaphore that bounds the number of concurrent holders of a
//! resource to a configured limit.
//!
//! The permit counter is modelled by [`state::SemView`], a state machine with
//! two transitions: granting a permit and taking one back. The executable
//! [`Semaphore`] carries that model as its view, and every operation's
//! contract says which transition it performs. A blocking acquire is a loop
//! that parks the thread between attempts; such a loop lives in an unverified
//! shell around this library, and every decision it takes about the counter
//! is one call of [`Semaphore::try_acquire`].

pub mod sem;
pub mod state;

pub use sem::Permit;
pub use sem::Semaphore;
