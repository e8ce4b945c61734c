//! The permits: tokio's counting semaphore in the hands of one owner.
//!
//! The semaphore counts the permits it has to give and remembers whether it
//! was closed. Every function here that changes either takes the semaphore
//! by `&mut`: nobody else acquires or adds a permit meanwhile, and nobody
//! waits, so the count moves only as the call says.

use tokio::sync::{Semaphore, TryAcquireError};
use vstd::prelude::*;

verus! {

/// `tokio::sync::Semaphore`. Of what it holds, only [`permits`] and
/// [`closed`] are spoken of.
#[verifier::external_type_specification]
#[verifier::external_body]
pub struct ExSemaphore(tokio::sync::Semaphore);

/// Number of permits that the semaphore has to give.
pub uninterp spec fn permits(semaphore: Semaphore) -> nat;

/// Whether the semaphore was closed.
pub uninterp spec fn closed(semaphore: Semaphore) -> bool;

/// The largest number of permits that a semaphore holds,
/// `tokio::sync::Semaphore::MAX_PERMITS`.
pub const MAX_PERMITS: usize = usize::MAX / 8;

/// Why no permit was given.
#[derive(Clone, Copy, Debug, PartialEq, Eq, Structural)]
pub enum Denied {
    /// The semaphore has no permit left.
    NoPermits,
    /// The semaphore was closed.
    Closed,
}

/// `Semaphore::new`. It panics above `MAX_PERMITS`; below, the new semaphore
/// is open and has `count` permits.
#[verifier::external_body]
pub(crate) fn new_semaphore(count: usize) -> (semaphore: Semaphore)
    requires
        count <= MAX_PERMITS,
    ensures
        permits(semaphore) == count,
        !closed(semaphore),
{
    Semaphore::new(count)
}

/// `Semaphore::available_permits`: the number of permits left.
#[verifier::external_body]
pub(crate) fn available_permits(semaphore: &Semaphore) -> (count: usize)
    ensures
        count == permits(*semaphore),
{
    semaphore.available_permits()
}

/// `Semaphore::is_closed`.
#[verifier::external_body]
pub(crate) fn semaphore_is_closed(semaphore: &Semaphore) -> (shut: bool)
    ensures
        shut == closed(*semaphore),
{
    semaphore.is_closed()
}

/// `Semaphore::try_acquire`, followed by `SemaphorePermit::forget` on the
/// permit it gave, so that the permit stays out of the semaphore until
/// permits are added. A closed semaphore refuses with `Closed`, whatever it
/// holds; an open one without permits refuses with `NoPermits`; otherwise
/// one permit leaves. Nothing else changes.
#[verifier::external_body]
pub(crate) fn take_permit(semaphore: &mut Semaphore) -> (taken: Result<(), Denied>)
    ensures
        closed(*final(semaphore)) == closed(*old(semaphore)),
        taken == if closed(*old(semaphore)) {
            Err::<(), Denied>(Denied::Closed)
        } else if permits(*old(semaphore)) == 0 {
            Err::<(), Denied>(Denied::NoPermits)
        } else {
            Ok::<(), Denied>(())
        },
        permits(*final(semaphore)) == permits(*old(semaphore)) - if taken is Ok {
            1int
        } else {
            0int
        },
{
    match semaphore.try_acquire() {
        Ok(permit) => {
            permit.forget();
            Ok(())
        },
        Err(TryAcquireError::NoPermits) => Err(Denied::NoPermits),
        Err(TryAcquireError::Closed) => Err(Denied::Closed),
    }
}

/// `Semaphore::add_permits`. It panics when the count would pass
/// `MAX_PERMITS`; otherwise the count grows by `count`, on a closed
/// semaphore too.
#[verifier::external_body]
pub(crate) fn add_permits(semaphore: &mut Semaphore, count: usize)
    requires
        permits(*old(semaphore)) + count <= MAX_PERMITS,
    ensures
        permits(*final(semaphore)) == permits(*old(semaphore)) + count,
        closed(*final(semaphore)) == closed(*old(semaphore)),
{
    semaphore.add_permits(count)
}

/// `Semaphore::close`: the semaphore is closed from now on, and keeps its
/// permits.
#[verifier::external_body]
pub(crate) fn close_semaphore(semaphore: &mut Semaphore)
    ensures
        closed(*final(semaphore)),
        permits(*final(semaphore)) == permits(*old(semaphore)),
{
    semaphore.close()
}

} // verus!
