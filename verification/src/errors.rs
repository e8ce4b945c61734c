//! The errors of a checkout.

use vstd::prelude::*;

verus! {

/// The step of a checkout at which its deadline passed.
#[derive(Clone, Copy, Debug, PartialEq, Eq, Structural)]
pub enum TimeoutType {
    /// Timeout happened while waiting for a slot to become available.
    Wait,
    /// Timeout happened while creating a new object.
    Create,
    /// Timeout happened while recycling an object.
    Recycle,
}

/// Possible errors of a checkout.
#[derive(Debug)]
pub enum PoolError<E> {
    /// Timeout happened.
    Timeout(TimeoutType),
    /// Backend reported an error.
    Backend(E),
    /// The pool has been closed.
    Closed,
}

/// Why a resource could not be recycled.
#[derive(Debug)]
pub enum RecycleError<E> {
    /// The resource is not fit for use any more; the text says why.
    Message(String),
    /// The backend reported an error.
    Backend(E),
}

/// Result of recycling a resource.
pub type RecycleResult<E> = Result<(), RecycleError<E>>;

impl<E> From<E> for PoolError<E> {
    fn from(e: E) -> (error: Self) {
        Self::Backend(e)
    }
}

impl<E> vstd::std_specs::convert::FromSpecImpl<E> for PoolError<E> {
    open spec fn obeys_from_spec() -> bool {
        true
    }

    open spec fn from_spec(e: E) -> Self {
        PoolError::Backend(e)
    }
}

impl<E> PoolError<E> {
    /// The sentence that describes the error. For a backend error it is the
    /// part that stands before the backend's own words.
    pub open spec fn spec_describe(&self) -> Seq<char> {
        match self {
            PoolError::Timeout(TimeoutType::Wait) =>
                "Timeout occurred while waiting for a slot to become available"@,
            PoolError::Timeout(TimeoutType::Create) =>
                "Timeout occurred while creating a new object"@,
            PoolError::Timeout(TimeoutType::Recycle) =>
                "Timeout occurred while recycling an object"@,
            PoolError::Backend(_) => "Error occurred while creating a new object"@,
            PoolError::Closed => "Pool has been closed"@,
        }
    }

    /// The sentence that describes the error. For a backend error it is the
    /// part that stands before the backend's own words.
    pub fn describe(&self) -> (text: &'static str)
        ensures
            text@ == self.spec_describe(),
    {
        match self {
            Self::Timeout(tt) => match tt {
                TimeoutType::Wait =>
                    "Timeout occurred while waiting for a slot to become available",
                TimeoutType::Create => "Timeout occurred while creating a new object",
                TimeoutType::Recycle => "Timeout occurred while recycling an object",
            },
            Self::Backend(_) => "Error occurred while creating a new object",
            Self::Closed => "Pool has been closed",
        }
    }

    /// The backend's error that caused this one, if one did.
    pub fn source(&self) -> (cause: Option<&E>)
        ensures
            cause == match self {
                PoolError::Timeout(_) | PoolError::Closed => None::<&E>,
                PoolError::Backend(e) => Some(e),
            },
    {
        match self {
            Self::Timeout(_) | Self::Closed => None,
            Self::Backend(e) => Some(e),
        }
    }
}

/// Settles work that ran against a deadline. `None` says that the deadline
/// passed before the work was done: that is a timeout of the given kind.
/// Work that was done hands on its value, or its error as the backend's.
pub fn apply_timeout<O, E>(timeout_type: TimeoutType, outcome: Option<Result<O, E>>) -> (settled:
    Result<O, PoolError<E>>)
    ensures
        settled == match outcome {
            None => Err::<O, PoolError<E>>(PoolError::Timeout(timeout_type)),
            Some(Ok(value)) => Ok(value),
            Some(Err(e)) => Err(PoolError::Backend(e)),
        },
{
    match outcome {
        None => Err(PoolError::Timeout(timeout_type)),
        Some(Ok(value)) => Ok(value),
        Some(Err(e)) => Err(PoolError::from(e)),
    }
}

} // verus!
