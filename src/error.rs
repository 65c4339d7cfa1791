use vstd::prelude::*;

verus! {

/// What can go wrong while setting up the coordinator or shutting its workers down.
#[derive(Debug, PartialEq, Eq)]
pub enum Error {
    /// A worker's run returned a failure; the text describes it.
    Worker(String),
    /// The shutdown timeout elapsed with this many workers still unreported.
    TimedOut(i32),
    /// Subscribing to the operating system's signals failed.
    Io(String),
    /// A receive on the shared outcome channel failed.
    Channel,
}

impl Error {
    /// Whether this entry reports workers that missed the shutdown deadline.
    pub fn is_timed_out(&self) -> (r: bool)
        ensures
            r == (self is TimedOut),
    {
        match self {
            Error::TimedOut(_) => true,
            _ => false,
        }
    }
}

} // verus!
