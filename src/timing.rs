//! A named timer for a block of code: it records when it was started, so
//! that the caller can report how long the block took.

use vstd::prelude::*;

verus! {

#[verifier::external_type_specification]
#[verifier::external_body]
pub struct ExInstant(std::time::Instant);

/// Relies on `std::time::Instant::now`: the current instant, of which
/// nothing can be promised.
#[verifier::external_body]
fn instant_now() -> std::time::Instant {
    std::time::Instant::now()
}

/// A timer named after the block it measures.
pub struct ScopeTimeLogger {
    name: String,
    start: std::time::Instant,
}

impl ScopeTimeLogger {
    /// The name given at creation.
    pub closed spec fn spec_name(&self) -> Seq<char> {
        self.name@
    }

    /// The instant the timer was started.
    pub closed spec fn spec_start(&self) -> std::time::Instant {
        self.start
    }

    /// A timer called `name`, started at `start`.
    pub fn started_at(name: &str, start: std::time::Instant) -> (r: Self)
        ensures
            r.spec_name() == name@,
            r.spec_start() == start,
    {
        ScopeTimeLogger { name: name.to_owned(), start }
    }

    /// A timer called `name`, started now.
    pub fn new(name: &str) -> (r: Self)
        ensures
            r.spec_name() == name@,
    {
        ScopeTimeLogger::started_at(name, instant_now())
    }

    /// The name of the measured block.
    pub fn name(&self) -> (r: &str)
        ensures
            r@ == self.spec_name(),
    {
        self.name.as_str()
    }

    /// When the timer was started.
    pub fn started(&self) -> (r: std::time::Instant)
        ensures
            r == self.spec_start(),
    {
        self.start
    }
}

} // verus!
