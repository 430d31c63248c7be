use vstd::prelude::*;

verus! {

/// The closed set of intents an utterance can be routed to.
///
/// `Unknown` is the total fallback: it is returned when no sample scores
/// above the decision threshold and is never assigned to a sample.
#[derive(Clone, Copy, Debug, PartialEq, Eq, Structural)]
pub enum Intent {
    Greeting,
    Weather,
    Search,
    FileOpen,
    FileShow,
    Goodbye,
    Shutdown,
    Unknown,
}

} // verus!
