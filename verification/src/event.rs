//! Platform events, as far as the engine knows of them: by the name of their
//! kind.
use vstd::prelude::*;

verus! {

/// An event of the platform that a listener can wait for on a node. Which
/// node a listener waits on is told by the node's path.
pub trait Event {
    /// The name of the kind of event, as the platform knows it.
    fn event_type(&self) -> &'static str;
}

} // verus!
