//! The restart strategies of a supervisor.
use vstd::prelude::*;

verus! {

/// The strategy a supervisor follows when one of its supervised subjects
/// faults. The default strategy is `OneForOne`.
#[derive(Debug, Clone, Copy, PartialEq, Eq)]
pub enum SupervisionStrategy {
    /// Only the subject that faulted is restarted.
    OneForOne,
    /// Every subject is restarted (even those which were stopped), in the
    /// order in which they were deployed.
    OneForAll,
    /// The subject that faulted and all the subjects deployed after it are
    /// restarted (even the stopped ones), in the order in which they were
    /// deployed.
    RestForOne,
}

impl Default for SupervisionStrategy {
    fn default() -> (strategy: Self)
        ensures
            strategy == SupervisionStrategy::OneForOne,
    {
        SupervisionStrategy::OneForOne
    }
}

} // verus!
