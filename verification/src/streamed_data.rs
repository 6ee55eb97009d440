use vstd::prelude::*;

verus! {

/// What one fusion step produced: a finished datum (`Complete`), a datum that
/// is still growing and may receive more fragments (`Standalone`), or nothing
/// usable yet (`Incomplete`).
#[derive(Debug)]
pub enum StreamedState<D> {
    Complete(D),
    Standalone(D),
    Incomplete,
}

/// A stateful assembler that turns a stream of partial fragments into whole
/// data. Implementations state their exact transition behaviour on `update`.
pub trait StreamedData<D> {
    type Fragment;

    /// Drop any pending state.
    fn reset(&mut self);

    /// Absorb one fragment and report what it produced.
    fn update(&mut self, fragment: Self::Fragment) -> StreamedState<D>;
}

} // verus!
