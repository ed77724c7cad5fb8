//! What a stage answers when it is stepped.

use vstd::prelude::*;

verus! {

/// The answer of a stage to one step.
#[derive(Debug, PartialEq, Eq)]
pub enum Step<T, E> {
    /// Nothing to hand on yet: the stage wants the next upstream item.
    Pull,
    /// An item for the consumer.
    Yield(T),
    /// The stream fails with this error.
    Fail(E),
    /// The stream has ended.
    Done,
}

/// The items that a run of steps hands to the consumer, in order.
pub open spec fn yields<T, E>(steps: Seq<Step<T, E>>) -> Seq<T>
    decreases steps.len(),
{
    if steps.len() == 0 {
        Seq::empty()
    } else {
        match steps[0] {
            Step::Yield(item) => seq![item] + yields(steps.drop_first()),
            _ => yields(steps.drop_first()),
        }
    }
}

} // verus!
