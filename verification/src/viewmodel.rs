//! The camera perspective: first person, or a third-person view from behind
//! or in front. One key cycles through them in that order.

use vstd::prelude::*;

verus! {

/// Which camera perspective is active.
#[derive(Clone, Copy, PartialEq, Eq, Debug, Structural)]
pub enum ViewMode {
    FirstPerson,
    ThirdBack,
    ThirdFront,
}

impl Default for ViewMode {
    /// The game starts in first person.
    fn default() -> (m: ViewMode)
        ensures
            m == ViewMode::FirstPerson,
    {
        ViewMode::FirstPerson
    }
}

impl ViewMode {
    /// What [`ViewMode::next`] returns, for contracts.
    pub open spec fn spec_next(self) -> ViewMode {
        match self {
            ViewMode::FirstPerson => ViewMode::ThirdBack,
            ViewMode::ThirdBack => ViewMode::ThirdFront,
            ViewMode::ThirdFront => ViewMode::FirstPerson,
        }
    }

    /// The perspective after this one: first person, then from behind, then
    /// from in front, then back to first person.
    #[verifier::when_used_as_spec(spec_next)]
    pub fn next(self) -> (m: ViewMode)
        ensures
            m == self.spec_next(),
    {
        match self {
            ViewMode::FirstPerson => ViewMode::ThirdBack,
            ViewMode::ThirdBack => ViewMode::ThirdFront,
            ViewMode::ThirdFront => ViewMode::FirstPerson,
        }
    }

    /// Whether this is the first-person view, where the arm and held block
    /// are drawn instead of the body.
    pub fn is_first_person(self) -> (r: bool)
        ensures
            r == (self is FirstPerson),
    {
        self == ViewMode::FirstPerson
    }
}

/// Cycling comes round: three presses return to the view you started in, and
/// no fewer do.
pub proof fn lemma_view_cycle(m: ViewMode)
    ensures
        m.next().next().next() == m,
        m.next() != m,
        m.next().next() != m,
{
}

} // verus!
