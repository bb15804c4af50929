//! Navigation state of the terminal viewer.
use vstd::prelude::*;

verus! {

/// Which of the two lists has the focus.
#[derive(Clone, Copy, Debug, PartialEq, Eq, Structural)]
pub enum ActiveList {
    Readings,
    Actuators,
}

impl ActiveList {
    /// The other list.
    pub fn swap(self) -> (r: Self)
        ensures
            r != self,
    {
        match self {
            Self::Readings => Self::Actuators,
            Self::Actuators => Self::Readings,
        }
    }
}

} // verus!
