use vstd::prelude::*;

verus! {

/// What a gnome knows of the swarm it is in: nothing yet, that it is in step
/// with a neighborhood, or that it has seen contradicting neighbors.
#[derive(PartialEq, Eq, Clone, Copy, Debug, Structural)]
pub enum Awareness {
    Unaware,
    Aware(u8),
    Confused(u8),
}

impl Awareness {
    pub fn neighborhood(&self) -> (res: Option<u8>)
        ensures
            res == (match *self {
                Awareness::Aware(hood) => Some(hood),
                _ => None,
            }),
    {
        if let Awareness::Aware(hood) = self {
            return Some(*hood);
        }
        None
    }

    pub fn is_aware(&self) -> (res: bool)
        ensures
            res == (*self is Aware),
    {
        matches!(self, Awareness::Aware(_))
    }

    pub fn is_unaware(&self) -> (res: bool)
        ensures
            res == (*self is Unaware),
    {
        matches!(self, Awareness::Unaware)
    }

    pub fn is_confused(&self) -> (res: bool)
        ensures
            res == (*self is Confused),
    {
        matches!(self, Awareness::Confused(_cd))
    }
}

} // verus!
