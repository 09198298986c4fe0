use vstd::prelude::*;

verus! {

/// The outcome of checking a value that was present with the right shape:
/// either a recognized, typed value or a marker that it was not recognized.
#[derive(Clone, Copy, Debug, PartialEq, Eq, Hash)]
pub enum Checked<T> {
    /// The item was recognized and holds the typed value.
    Valid(T),
    /// The item was present but not recognized.
    Invalid,
}

impl<T: View> View for Checked<T> {
    type V = Checked<T::V>;

    open spec fn view(&self) -> Checked<T::V> {
        match self {
            Checked::Valid(t) => Checked::Valid(t@),
            Checked::Invalid => Checked::Invalid,
        }
    }
}

impl<T> Checked<T> {
    /// Builds a checked value from the outcome of a recognizer.
    pub fn from_option(o: Option<T>) -> (r: Checked<T>)
        ensures
            r == (match o {
                Some(t) => Checked::Valid(t),
                None => Checked::Invalid,
            }),
    {
        match o {
            Some(t) => Checked::Valid(t),
            None => Checked::Invalid,
        }
    }

    /// Whether the value was recognized.
    pub fn is_valid(&self) -> (r: bool)
        ensures
            r == (self is Valid),
    {
        match self {
            Checked::Valid(_) => true,
            Checked::Invalid => false,
        }
    }
}

} // verus!
