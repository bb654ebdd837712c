use vstd::prelude::*;

verus! {

/// The failure the filter can report: the image is too small for the
/// requested radius. It carries a descriptive message.
#[derive(Debug)]
pub enum Error {
    FilterError(String),
}

impl Error {
    /// The descriptive text carried by the error.
    pub fn message(&self) -> (m: &String)
        ensures
            m@ == self.spec_message(),
    {
        match self {
            Error::FilterError(s) => s,
        }
    }

    /// What the error's message reads, as a sequence of characters.
    pub open spec fn spec_message(&self) -> Seq<char> {
        match self {
            Error::FilterError(s) => s@,
        }
    }
}

} // verus!
