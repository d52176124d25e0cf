use vstd::prelude::*;

verus! {

/// A fixed endpoint: the chain node's address or the address to listen on.
pub struct URL(pub &'static str);

impl URL {
    /// An owned copy of the endpoint's text.
    pub fn to_string(&self) -> (text: String)
        ensures
            text@ == self.0@,
    {
        self.0.to_owned()
    }
}

} // verus!
