//! The proxy's current NAT type.
use vstd::prelude::*;

verus! {

/// `"unknown"`, the NAT type before any is known.
pub open spec fn nat_unknown() -> Seq<char> {
    seq!['u', 'n', 'k', 'n', 'o', 'w', 'n']
}

/// The NAT type the proxy reports.
pub struct NATType {
    current: String,
}

impl NATType {
    /// The NAT type held.
    pub closed spec fn current(&self) -> Seq<char> {
        self.current@
    }

    /// A NAT type that is not known yet: `"unknown"`.
    pub fn new() -> (n: NATType)
        ensures
            n.current() == nat_unknown(),
    {
        proof {
            reveal_strlit("unknown");
            assert("unknown"@ =~= nat_unknown());
        }
        NATType { current: String::from_str("unknown") }
    }

    /// The NAT type held.
    pub fn get(&self) -> (r: String)
        ensures
            r@ == self.current(),
    {
        self.current.clone()
    }
}

} // verus!
