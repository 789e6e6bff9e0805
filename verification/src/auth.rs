//! The credential gate: exact membership of a presented secret in a fixed
//! accepted set.

use vstd::prelude::*;
use vstd::string::StringExecFns;

verus! {

/// Compares a presented credential against a set of accepted shared secrets.
/// The set is fixed at construction and never changes afterwards; there is no
/// hashing, no expiry, and no distinction between "unknown user" and "wrong
/// secret".
pub struct CredentialGate {
    accepted: Vec<String>,
}

impl CredentialGate {
    /// Whether a presented credential is a member of the accepted set.
    pub closed spec fn accepts(&self, cred: Seq<char>) -> bool {
        exists|i: int| 0 <= i < self.accepted@.len() && self.accepted@[i]@ == cred
    }

    /// Builds a gate from the accepted secrets.
    pub fn new(accepted: Vec<String>) -> (gate: Self)
        ensures
            forall|c: Seq<char>| gate.accepts(c) <==> accepted.deep_view().contains(c),
    {
        let gate = CredentialGate { accepted };
        proof {
            assert forall|c: Seq<char>| gate.accepts(c) <==> gate.accepted.deep_view().contains(
                c,
            ) by {
                if gate.accepts(c) {
                    let i = choose|i: int|
                        0 <= i < gate.accepted@.len() && gate.accepted@[i]@ == c;
                    assert(gate.accepted.deep_view()[i] == c);
                }
                if gate.accepted.deep_view().contains(c) {
                    let i = choose|i: int|
                        0 <= i < gate.accepted.deep_view().len() && gate.accepted.deep_view()[i]
                            == c;
                    assert(gate.accepted@[i]@ == c);
                }
            }
        }
        gate
    }

    /// Exact membership test. An unauthorized caller is turned away here,
    /// before any storage or stream work begins.
    pub fn is_authorized(&self, presented: &str) -> (r: bool)
        ensures
            r == self.accepts(presented@),
    {
        let p = String::from_str(presented);
        let mut i: usize = 0;
        while i < self.accepted.len()
            invariant
                i <= self.accepted@.len(),
                p@ == presented@,
                forall|j: int| 0 <= j < i ==> self.accepted@[j]@ != presented@,
            decreases self.accepted@.len() - i,
        {
            if self.accepted[i] == p {
                return true;
            }
            i += 1;
        }
        false
    }
}

} // verus!
