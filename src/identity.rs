//! Caller identities as the records carry them: up to 29 raw bytes.
use crate::codec::MAX_IDENTITY_LEN;
use vstd::prelude::*;
use vstd::slice::*;

verus! {

/// The opaque identity of a caller, held as its raw bytes.
#[derive(Debug)]
pub struct Identity {
    bytes: Vec<u8>,
}

impl View for Identity {
    type V = Seq<u8>;

    closed spec fn view(&self) -> Seq<u8> {
        self.bytes@
    }
}

/// The bytes of the identity that unauthenticated callers carry.
pub open spec fn anonymous_bytes() -> Seq<u8> {
    seq![4u8]
}

impl Identity {
    #[verifier::type_invariant]
    spec fn fits(&self) -> bool {
        self.bytes@.len() <= MAX_IDENTITY_LEN
    }

    /// The identity with the given bytes, if they are not too many.
    pub fn from_slice(bytes: &[u8]) -> (r: Option<Identity>)
        ensures
            r is Some <==> bytes@.len() <= MAX_IDENTITY_LEN,
            r is Some ==> r->Some_0@ == bytes@,
    {
        if bytes.len() <= MAX_IDENTITY_LEN {
            Some(Identity { bytes: slice_to_vec(bytes) })
        } else {
            None
        }
    }

    /// The distinguished identity of unauthenticated callers.
    pub fn anonymous() -> (r: Identity)
        ensures
            r@ == anonymous_bytes(),
    {
        let r = Identity { bytes: vec![4u8] };
        assert(r@ =~= anonymous_bytes());
        r
    }

    /// The raw bytes.
    pub fn as_slice(&self) -> (r: &[u8])
        ensures
            r@ == self@,
            r@.len() <= MAX_IDENTITY_LEN,
    {
        proof {
            use_type_invariant(self);
        }
        self.bytes.as_slice()
    }

    /// A copy of the identity.
    pub fn copied(&self) -> (r: Identity)
        ensures
            r@ == self@,
    {
        proof {
            use_type_invariant(self);
        }
        Identity { bytes: slice_to_vec(self.bytes.as_slice()) }
    }

    /// Whether two identities are the same.
    pub fn same_as(&self, other: &Identity) -> (r: bool)
        ensures
            r == (self@ == other@),
    {
        if self.bytes.len() != other.bytes.len() {
            return false;
        }
        let mut i: usize = 0;
        while i < self.bytes.len()
            invariant
                self.bytes@.len() == other.bytes@.len(),
                i <= self.bytes@.len(),
                forall|j: int| 0 <= j < i ==> self.bytes@[j] == other.bytes@[j],
            decreases self.bytes@.len() - i,
        {
            if self.bytes[i] != other.bytes[i] {
                return false;
            }
            i = i + 1;
        }
        assert(self.bytes@ =~= other.bytes@);
        true
    }

    /// Whether this is the identity of unauthenticated callers.
    pub fn is_anonymous(&self) -> (r: bool)
        ensures
            r == (self@ == anonymous_bytes()),
    {
        let a = Identity::anonymous();
        self.same_as(&a)
    }
}

} // verus!
