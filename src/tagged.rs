//! A received value that is kept as bytes until the application knows how
//! to read it.
use vstd::prelude::*;

verus! {

/// Bytes that arrived under an identifier of any type. The value counts as
/// resolved once the application has taken its bytes to interpret them.
pub struct Tagged<T> {
    id: T,
    resolved: bool,
    bytes: Vec<u8>,
}

impl<T> Tagged<T> {
    pub closed spec fn spec_id(&self) -> T {
        self.id
    }

    pub closed spec fn spec_resolved(&self) -> bool {
        self.resolved
    }

    pub closed spec fn spec_bytes(&self) -> Seq<u8> {
        self.bytes@
    }

    /// An unresolved value with the given identifier and contents.
    pub fn new(id: T, bytes: Vec<u8>) -> (r: Tagged<T>)
        ensures
            r.spec_id() == id,
            !r.spec_resolved(),
            r.spec_bytes() == bytes@,
    {
        Tagged { id, resolved: false, bytes }
    }

    /// The identifier.
    pub fn id(&self) -> (r: &T)
        ensures
            *r == self.spec_id(),
    {
        &self.id
    }

    /// Whether the bytes have been taken for interpretation.
    pub fn is_resolved(&self) -> (r: bool)
        ensures
            r == self.spec_resolved(),
    {
        self.resolved
    }

    /// Resolves the value: hands out a copy of its bytes for the
    /// application to interpret, and marks it resolved.
    pub fn get(&mut self) -> (r: Vec<u8>)
        ensures
            r@ == old(self).spec_bytes(),
            final(self).spec_resolved(),
            final(self).spec_bytes() == old(self).spec_bytes(),
            final(self).spec_id() == old(self).spec_id(),
    {
        self.resolved = true;
        let r = self.bytes.clone();
        assert(r@ =~= self.bytes@);
        r
    }
}

} // verus!
