//! Frames that start with a protocol version byte.
use vstd::prelude::*;

verus! {

/// A protocol version.
#[derive(Clone, Copy, Debug, PartialEq, Eq, Structural)]
pub struct Version(pub u8);

/// `bytes` behind the version byte.
pub fn encode(version: Version, bytes: &[u8]) -> (r: Vec<u8>)
    ensures
        r@ == seq![version.0] + bytes@,
{
    let mut out: Vec<u8> = Vec::new();
    out.push(version.0);
    let mut i: usize = 0;
    while i < bytes.len()
        invariant
            i <= bytes@.len(),
            out@ == seq![version.0] + bytes@.subrange(0, i as int),
        decreases bytes@.len() - i,
    {
        out.push(bytes[i]);
        i = i + 1;
        assert(out@ =~= seq![version.0] + bytes@.subrange(0, i as int));
    }
    assert(bytes@.subrange(0, bytes@.len() as int) =~= bytes@);
    out
}

/// The version byte and what follows it; empty input has no version.
pub fn decode(b: &[u8]) -> (r: Option<(Version, Vec<u8>)>)
    ensures
        r is None <==> b@.len() == 0,
        r matches Some((v, rest)) ==> seq![v.0] + rest@ == b@,
{
    if b.len() == 0 {
        return None;
    }
    let mut rest: Vec<u8> = Vec::new();
    let mut i: usize = 1;
    while i < b.len()
        invariant
            1 <= i <= b@.len(),
            rest@ == b@.subrange(1, i as int),
        decreases b@.len() - i,
    {
        rest.push(b[i]);
        i = i + 1;
        assert(rest@ =~= b@.subrange(1, i as int));
    }
    assert(seq![b@[0]] + rest@ =~= b@);
    Some((Version(b[0]), rest))
}

} // verus!
