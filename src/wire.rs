//! Protocol messages in tagged frames.
//!
//! The first payload byte of a frame names its kind; numbers follow,
//! big-endian. Strings travel as the frame's tag, which the codec checks
//! for UTF-8:
//!
//! | kind          | tag               | payload                                   |
//! |---------------|-------------------|-------------------------------------------|
//! | 0 `JOIN`      | host of the node  | kind, node id (16), port (2)              |
//! | 1 `MESSAGE`   | broadcast's tag   | kind, sender (16), broadcast id (16), data |
//! | 2 `IHAVE`     | empty             | kind, sender (16), broadcast id (16)      |
//! | 3 `GRAFT`     | empty             | kind, sender (16), broadcast id (16)      |
//! | 4 `PRUNE`     | empty             | kind, sender (16), broadcast id (16)      |
use vstd::prelude::*;
use crate::codec::{TagType, TagView, TaggedValue, TaggedView};
use crate::engine::{Broadcast, Protocol};
use crate::membership::NodeId;
use crate::peer::{Addr, Join};

verus! {

pub const KIND_JOIN: u8 = 0;

pub const KIND_MESSAGE: u8 = 1;

pub const KIND_IHAVE: u8 = 2;

pub const KIND_GRAFT: u8 = 3;

pub const KIND_PRUNE: u8 = 4;

/// What one peer sends another: a request to join, or a protocol message
/// with its sender.
pub enum Frame {
    Join(Join),
    Protocol(NodeId, Protocol),
}

/// Why a tagged value is not a frame.
#[derive(Clone, Copy, Debug, PartialEq, Eq, Structural)]
pub enum WireError {
    /// The tag is not a string.
    NotAString,
    /// The payload is empty.
    Empty,
    /// The kind byte is not one of the five kinds.
    UnknownKind,
    /// The payload's length or the tag does not fit the kind.
    Malformed,
}

pub open spec fn pow256(n: nat) -> nat
    decreases n,
{
    if n == 0 {
        1
    } else {
        256 * pow256((n - 1) as nat)
    }
}

/// The number that big-endian bytes stand for.
pub open spec fn be_value(s: Seq<u8>) -> nat
    decreases s.len(),
{
    if s.len() == 0 {
        0
    } else {
        be_value(s.drop_last()) * 256 + s.last() as nat
    }
}

/// The `n` low-order bytes of `x`, big-endian.
pub open spec fn be_bytes(x: nat, n: nat) -> Seq<u8>
    decreases n,
{
    if n == 0 {
        Seq::empty()
    } else {
        be_bytes(x / 256, (n - 1) as nat).push((x % 256) as u8)
    }
}

proof fn lemma_be_bytes(x: nat, n: nat)
    requires
        x < pow256(n),
    ensures
        be_bytes(x, n).len() == n,
        be_value(be_bytes(x, n)) == x,
    decreases n,
{
    if n > 0 {
        let p = pow256((n - 1) as nat);
        assert(x / 256 < p) by (nonlinear_arith)
            requires
                x < 256 * p,
        ;
        lemma_be_bytes(x / 256, (n - 1) as nat);
        let s = be_bytes(x, n);
        assert(s.drop_last() =~= be_bytes(x / 256, (n - 1) as nat));
        assert((x / 256) * 256 + x % 256 == x) by (nonlinear_arith);
    }
}

proof fn lemma_be_value_bound(s: Seq<u8>)
    ensures
        be_value(s) < pow256(s.len()),
    decreases s.len(),
{
    if s.len() > 0 {
        lemma_be_value_bound(s.drop_last());
        let v = be_value(s.drop_last());
        let p = pow256(s.drop_last().len());
        let b = s.last() as nat;
        assert(v * 256 + b < 256 * p) by (nonlinear_arith)
            requires
                v < p,
                b < 256,
        ;
    }
}

proof fn lemma_pow256_16()
    ensures
        pow256(16) == 0x1_0000_0000_0000_0000_0000_0000_0000_0000,
        pow256(2) == 0x1_0000,
{
    reveal_with_fuel(pow256, 17);
}

/// Appends the `n` low-order bytes of `x`, big-endian.
fn push_be(out: &mut Vec<u8>, x: u128, n: usize)
    ensures
        final(out)@ == old(out)@ + be_bytes(x as nat, n as nat),
    decreases n,
{
    if n == 0 {
        assert(old(out)@ + be_bytes(x as nat, 0) =~= old(out)@);
        return;
    }
    push_be(out, x / 256, n - 1);
    out.push((x % 256) as u8);
    assert(final(out)@ =~= old(out)@ + be_bytes(x as nat, n as nat));
}

/// The number in the `n` bytes at `at`, big-endian.
fn read_be(b: &[u8], at: usize, n: usize) -> (r: u128)
    requires
        n <= 16,
        at + n <= b@.len(),
    ensures
        r as nat == be_value(b@.subrange(at as int, at + n)),
{
    let mut acc: u128 = 0;
    let mut i: usize = 0;
    let len = b.len();
    while i < n
        invariant
            i <= n <= 16,
            at + n <= b@.len(),
            len == b@.len(),
            acc as nat == be_value(b@.subrange(at as int, at + i)),
        decreases n - i,
    {
        let ghost s = b@.subrange(at as int, at + i);
        proof {
            lemma_be_value_bound(s);
            lemma_pow256_16();
            assert(pow256(i as nat) <= pow256(15)) by {
                lemma_pow256_mono(i as nat, 15);
            }
            reveal_with_fuel(pow256, 17);
            assert(acc * 256 + 255 <= 0xffff_ffff_ffff_ffff_ffff_ffff_ffff_ffff);
            assert(b@.subrange(at as int, at + i + 1).drop_last() =~= s);
        }
        acc = acc * 256 + b[at + i] as u128;
        i = i + 1;
    }
    acc
}

proof fn lemma_pow256_mono(a: nat, b: nat)
    requires
        a <= b,
    ensures
        pow256(a) <= pow256(b),
    decreases b,
{
    if a < b {
        lemma_pow256_mono(a, (b - 1) as nat);
    }
}

/// The payload of a message about broadcast `id` from `from`.
pub open spec fn control(kind: u8, from: NodeId, id: u128) -> Seq<u8> {
    seq![kind] + be_bytes(from as nat, 16) + be_bytes(id as nat, 16)
}

/// The tagged value that carries `f`.
pub open spec fn spec_tagged(f: Frame) -> TaggedView {
    match f {
        Frame::Join(j) => TaggedView {
            id: TagView::Str(j.addr.ip@),
            bytes: seq![KIND_JOIN] + be_bytes(j.id as nat, 16) + be_bytes(j.addr.port as nat, 2),
        },
        Frame::Protocol(from, Protocol::Message(b)) => TaggedView {
            id: TagView::Str(b.tag@),
            bytes: control(KIND_MESSAGE, from, b.id) + b.payload@,
        },
        Frame::Protocol(from, Protocol::IHave(id)) => TaggedView {
            id: TagView::Str(Seq::empty()),
            bytes: control(KIND_IHAVE, from, id),
        },
        Frame::Protocol(from, Protocol::Graft(id)) => TaggedView {
            id: TagView::Str(Seq::empty()),
            bytes: control(KIND_GRAFT, from, id),
        },
        Frame::Protocol(from, Protocol::Prune(id)) => TaggedView {
            id: TagView::Str(Seq::empty()),
            bytes: control(KIND_PRUNE, from, id),
        },
    }
}

/// What reading `v` as a frame gives: `Ok` exactly when `v` is the tagged
/// value of some frame, else the first fault.
pub open spec fn spec_parse_error(v: TaggedView) -> Option<WireError> {
    if !(v.id is Str) {
        Some(WireError::NotAString)
    } else if v.bytes.len() == 0 {
        Some(WireError::Empty)
    } else if v.bytes[0] > KIND_PRUNE {
        Some(WireError::UnknownKind)
    } else if v.bytes[0] == KIND_JOIN {
        if v.bytes.len() == 19 {
            None
        } else {
            Some(WireError::Malformed)
        }
    } else if v.bytes[0] == KIND_MESSAGE {
        if v.bytes.len() >= 33 {
            None
        } else {
            Some(WireError::Malformed)
        }
    } else if v.bytes.len() == 33 && v.id->Str_0.len() == 0 {
        None
    } else {
        Some(WireError::Malformed)
    }
}

/// A copy of `s`.
fn copy_string(s: &String) -> (r: String)
    ensures
        r@ == s@,
{
    s.clone()
}

/// The tagged value that carries `f`.
pub fn to_tagged(f: &Frame) -> (r: TaggedValue)
    ensures
        r@ == spec_tagged(*f),
{
    let mut bytes: Vec<u8> = Vec::new();
    match f {
        Frame::Join(j) => {
            bytes.push(KIND_JOIN);
            push_be(&mut bytes, j.id, 16);
            push_be(&mut bytes, j.addr.port as u128, 2);
            assert(bytes@ =~= seq![KIND_JOIN] + be_bytes(j.id as nat, 16) + be_bytes(
                j.addr.port as nat,
                2,
            ));
            TaggedValue { id: TagType::TyString(copy_string(&j.addr.ip)), bytes }
        },
        Frame::Protocol(from, msg) => {
            let (kind, id) = match msg {
                Protocol::Message(b) => (KIND_MESSAGE, b.id),
                Protocol::IHave(id) => (KIND_IHAVE, *id),
                Protocol::Graft(id) => (KIND_GRAFT, *id),
                Protocol::Prune(id) => (KIND_PRUNE, *id),
            };
            bytes.push(kind);
            push_be(&mut bytes, *from, 16);
            push_be(&mut bytes, id, 16);
            assert(bytes@ =~= control(kind, *from, id));
            match msg {
                Protocol::Message(b) => {
                    let mut i: usize = 0;
                    let ghost head = bytes@;
                    while i < b.payload.len()
                        invariant
                            i <= b.payload@.len(),
                            bytes@ == head + b.payload@.subrange(0, i as int),
                        decreases b.payload@.len() - i,
                    {
                        bytes.push(b.payload[i]);
                        i = i + 1;
                        assert(bytes@ =~= head + b.payload@.subrange(0, i as int));
                    }
                    assert(b.payload@.subrange(0, b.payload@.len() as int) =~= b.payload@);
                    TaggedValue { id: TagType::TyString(copy_string(&b.tag)), bytes }
                },
                _ => TaggedValue { id: TagType::TyString(String::new()), bytes },
            }
        },
    }
}

proof fn lemma_control_parts(kind: u8, from: NodeId, id: u128, rest: Seq<u8>)
    ensures
        (control(kind, from, id) + rest).len() == 33 + rest.len(),
        (control(kind, from, id) + rest)[0] == kind,
        be_value((control(kind, from, id) + rest).subrange(1, 17)) == from,
        be_value((control(kind, from, id) + rest).subrange(17, 33)) == id,
        (control(kind, from, id) + rest).subrange(33, 33 + rest.len() as int) == rest,
{
    lemma_pow256_16();
    lemma_be_bytes(from as nat, 16);
    lemma_be_bytes(id as nat, 16);
    let s = control(kind, from, id) + rest;
    assert(s.subrange(1, 17) =~= be_bytes(from as nat, 16));
    assert(s.subrange(17, 33) =~= be_bytes(id as nat, 16));
    assert(s.subrange(33, 33 + rest.len() as int) =~= rest);
}

/// Two join requests with the same tagged value have the same id.
pub proof fn lemma_join_frame_id(j1: Join, j2: Join)
    requires
        spec_tagged(Frame::Join(j1)) == spec_tagged(Frame::Join(j2)),
    ensures
        j1.id == j2.id,
{
    lemma_pow256_16();
    lemma_be_bytes(j1.id as nat, 16);
    lemma_be_bytes(j2.id as nat, 16);
    let s1 = spec_tagged(Frame::Join(j1)).bytes;
    let s2 = spec_tagged(Frame::Join(j2)).bytes;
    assert(s1.subrange(1, 17) =~= be_bytes(j1.id as nat, 16));
    assert(s2.subrange(1, 17) =~= be_bytes(j2.id as nat, 16));
}

/// Every frame's tagged value reads back as a frame.
pub proof fn lemma_frame_parses(f: Frame)
    ensures
        spec_parse_error(spec_tagged(f)) is None,
{
    match f {
        Frame::Join(j) => {
            lemma_pow256_16();
            lemma_be_bytes(j.id as nat, 16);
            lemma_be_bytes(j.addr.port as nat, 2);
        },
        Frame::Protocol(from, Protocol::Message(b)) => {
            lemma_control_parts(KIND_MESSAGE, from, b.id, b.payload@);
        },
        Frame::Protocol(from, Protocol::IHave(id)) => {
            lemma_control_parts(KIND_IHAVE, from, id, Seq::empty());
            assert(control(KIND_IHAVE, from, id) + Seq::<u8>::empty() =~= control(KIND_IHAVE, from, id));
        },
        Frame::Protocol(from, Protocol::Graft(id)) => {
            lemma_control_parts(KIND_GRAFT, from, id, Seq::empty());
            assert(control(KIND_GRAFT, from, id) + Seq::<u8>::empty() =~= control(KIND_GRAFT, from, id));
        },
        Frame::Protocol(from, Protocol::Prune(id)) => {
            lemma_control_parts(KIND_PRUNE, from, id, Seq::empty());
            assert(control(KIND_PRUNE, from, id) + Seq::<u8>::empty() =~= control(KIND_PRUNE, from, id));
        },
    }
}

/// Reads a tagged value as a frame: succeeds exactly on the tagged values
/// of frames, and then gives the frame whose tagged value `v` is.
pub fn from_tagged(v: TaggedValue) -> (r: Result<Frame, WireError>)
    ensures
        r is Err <==> spec_parse_error(v@) is Some,
        r matches Err(e) ==> spec_parse_error(v@) == Some(e),
        r matches Ok(f) ==> spec_tagged(f) == v@,
{
    let ghost view = v@;
    let tag = match v.id {
        TagType::TyString(s) => s,
        TagType::TyInt(_) => {
            return Err(WireError::NotAString);
        },
    };
    let b = v.bytes;
    if b.len() == 0 {
        return Err(WireError::Empty);
    }
    let kind = b[0];
    if kind > KIND_PRUNE {
        return Err(WireError::UnknownKind);
    }
    if kind == KIND_JOIN {
        if b.len() != 19 {
            return Err(WireError::Malformed);
        }
        let id = read_be(b.as_slice(), 1, 16);
        let port = read_be(b.as_slice(), 17, 2);
        proof {
            lemma_be_value_bound(b@.subrange(17, 19));
            lemma_pow256_16();
            lemma_be_bytes(id as nat, 16);
            lemma_be_bytes(port as nat, 2);
            lemma_be_bytes(be_value(b@.subrange(1, 17)), 16);
            lemma_be_bytes_of_value(b@.subrange(1, 17));
            lemma_be_bytes_of_value(b@.subrange(17, 19));
            assert(b@ =~= seq![KIND_JOIN] + b@.subrange(1, 17) + b@.subrange(17, 19));
        }
        let port = port as u16;
        return Ok(Frame::Join(Join { id, addr: Addr { ip: tag, port } }));
    }
    if b.len() < 33 {
        return Err(WireError::Malformed);
    }
    let from = read_be(b.as_slice(), 1, 16);
    let id = read_be(b.as_slice(), 17, 16);
    proof {
        lemma_be_bytes_of_value(b@.subrange(1, 17));
        lemma_be_bytes_of_value(b@.subrange(17, 33));
        assert(b@ =~= control(kind, from, id) + b@.subrange(33, b@.len() as int));
    }
    if kind == KIND_MESSAGE {
        let mut payload: Vec<u8> = Vec::new();
        let mut i: usize = 33;
        while i < b.len()
            invariant
                33 <= i <= b@.len(),
                payload@ == b@.subrange(33, i as int),
            decreases b@.len() - i,
        {
            payload.push(b[i]);
            i = i + 1;
            assert(payload@ =~= b@.subrange(33, i as int));
        }
        return Ok(Frame::Protocol(from, Protocol::Message(Broadcast { id, tag, payload })));
    }
    if b.len() != 33 || !tag.as_str().is_empty() {
        return Err(WireError::Malformed);
    }
    proof {
        assert(tag@ =~= Seq::<char>::empty());
        assert(b@.subrange(33, b@.len() as int) =~= Seq::<u8>::empty());
        assert(b@ =~= control(kind, from, id));
    }
    let msg = if kind == KIND_IHAVE {
        Protocol::IHave(id)
    } else if kind == KIND_GRAFT {
        Protocol::Graft(id)
    } else {
        Protocol::Prune(id)
    };
    Ok(Frame::Protocol(from, msg))
}

proof fn lemma_be_bytes_of_value(s: Seq<u8>)
    ensures
        be_bytes(be_value(s), s.len()) == s,
    decreases s.len(),
{
    if s.len() > 0 {
        let t = s.drop_last();
        lemma_be_bytes_of_value(t);
        let v = be_value(t) * 256 + s.last() as nat;
        assert(v / 256 == be_value(t) && v % 256 == s.last() as nat) by (nonlinear_arith)
            requires
                v == be_value(t) * 256 + s.last() as nat,
                s.last() < 256,
        ;
        assert(t.push(s.last()) =~= s);
    }
}

} // verus!
