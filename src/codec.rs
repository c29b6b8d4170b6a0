//! The tagged frame that wraps every message on the wire.
//!
//! | offset | size | field                                   |
//! |--------|------|-----------------------------------------|
//! | 0      | 1    | marker `0xCB`                           |
//! | 1      | 1    | tag type (`0xE3`: string)               |
//! | 2      | 4    | tag length `N`, big-endian              |
//! | 6      | N    | tag bytes (UTF-8 for a string tag)      |
//! | 6 + N  | 4    | payload length `M`, big-endian          |
//! | 10 + N | M    | payload bytes, opaque                   |
use vstd::prelude::*;
use vstd::utf8::*;

verus! {

/// First byte of every tagged frame.
pub const TAG_START: u8 = 0xCB;

/// Tag type byte of a string tag.
pub const STRING: u8 = 0xE3;

/// The identifier that a tagged value carries.
#[derive(Clone, Debug, PartialEq, Eq)]
pub enum TagType {
    TyString(String),
    TyInt(i64),
}

/// A value whose payload type is not known yet: an identifier telling the
/// receiver how to interpret the bytes, and the bytes themselves.
#[derive(Clone, Debug, PartialEq, Eq)]
pub struct TaggedValue {
    pub id: TagType,
    pub bytes: Vec<u8>,
}

/// Why a frame could not be decoded.
#[derive(Clone, Copy, Debug, PartialEq, Eq, Structural)]
pub enum DecodeError {
    /// The first byte is not `TAG_START`, or there is no first byte.
    BadMarker,
    /// The tag type byte is not one this format knows.
    UnknownTag,
    /// The input ends before a length field or the bytes that it announces.
    Truncated,
    /// A string tag is not well-formed UTF-8.
    BadUtf8,
}

/// Mathematical model of a tag.
pub enum TagView {
    Str(Seq<char>),
    Int(int),
}

/// Mathematical model of a tagged value.
pub struct TaggedView {
    pub id: TagView,
    pub bytes: Seq<u8>,
}

impl View for TagType {
    type V = TagView;

    open spec fn view(&self) -> TagView {
        match self {
            TagType::TyString(s) => TagView::Str(s@),
            TagType::TyInt(i) => TagView::Int(*i as int),
        }
    }
}

impl View for TaggedValue {
    type V = TaggedView;

    open spec fn view(&self) -> TaggedView {
        TaggedView { id: self.id@, bytes: self.bytes@ }
    }
}

/// Largest length that a length field can carry.
pub open spec fn max_len() -> nat {
    0xffff_ffff
}

/// A value that the frame format can carry: a string tag, and a tag and a
/// payload whose lengths fit their length fields.
pub open spec fn encodable(v: TaggedView) -> bool {
    &&& v.id is Str
    &&& encode_utf8(v.id->Str_0).len() <= max_len()
    &&& v.bytes.len() <= max_len()
}

/// The four big-endian bytes of `x`.
pub open spec fn be32(x: u32) -> Seq<u8> {
    seq![
        ((x >> 24u32) & 0xff) as u8,
        ((x >> 16u32) & 0xff) as u8,
        ((x >> 8u32) & 0xff) as u8,
        (x & 0xff) as u8,
    ]
}

/// The number that four big-endian bytes stand for.
pub open spec fn be32_value(b0: u8, b1: u8, b2: u8, b3: u8) -> u32 {
    ((b0 as u32) << 24u32) | ((b1 as u32) << 16u32) | ((b2 as u32) << 8u32) | (b3 as u32)
}

/// The length field read at `at`.
pub open spec fn length_at(b: Seq<u8>, at: int) -> nat {
    be32_value(b[at], b[at + 1], b[at + 2], b[at + 3]) as nat
}

/// The frame of an encodable value.
pub open spec fn spec_encode(v: TaggedView) -> Seq<u8>
    recommends
        encodable(v),
{
    let tag = encode_utf8(v.id->Str_0);
    seq![TAG_START, STRING] + be32(tag.len() as u32) + tag + be32(v.bytes.len() as u32) + v.bytes
}

/// What decoding the frame at the start of `b` yields: the value and the
/// number of bytes that the frame takes, or the first fault met, in the
/// order of the fields.
pub open spec fn spec_decode_frame(b: Seq<u8>) -> Result<(TaggedView, nat), DecodeError> {
    if b.len() == 0 || b[0] != TAG_START {
        Err(DecodeError::BadMarker)
    } else if b.len() < 2 {
        Err(DecodeError::Truncated)
    } else if b[1] != STRING {
        Err(DecodeError::UnknownTag)
    } else if b.len() < 6 {
        Err(DecodeError::Truncated)
    } else {
        let n: int = length_at(b, 2) as int;
        if b.len() < 10 + n {
            Err(DecodeError::Truncated)
        } else {
            let m: int = length_at(b, 6 + n) as int;
            let tag = b.subrange(6, 6 + n);
            if b.len() < 10 + n + m {
                Err(DecodeError::Truncated)
            } else if !valid_utf8(tag) {
                Err(DecodeError::BadUtf8)
            } else {
                Ok(
                    (
                        TaggedView {
                            id: TagView::Str(decode_utf8(tag)),
                            bytes: b.subrange(10 + n, 10 + n + m),
                        },
                        (10 + n + m) as nat,
                    ),
                )
            }
        }
    }
}

/// What decoding `b` yields: the value of the frame that `b` starts with.
pub open spec fn spec_decode(b: Seq<u8>) -> Result<TaggedView, DecodeError> {
    match spec_decode_frame(b) {
        Ok((v, _)) => Ok(v),
        Err(e) => Err(e),
    }
}

impl TaggedValue {
    /// A tagged value with the given identifier and contents.
    pub fn new(id: TagType, bytes: Vec<u8>) -> (r: TaggedValue)
        ensures
            r.id == id,
            r.bytes == bytes,
    {
        TaggedValue { id, bytes }
    }

    /// The payload, for the application to interpret once it knows the type
    /// that the tag names.
    pub fn get(&self) -> (r: &Vec<u8>)
        ensures
            r@ == self.bytes@,
    {
        &self.bytes
    }

    /// Whether the frame format can carry this value.
    pub fn is_encodable(&self) -> (r: bool)
        ensures
            r == encodable(self@),
    {
        match &self.id {
            TagType::TyString(s) => {
                let tag: &[u8] = s.as_str().as_bytes();
                tag.len() as u64 <= 0xffff_ffff && self.bytes.len() as u64 <= 0xffff_ffff
            },
            TagType::TyInt(_) => false,
        }
    }
}

proof fn lemma_be32_round_trip(x: u32)
    ensures
        be32_value(be32(x)[0], be32(x)[1], be32(x)[2], be32(x)[3]) == x,
{
    let b0 = ((x >> 24u32) & 0xff) as u8;
    let b1 = ((x >> 16u32) & 0xff) as u8;
    let b2 = ((x >> 8u32) & 0xff) as u8;
    let b3 = (x & 0xff) as u8;
    assert(((b0 as u32) << 24u32) | ((b1 as u32) << 16u32) | ((b2 as u32) << 8u32) | (b3 as u32)
        == x) by (bit_vector)
        requires
            b0 == ((x >> 24u32) & 0xff) as u8,
            b1 == ((x >> 16u32) & 0xff) as u8,
            b2 == ((x >> 8u32) & 0xff) as u8,
            b3 == (x & 0xff) as u8,
    ;
}

fn push_be32(out: &mut Vec<u8>, x: u32)
    ensures
        final(out)@ == old(out)@ + be32(x),
{
    out.push(((x >> 24u32) & 0xff) as u8);
    out.push(((x >> 16u32) & 0xff) as u8);
    out.push(((x >> 8u32) & 0xff) as u8);
    out.push((x & 0xff) as u8);
    assert(final(out)@ =~= old(out)@ + be32(x));
}

fn push_all(out: &mut Vec<u8>, b: &[u8])
    ensures
        final(out)@ == old(out)@ + b@,
{
    let ghost start = out@;
    let mut i: usize = 0;
    while i < b.len()
        invariant
            i <= b@.len(),
            out@ == start + b@.subrange(0, i as int),
        decreases b@.len() - i,
    {
        out.push(b[i]);
        i = i + 1;
        assert(out@ =~= start + b@.subrange(0, i as int));
    }
    assert(b@.subrange(0, b@.len() as int) =~= b@);
}

fn copy_range(b: &[u8], start: usize, end: usize) -> (r: Vec<u8>)
    requires
        start <= end <= b@.len(),
    ensures
        r@ == b@.subrange(start as int, end as int),
{
    let mut r: Vec<u8> = Vec::new();
    let mut i: usize = start;
    while i < end
        invariant
            start <= i <= end <= b@.len(),
            r@ == b@.subrange(start as int, i as int),
        decreases end - i,
    {
        r.push(b[i]);
        i = i + 1;
        assert(r@ =~= b@.subrange(start as int, i as int));
    }
    r
}

fn read_be32(b: &[u8], at: usize) -> (r: u32)
    requires
        at + 4 <= b@.len(),
    ensures
        r as nat == length_at(b@, at as int),
{
    ((b[at] as u32) << 24u32) | ((b[at + 1] as u32) << 16u32) | ((b[at + 2] as u32) << 8u32) | (
    b[at + 3] as u32)
}

/// Relies on `String::from_utf8`: it succeeds exactly when the bytes are
/// well-formed UTF-8, and the string then holds the characters they encode.
#[verifier::external_body]
fn string_from_utf8(bytes: Vec<u8>) -> (r: Option<String>)
    ensures
        r.is_some() == valid_utf8(bytes@),
        r matches Some(s) ==> s@ == decode_utf8(bytes@),
{
    String::from_utf8(bytes).ok()
}

/// The frame that carries `v`.
pub fn encode(v: &TaggedValue) -> (r: Vec<u8>)
    requires
        encodable(v@),
    ensures
        r@ == spec_encode(v@),
{
    match &v.id {
        TagType::TyString(s) => {
            let tag: &[u8] = s.as_str().as_bytes();
            let mut out: Vec<u8> = Vec::new();
            out.push(TAG_START);
            out.push(STRING);
            push_be32(&mut out, tag.len() as u32);
            push_all(&mut out, tag);
            push_be32(&mut out, v.bytes.len() as u32);
            push_all(&mut out, v.bytes.as_slice());
            assert(out@ =~= spec_encode(v@));
            out
        },
        TagType::TyInt(_) => {
            proof {
                assert(false);
            }
            Vec::new()
        },
    }
}

/// Decodes the frame at the start of `b`, returning the value and the number
/// of bytes that the frame takes; bytes after the frame are not read.
pub fn decode_frame(b: &[u8]) -> (r: Result<(TaggedValue, usize), DecodeError>)
    ensures
        match (r, spec_decode_frame(b@)) {
            (Ok((v, len)), Ok((sv, slen))) => v@ == sv && len as nat == slen,
            (Err(e), Err(se)) => e == se,
            _ => false,
        },
{
    if b.len() == 0 || b[0] != TAG_START {
        return Err(DecodeError::BadMarker);
    }
    if b.len() < 2 {
        return Err(DecodeError::Truncated);
    }
    if b[1] != STRING {
        return Err(DecodeError::UnknownTag);
    }
    if b.len() < 6 {
        return Err(DecodeError::Truncated);
    }
    let n = read_be32(b, 2);
    let tag_end: u64 = 6 + n as u64;
    if (b.len() as u64) < tag_end + 4 {
        return Err(DecodeError::Truncated);
    }
    let tag_end = tag_end as usize;
    let m = read_be32(b, tag_end);
    let frame_end: u64 = tag_end as u64 + 4 + m as u64;
    if (b.len() as u64) < frame_end {
        return Err(DecodeError::Truncated);
    }
    let frame_end = frame_end as usize;
    let tag = copy_range(b, 6, tag_end);
    let payload = copy_range(b, tag_end + 4, frame_end);
    match string_from_utf8(tag) {
        Some(s) => Ok((TaggedValue { id: TagType::TyString(s), bytes: payload }, frame_end)),
        None => Err(DecodeError::BadUtf8),
    }
}

/// Decodes the frame at the start of `b`.
pub fn decode(b: &[u8]) -> (r: Result<TaggedValue, DecodeError>)
    ensures
        match (r, spec_decode(b@)) {
            (Ok(v), Ok(sv)) => v@ == sv,
            (Err(e), Err(se)) => e == se,
            _ => false,
        },
{
    match decode_frame(b) {
        Ok((v, _)) => Ok(v),
        Err(e) => Err(e),
    }
}

/// What a reader of a byte stream does with the bytes it has buffered.
pub enum FrameStep {
    /// The buffer starts with a whole frame: its value and its length.
    Frame(TaggedValue, usize),
    /// The buffer is empty or holds the start of a frame: read more.
    NeedMore,
    /// The buffer starts with a malformed frame: close the stream.
    Close(DecodeError),
}

/// The next step of a reader that has buffered `buf`.
pub fn next_frame(buf: &[u8]) -> (r: FrameStep)
    ensures
        match r {
            FrameStep::Frame(v, n) => spec_decode_frame(buf@) == Ok::<(TaggedView, nat), DecodeError>(
                (v@, n as nat),
            ),
            FrameStep::NeedMore => buf@.len() == 0 || spec_decode_frame(buf@) == Err::<
                (TaggedView, nat),
                DecodeError,
            >(DecodeError::Truncated),
            FrameStep::Close(e) => buf@.len() > 0 && e != DecodeError::Truncated
                && spec_decode_frame(buf@) == Err::<(TaggedView, nat), DecodeError>(e),
        },
{
    if buf.len() == 0 {
        return FrameStep::NeedMore;
    }
    match decode_frame(buf) {
        Ok((v, n)) => FrameStep::Frame(v, n),
        Err(DecodeError::Truncated) => FrameStep::NeedMore,
        Err(e) => FrameStep::Close(e),
    }
}

/// Decoding the frame of an encodable value gives that value back, and the
/// frame is read to its end.
pub proof fn lemma_round_trip(v: TaggedView)
    requires
        encodable(v),
    ensures
        spec_decode_frame(spec_encode(v)) == Ok::<(TaggedView, nat), DecodeError>(
            (v, spec_encode(v).len()),
        ),
        spec_decode(spec_encode(v)) == Ok::<TaggedView, DecodeError>(v),
{
    let chars = v.id->Str_0;
    let tag = encode_utf8(chars);
    let n: int = tag.len() as int;
    let m: int = v.bytes.len() as int;
    let b = spec_encode(v);
    let head = seq![TAG_START, STRING];
    lemma_be32_round_trip(n as u32);
    lemma_be32_round_trip(m as u32);
    encode_utf8_valid_utf8(chars);
    encode_utf8_decode_utf8(chars);
    assert(b.len() == 10 + n + m);
    assert(b[0] == TAG_START);
    assert(b[1] == STRING);
    assert(b.subrange(2, 6) =~= be32(n as u32));
    assert(length_at(b, 2) == n);
    assert(b.subrange(6 + n, 10 + n) =~= be32(m as u32));
    assert(length_at(b, 6 + n) == m);
    assert(b.subrange(6, 6 + n) =~= tag);
    assert(b.subrange(10 + n, 10 + n + m) =~= v.bytes);
    match v.id {
        TagView::Str(s) => {},
        TagView::Int(_) => {},
    }
}

/// Input that does not start with the marker byte, empty input included, is
/// refused as a bad marker.
pub proof fn lemma_bad_marker(b: Seq<u8>)
    requires
        b.len() == 0 || b[0] != TAG_START,
    ensures
        spec_decode(b) == Err::<TaggedView, DecodeError>(DecodeError::BadMarker),
{
}

} // verus!
