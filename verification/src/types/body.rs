//! Request and response payloads.
use vstd::prelude::*;
use vstd::utf8::encode_utf8;
use vstd::string::*;

verus! {

/// A payload: nothing, raw bytes, text, or a segment of a larger transfer.
#[derive(Debug)]
pub enum Body {
    Empty,
    Bytes(Vec<u8>),
    Text(String),
    Segment { offset: u64, total_size: Option<u64>, bytes: Vec<u8> },
}

/// The kind of a payload.
#[derive(Debug, Clone, Copy, PartialEq, Eq, Structural)]
pub enum BodyKind {
    Empty,
    Binary,
    Text,
    Segment,
}

/// What a payload holds.
pub enum BodyView {
    Empty,
    Bytes(Seq<u8>),
    Text(Seq<char>),
    Segment { offset: u64, total_size: Option<u64>, bytes: Seq<u8> },
}

impl View for Body {
    type V = BodyView;

    open spec fn view(&self) -> BodyView {
        match self {
            Body::Empty => BodyView::Empty,
            Body::Bytes(b) => BodyView::Bytes(b@),
            Body::Text(t) => BodyView::Text(t@),
            Body::Segment { offset, total_size, bytes } => BodyView::Segment {
                offset: *offset,
                total_size: *total_size,
                bytes: bytes@,
            },
        }
    }
}

impl BodyView {
    /// The bytes a payload puts on the wire (text as UTF-8).
    pub open spec fn wire_bytes(self) -> Seq<u8> {
        match self {
            BodyView::Empty => Seq::empty(),
            BodyView::Bytes(b) => b,
            BodyView::Text(t) => encode_utf8(t),
            BodyView::Segment { bytes, .. } => bytes,
        }
    }

    pub open spec fn kind(self) -> BodyKind {
        match self {
            BodyView::Empty => BodyKind::Empty,
            BodyView::Bytes(_) => BodyKind::Binary,
            BodyView::Text(_) => BodyKind::Text,
            BodyView::Segment { .. } => BodyKind::Segment,
        }
    }
}

/// A copy of a byte vector.
pub fn copy_bytes(v: &Vec<u8>) -> (r: Vec<u8>)
    ensures
        r@ == v@,
{
    let mut r: Vec<u8> = Vec::new();
    let mut i: usize = 0;
    while i < v.len()
        invariant
            i <= v@.len(),
            r@ == v@.take(i as int),
        decreases v.len() - i,
    {
        r.push(v[i]);
        assert(v@.take(i + 1) =~= v@.take(i as int).push(v@[i as int]));
        i = i + 1;
    }
    assert(v@.take(v@.len() as int) =~= v@);
    r
}

impl Clone for Body {
    fn clone(&self) -> (r: Self)
        ensures
            r@ == self@,
    {
        match self {
            Body::Empty => Body::Empty,
            Body::Bytes(b) => Body::Bytes(copy_bytes(b)),
            Body::Text(t) => Body::Text(t.clone()),
            Body::Segment { offset, total_size, bytes } => Body::Segment {
                offset: *offset,
                total_size: *total_size,
                bytes: copy_bytes(bytes),
            },
        }
    }
}

impl Body {
    /// The kind of the payload.
    pub fn kind(&self) -> (k: BodyKind)
        ensures
            k == self@.kind(),
    {
        match self {
            Body::Empty => BodyKind::Empty,
            Body::Bytes(_) => BodyKind::Binary,
            Body::Text(_) => BodyKind::Text,
            Body::Segment { .. } => BodyKind::Segment,
        }
    }

    /// Length of the payload in bytes (text counted as UTF-8).
    pub fn len(&self) -> (n: usize)
        ensures
            n == self@.wire_bytes().len() as usize,
    {
        match self {
            Body::Empty => 0,
            Body::Bytes(bytes) => bytes.len(),
            Body::Text(text) => text.as_str().len(),
            Body::Segment { bytes, .. } => bytes.len(),
        }
    }

    /// Whether the payload has no bytes.
    pub fn is_empty(&self) -> (r: bool)
        ensures
            r == (self@.wire_bytes().len() as usize == 0),
    {
        self.len() == 0
    }

    /// The payload's bytes (text as UTF-8).
    pub fn into_bytes(self) -> (r: Vec<u8>)
        ensures
            r@ == self@.wire_bytes(),
    {
        match self {
            Body::Empty => Vec::new(),
            Body::Bytes(bytes) => bytes,
            Body::Text(text) => text.as_str().as_bytes_vec(),
            Body::Segment { bytes, .. } => bytes,
        }
    }

    /// A payload of raw bytes.
    pub fn from_bytes(bytes: Vec<u8>) -> (b: Body)
        ensures
            b@ == BodyView::Bytes(bytes@),
    {
        Body::Bytes(bytes)
    }

    /// A text payload.
    pub fn from_text(text: String) -> (b: Body)
        ensures
            b@ == BodyView::Text(text@),
    {
        Body::Text(text)
    }

    /// A text payload copied from a string slice.
    pub fn from_str_slice(text: &str) -> (b: Body)
        ensures
            b@ == BodyView::Text(text@),
    {
        Body::Text(text.to_owned())
    }
}

impl From<Vec<u8>> for Body {
    fn from(bytes: Vec<u8>) -> (b: Body) {
        Body::Bytes(bytes)
    }
}

impl vstd::std_specs::convert::FromSpecImpl<Vec<u8>> for Body {
    open spec fn obeys_from_spec() -> bool {
        true
    }

    open spec fn from_spec(bytes: Vec<u8>) -> Body {
        Body::Bytes(bytes)
    }
}

impl From<String> for Body {
    fn from(text: String) -> (b: Body) {
        Body::Text(text)
    }
}

impl vstd::std_specs::convert::FromSpecImpl<String> for Body {
    open spec fn obeys_from_spec() -> bool {
        true
    }

    open spec fn from_spec(text: String) -> Body {
        Body::Text(text)
    }
}

impl Default for Body {
    fn default() -> (b: Self)
        ensures
            b@ == BodyView::Empty,
    {
        Body::Empty
    }
}

} // verus!
