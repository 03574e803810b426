//! The binary layout of a cached response on disk.
//!
//! An entry is the magic `ATLAS-CACHE-V1`, the expiry and stale deadlines
//! (u64 milliseconds), the status (u16), the body kind (u8), the segment offset
//! and total size (u64 each, `u64::MAX` for "unknown"), the number of headers
//! (u32), each header name and value as a u32 length and UTF-8 bytes, and the
//! body as a u32 length and bytes. Integers are little-endian.
use vstd::prelude::*;
use vstd::utf8::{decode_utf8, encode_utf8, valid_utf8};
use vstd::string::StrSliceExecFns;
use crate::error::NetError;
use crate::text::{push_str, u64_decimal};
use crate::types::body::{Body, BodyView};
use crate::types::headers::{header_key, Headers};
use crate::types::response::{fresh_response, Response, ResponseView};

verus! {

/// `256^n`.
pub open spec fn pow256(n: nat) -> nat
    decreases n,
{
    if n == 0 { 1 } else { 256 * pow256((n - 1) as nat) }
}

/// The `n` lowest bytes of `v`, least significant first.
pub open spec fn le_bytes(v: nat, n: nat) -> Seq<u8>
    decreases n,
{
    if n == 0 { Seq::empty() } else { seq![(v % 256) as u8] + le_bytes(v / 256, (n - 1) as nat) }
}

/// The value of little-endian bytes.
pub open spec fn le_value(s: Seq<u8>) -> nat
    decreases s.len(),
{
    if s.len() == 0 { 0 } else { s[0] as nat + 256 * le_value(s.drop_first()) }
}

pub proof fn lemma_le_roundtrip(v: nat, n: nat)
    requires
        v < pow256(n),
    ensures
        le_bytes(v, n).len() == n,
        le_value(le_bytes(v, n)) == v,
    decreases n,
{
    if n > 0 {
        assert(v / 256 < pow256((n - 1) as nat)) by (nonlinear_arith)
            requires v < 256 * pow256((n - 1) as nat);
        lemma_le_roundtrip(v / 256, (n - 1) as nat);
        let s = le_bytes(v, n);
        assert(s.drop_first() =~= le_bytes(v / 256, (n - 1) as nat));
        assert(v == v % 256 + 256 * (v / 256)) by (nonlinear_arith);
    }
}

pub proof fn lemma_le_len(v: nat, n: nat)
    ensures
        le_bytes(v, n).len() == n,
    decreases n,
{
    if n > 0 {
        lemma_le_len(v / 256, (n - 1) as nat);
    }
}

pub proof fn lemma_le_value_bound(s: Seq<u8>)
    ensures
        le_value(s) < pow256(s.len()),
    decreases s.len(),
{
    if s.len() > 0 {
        lemma_le_value_bound(s.drop_first());
        let r = le_value(s.drop_first());
        let p = pow256((s.len() - 1) as nat);
        assert(s[0] as nat + 256 * r < 256 * p) by (nonlinear_arith)
            requires r < p, s[0] < 256;
    }
}

/// Bytes of the magic that starts every entry (`ATLAS-CACHE-V1`).
pub open spec fn magic() -> Seq<u8> {
    seq![65u8, 84u8, 76u8, 65u8, 83u8, 45u8, 67u8, 65u8, 67u8, 72u8, 69u8, 45u8, 86u8, 49u8]
}

/// A byte string preceded by its length as four little-endian bytes (the
/// length taken modulo 2^32, as `as u32` does).
pub open spec fn framed(b: Seq<u8>) -> Seq<u8> {
    le_bytes(b.len(), 4) + b
}

/// The header section: each name and value framed, in stored order.
pub open spec fn header_block(s: Seq<(String, String)>) -> Seq<u8>
    decreases s.len(),
{
    if s.len() == 0 {
        Seq::empty()
    } else {
        header_block(s.drop_last()) + framed(encode_utf8(s.last().0@)) + framed(encode_utf8(s.last().1@))
    }
}

/// Body kind code, segment offset, total size and bytes of a payload.
pub open spec fn body_kind_code(b: BodyView) -> u8 {
    match b {
        BodyView::Empty => 0,
        BodyView::Bytes(_) => 1,
        BodyView::Text(_) => 2,
        BodyView::Segment { .. } => 3,
    }
}

pub open spec fn body_offset(b: BodyView) -> u64 {
    match b {
        BodyView::Segment { offset, .. } => offset,
        _ => 0,
    }
}

pub open spec fn body_total(b: BodyView) -> Option<u64> {
    match b {
        BodyView::Segment { total_size, .. } => total_size,
        _ => None,
    }
}

/// The bytes of an entry that holds `status`, the stored header pairs, `body`
/// and the two deadlines.
pub open spec fn encoded_entry(
    status: u16,
    headers: Seq<(String, String)>,
    body: BodyView,
    expires_at_ms: u64,
    stale_until_ms: u64,
) -> Seq<u8> {
    let total = match body_total(body) {
        Some(t) => t,
        None => u64::MAX,
    };
    magic() + le_bytes(expires_at_ms as nat, 8) + le_bytes(stale_until_ms as nat, 8) + le_bytes(status as nat, 2)
        + seq![body_kind_code(body)] + le_bytes(body_offset(body) as nat, 8) + le_bytes(total as nat, 8)
        + le_bytes(headers.len(), 4) + header_block(headers) + framed(body.wire_bytes())
}

/// A cached response with the deadlines after which it is stale and gone.
#[derive(Debug)]
pub struct DiskCacheEntry {
    pub response: Response,
    pub expires_at_ms: u64,
    pub stale_until_ms: u64,
}

/// The fields of an entry as read from bytes, before any UTF-8 is checked.
pub struct RawEntry {
    pub expires_at_ms: u64,
    pub stale_until_ms: u64,
    pub status: u16,
    pub kind: u8,
    pub offset: u64,
    pub total_raw: u64,
    pub headers: Seq<(Seq<u8>, Seq<u8>)>,
    pub body: Seq<u8>,
}

/// A length-prefixed byte string at `pos`, and the position after it.
pub open spec fn read_frame(b: Seq<u8>, pos: int) -> Option<(Seq<u8>, int)> {
    if 0 <= pos && pos + 4 <= b.len() {
        let n = le_value(b.subrange(pos, pos + 4));
        if pos + 4 + n <= b.len() {
            Some((b.subrange(pos + 4, pos + 4 + n), pos + 4 + n))
        } else {
            None
        }
    } else {
        None
    }
}

/// `count` name/value frames from `pos`, and the position after them.
pub open spec fn read_header_frames(b: Seq<u8>, pos: int, count: nat) -> Option<(Seq<(Seq<u8>, Seq<u8>)>, int)>
    decreases count,
{
    if count == 0 {
        Some((Seq::empty(), pos))
    } else {
        match read_header_frames(b, pos, (count - 1) as nat) {
            None => None,
            Some(prev) => match read_frame(b, prev.1) {
                None => None,
                Some(k) => match read_frame(b, k.1) {
                    None => None,
                    Some(v) => Some((prev.0.push((k.0, v.0)), v.1)),
                },
            },
        }
    }
}

/// The little-endian value of `n` bytes at `pos`.
pub open spec fn field(b: Seq<u8>, pos: int, n: int) -> nat {
    le_value(b.subrange(pos, pos + n))
}

/// Reads the fixed fields, headers and body; bytes after the body are ignored.
pub open spec fn read_raw_entry(b: Seq<u8>) -> Option<RawEntry> {
    if b.len() < 53 || b.subrange(0, 14) != magic() {
        None
    } else {
        match read_header_frames(b, 53, field(b, 49, 4)) {
            None => None,
            Some(hs) => match read_frame(b, hs.1) {
                None => None,
                Some(body) => Some(RawEntry {
                    expires_at_ms: field(b, 14, 8) as u64,
                    stale_until_ms: field(b, 22, 8) as u64,
                    status: field(b, 30, 2) as u16,
                    kind: b[32],
                    offset: field(b, 33, 8) as u64,
                    total_raw: field(b, 41, 8) as u64,
                    headers: hs.0,
                    body: body.0,
                }),
            },
        }
    }
}

/// Every header name and value is valid UTF-8.
pub open spec fn headers_utf8(hs: Seq<(Seq<u8>, Seq<u8>)>) -> bool {
    forall|i: int| #![trigger hs[i]] 0 <= i < hs.len() ==> valid_utf8(hs[i].0) && valid_utf8(hs[i].1)
}

/// The headers that reading the pairs in order produces (names normalised).
pub open spec fn decoded_headers(hs: Seq<(Seq<u8>, Seq<u8>)>) -> Map<Seq<char>, Seq<char>>
    decreases hs.len(),
{
    if hs.len() == 0 {
        Map::empty()
    } else {
        decoded_headers(hs.drop_last()).insert(header_key(decode_utf8(hs.last().0)), decode_utf8(hs.last().1))
    }
}

/// Whether the body fields describe a payload this format knows.
pub open spec fn body_readable(r: RawEntry) -> bool {
    r.kind <= 3 && (r.kind == 2 ==> valid_utf8(r.body))
}

/// The payload the body fields describe.
pub open spec fn decoded_body(r: RawEntry) -> BodyView {
    if r.kind == 0 {
        BodyView::Empty
    } else if r.kind == 1 {
        BodyView::Bytes(r.body)
    } else if r.kind == 2 {
        BodyView::Text(decode_utf8(r.body))
    } else {
        BodyView::Segment {
            offset: r.offset,
            total_size: if r.total_raw == u64::MAX { None } else { Some(r.total_raw) },
            bytes: r.body,
        }
    }
}

/// Whether the bytes hold a readable entry.
pub open spec fn decodable(b: Seq<u8>) -> bool {
    match read_raw_entry(b) {
        Some(r) => headers_utf8(r.headers) && body_readable(r),
        None => false,
    }
}

/// What reading a readable entry gives: its deadlines, status, headers and
/// payload, with a fresh provenance and fresh metrics.
pub open spec fn decoded_entry_matches(e: DiskCacheEntry, r: RawEntry) -> bool {
    &&& e.expires_at_ms == r.expires_at_ms
    &&& e.stale_until_ms == r.stale_until_ms
    &&& fresh_response(r.status, ResponseView { headers: Map::empty(), body: BodyView::Empty, ..e.response@ })
    &&& e.response@.headers == decoded_headers(r.headers)
    &&& e.response@.body == decoded_body(r)
}

/// Appends the `n` lowest bytes of `v`, least significant first.
fn write_le(out: &mut Vec<u8>, v: u64, n: usize)
    requires
        n <= 8,
    ensures
        final(out)@ == old(out)@ + le_bytes(v as nat, n as nat),
{
    let mut x = v;
    let mut i: usize = 0;
    let ghost start = old(out)@;
    proof {
        assert(start + le_bytes(v as nat, 0) =~= start);
    }
    while i < n
        invariant
            i <= n <= 8,
            out@ + le_bytes(x as nat, (n - i) as nat) == start + le_bytes(v as nat, n as nat),
        decreases n - i,
    {
        let ghost before = out@;
        out.push((x % 256) as u8);
        proof {
            assert(le_bytes(x as nat, (n - i) as nat) =~= seq![(x % 256) as u8] + le_bytes((x / 256) as nat, (n - i - 1) as nat));
            assert(out@ + le_bytes((x / 256) as nat, (n - i - 1) as nat) =~= before + le_bytes(x as nat, (n - i) as nat));
        }
        x = x / 256;
        i = i + 1;
    }
    proof {
        assert(out@ + le_bytes(x as nat, 0) =~= out@);
    }
}

/// Appends a byte string preceded by its length.
fn write_frame(out: &mut Vec<u8>, bytes: &[u8])
    ensures
        final(out)@ == old(out)@ + framed(bytes@),
{
    write_le(out, bytes.len() as u64, 4);
    let ghost mid = out@;
    let mut i: usize = 0;
    while i < bytes.len()
        invariant
            i <= bytes@.len(),
            out@ == mid + bytes@.take(i as int),
        decreases bytes.len() - i,
    {
        out.push(bytes[i]);
        assert(bytes@.take(i + 1) =~= bytes@.take(i as int).push(bytes@[i as int]));
        i = i + 1;
    }
    assert(bytes@.take(bytes@.len() as int) =~= bytes@);
}

impl DiskCacheEntry {
    /// The entry's bytes.
    pub fn encode(&self) -> (r: Vec<u8>)
        ensures
            r@ == encoded_entry(
                self.response.status,
                self.response.headers.entry_seq(),
                self.response.body@,
                self.expires_at_ms,
                self.stale_until_ms,
            ),
    {
        let mut out: Vec<u8> = Vec::new();
        let m: [u8; 14] = [65, 84, 76, 65, 83, 45, 67, 65, 67, 72, 69, 45, 86, 49];
        write_frame_raw(&mut out, &m);
        write_le(&mut out, self.expires_at_ms, 8);
        write_le(&mut out, self.stale_until_ms, 8);
        write_le(&mut out, self.response.status as u64, 2);
        let (kind, offset, total, body_bytes) = encode_body(&self.response.body);
        out.push(kind);
        write_le(&mut out, offset, 8);
        let t: u64 = match total {
            Some(t) => t,
            None => u64::MAX,
        };
        write_le(&mut out, t, 8);
        let entries = self.response.headers.iter();
        write_le(&mut out, entries.len() as u64, 4);
        let ghost before_headers = out@;
        let mut i: usize = 0;
        while i < entries.len()
            invariant
                i <= entries@.len(),
                out@ == before_headers + header_block(entries@.take(i as int)),
            decreases entries.len() - i,
        {
            let k = entries[i].0.as_str().as_bytes_vec();
            let v = entries[i].1.as_str().as_bytes_vec();
            write_frame(&mut out, k.as_slice());
            write_frame(&mut out, v.as_slice());
            proof {
                assert(entries@.take(i + 1).drop_last() =~= entries@.take(i as int));
            }
            i = i + 1;
        }
        assert(entries@.take(entries@.len() as int) =~= entries@);
        write_frame(&mut out, body_bytes.as_slice());
        proof {
            assert(m@ =~= magic());
            assert(out@ =~= encoded_entry(
                self.response.status,
                self.response.headers.entry_seq(),
                self.response.body@,
                self.expires_at_ms,
                self.stale_until_ms,
            ));
        }
        out
    }
}

proof fn lemma_pow_positive(n: nat)
    ensures
        pow256(n) > 0,
    decreases n,
{
    if n > 0 {
        lemma_pow_positive((n - 1) as nat);
    }
}

/// Appends raw bytes.
fn write_frame_raw(out: &mut Vec<u8>, bytes: &[u8])
    ensures
        final(out)@ == old(out)@ + bytes@,
{
    let ghost start = old(out)@;
    let mut i: usize = 0;
    while i < bytes.len()
        invariant
            i <= bytes@.len(),
            out@ == start + bytes@.take(i as int),
        decreases bytes.len() - i,
    {
        out.push(bytes[i]);
        assert(bytes@.take(i + 1) =~= bytes@.take(i as int).push(bytes@[i as int]));
        i = i + 1;
    }
    assert(bytes@.take(bytes@.len() as int) =~= bytes@);
}

/// Kind code, segment offset, total size and bytes of a payload.
pub fn encode_body(body: &Body) -> (r: (u8, u64, Option<u64>, Vec<u8>))
    ensures
        r.0 == body_kind_code(body@),
        r.1 == body_offset(body@),
        r.2 == body_total(body@),
        r.3@ == body@.wire_bytes(),
{
    match body {
        Body::Empty => (0, 0, None, Vec::new()),
        Body::Bytes(bytes) => (1, 0, None, crate::types::body::copy_bytes(bytes)),
        Body::Text(text) => (2, 0, None, text.as_str().as_bytes_vec()),
        Body::Segment { offset, total_size, bytes } => (3, *offset, *total_size, crate::types::body::copy_bytes(bytes)),
    }
}


pub uninterp spec fn utf8_error_text(bytes: Seq<u8>) -> Seq<char>;

/// `String::from_utf8`: succeeds exactly on valid UTF-8 and then holds the
/// decoded characters; on failure gives the error's text, which depends on the
/// bytes alone.
#[verifier::external_body]
fn utf8_string(bytes: Vec<u8>) -> (r: Result<String, String>)
    ensures
        r is Ok <==> valid_utf8(bytes@),
        r matches Ok(s) ==> s@ == decode_utf8(bytes@),
        r matches Err(m) ==> m@ == utf8_error_text(bytes@),
{
    match String::from_utf8(bytes) {
        Ok(s) => Ok(s),
        Err(e) => Err(e.to_string()),
    }
}

/// The little-endian value of `n` bytes at `pos`, if they are there.
fn read_le(b: &[u8], pos: usize, n: usize) -> (r: Option<u64>)
    requires
        n <= 8,
    ensures
        pos + n <= b@.len() ==> r == Some(field(b@, pos as int, n as int) as u64)
            && field(b@, pos as int, n as int) < pow256(n as nat),
        pos + n > b@.len() ==> r is None,
{
    if pos > b.len() || n > b.len() - pos {
        return None;
    }
    let ghost s = b@.subrange(pos as int, pos + n);
    let mut acc: u64 = 0;
    let mut k: usize = n;
    proof {
        assert(s.skip(n as int) =~= Seq::<u8>::empty());
    }
    while k > 0
        invariant
            k <= n <= 8,
            pos + n <= b@.len(),
            pos + n <= b.len(),
            s == b@.subrange(pos as int, pos + n),
            acc == le_value(s.skip(k as int)),
            le_value(s.skip(k as int)) < pow256((n - k) as nat),
        decreases k,
    {
        let ghost rest = s.skip(k as int);
        proof {
            assert(s.skip(k - 1).drop_first() =~= rest);
            lemma_le_value_bound(s.skip(k - 1));
            lemma_pow_small((n - k + 1) as nat);
        }
        let byte = b[pos + k - 1];
        assert(byte == s.skip(k - 1)[0]);
        acc = (byte as u64) + 256 * acc;
        k = k - 1;
    }
    proof {
        assert(s.skip(0) =~= s);
    }
    Some(acc)
}

proof fn lemma_pow_small(n: nat)
    requires
        n <= 8,
    ensures
        pow256(n) <= 0x1_0000_0000_0000_0000,
        n >= 1 ==> pow256(n) == 256 * pow256((n - 1) as nat),
    decreases n,
{
    reveal_with_fuel(pow256, 9);
    if n >= 1 {
        lemma_pow_small((n - 1) as nat);
    }
}

/// The length-prefixed byte string at `pos` and the position after it.
fn read_frame_at(b: &[u8], pos: usize) -> (r: Option<(Vec<u8>, usize)>)
    ensures
        match read_frame(b@, pos as int) {
            Some(f) => r matches Some(x) && x.0@ == f.0 && x.1 == f.1,
            None => r is None,
        },
{
    let n = match read_le(b, pos, 4) {
        Some(n) => n,
        None => return None,
    };
    assert(pos + 4 <= b.len());
    assert(b@.len() == b.len());
    proof {
        lemma_pow_small(4);
        reveal_with_fuel(pow256, 5);
    }
    let start = pos + 4;
    if n > (b.len() - start) as u64 {
        return None;
    }
    let nn = n as usize;
    assert(nn == n);
    let end = start + nn;
    let mut out: Vec<u8> = Vec::new();
    let mut i = start;
    while i < end
        invariant
            start <= i <= end <= b@.len(),
            out@ == b@.subrange(start as int, i as int),
        decreases end - i,
    {
        out.push(b[i]);
        assert(b@.subrange(start as int, i + 1) =~= b@.subrange(start as int, i as int).push(b@[i as int]));
        i = i + 1;
    }
    Some((out, end))
}

pub proof fn lemma_frames_prefix(b: Seq<u8>, p: int, m: nat, n: nat)
    requires
        m <= n,
        read_header_frames(b, p, n) is Some,
    ensures
        read_header_frames(b, p, m) is Some,
        read_header_frames(b, p, n).unwrap().0.len() == n,
        read_header_frames(b, p, n).unwrap().0.take(m as int) == read_header_frames(b, p, m).unwrap().0,
    decreases n,
{
    if n > 0 {
        lemma_frames_prefix(b, p, (n - 1) as nat, (n - 1) as nat);
        if m < n {
            lemma_frames_prefix(b, p, m, (n - 1) as nat);
            let prev = read_header_frames(b, p, (n - 1) as nat).unwrap().0;
            let all = read_header_frames(b, p, n).unwrap().0;
            assert(all.take(m as int) =~= prev.take(m as int));
        } else {
            let all = read_header_frames(b, p, n).unwrap().0;
            assert(all.take(m as int) =~= all);
        }
    }
}

pub proof fn lemma_frames_stop(b: Seq<u8>, p: int, m: nat, n: nat)
    requires
        m <= n,
        read_header_frames(b, p, m) is None,
    ensures
        read_header_frames(b, p, n) is None,
    decreases n,
{
    if n > m {
        lemma_frames_stop(b, p, m, (n - 1) as nat);
    }
}

fn cache_error(message: &str) -> (e: NetError)
    ensures
        e matches NetError::Cache(m) && m@ == message@,
{
    NetError::Cache(message.to_owned())
}

/// The payload that the body fields describe.
pub fn decode_body(kind: u8, offset: u64, total_size_raw: u64, bytes: Vec<u8>) -> (r: Result<Body, NetError>)
    ensures
        r is Ok <==> (kind <= 3 && (kind == 2 ==> valid_utf8(bytes@))),
        r matches Ok(b) ==> b@ == decoded_body(RawEntry {
            expires_at_ms: 0,
            stale_until_ms: 0,
            status: 0,
            kind,
            offset,
            total_raw: total_size_raw,
            headers: Seq::empty(),
            body: bytes@,
        }),
        r matches Err(NetError::Cache(m)) ==> kind == 2 && m@ == "invalid text body in cache: "@ + utf8_error_text(bytes@)
            || kind > 3 && m@ == "unsupported cached body kind `"@ + crate::text::decimal(kind as nat) + "`"@,
        r is Err ==> r->Err_0 is Cache,
{
    if kind == 0 {
        Ok(Body::Empty)
    } else if kind == 1 {
        Ok(Body::Bytes(bytes))
    } else if kind == 2 {
        match utf8_string(bytes) {
            Ok(text) => Ok(Body::Text(text)),
            Err(e) => {
                let mut m = "invalid text body in cache: ".to_owned();
                push_str(&mut m, e.as_str());
                Err(NetError::Cache(m))
            },
        }
    } else if kind == 3 {
        Ok(Body::Segment {
            offset,
            total_size: if total_size_raw == u64::MAX { None } else { Some(total_size_raw) },
            bytes,
        })
    } else {
        let mut m = "unsupported cached body kind `".to_owned();
        let d = u64_decimal(kind as u64);
        push_str(&mut m, d.as_str());
        push_str(&mut m, "`");
        Err(NetError::Cache(m))
    }
}

impl DiskCacheEntry {
    /// Reads an entry; fails with a cache error unless the bytes hold one.
    pub fn decode(bytes: &[u8]) -> (r: Result<DiskCacheEntry, NetError>)
        ensures
            r is Ok <==> decodable(bytes@),
            r matches Ok(e) ==> decoded_entry_matches(e, read_raw_entry(bytes@).unwrap()),
            r is Err ==> r->Err_0 is Cache,
            bytes@.len() < 14 ==> (r matches Err(NetError::Cache(m)) && m@ == "invalid cache magic: failed to fill whole buffer"@),
            bytes@.len() >= 14 && bytes@.subrange(0, 14) != magic() ==> (r matches Err(NetError::Cache(m))
                && m@ == "unrecognized disk cache version"@),
            14 <= bytes@.len() < 53 && bytes@.subrange(0, 14) == magic() ==> (r matches Err(NetError::Cache(m))
                && m@ == "failed to fill whole buffer"@),
    {
        let b = bytes;
        if b.len() < 14 {
            return Err(cache_error("invalid cache magic: failed to fill whole buffer"));
        }
        let m: [u8; 14] = [65, 84, 76, 65, 83, 45, 67, 65, 67, 72, 69, 45, 86, 49];
        let mut i: usize = 0;
        while i < 14
            invariant
                b@ == bytes@,
                i <= 14 <= b@.len(),
                m@ == magic(),
                forall|j: int| 0 <= j < i ==> b@[j] == magic()[j],
            decreases 14 - i,
        {
            if b[i] != m[i] {
                proof {
                    assert(b@.subrange(0, 14)[i as int] != magic()[i as int]);
                }
                proof {
                    assert(b@.subrange(0, 14) != magic());
                    assert(read_raw_entry(b@) is None);
                }
                return Err(cache_error("unrecognized disk cache version"));
            }
            i = i + 1;
        }
        assert(b@.subrange(0, 14) =~= magic());
        if b.len() < 53 {
            return Err(cache_error("failed to fill whole buffer"));
        }
        let expires_at_ms = read_le(b, 14, 8).unwrap();
        let stale_until_ms = read_le(b, 22, 8).unwrap();
        let status = read_le(b, 30, 2).unwrap();
        let kind = b[32];
        let offset = read_le(b, 33, 8).unwrap();
        let total_raw = read_le(b, 41, 8).unwrap();
        let count = read_le(b, 49, 4).unwrap();
        proof {
            lemma_pow_small(2);
            lemma_pow_small(4);
            lemma_pow_small(8);
            assert(b@.subrange(32, 33) =~= seq![b@[32]]);
        }
        let mut response = Response::new(status as u16);
        let mut pos: usize = 53;
        let mut h: u64 = 0;
        let ghost mut hs: Seq<(Seq<u8>, Seq<u8>)> = Seq::empty();
        while h < count
            invariant
                b@ == bytes@,
                b@.len() >= 53,
                b@.subrange(0, 14) == magic(),
                count == field(b@, 49, 4),
                h <= count,
                read_header_frames(b@, 53, h as nat) == Some((hs, pos as int)),
                headers_utf8(hs),
                response@.headers == decoded_headers(hs),
                fresh_response(status as u16, ResponseView { headers: Map::empty(), body: BodyView::Empty, ..response@ }),
                response@.body == BodyView::Empty,
            decreases count - h,
        {
            let (kb, p1) = match read_frame_at(b, pos) {
                Some(x) => x,
                None => {
                    proof {
                        assert(read_frame(b@, pos as int) is None);
                        assert(read_header_frames(b@, 53, (h + 1) as nat) is None);
                        lemma_frames_stop(b@, 53, (h + 1) as nat, count as nat);
                        assert(read_raw_entry(b@) is None);
                    }
                    return Err(cache_error("failed to fill whole buffer"));
                },
            };
            let (vb, p2) = match read_frame_at(b, p1) {
                Some(x) => x,
                None => {
                    proof {
                        assert(read_frame(b@, p1 as int) is None);
                        assert(read_header_frames(b@, 53, (h + 1) as nat) is None);
                        lemma_frames_stop(b@, 53, (h + 1) as nat, count as nat);
                        assert(read_raw_entry(b@) is None);
                    }
                    return Err(cache_error("failed to fill whole buffer"));
                },
            };
            let ghost next = hs.push((kb@, vb@));
            proof {
                assert(read_header_frames(b@, 53, (h + 1) as nat) == Some((next, p2 as int)));
            }
            let key = match utf8_string(kb) {
                Ok(s) => s,
                Err(e) => {
                    proof {
                        if decodable(b@) {
                            let raw = read_raw_entry(b@).unwrap();
                            assert(read_header_frames(b@, 53, count as nat) is Some);
                            let all = read_header_frames(b@, 53, count as nat).unwrap().0;
                            assert(raw.headers == all);
                            lemma_frames_prefix(b@, 53, (h + 1) as nat, count as nat);
                            assert(all.take(h + 1) == next);
                            assert(all[h as int] == next[h as int]);
                            assert(headers_utf8(raw.headers));
                            assert(valid_utf8(all[h as int].0));
                            assert(false);
                        }
                    }
                    let mut m = "invalid string in cache: ".to_owned();
                    push_str(&mut m, e.as_str());
                    return Err(NetError::Cache(m));
                },
            };
            let value = match utf8_string(vb) {
                Ok(s) => s,
                Err(e) => {
                    proof {
                        if decodable(b@) {
                            let raw = read_raw_entry(b@).unwrap();
                            assert(read_header_frames(b@, 53, count as nat) is Some);
                            let all = read_header_frames(b@, 53, count as nat).unwrap().0;
                            assert(raw.headers == all);
                            lemma_frames_prefix(b@, 53, (h + 1) as nat, count as nat);
                            assert(all.take(h + 1) == next);
                            assert(all[h as int] == next[h as int]);
                            assert(headers_utf8(raw.headers));
                            assert(valid_utf8(all[h as int].1));
                            assert(false);
                        }
                    }
                    let mut m = "invalid string in cache: ".to_owned();
                    push_str(&mut m, e.as_str());
                    return Err(NetError::Cache(m));
                },
            };
            response.headers.insert(key, value);
            proof {
                assert(next.drop_last() =~= hs);
                hs = next;
            }
            pos = p2;
            h = h + 1;
        }
        let (body_bytes, _end) = match read_frame_at(b, pos) {
            Some(x) => x,
            None => return Err(cache_error("failed to fill whole buffer")),
        };
        let ghost raw = read_raw_entry(b@).unwrap();
        let ghost body_view = body_bytes@;
        let body = decode_body(kind, offset, total_raw, body_bytes)?;
        proof {
            assert(raw.headers == hs);
            assert(raw.body == body_view);
        }
        response.body = body;
        Ok(DiskCacheEntry { response, expires_at_ms, stale_until_ms })
    }
}


/// The encoded name and value bytes of each stored header pair.
pub open spec fn encoded_pairs(s: Seq<(String, String)>) -> Seq<(Seq<u8>, Seq<u8>)> {
    s.map_values(|e: (String, String)| (encode_utf8(e.0@), encode_utf8(e.1@)))
}

proof fn lemma_pow_values()
    ensures
        pow256(2) == 0x1_0000,
        pow256(4) == 0x1_0000_0000,
        pow256(8) == 0x1_0000_0000_0000_0000,
{
    reveal_with_fuel(pow256, 9);
}

proof fn lemma_frame_read(b: Seq<u8>, pos: int, x: Seq<u8>)
    requires
        0 <= pos,
        pos + 4 + x.len() <= b.len(),
        b.subrange(pos, pos + 4 + x.len()) == framed(x),
        x.len() < 0x1_0000_0000,
    ensures
        read_frame(b, pos) == Some((x, pos + 4 + x.len())),
{
    lemma_pow_values();
    lemma_le_roundtrip(x.len(), 4);
    let f = framed(x);
    assert(b.subrange(pos, pos + 4) =~= f.subrange(0, 4));
    assert(f.subrange(0, 4) =~= le_bytes(x.len(), 4));
    let n: int = x.len() as int;
    assert(b.subrange(pos + 4, pos + 4 + n) =~= f.subrange(4, 4 + n));
    assert(f.subrange(4, 4 + n) =~= x);
}

proof fn lemma_block_prefix(s: Seq<(String, String)>, j: int)
    requires
        0 <= j <= s.len(),
    ensures
        header_block(s.take(j)).len() <= header_block(s).len(),
        header_block(s).subrange(0, header_block(s.take(j)).len() as int) == header_block(s.take(j)),
    decreases s.len(),
{
    if j == s.len() {
        assert(s.take(j) =~= s);
        assert(header_block(s).subrange(0, header_block(s).len() as int) =~= header_block(s));
    } else {
        let d = s.drop_last();
        assert(s.take(j) =~= d.take(j));
        lemma_block_prefix(d, j);
        let hd = header_block(d);
        let whole = header_block(s);
        let l = header_block(d.take(j)).len() as int;
        assert(whole.subrange(0, l) =~= hd.subrange(0, l));
    }
}

#[verifier::spinoff_prover]
#[verifier::rlimit(40)]
proof fn lemma_read_headers(b: Seq<u8>, s: Seq<(String, String)>, k: nat)
    requires
        k <= s.len(),
        53 + header_block(s).len() <= b.len(),
        b.subrange(53, 53 + header_block(s).len() as int) == header_block(s),
        forall|i: int| 0 <= i < s.len() ==> encode_utf8(#[trigger] s[i].0@).len() < 0x1_0000_0000
            && encode_utf8(s[i].1@).len() < 0x1_0000_0000,
    ensures
        read_header_frames(b, 53, k) == Some((encoded_pairs(s.take(k as int)), 53 + header_block(s.take(k as int)).len() as int)),
    decreases k,
{
    if k == 0 {
        assert(s.take(0) =~= Seq::<(String, String)>::empty());
        assert(encoded_pairs(s.take(0)) =~= Seq::<(Seq<u8>, Seq<u8>)>::empty());
    } else {
        lemma_read_headers(b, s, (k - 1) as nat);
        let t = s.take(k as int);
        let prev = s.take(k - 1);
        assert(t.drop_last() =~= prev);
        let kb = encode_utf8(s[k - 1].0@);
        let vb = encode_utf8(s[k - 1].1@);
        assert(t.last() == s[k - 1]);
        let hp = header_block(prev);
        let ht = header_block(t);
        assert(ht == hp + framed(kb) + framed(vb));
        lemma_block_prefix(s, k as int);
        let whole = header_block(s);
        let fk = framed(kb);
        let fv = framed(vb);
        let a: int = hp.len() as int;
        let c: int = fk.len() as int;
        let d: int = fv.len() as int;
        let p: int = 53 + a;
        assert(b.subrange(p, p + c) =~= whole.subrange(a, a + c));
        assert(whole.subrange(a, a + c) =~= ht.subrange(a, a + c));
        assert(ht.subrange(a, a + c) =~= fk);
        lemma_le_len(kb.len(), 4);
        lemma_le_len(vb.len(), 4);
        lemma_frame_read(b, p, kb);
        let q: int = p + c;
        assert(b.subrange(q, q + d) =~= whole.subrange(a + c, a + c + d));
        assert(whole.subrange(a + c, a + c + d) =~= ht.subrange(a + c, a + c + d));
        assert(ht.subrange(a + c, a + c + d) =~= fv);
        lemma_frame_read(b, q, vb);
        assert(encoded_pairs(t) =~= encoded_pairs(prev).push((kb, vb)));
    }
}

proof fn lemma_decoded_pairs(s: Seq<(String, String)>)
    requires
        crate::strmap::unique_keys(s),
        forall|i: int| 0 <= i < s.len() ==> header_key(#[trigger] s[i].0@) == s[i].0@,
    ensures
        decoded_headers(encoded_pairs(s)) == crate::strmap::text_values(crate::strmap::entries_map(s)),
        headers_utf8(encoded_pairs(s)),
    decreases s.len(),
{
    broadcast use vstd::utf8::encode_utf8_decode_utf8, vstd::utf8::encode_utf8_valid_utf8;
    if s.len() == 0 {
        assert(crate::strmap::text_values(crate::strmap::entries_map(s)) =~= Map::<Seq<char>, Seq<char>>::empty());
    } else {
        let d = s.drop_last();
        assert(crate::strmap::unique_keys(d));
        lemma_decoded_pairs(d);
        assert(encoded_pairs(s).drop_last() =~= encoded_pairs(d));
        assert(s =~= d.push(s.last()));
        assert(!crate::strmap::has_key(d, s.last().0@)) by {
            if crate::strmap::has_key(d, s.last().0@) {
                let i = choose|i: int| 0 <= i < d.len() && d[i].0@ == s.last().0@;
                assert(s[i].0@ == s[s.len() - 1].0@);
            }
        }
        crate::strmap::lemma_push_new(d, s.last().0, s.last().1);
        assert(header_key(s[s.len() - 1].0@) == s[s.len() - 1].0@);
        assert(crate::strmap::text_values(crate::strmap::entries_map(s)) =~=
            crate::strmap::text_values(crate::strmap::entries_map(d)).insert(s.last().0@, s.last().1@));
    }
}

/// Reading back what was written: the bytes of an entry are readable and give
/// back its deadlines, status, headers and payload. This holds when every
/// header name, header value and the payload are shorter than 2^32 bytes,
/// there are fewer than 2^32 headers, the header names are unique and in
/// stored form (as `Headers` keeps them), and a segment does not state a total
/// size of `u64::MAX`, the value the format reserves for an unknown size.
#[verifier::spinoff_prover]
#[verifier::rlimit(60)]
pub proof fn lemma_entry_roundtrip(
    status: u16,
    headers: Seq<(String, String)>,
    body: BodyView,
    expires_at_ms: u64,
    stale_until_ms: u64,
)
    requires
        crate::strmap::unique_keys(headers),
        forall|i: int| 0 <= i < headers.len() ==> header_key(#[trigger] headers[i].0@) == headers[i].0@,
        forall|i: int| 0 <= i < headers.len() ==> encode_utf8(#[trigger] headers[i].0@).len() < 0x1_0000_0000
            && encode_utf8(headers[i].1@).len() < 0x1_0000_0000,
        headers.len() < 0x1_0000_0000,
        body.wire_bytes().len() < 0x1_0000_0000,
        body_total(body) != Some(u64::MAX),
    ensures
        decodable(encoded_entry(status, headers, body, expires_at_ms, stale_until_ms)),
        read_raw_entry(encoded_entry(status, headers, body, expires_at_ms, stale_until_ms)) matches Some(r)
            && r.expires_at_ms == expires_at_ms
            && r.stale_until_ms == stale_until_ms
            && r.status == status
            && decoded_headers(r.headers) == crate::strmap::text_values(crate::strmap::entries_map(headers))
            && decoded_body(r) == body,
{
    broadcast use vstd::utf8::encode_utf8_decode_utf8, vstd::utf8::encode_utf8_valid_utf8;
    lemma_pow_values();
    let total: u64 = match body_total(body) {
        Some(t) => t,
        None => u64::MAX,
    };
    let kind = body_kind_code(body);
    let e1 = le_bytes(expires_at_ms as nat, 8);
    let e2 = le_bytes(stale_until_ms as nat, 8);
    let e3 = le_bytes(status as nat, 2);
    let e4 = le_bytes(body_offset(body) as nat, 8);
    let e5 = le_bytes(total as nat, 8);
    let e6 = le_bytes(headers.len(), 4);
    lemma_le_roundtrip(expires_at_ms as nat, 8);
    lemma_le_roundtrip(stale_until_ms as nat, 8);
    lemma_le_roundtrip(status as nat, 2);
    lemma_le_roundtrip(body_offset(body) as nat, 8);
    lemma_le_roundtrip(total as nat, 8);
    lemma_le_roundtrip(headers.len(), 4);
    let prefix = magic() + e1 + e2 + e3 + seq![kind] + e4 + e5 + e6;
    assert(prefix.len() == 53);
    let hb = header_block(headers);
    let fb = framed(body.wire_bytes());
    let b = encoded_entry(status, headers, body, expires_at_ms, stale_until_ms);
    assert(b =~= prefix + hb + fb);
    assert(b.subrange(0, 14) =~= magic());
    assert(b.subrange(14, 22) =~= e1);
    assert(b.subrange(22, 30) =~= e2);
    assert(b.subrange(30, 32) =~= e3);
    assert(b[32] == kind);
    assert(b.subrange(33, 41) =~= e4);
    assert(b.subrange(41, 49) =~= e5);
    assert(b.subrange(49, 53) =~= e6);
    let hl: int = hb.len() as int;
    assert(b.subrange(53, 53 + hl) =~= hb);
    lemma_read_headers(b, headers, headers.len());
    assert(headers.take(headers.len() as int) =~= headers);
    let p: int = 53 + hl;
    let fl: int = fb.len() as int;
    lemma_le_len(body.wire_bytes().len(), 4);
    assert(b.subrange(p, p + fl) =~= fb);
    lemma_frame_read(b, p, body.wire_bytes());
    lemma_decoded_pairs(headers);
    let r = read_raw_entry(b).unwrap();
    assert(r.headers == encoded_pairs(headers));
    assert(r.body == body.wire_bytes());
    assert(decoded_body(r) == body);
}

} // verus!
