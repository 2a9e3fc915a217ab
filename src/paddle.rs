use vstd::prelude::*;
use vstd::arithmetic::div_mod::lemma_mod_breakdown;
use crate::geometry::Point;
use crate::text::string_views;

verus! {

/// The number of bytes of the length prefix in front of every message to and
/// from the OCR service.
pub const LENGTH_PREFIX_BYTES: usize = 8;

pub open spec fn pow256(n: nat) -> int
    decreases n,
{
    if n == 0 {
        1
    } else {
        256 * pow256((n - 1) as nat)
    }
}

/// The number that a sequence of bytes writes, most significant first.
pub open spec fn be_value(s: Seq<u8>) -> int
    decreases s.len(),
{
    if s.len() == 0 {
        0
    } else {
        be_value(s.drop_last()) * 256 + s.last()
    }
}

/// The `k` lowest bytes of `n`, most significant first.
pub open spec fn be_bytes(n: nat, k: nat) -> Seq<u8>
    decreases k,
{
    if k == 0 {
        Seq::empty()
    } else {
        be_bytes(n / 256, (k - 1) as nat).push((n % 256) as u8)
    }
}

/// A message as it goes over the socket: its length in eight big-endian
/// bytes, then its bytes.
pub open spec fn frame_of(payload: Seq<u8>) -> Seq<u8> {
    be_bytes(payload.len(), 8) + payload
}

/// The message inside a frame, if the frame's length prefix matches the
/// bytes that follow it.
pub open spec fn unframe(b: Seq<u8>) -> Option<Seq<u8>> {
    if b.len() >= 8 && be_value(b.take(8)) == b.len() - 8 {
        Some(b.skip(8))
    } else {
        None
    }
}

proof fn lemma_pow256_pos(n: nat)
    ensures
        pow256(n) > 0,
    decreases n,
{
    if n > 0 {
        lemma_pow256_pos((n - 1) as nat);
    }
}

proof fn lemma_be_bytes(n: nat, k: nat)
    ensures
        be_bytes(n, k).len() == k,
        be_value(be_bytes(n, k)) == (n as int) % pow256(k),
    decreases k,
{
    if k > 0 {
        lemma_be_bytes(n / 256, (k - 1) as nat);
        lemma_pow256_pos((k - 1) as nat);
        let s = be_bytes(n, k);
        assert(s.drop_last() =~= be_bytes(n / 256, (k - 1) as nat));
        lemma_mod_breakdown(n as int, 256, pow256((k - 1) as nat));
    } else {
        assert(n % 1 == 0);
    }
}

proof fn lemma_be_value_bound(s: Seq<u8>)
    ensures
        0 <= be_value(s) < pow256(s.len()),
    decreases s.len(),
{
    if s.len() > 0 {
        lemma_be_value_bound(s.drop_last());
        assert(be_value(s.drop_last()) * 256 + s.last() < pow256(s.len())) by (nonlinear_arith)
            requires
                be_value(s.drop_last()) < pow256((s.len() - 1) as nat),
                be_value(s.drop_last()) >= 0,
                pow256(s.len()) == 256 * pow256((s.len() - 1) as nat),
                s.last() < 256,
        ;
    }
}

proof fn lemma_pow256_8()
    ensures
        pow256(8) == 0x1_0000_0000_0000_0000,
{
    reveal_with_fuel(pow256, 9);
}

/// Framing a message and reading the frame back gives the message, and the
/// length prefix holds its exact length.
pub proof fn lemma_frame_round_trip(payload: Seq<u8>)
    requires
        payload.len() <= u64::MAX,
    ensures
        frame_of(payload).len() == payload.len() + 8,
        be_value(frame_of(payload).take(8)) == payload.len(),
        unframe(frame_of(payload)) == Some(payload),
{
    lemma_be_bytes(payload.len(), 8);
    lemma_pow256_8();
    let f = frame_of(payload);
    assert(f.take(8) =~= be_bytes(payload.len(), 8));
    assert(f.skip(8) =~= payload);
}

/// The `k` lowest bytes of `n`, most significant first.
fn be_bytes_of(n: u64, k: usize) -> (r: Vec<u8>)
    ensures
        r@ == be_bytes(n as nat, k as nat),
    decreases k,
{
    if k == 0 {
        Vec::new()
    } else {
        let mut r = be_bytes_of(n / 256, k - 1);
        r.push((n % 256) as u8);
        r
    }
}

/// The eight-byte big-endian length prefix for a message of `len` bytes.
pub fn length_prefix(len: u64) -> (r: Vec<u8>)
    ensures
        r@ == be_bytes(len as nat, 8),
        r@.len() == 8,
        be_value(r@) == len,
{
    proof {
        lemma_be_bytes(len as nat, 8);
        lemma_pow256_8();
    }
    be_bytes_of(len, LENGTH_PREFIX_BYTES)
}

/// The length that an eight-byte big-endian prefix gives.
pub fn read_length_prefix(header: &[u8; 8]) -> (r: u64)
    ensures
        r == be_value(header@),
{
    let mut v: u64 = 0;
    let mut i: usize = 0;
    while i < 8
        invariant
            i <= 8,
            header@.len() == 8,
            v == be_value(header@.take(i as int)),
        decreases 8 - i,
    {
        proof {
            lemma_be_value_bound(header@.take(i as int));
            lemma_pow256_8();
            assert(pow256(i as nat) * 256 <= pow256(8)) by {
                lemma_pow256_mono(i as nat + 1, 8);
            }
            assert(header@.take(i + 1).drop_last() =~= header@.take(i as int));
        }
        v = v * 256 + header[i] as u64;
        i = i + 1;
    }
    assert(header@.take(8) =~= header@);
    v
}

proof fn lemma_pow256_mono(a: nat, b: nat)
    requires
        a <= b,
    ensures
        pow256(a) <= pow256(b),
    decreases b,
{
    lemma_pow256_pos(a);
    if a < b {
        lemma_pow256_mono(a, (b - 1) as nat);
    }
}

/// A message framed for the socket: its length prefix, then its bytes.
pub fn frame_message(payload: &Vec<u8>) -> (r: Vec<u8>)
    ensures
        r@ == frame_of(payload@),
{
    let mut out = length_prefix(payload.len() as u64);
    let mut i: usize = 0;
    while i < payload.len()
        invariant
            i <= payload.len(),
            out@ == be_bytes(payload@.len(), 8) + payload@.take(i as int),
        decreases payload.len() - i,
    {
        out.push(payload[i]);
        assert(payload@.take(i + 1) =~= payload@.take(i as int).push(payload@[i as int]));
        assert(be_bytes(payload@.len(), 8) + payload@.take(i + 1) =~= (be_bytes(payload@.len(), 8)
            + payload@.take(i as int)).push(payload@[i as int]));
        i = i + 1;
    }
    assert(payload@.take(payload.len() as int) =~= payload@);
    out
}

/// The message in a frame, or `None` when the frame is shorter than its
/// prefix or its prefix does not give the number of bytes that follow.
pub fn unframe_message(frame: &Vec<u8>) -> (r: Option<Vec<u8>>)
    ensures
        match unframe(frame@) {
            Some(p) => r matches Some(v) && v@ == p,
            None => r is None,
        },
{
    if frame.len() < 8 {
        return None;
    }
    let header: [u8; 8] = [
        frame[0],
        frame[1],
        frame[2],
        frame[3],
        frame[4],
        frame[5],
        frame[6],
        frame[7],
    ];
    assert(header@ =~= frame@.take(8));
    let n = read_length_prefix(&header);
    if n != (frame.len() - 8) as u64 {
        return None;
    }
    let mut out: Vec<u8> = Vec::new();
    let mut i: usize = 8;
    while i < frame.len()
        invariant
            8 <= i <= frame.len(),
            out@ == frame@.subrange(8, i as int),
        decreases frame.len() - i,
    {
        out.push(frame[i]);
        assert(frame@.subrange(8, i + 1) =~= frame@.subrange(8, i as int).push(frame@[i as int]));
        i = i + 1;
    }
    assert(frame@.subrange(8, frame.len() as int) =~= frame@.skip(8));
    Some(out)
}

/// One text that the OCR service recognised, with the polygon around it.
#[derive(Debug)]
pub struct OcrResult {
    pub text: String,
    pub coordinates: Vec<Point>,
}

/// Everything that one request to the OCR service gave.
pub type OcrResponse = Vec<OcrResult>;

impl View for OcrResult {
    type V = (Seq<char>, Seq<Point>);

    open spec fn view(&self) -> (Seq<char>, Seq<Point>) {
        (self.text@, self.coordinates@)
    }
}

pub open spec fn result_views(rs: Seq<OcrResult>) -> Seq<(Seq<char>, Seq<Point>)> {
    rs.map_values(|r: OcrResult| r@)
}

/// Each text paired with the polygon at the same place, in order; texts or
/// polygons beyond the shorter list are left out.
pub open spec fn zipped(texts: Seq<Seq<char>>, polygons: Seq<Seq<Point>>) -> Seq<
    (Seq<char>, Seq<Point>),
> {
    let n = if texts.len() <= polygons.len() {
        texts.len()
    } else {
        polygons.len()
    };
    Seq::new(n, |i: int| (texts[i], polygons[i]))
}

pub open spec fn polygon_views(v: Seq<Vec<Point>>) -> Seq<Seq<Point>> {
    v.map_values(|p: Vec<Point>| p@)
}

fn copy_points(v: &Vec<Point>) -> (r: Vec<Point>)
    ensures
        r@ == v@,
{
    let mut out: Vec<Point> = Vec::new();
    let mut i: usize = 0;
    while i < v.len()
        invariant
            i <= v.len(),
            out@ == v@.take(i as int),
        decreases v.len() - i,
    {
        out.push(v[i]);
        assert(v@.take(i + 1) =~= v@.take(i as int).push(v@[i as int]));
        i = i + 1;
    }
    assert(v@.take(v.len() as int) =~= v@);
    out
}

/// The client of the OCR service that listens on a local socket.
#[derive(Clone, Copy, Debug)]
pub struct PaddleClient;

impl PaddleClient {
    pub fn new() -> (r: PaddleClient) {
        PaddleClient
    }

    /// The request that carries an encoded image to the service.
    pub fn request_frame(&self, image: &Vec<u8>) -> (r: Vec<u8>)
        ensures
            r@ == frame_of(image@),
    {
        frame_message(image)
    }

    /// The length of the response body that a response prefix announces.
    pub fn response_length(&self, header: &[u8; 8]) -> (r: u64)
        ensures
            r == be_value(header@),
    {
        read_length_prefix(header)
    }

    /// The records of a response: each recognised text paired with its
    /// polygon, in the order the service gave them.
    pub fn zip_results(texts: &Vec<String>, polygons: &Vec<Vec<Point>>) -> (r: OcrResponse)
        ensures
            result_views(r@) == zipped(string_views(texts@), polygon_views(polygons@)),
    {
        let n = if texts.len() <= polygons.len() {
            texts.len()
        } else {
            polygons.len()
        };
        let mut out: OcrResponse = Vec::new();
        let mut i: usize = 0;
        while i < n
            invariant
                i <= n,
                n <= texts.len(),
                n <= polygons.len(),
                result_views(out@) == zipped(string_views(texts@), polygon_views(polygons@)).take(
                    i as int,
                ),
            decreases n - i,
        {
            let text = texts[i].clone();
            let coordinates = copy_points(&polygons[i]);
            let ghost before = result_views(out@);
            assert(string_views(texts@)[i as int] == texts@[i as int]@);
            assert(polygon_views(polygons@)[i as int] == polygons@[i as int]@);
            let rec = OcrResult { text, coordinates };
            assert(rec@ == zipped(string_views(texts@), polygon_views(polygons@))[i as int]);
            out.push(rec);
            assert(result_views(out@) =~= before.push(rec@));
            assert(result_views(out@) =~= zipped(string_views(texts@), polygon_views(polygons@)).take(
                i + 1,
            ));
            i = i + 1;
        }
        assert(zipped(string_views(texts@), polygon_views(polygons@)).take(n as int) =~= zipped(
            string_views(texts@),
            polygon_views(polygons@),
        ));
        out
    }

    /// What a request gives, from what came back: a response that announced
    /// an empty body, or one that could not be read or decoded (`None`),
    /// gives no records; otherwise the decoded texts and polygons, paired.
    pub fn response_results(&self, body_len: u64, decoded: Option<(Vec<String>, Vec<Vec<Point>>)>) -> (r:
        OcrResponse)
        ensures
            body_len == 0 ==> r@.len() == 0,
            decoded is None ==> r@.len() == 0,
            body_len != 0 ==> (decoded matches Some((t, p)) ==> result_views(r@) == zipped(
                string_views(t@),
                polygon_views(p@),
            )),
    {
        if body_len == 0 {
            return Vec::new();
        }
        match decoded {
            None => Vec::new(),
            Some((t, p)) => PaddleClient::zip_results(&t, &p),
        }
    }
}

} // verus!
