use vstd::prelude::*;

verus! {

/// Bytes taken by one packed day-offset.
pub const OFFSET_WIDTH: usize = 2;

/// Error of decoding a stored timeline.
#[derive(Debug, Clone, Copy, PartialEq, Eq, Structural)]
pub enum TimelineError {
    /// The stored byte length is not a multiple of the offset width.
    MalformedTimeline,
}

/// The 16-bit two's-complement pattern of `x`, as an unsigned value.
pub open spec fn bits_of(x: i16) -> int {
    if x < 0 {
        x + 65536
    } else {
        x as int
    }
}

/// High (first) byte of the big-endian encoding of `x`.
pub open spec fn hi_byte(x: i16) -> u8 {
    (bits_of(x) / 256) as u8
}

/// Low (second) byte of the big-endian encoding of `x`.
pub open spec fn lo_byte(x: i16) -> u8 {
    (bits_of(x) % 256) as u8
}

/// The offset whose big-endian encoding is the pair `(hi, lo)`.
pub open spec fn offset_of_pair(hi: u8, lo: u8) -> i16 {
    let v = hi * 256 + lo;
    if v >= 32768 {
        (v - 65536) as i16
    } else {
        v as i16
    }
}

/// Big-endian two's-complement packing of a sequence of offsets.
pub open spec fn encode_spec(xs: Seq<i16>) -> Seq<u8>
    decreases xs.len(),
{
    if xs.len() == 0 {
        Seq::empty()
    } else {
        encode_spec(xs.drop_last()).push(hi_byte(xs.last())).push(lo_byte(xs.last()))
    }
}

/// The offsets packed in `b`, one for each pair of bytes; meaningful when `b` has even length.
pub open spec fn decode_spec(b: Seq<u8>) -> Seq<i16> {
    Seq::new(b.len() / 2, |i: int| offset_of_pair(b[2 * i], b[2 * i + 1]))
}

/// A packed timeline is well formed when its length is a multiple of the offset width.
pub open spec fn well_formed(b: Seq<u8>) -> bool {
    b.len() % 2 == 0
}

/// Reading back the two bytes of an offset gives that offset.
pub proof fn lemma_pair_round_trip(x: i16)
    ensures
        offset_of_pair(hi_byte(x), lo_byte(x)) == x,
{
}

/// The packing takes two bytes per offset.
pub proof fn lemma_encode_len(xs: Seq<i16>)
    ensures
        encode_spec(xs).len() == 2 * xs.len(),
    decreases xs.len(),
{
    if xs.len() > 0 {
        lemma_encode_len(xs.drop_last());
    }
}

/// Offset `i` of `xs` sits at bytes `2i` and `2i + 1` of its packing.
pub proof fn lemma_encode_index(xs: Seq<i16>, i: int)
    requires
        0 <= i < xs.len(),
    ensures
        encode_spec(xs)[2 * i] == hi_byte(xs[i]),
        encode_spec(xs)[2 * i + 1] == lo_byte(xs[i]),
    decreases xs.len(),
{
    lemma_encode_len(xs);
    lemma_encode_len(xs.drop_last());
    if i < xs.len() - 1 {
        lemma_encode_index(xs.drop_last(), i);
    }
}

/// Decoding the packing of any offsets gives back exactly those offsets, in order.
pub proof fn lemma_round_trip(xs: Seq<i16>)
    ensures
        well_formed(encode_spec(xs)),
        decode_spec(encode_spec(xs)) == xs,
{
    lemma_encode_len(xs);
    assert forall|i: int| 0 <= i < xs.len() implies decode_spec(encode_spec(xs))[i] == xs[i] by {
        lemma_encode_index(xs, i);
        lemma_pair_round_trip(xs[i]);
    }
    assert(decode_spec(encode_spec(xs)) =~= xs);
}

/// Packing distributes over concatenation.
pub proof fn lemma_encode_push(xs: Seq<i16>, x: i16)
    ensures
        encode_spec(xs.push(x)) == encode_spec(xs) + seq![hi_byte(x), lo_byte(x)],
{
    assert(xs.push(x).drop_last() =~= xs);
    assert(encode_spec(xs.push(x)) =~= encode_spec(xs) + seq![hi_byte(x), lo_byte(x)]);
}

/// Appending the packing of one offset to a well-formed timeline appends that offset.
pub proof fn lemma_decode_append(b: Seq<u8>, x: i16)
    requires
        well_formed(b),
    ensures
        well_formed(b + seq![hi_byte(x), lo_byte(x)]),
        decode_spec(b + seq![hi_byte(x), lo_byte(x)]) == decode_spec(b).push(x),
{
    let c = b + seq![hi_byte(x), lo_byte(x)];
    lemma_pair_round_trip(x);
    assert forall|i: int| 0 <= i < decode_spec(b).len() implies decode_spec(c)[i] == decode_spec(b)[i] by {
        assert(c[2 * i] == b[2 * i]);
        assert(c[2 * i + 1] == b[2 * i + 1]);
    }
    assert(decode_spec(c) =~= decode_spec(b).push(x));
}

/// The two big-endian bytes of `x`.
pub fn offset_bytes(x: i16) -> (r: (u8, u8))
    ensures
        r.0 == hi_byte(x),
        r.1 == lo_byte(x),
{
    let u: i32 = if x < 0 {
        x as i32 + 65536
    } else {
        x as i32
    };
    ((u / 256) as u8, (u % 256) as u8)
}

/// The offset packed in the big-endian pair `(hi, lo)`.
pub fn offset_from_bytes(hi: u8, lo: u8) -> (r: i16)
    ensures
        r == offset_of_pair(hi, lo),
{
    let v: i32 = hi as i32 * 256 + lo as i32;
    if v >= 32768 {
        (v - 65536) as i16
    } else {
        v as i16
    }
}

/// Packs `xs` as big-endian two's-complement, two bytes per offset.
pub fn encode(xs: &Vec<i16>) -> (r: Vec<u8>)
    requires
        xs@.len() <= usize::MAX / 2,
    ensures
        r@ == encode_spec(xs@),
{
    let mut out: Vec<u8> = Vec::new();
    let mut i: usize = 0;
    while i < xs.len()
        invariant
            i <= xs@.len(),
            out@ == encode_spec(xs@.subrange(0, i as int)),
        decreases xs@.len() - i,
    {
        let (hi, lo) = offset_bytes(xs[i]);
        proof {
            lemma_encode_push(xs@.subrange(0, i as int), xs@[i as int]);
            assert(xs@.subrange(0, i as int).push(xs@[i as int]) =~= xs@.subrange(0, i + 1));
        }
        out.push(hi);
        out.push(lo);
        i += 1;
    }
    assert(xs@.subrange(0, xs@.len() as int) =~= xs@);
    out
}

/// Unpacks a stored timeline, keeping the stored order; fails exactly when
/// the byte length is odd.
pub fn decode(b: &Vec<u8>) -> (r: Result<Vec<i16>, TimelineError>)
    ensures
        r is Err <==> !well_formed(b@),
        r matches Ok(v) ==> v@ == decode_spec(b@),
        r matches Err(e) ==> e == TimelineError::MalformedTimeline,
{
    if b.len() % 2 != 0 {
        return Err(TimelineError::MalformedTimeline);
    }
    let mut out: Vec<i16> = Vec::new();
    let len: usize = b.len();
    let n: usize = len / 2;
    let mut i: usize = 0;
    while i < n
        invariant
            n == b@.len() / 2,
            2 * n == b@.len(),
            len == b@.len(),
            b@.len() % 2 == 0,
            i <= n,
            out@ == decode_spec(b@).subrange(0, i as int),
        decreases n - i,
    {
        let x = offset_from_bytes(b[2 * i], b[2 * i + 1]);
        out.push(x);
        i += 1;
        assert(out@ =~= decode_spec(b@).subrange(0, i as int));
    }
    assert(out@ =~= decode_spec(b@));
    Ok(out)
}

} // verus!
