//! Length-framed messages on a byte stream: each frame is a four-byte
//! big-endian length followed by that many payload bytes. A reader takes
//! whole frames off the front of what it has received and keeps the rest
//! for later.
use vstd::prelude::*;

verus! {

/// Largest payload a frame can carry.
pub const MAX_PAYLOAD: u64 = 0xffff_ffff;

/// The four length bytes of a frame with an `n`-byte payload.
pub open spec fn length_bytes(n: u32) -> Seq<u8> {
    seq![(n >> 24u32) as u8, ((n >> 16u32) & 0xffu32) as u8, ((n >> 8u32) & 0xffu32) as u8, (n & 0xffu32) as u8]
}

/// The length that four bytes encode.
pub open spec fn length_of(b0: u8, b1: u8, b2: u8, b3: u8) -> u32 {
    ((b0 as u32) << 24u32) | ((b1 as u32) << 16u32) | ((b2 as u32) << 8u32) | (b3 as u32)
}

/// The frame that carries `p`.
pub open spec fn frame(p: Seq<u8>) -> Seq<u8> {
    length_bytes(p.len() as u32) + p
}

/// The frames that carry each of `ps`, in order.
pub open spec fn frames(ps: Seq<Seq<u8>>) -> Seq<u8>
    decreases ps.len(),
{
    if ps.len() == 0 {
        Seq::empty()
    } else {
        frames(ps.drop_last()) + frame(ps.last())
    }
}

/// The payload of the whole frame at the front of `b`, if one is there,
/// with the number of bytes it spans.
pub open spec fn front_frame(b: Seq<u8>) -> Option<(Seq<u8>, int)> {
    if b.len() < 4 {
        None
    } else {
        let n = length_of(b[0], b[1], b[2], b[3]) as int;
        if b.len() < 4 + n {
            None
        } else {
            Some((b.subrange(4, 4 + n), 4 + n))
        }
    }
}

/// The payloads of the whole frames at the front of `b`, and how many bytes they span.
pub open spec fn split_frames(b: Seq<u8>) -> (Seq<Seq<u8>>, int)
    decreases b.len(),
{
    match front_frame(b) {
        None => (Seq::empty(), 0),
        Some((p, used)) => {
            let rest = split_frames(b.skip(used));
            (seq![p] + rest.0, used + rest.1)
        },
    }
}

/// Reading back the length bytes gives the length.
pub proof fn lemma_length_round_trip(n: u32)
    ensures
        length_of(length_bytes(n)[0], length_bytes(n)[1], length_bytes(n)[2], length_bytes(n)[3]) == n,
{
    let b0 = (n >> 24u32) as u8;
    let b1 = ((n >> 16u32) & 0xffu32) as u8;
    let b2 = ((n >> 8u32) & 0xffu32) as u8;
    let b3 = (n & 0xffu32) as u8;
    assert(((b0 as u32) << 24u32) | ((b1 as u32) << 16u32) | ((b2 as u32) << 8u32) | (b3 as u32) == n) by (bit_vector)
        requires
            b0 == (n >> 24u32) as u8,
            b1 == ((n >> 16u32) & 0xffu32) as u8,
            b2 == ((n >> 8u32) & 0xffu32) as u8,
            b3 == (n & 0xffu32) as u8,
    ;
}

/// The frame that carries `p`.
pub fn encode_frame(payload: &Vec<u8>) -> (r: Vec<u8>)
    requires
        payload@.len() <= MAX_PAYLOAD,
    ensures
        r@ == frame(payload@),
{
    let n = payload.len() as u32;
    let mut out: Vec<u8> = Vec::new();
    out.push((n >> 24u32) as u8);
    out.push(((n >> 16u32) & 0xffu32) as u8);
    out.push(((n >> 8u32) & 0xffu32) as u8);
    out.push((n & 0xffu32) as u8);
    let mut i: usize = 0;
    while i < payload.len()
        invariant
            i <= payload@.len(),
            out@ == length_bytes(n) + payload@.take(i as int),
        decreases payload@.len() - i,
    {
        out.push(payload[i]);
        i += 1;
        assert(out@ =~= length_bytes(n) + payload@.take(i as int));
    }
    assert(payload@.take(i as int) =~= payload@);
    out
}

/// Takes the whole frames off the front of `buf`: their payloads, and how
/// many bytes they span; what follows is an incomplete frame to keep.
pub fn decode_frames(buf: &Vec<u8>) -> (r: (Vec<Vec<u8>>, usize))
    ensures
        r.0@.map_values(|p: Vec<u8>| p@) == split_frames(buf@).0,
        r.1 == split_frames(buf@).1,
{
    let ghost b = buf@;
    let mut out: Vec<Vec<u8>> = Vec::new();
    let mut at: usize = 0;
    let len = buf.len();
    let mut stop = false;
    assert(b.skip(0) =~= b);
    assert(out@.map_values(|p: Vec<u8>| p@) + split_frames(b).0 =~= split_frames(b).0);
    while !stop && len - at >= 4
        invariant
            b == buf@,
            len == b.len(),
            at <= len,
            stop ==> front_frame(b.skip(at as int)) is None,
            split_frames(b) == (
                out@.map_values(|p: Vec<u8>| p@) + split_frames(b.skip(at as int)).0,
                at + split_frames(b.skip(at as int)).1,
            ),
        decreases len - at + (if stop { 0int } else { 1int }),
    {
        let n = ((buf[at] as u32) << 24u32) | ((buf[at + 1] as u32) << 16u32) | ((buf[at + 2] as u32) << 8u32) | (
        buf[at + 3] as u32);
        let ghost rest = b.skip(at as int);
        assert(rest[0] == buf@[at as int] && rest[1] == buf@[at + 1] && rest[2] == buf@[at + 2] && rest[3] == buf@[at + 3]);
        let room: u64 = (len - at - 4) as u64;
        let need: u64 = n as u64;
        if room < need {
            assert(front_frame(rest) is None);
            stop = true;
            continue;
        }
        let end = at + 4 + n as usize;
        let mut p: Vec<u8> = Vec::new();
        let mut i: usize = at + 4;
        while i < end
            invariant
                at + 4 <= i <= end <= len,
                len == b.len(),
                b == buf@,
                p@ == b.subrange(at + 4, i as int),
            decreases end - i,
        {
            p.push(buf[i]);
            i += 1;
            assert(p@ =~= b.subrange(at + 4, i as int));
        }
        assert(rest.subrange(4, 4 + n as int) =~= p@);
        assert(rest.skip(4 + n as int) =~= b.skip(end as int));
        let ghost prev = out@;
        out.push(p);
        assert(out@.map_values(|q: Vec<u8>| q@) =~= prev.map_values(|q: Vec<u8>| q@).push(p@));
        assert(seq![p@] + split_frames(b.skip(end as int)).0 == split_frames(rest).0);
        assert(out@.map_values(|q: Vec<u8>| q@) + split_frames(b.skip(end as int)).0 =~= prev.map_values(
            |q: Vec<u8>| q@,
        ) + split_frames(rest).0);
        at = end;
    }
    proof {
        let rest = b.skip(at as int);
        if rest.len() < 4 {
            assert(front_frame(rest) is None);
        }
        assert(split_frames(rest).0 =~= Seq::<Seq<u8>>::empty());
        assert(out@.map_values(|q: Vec<u8>| q@) + Seq::<Seq<u8>>::empty() =~= out@.map_values(|q: Vec<u8>| q@));
    }
    (out, at)
}

} // verus!
