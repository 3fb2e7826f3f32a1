//! Length-delimited frames: the building block of the wire encoding.
//!
//! A frame is one tag byte, the payload length as eight little-endian bytes,
//! then the payload. A message is a sequence of frames laid end to end.
use vstd::bytes::*;
use vstd::prelude::*;
use vstd::slice::*;

verus! {

/// Largest payload length that a frame can announce.
pub open spec fn fits_frame(payload: Seq<u8>) -> bool {
    payload.len() <= u64::MAX
}

/// The bytes of a single frame.
pub open spec fn frame(tag: u8, payload: Seq<u8>) -> Seq<u8> {
    seq![tag] + spec_u64_to_le_bytes(payload.len() as u64) + payload
}

/// The bytes of a sequence of frames, laid end to end.
pub open spec fn frames_bytes(fs: Seq<(u8, Seq<u8>)>) -> Seq<u8>
    decreases fs.len(),
{
    if fs.len() == 0 {
        Seq::empty()
    } else {
        frame(fs[0].0, fs[0].1) + frames_bytes(fs.drop_first())
    }
}

/// Splits bytes into frames; `None` when the bytes are not a whole number of frames.
pub open spec fn parse_frames(b: Seq<u8>) -> Option<Seq<(u8, Seq<u8>)>>
    decreases b.len(),
{
    if b.len() == 0 {
        Some(Seq::empty())
    } else if b.len() < 9 {
        None
    } else {
        let n = spec_u64_from_le_bytes(b.subrange(1, 9)) as int;
        if n > b.len() - 9 {
            None
        } else {
            match parse_frames(b.subrange(9 + n, b.len() as int)) {
                Some(rest) => Some(seq![(b[0], b.subrange(9, 9 + n))] + rest),
                None => None,
            }
        }
    }
}

/// Every payload of the sequence fits in a frame.
pub open spec fn all_fit(fs: Seq<(u8, Seq<u8>)>) -> bool {
    forall|i: int| 0 <= i < fs.len() ==> fits_frame(#[trigger] fs[i].1)
}

/// Splitting the bytes of well-sized frames gives back those frames.
pub proof fn lemma_parse_frames_bytes(fs: Seq<(u8, Seq<u8>)>)
    requires
        all_fit(fs),
    ensures
        parse_frames(frames_bytes(fs)) == Some(fs),
    decreases fs.len(),
{
    if fs.len() > 0 {
        let rest = fs.drop_first();
        assert(all_fit(rest)) by {
            assert forall|i: int| 0 <= i < rest.len() implies fits_frame(#[trigger] rest[i].1) by {
                assert(rest[i] == fs[i + 1]);
            }
        }
        lemma_parse_frames_bytes(rest);
        let (t, p) = fs[0];
        assert(fits_frame(fs[0].1));
        let b = frames_bytes(fs);
        let len8 = spec_u64_to_le_bytes(p.len() as u64);
        lemma_auto_spec_u64_to_from_le_bytes();
        assert(len8.len() == 8);
        assert(b == seq![t] + len8 + p + frames_bytes(rest));
        assert(b.subrange(1, 9) =~= len8);
        let n = spec_u64_from_le_bytes(b.subrange(1, 9)) as int;
        assert(n == p.len());
        assert(b.subrange(9, 9 + n) =~= p);
        assert(b.subrange(9 + n, b.len() as int) =~= frames_bytes(rest));
        assert(seq![(t, p)] + rest =~= fs);
    }
}

/// One frame, read out of a message: its tag and its payload.
pub struct Frame {
    pub tag: u8,
    pub payload: Vec<u8>,
}

impl View for Frame {
    type V = (u8, Seq<u8>);

    open spec fn view(&self) -> (u8, Seq<u8>) {
        (self.tag, self.payload@)
    }
}

/// The mathematical frames held in a vector of frames.
pub open spec fn frames_view(v: Seq<Frame>) -> Seq<(u8, Seq<u8>)> {
    v.map_values(|f: Frame| f@)
}

/// Appends the bytes of one frame.
pub fn push_frame(out: &mut Vec<u8>, tag: u8, payload: &[u8])
    ensures
        final(out)@ == old(out)@ + frame(tag, payload@),
{
    let ghost start = out@;
    out.push(tag);
    let len8 = u64_to_le_bytes(payload.len() as u64);
    let mut i: usize = 0;
    while i < 8
        invariant
            len8@.len() == 8,
            len8@ == spec_u64_to_le_bytes(payload@.len() as u64),
            0 <= i <= 8,
            out@ == start + seq![tag] + len8@.subrange(0, i as int),
        decreases 8 - i,
    {
        out.push(len8[i]);
        assert(len8@.subrange(0, i + 1) =~= len8@.subrange(0, i as int).push(len8@[i as int]));
        i = i + 1;
    }
    assert(len8@.subrange(0, 8) =~= len8@);
    let ghost mid = out@;
    let mut j: usize = 0;
    while j < payload.len()
        invariant
            0 <= j <= payload@.len(),
            out@ == mid + payload@.subrange(0, j as int),
        decreases payload@.len() - j,
    {
        out.push(payload[j]);
        assert(payload@.subrange(0, j + 1) =~= payload@.subrange(0, j as int).push(payload@[j as int]));
        j = j + 1;
    }
    assert(payload@.subrange(0, payload@.len() as int) =~= payload@);
    assert(out@ =~= start + frame(tag, payload@));
}

/// Copies `b[start..end]` into a new vector.
pub fn copy_range(b: &[u8], start: usize, end: usize) -> (r: Vec<u8>)
    requires
        start <= end <= b@.len(),
    ensures
        r@ == b@.subrange(start as int, end as int),
{
    slice_to_vec(slice_subrange(b, start, end))
}

/// Splits a byte buffer into its frames.
pub fn split_frames(b: &[u8]) -> (r: Option<Vec<Frame>>)
    ensures
        match r {
            Some(v) => parse_frames(b@) == Some(frames_view(v@)),
            None => parse_frames(b@) is None,
        },
{
    let mut out: Vec<Frame> = Vec::new();
    let mut pos: usize = 0;
    assert(b@.subrange(0, b@.len() as int) =~= b@);
    proof {
        match parse_frames(b@) {
            Some(rest) => {
                assert(frames_view(out@) + rest =~= rest);
            },
            None => {},
        }
    }
    while pos < b.len()
        invariant
            0 <= pos <= b@.len(),
            parse_frames(b@) == match parse_frames(b@.subrange(pos as int, b@.len() as int)) {
                Some(rest) => Some(frames_view(out@) + rest),
                None => None::<Seq<(u8, Seq<u8>)>>,
            },
        decreases b@.len() - pos,
    {
        let ghost cur = b@.subrange(pos as int, b@.len() as int);
        if b.len() - pos < 9 {
            return None;
        }
        let n = u64_from_le_bytes(slice_subrange(b, pos + 1, pos + 9));
        assert(cur.subrange(1, 9) =~= b@.subrange(pos + 1, pos + 9));
        if n > (b.len() - pos - 9) as u64 {
            return None;
        }
        let end = pos + 9 + n as usize;
        let payload = copy_range(b, pos + 9, end);
        assert(cur.subrange(9, 9 + n as int) =~= payload@);
        assert(cur.subrange(9 + n as int, cur.len() as int) =~= b@.subrange(end as int, b@.len() as int));
        let ghost old_view = frames_view(out@);
        out.push(Frame { tag: b[pos], payload });
        assert(frames_view(out@) =~= old_view.push((b@[pos as int], payload@)));
        proof {
            let tail = b@.subrange(end as int, b@.len() as int);
            match parse_frames(tail) {
                Some(rest) => {
                    assert(old_view + (seq![(b@[pos as int], payload@)] + rest) =~= frames_view(out@) + rest);
                },
                None => {},
            }
        }
        pos = end;
    }
    assert(b@.subrange(b@.len() as int, b@.len() as int) =~= Seq::<u8>::empty());
    assert(frames_view(out@) + Seq::<(u8, Seq<u8>)>::empty() =~= frames_view(out@));
    Some(out)
}

} // verus!
