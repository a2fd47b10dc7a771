//! ISO-TP segmentation of a payload into raw frames, and its inverse.
use vstd::prelude::*;
use crate::can::{CANFrame, EXTENDED_ID_MAX};
use crate::error::Error;

verus! {

/// Longest payload that fits in a single frame.
pub const SINGLE_FRAME_MAX: usize = 7;

/// Longest payload whose length a first frame can carry (twelve bits).
pub const MAX_PAYLOAD: usize = 4095;

/// `n` zero bytes.
pub open spec fn zeros(n: nat) -> Seq<u8> {
    Seq::new(n, |i: int| 0u8)
}

/// `s` padded with zero bytes to eight bytes.
pub open spec fn pad8(s: Seq<u8>) -> Seq<u8> {
    s + zeros((8 - s.len()) as nat)
}

/// Number of consecutive frames that follow the first frame of a payload of
/// `len` bytes: the bytes after the first six, seven to a frame.
pub open spec fn consecutive_count(len: nat) -> nat {
    if len <= 7 {
        0
    } else {
        ((len - 6) as nat + 6) / 7
    }
}

/// The 4-bit index of the `k`-th consecutive frame: `1, 2, ..., 15, 0, 1, ...`.
pub open spec fn sequence_index(k: nat) -> u8 {
    ((k + 1) % 16) as u8
}

pub open spec fn single_frame(p: Seq<u8>) -> Seq<u8> {
    pad8(seq![p.len() as u8] + p)
}

pub open spec fn first_frame(p: Seq<u8>) -> Seq<u8> {
    seq![(16 + p.len() / 256) as u8, (p.len() % 256) as u8] + p.subrange(0, 6)
}

/// Start of the bytes that the `k`-th consecutive frame carries.
pub open spec fn chunk_start(k: nat) -> int {
    6 + 7 * k as int
}

/// The payload bytes of the `k`-th consecutive frame.
pub open spec fn chunk(p: Seq<u8>, k: nat) -> Seq<u8> {
    let s = chunk_start(k);
    let e = if s + 7 <= p.len() { s + 7 } else { p.len() as int };
    p.subrange(s, e)
}

pub open spec fn consecutive_frame(p: Seq<u8>, k: nat) -> Seq<u8> {
    pad8(seq![(0x20 + sequence_index(k)) as u8] + chunk(p, k))
}

/// The eight wire bytes of each frame that carries `p`, in order.
pub open spec fn segment_wire(p: Seq<u8>) -> Seq<Seq<u8>> {
    if p.len() <= 7 {
        seq![single_frame(p)]
    } else {
        seq![first_frame(p)] + Seq::new(
            consecutive_count(p.len()),
            |k: int| consecutive_frame(p, k as nat),
        )
    }
}

/// The length that a first frame announces.
pub open spec fn announced_len(f: Seq<u8>) -> nat {
    ((f[0] - 16) * 256 + f[1]) as nat
}

/// Whether `frames` (wire bytes) form one complete ISO-TP transmission.
pub open spec fn well_framed(frames: Seq<Seq<u8>>) -> bool {
    &&& frames.len() >= 1
    &&& forall|i: int| 0 <= i < frames.len() ==> (#[trigger] frames[i]).len() == 8
    &&& if frames[0][0] < 16 {
        frames[0][0] <= 7 && frames.len() == 1
    } else if frames[0][0] < 32 {
        let len = announced_len(frames[0]);
        &&& len > 7
        &&& frames.len() == 1 + consecutive_count(len)
        &&& forall|k: int|
            0 <= k < consecutive_count(len) ==> (#[trigger] frames[1 + k])[0] == 0x20
                + sequence_index(k as nat)
    } else {
        false
    }
}

/// Byte `j` of a multi-frame payload: the first six ride in the first frame,
/// the rest seven to a consecutive frame after its index byte.
pub open spec fn frame_byte(frames: Seq<Seq<u8>>, j: int) -> u8 {
    if j < 6 {
        frames[0][2 + j]
    } else {
        frames[1 + (j - 6) / 7][1 + (j - 6) % 7]
    }
}

/// The payload that `frames` carry, or `None` when they are not one complete
/// transmission.
pub open spec fn reassemble_wire(frames: Seq<Seq<u8>>) -> Option<Seq<u8>> {
    if !well_framed(frames) {
        None
    } else if frames[0][0] < 16 {
        Some(frames[0].subrange(1, 1 + frames[0][0]))
    } else {
        Some(Seq::new(announced_len(frames[0]), |j: int| frame_byte(frames, j)))
    }
}

/// The wire bytes of each frame.
pub open spec fn wires(frames: Seq<CANFrame>) -> Seq<Seq<u8>> {
    frames.map_values(|f: CANFrame| f.wire())
}

fn push_zeros(v: &mut Vec<u8>)
    requires
        old(v)@.len() <= 8,
    ensures
        final(v)@ == pad8(old(v)@),
{
    while v.len() < 8
        invariant
            v@.len() <= 8,
            v@ == old(v)@ + zeros((v@.len() - old(v)@.len()) as nat),
        decreases 8 - v@.len(),
    {
        v.push(0);
        assert(v@ =~= old(v)@ + zeros((v@.len() - old(v)@.len()) as nat));
    }
    assert(v@ =~= pad8(old(v)@));
}

/// Appends `p[start..end]` to `v`.
pub(crate) fn push_range(v: &mut Vec<u8>, p: &[u8], start: usize, end: usize)
    requires
        start <= end <= p@.len(),
    ensures
        final(v)@ == old(v)@ + p@.subrange(start as int, end as int),
{
    let mut i = start;
    while i < end
        invariant
            start <= i <= end <= p@.len(),
            v@ == old(v)@ + p@.subrange(start as int, i as int),
        decreases end - i,
    {
        v.push(p[i]);
        i = i + 1;
        assert(v@ =~= old(v)@ + p@.subrange(start as int, i as int));
    }
}

/// Splits `payload` into the frames that carry it to `id`: one single frame
/// for up to seven bytes, else a first frame and its consecutive frames.
/// Every frame is eight bytes long.
pub fn segment(id: u32, payload: &[u8]) -> (r: Result<Vec<CANFrame>, Error>)
    ensures
        id > EXTENDED_ID_MAX ==> r == Err::<Vec<CANFrame>, Error>(Error::Config),
        id <= EXTENDED_ID_MAX && payload@.len() > MAX_PAYLOAD ==> r == Err::<
            Vec<CANFrame>,
            Error,
        >(Error::Framing),
        id <= EXTENDED_ID_MAX && payload@.len() <= MAX_PAYLOAD ==> r is Ok,
        r is Ok ==> {
            let frames = r->Ok_0@;
            &&& wires(frames) == segment_wire(payload@)
            &&& forall|k: int|
                0 <= k < frames.len() ==> (#[trigger] frames[k]).id_spec() == id
                    && frames[k].payload() == frames[k].wire()
        },
{
    if id > EXTENDED_ID_MAX {
        return Err(Error::Config);
    }
    let len = payload.len();
    if len > MAX_PAYLOAD {
        return Err(Error::Framing);
    }
    let mut frames: Vec<CANFrame> = Vec::new();
    if len <= SINGLE_FRAME_MAX {
        let mut bytes: Vec<u8> = vec![len as u8];
        push_range(&mut bytes, payload, 0, len);
        push_zeros(&mut bytes);
        assert(bytes@ =~= single_frame(payload@)) by {
            assert(payload@.subrange(0, len as int) =~= payload@);
        }
        let f = CANFrame::new(id, bytes.as_slice(), false, false);
        let f = match f {
            Ok(f) => f,
            Err(e) => return Err(e),
        };
        frames.push(f);
        proof {
            assert(wires(frames@) =~= segment_wire(payload@));
        }
        return Ok(frames);
    }
    let mut first: Vec<u8> = vec![(16 + len / 256) as u8, (len % 256) as u8];
    push_range(&mut first, payload, 0, 6);
    let f = match CANFrame::new(id, first.as_slice(), false, false) {
        Ok(f) => f,
        Err(e) => return Err(e),
    };
    frames.push(f);
    let count = (len - 6 + 6) / 7;
    let mut k: usize = 0;
    while k < count
        invariant
            7 < len <= MAX_PAYLOAD,
            len == payload@.len(),
            count == consecutive_count(len as nat),
            0 <= k <= count,
            frames@.len() == 1 + k,
            wires(frames@) == segment_wire(payload@).subrange(0, 1 + k as int),
            forall|j: int|
                0 <= j < frames@.len() ==> (#[trigger] frames@[j]).id_spec() == id
                    && frames@[j].payload() == frames@[j].wire(),
        decreases count - k,
    {
        let start = 6 + 7 * k;
        let end = if start + 7 <= len {
            start + 7
        } else {
            len
        };
        let index: u8 = ((k + 1) % 16) as u8;
        let mut bytes: Vec<u8> = vec![0x20 + index];
        push_range(&mut bytes, payload, start, end);
        push_zeros(&mut bytes);
        assert(bytes@ =~= consecutive_frame(payload@, k as nat));
        let f = match CANFrame::new(id, bytes.as_slice(), false, false) {
            Ok(f) => f,
            Err(e) => return Err(e),
        };
        frames.push(f);
        k = k + 1;
        assert(wires(frames@) =~= segment_wire(payload@).subrange(0, 1 + k as int));
    }
    assert(wires(frames@) =~= segment_wire(payload@));
    Ok(frames)
}

/// Joins the frames of one transmission back into its payload. Fails with
/// `Protocol` when the frames are not one complete single- or multi-frame
/// transmission.
pub fn reassemble(frames: &[CANFrame]) -> (r: Result<Vec<u8>, Error>)
    ensures
        reassemble_wire(wires(frames@)) is None ==> r == Err::<Vec<u8>, Error>(Error::Protocol),
        reassemble_wire(wires(frames@)) is Some ==> r is Ok && r->Ok_0@ == reassemble_wire(
            wires(frames@),
        )->0,
{
    let ghost w = wires(frames@);
    let n = frames.len();
    if n == 0 {
        return Err(Error::Protocol);
    }
    let w0 = frames[0].wire_data();
    if w0.len() != 8 {
        return Err(Error::Protocol);
    }
    let b0 = w0[0];
    if b0 < 16 {
        if b0 > 7 || n != 1 {
            return Err(Error::Protocol);
        }
        let mut out: Vec<u8> = Vec::new();
        push_range(&mut out, w0.as_slice(), 1, 1 + b0 as usize);
        assert(out@ =~= w[0].subrange(1, 1 + w[0][0]));
        return Ok(out);
    }
    if b0 >= 32 {
        return Err(Error::Protocol);
    }
    let len: usize = (b0 as usize - 16) * 256 + w0[1] as usize;
    if len <= 7 {
        return Err(Error::Protocol);
    }
    let count = (len - 6 + 6) / 7;
    if n != 1 + count {
        return Err(Error::Protocol);
    }
    let mut out: Vec<u8> = Vec::new();
    push_range(&mut out, w0.as_slice(), 2, 8);
    assert(out@ =~= Seq::new(6, |j: int| frame_byte(w, j)));
    let mut k: usize = 0;
    while k < count
        invariant
            w == wires(frames@),
            n == frames@.len(),
            w.len() == n,
            w[0].len() == 8,
            16 <= w[0][0] < 32,
            len == announced_len(w[0]),
            7 < len < 4096,
            count == consecutive_count(len as nat),
            n == 1 + count,
            0 <= k <= count,
            forall|j: int| 1 <= j < 1 + k ==> (#[trigger] w[j]).len() == 8,
            forall|j: int| 0 <= j < k ==> (#[trigger] w[1 + j])[0] == 0x20 + sequence_index(j as nat),
            out@.len() == if k < count { 6 + 7 * k } else { len as int },
            forall|j: int| 0 <= j < out@.len() ==> out@[j] == frame_byte(w, j),
        decreases count - k,
    {
        let wk = frames[1 + k].wire_data();
        let index: u8 = ((k + 1) % 16) as u8;
        assert(wk@ == w[1 + k as int]);
        if wk.len() != 8 || wk[0] != 0x20 + index {
            proof {
                if wk@.len() == 8 {
                    assert(w[1 + k as int][0] != 0x20 + sequence_index(k as nat));
                } else {
                    assert(w[1 + k as int].len() != 8);
                }
            }
            return Err(Error::Protocol);
        }
        let start = 6 + 7 * k;
        let take = if start + 7 <= len {
            7
        } else {
            len - start
        };
        let ghost before = out@;
        push_range(&mut out, wk.as_slice(), 1, 1 + take);
        proof {
            assert forall|j: int| 0 <= j < out@.len() implies out@[j] == frame_byte(w, j) by {
                if j >= before.len() {
                    assert((j - 6) / 7 == k && (j - 6) % 7 == j - start) by (nonlinear_arith)
                        requires
                            start == 6 + 7 * k,
                            start <= j < start + 7,
                    ;
                }
            }
        }
        k = k + 1;
        proof {
            if k == count && start + 7 <= len {
                assert(start + 7 == len) by (nonlinear_arith)
                    requires
                        count == (len - 6 + 6) / 7,
                        k == count,
                        start == 6 + 7 * (k - 1),
                        start + 7 <= len,
                ;
            }
        }
    }
    assert(out@ =~= Seq::new(announced_len(w[0]), |j: int| frame_byte(w, j)));
    Ok(out)
}

/// Every payload that a first frame can announce survives segmentation and
/// reassembly unchanged.
pub proof fn lemma_segment_round_trip(payload: Seq<u8>)
    requires
        payload.len() <= MAX_PAYLOAD,
    ensures
        reassemble_wire(segment_wire(payload)) == Some(payload),
{
    let w = segment_wire(payload);
    let len = payload.len();
    if len <= 7 {
        assert(w[0][0] == len);
        assert(w[0].subrange(1, 1 + len as int) =~= payload);
    } else {
        let count = consecutive_count(len);
        assert(w[0][0] == 16 + len / 256);
        assert(announced_len(w[0]) == len);
        assert forall|k: int| 0 <= k < count implies (#[trigger] w[1 + k])[0] == 0x20
            + sequence_index(k as nat) by {
            assert(w[1 + k] == consecutive_frame(payload, k as nat));
        }
        assert forall|i: int| 0 <= i < w.len() implies (#[trigger] w[i]).len() == 8 by {
            if i > 0 {
                assert(w[i] == consecutive_frame(payload, (i - 1) as nat));
                assert(chunk(payload, (i - 1) as nat).len() <= 7);
            }
        }
        assert forall|j: int| 0 <= j < len implies frame_byte(w, j) == payload[j] by {
            if j >= 6 {
                let k = (j - 6) / 7;
                let m = (j - 6) % 7;
                assert(0 <= k && 0 <= m < 7 && j == 6 + 7 * k + m) by (nonlinear_arith)
                    requires
                        j >= 6,
                        k == (j - 6) / 7,
                        m == (j - 6) % 7,
                ;
                assert(k < count) by (nonlinear_arith)
                    requires
                        j == 6 + 7 * k + m,
                        0 <= m < 7,
                        j < len,
                        count == (len - 6 + 6) / 7,
                ;
                assert(w[1 + k] == consecutive_frame(payload, k as nat));
                assert(chunk(payload, k as nat)[m] == payload[j]);
            }
        }
        assert(Seq::new(len, |j: int| frame_byte(w, j)) =~= payload);
    }
}

/// A payload of up to seven bytes travels in exactly one single frame; a
/// longer one in a first frame followed by at least one consecutive frame.
pub proof fn lemma_single_frame_boundary(payload: Seq<u8>)
    requires
        payload.len() <= MAX_PAYLOAD,
    ensures
        payload.len() <= SINGLE_FRAME_MAX ==> segment_wire(payload).len() == 1
            && segment_wire(payload)[0][0] == payload.len(),
        payload.len() > SINGLE_FRAME_MAX ==> segment_wire(payload).len() >= 2
            && segment_wire(payload)[0][0] / 16 == 1
            && forall|k: int|
            1 <= k < segment_wire(payload).len() ==> (#[trigger] segment_wire(payload)[k])[0] / 16
                == 2,
{
    let w = segment_wire(payload);
    if payload.len() > SINGLE_FRAME_MAX {
        assert forall|k: int| 1 <= k < w.len() implies (#[trigger] w[k])[0] / 16 == 2 by {
            assert(w[k] == consecutive_frame(payload, (k - 1) as nat));
        }
    }
}

/// The `k`-th frame after a first frame carries the index `k mod 16`, so the
/// indices run `1, 2, ..., 15, 0, 1, ...` and never leave `0..=15`.
pub proof fn lemma_consecutive_index_wraps(payload: Seq<u8>, k: int)
    requires
        payload.len() <= MAX_PAYLOAD,
        1 <= k < segment_wire(payload).len(),
    ensures
        segment_wire(payload)[k][0] == 0x20 + k % 16,
        0 <= segment_wire(payload)[k][0] - 0x20 <= 15,
{
    assert(segment_wire(payload)[k] == consecutive_frame(payload, (k - 1) as nat));
}

} // verus!
