//! Byte-level model of the on-disk frame format.
//!
//! A record of payload `p` written at byte offset `o` in a log whose trailing
//! offset field is `w` bytes wide occupies `8 + w + p.len()` bytes: the payload
//! length as a 4-byte big-endian integer, the payload, the same length again,
//! and the offset of the byte right after the frame as a `w`-byte big-endian
//! integer.

use vstd::prelude::*;

verus! {

/// Big-endian byte encoding of `n`, `w` bytes wide (most significant first).
/// High bits of `n` beyond `w` bytes are discarded.
pub open spec fn be_bytes(n: nat, w: nat) -> Seq<u8>
    decreases w,
{
    if w == 0 {
        Seq::empty()
    } else {
        be_bytes(n / 256, (w - 1) as nat) + seq![(n % 256) as u8]
    }
}

/// The number a big-endian byte sequence stands for.
pub open spec fn be_val(s: Seq<u8>) -> nat
    decreases s.len(),
{
    if s.len() == 0 {
        0
    } else {
        (be_val(s.drop_last()) * 256 + s.last()) as nat
    }
}

/// 256 to the power `w`: one more than the largest value `w` bytes can hold.
pub open spec fn pow256(w: nat) -> nat
    decreases w,
{
    if w == 0 {
        1
    } else {
        256 * pow256((w - 1) as nat)
    }
}

pub proof fn lemma_pow256_values()
    ensures
        pow256(4) == 0x1_0000_0000,
        pow256(8) == 0x1_0000_0000_0000_0000,
{
    assert(pow256(0) == 1);
    assert(pow256(1) == 256);
    assert(pow256(2) == 0x1_0000);
    assert(pow256(3) == 0x100_0000);
    assert(pow256(4) == 0x1_0000_0000);
    assert(pow256(5) == 0x100_0000_0000);
    assert(pow256(6) == 0x1_0000_0000_0000);
    assert(pow256(7) == 0x100_0000_0000_0000);
    assert(pow256(8) == 0x1_0000_0000_0000_0000);
}

pub proof fn lemma_pow256_pos(w: nat)
    ensures
        pow256(w) >= 1,
    decreases w,
{
    if w > 0 {
        lemma_pow256_pos((w - 1) as nat);
    }
}

pub proof fn lemma_pow256_mono(a: nat, b: nat)
    requires
        a <= b,
    ensures
        pow256(a) <= pow256(b),
    decreases b,
{
    if a < b {
        lemma_pow256_mono(a, (b - 1) as nat);
        lemma_pow256_pos((b - 1) as nat);
    }
}

pub proof fn lemma_be_bytes_len(n: nat, w: nat)
    ensures
        be_bytes(n, w).len() == w,
    decreases w,
{
    if w > 0 {
        lemma_be_bytes_len(n / 256, (w - 1) as nat);
    }
}

/// Writing a value small enough for the width and reading it back round-trips.
pub proof fn lemma_be_val_of_be_bytes(n: nat, w: nat)
    requires
        n < pow256(w),
    ensures
        be_val(be_bytes(n, w)) == n,
    decreases w,
{
    if w > 0 {
        let rest = be_bytes(n / 256, (w - 1) as nat);
        lemma_be_bytes_len(n / 256, (w - 1) as nat);
        assert(be_bytes(n, w).drop_last() =~= rest);
        assert(be_bytes(n, w).last() == (n % 256) as u8);
        assert(n / 256 < pow256((w - 1) as nat)) by (nonlinear_arith)
            requires
                n < 256 * pow256((w - 1) as nat),
        ;
        lemma_be_val_of_be_bytes(n / 256, (w - 1) as nat);
        assert((n / 256) * 256 + n % 256 == n) by (nonlinear_arith);
    }
}

/// Total size of a frame around a payload of `len` bytes.
pub open spec fn frame_size(w: nat, len: nat) -> nat {
    8 + w + len
}

/// The bytes a single frame puts on disk: length, payload, length again, and
/// the offset of the byte right after the frame.
pub open spec fn frame_bytes(w: nat, offset: nat, payload: Seq<u8>) -> Seq<u8> {
    be_bytes(payload.len(), 4) + payload + be_bytes(payload.len(), 4) + be_bytes(
        offset + frame_size(w, payload.len()),
        w,
    )
}

pub proof fn lemma_frame_bytes_len(w: nat, offset: nat, payload: Seq<u8>)
    ensures
        frame_bytes(w, offset, payload).len() == frame_size(w, payload.len()),
{
    lemma_be_bytes_len(payload.len(), 4);
    lemma_be_bytes_len(offset + frame_size(w, payload.len()), w);
}

/// The payload length a buffer claims in its leading 4 bytes.
pub open spec fn claimed_len(s: Seq<u8>) -> nat {
    be_val(s.subrange(0, 4))
}

/// Whether the buffer holds at least one whole frame, going by the claimed
/// length.
pub open spec fn has_whole_frame(w: nat, s: Seq<u8>) -> bool {
    s.len() >= 4 && s.len() >= frame_size(w, claimed_len(s))
}

/// Whether the two length fields of the leading frame agree.
pub open spec fn frame_lengths_match(w: nat, s: Seq<u8>) -> bool {
    be_val(s.subrange(4 + claimed_len(s) as int, 8 + claimed_len(s) as int)) == claimed_len(s)
}

/// The payload of the leading frame.
pub open spec fn frame_payload(s: Seq<u8>) -> Seq<u8> {
    s.subrange(4, 4 + claimed_len(s) as int)
}

/// Reading back a frame just written: the leading 4 bytes claim the payload's
/// length, the two length fields agree, the payload is intact, and whatever
/// follows the frame is untouched.
pub proof fn lemma_frame_decodes(w: nat, offset: nat, payload: Seq<u8>, rest: Seq<u8>)
    requires
        w == 4 || w == 8,
        payload.len() <= u32::MAX,
    ensures
        ({
            let s = frame_bytes(w, offset, payload) + rest;
            &&& has_whole_frame(w, s)
            &&& claimed_len(s) == payload.len()
            &&& frame_lengths_match(w, s)
            &&& frame_payload(s) == payload
            &&& s.skip(frame_size(w, payload.len()) as int) == rest
        }),
{
    let s = frame_bytes(w, offset, payload) + rest;
    let len = payload.len();
    lemma_be_bytes_len(len, 4);
    lemma_be_bytes_len(offset + frame_size(w, len), w);
    lemma_pow256_values();
    lemma_be_val_of_be_bytes(len, 4);
    assert(s.subrange(0, 4) =~= be_bytes(len, 4));
    assert(claimed_len(s) == len);
    assert(s.subrange(4, 4 + len as int) =~= payload);
    assert(s.subrange(4 + len as int, 8 + len as int) =~= be_bytes(len, 4));
    assert(s.skip(frame_size(w, len) as int) =~= rest);
}

/// The bytes of a run of frames, each laid down at the offset right after the
/// one before it.
pub open spec fn frames_bytes(w: nat, offset: nat, ps: Seq<Seq<u8>>) -> Seq<u8>
    decreases ps.len(),
{
    if ps.len() == 0 {
        Seq::empty()
    } else {
        frame_bytes(w, offset, ps[0]) + frames_bytes(
            w,
            offset + frame_size(w, ps[0].len()),
            ps.drop_first(),
        )
    }
}

/// The total size of a run of frames.
pub open spec fn frames_size(w: nat, ps: Seq<Seq<u8>>) -> nat
    decreases ps.len(),
{
    if ps.len() == 0 {
        0
    } else {
        frame_size(w, ps[0].len()) + frames_size(w, ps.drop_first())
    }
}

pub proof fn lemma_frames_bytes_len(w: nat, offset: nat, ps: Seq<Seq<u8>>)
    ensures
        frames_bytes(w, offset, ps).len() == frames_size(w, ps),
    decreases ps.len(),
{
    if ps.len() > 0 {
        lemma_frame_bytes_len(w, offset, ps[0]);
        lemma_frames_bytes_len(w, offset + frame_size(w, ps[0].len()), ps.drop_first());
    }
}

/// One more record adds its own frame size to the size of the run.
pub proof fn lemma_frames_size_take_succ(w: nat, ps: Seq<Seq<u8>>, i: int)
    requires
        0 <= i < ps.len(),
    ensures
        frames_size(w, ps.take(i + 1)) == frames_size(w, ps.take(i)) + frame_size(
            w,
            ps[i].len(),
        ),
    decreases i,
{
    if i == 0 {
        assert(ps.take(0) =~= Seq::<Seq<u8>>::empty());
        assert(ps.take(1).drop_first() =~= Seq::<Seq<u8>>::empty());
        assert(ps.take(1)[0] == ps[0]);
    } else {
        let dp = ps.drop_first();
        assert(ps.take(i + 1).drop_first() =~= dp.take(i));
        assert(ps.take(i).drop_first() =~= dp.take(i - 1));
        assert(ps.take(i + 1)[0] == ps[0]);
        assert(ps.take(i)[0] == ps[0]);
        assert(dp[i - 1] == ps[i]);
        lemma_frames_size_take_succ(w, dp, i - 1);
    }
}

/// Splitting a run of records splits its total size.
pub proof fn lemma_frames_size_split(w: nat, ps: Seq<Seq<u8>>, i: int)
    requires
        0 <= i <= ps.len(),
    ensures
        frames_size(w, ps) == frames_size(w, ps.take(i)) + frames_size(w, ps.skip(i)),
    decreases i,
{
    if i == 0 {
        assert(ps.take(0) =~= Seq::<Seq<u8>>::empty());
        assert(ps.skip(0) =~= ps);
    } else {
        let dp = ps.drop_first();
        assert(ps.take(i).drop_first() =~= dp.take(i - 1));
        assert(ps.take(i)[0] == ps[0]);
        assert(ps.skip(i) =~= dp.skip(i - 1));
        lemma_frames_size_split(w, dp, i - 1);
    }
}

/// Laying down one more frame extends the stream at its end.
pub proof fn lemma_frames_bytes_take_succ(w: nat, offset: nat, ps: Seq<Seq<u8>>, i: int)
    requires
        0 <= i < ps.len(),
    ensures
        frames_bytes(w, offset, ps.take(i + 1)) == frames_bytes(w, offset, ps.take(i))
            + frame_bytes(w, offset + frames_size(w, ps.take(i)), ps[i]),
    decreases i,
{
    if i == 0 {
        assert(ps.take(0) =~= Seq::<Seq<u8>>::empty());
        assert(ps.take(1)[0] == ps[0]);
        assert(ps.take(1).drop_first() =~= Seq::<Seq<u8>>::empty());
        assert(frames_bytes(w, offset, ps.take(0)) == Seq::<u8>::empty());
        assert(frames_size(w, ps.take(0)) == 0);
        assert(frames_bytes(w, offset + frame_size(w, ps[0].len()), ps.take(1).drop_first())
            == Seq::<u8>::empty());
        assert(frames_bytes(w, offset, ps.take(1)) == frame_bytes(w, offset, ps[0]) + frames_bytes(
            w,
            offset + frame_size(w, ps[0].len()),
            ps.take(1).drop_first(),
        ));
        assert(frames_bytes(w, offset, ps.take(1)) =~= frames_bytes(w, offset, ps.take(0))
            + frame_bytes(w, offset + frames_size(w, ps.take(0)), ps[0]));
    } else {
        let fs0 = frame_size(w, ps[0].len());
        let dp = ps.drop_first();
        assert(ps.take(i + 1)[0] == ps[0]);
        assert(ps.take(i + 1).drop_first() =~= dp.take(i));
        assert(ps.take(i)[0] == ps[0]);
        assert(ps.take(i).drop_first() =~= dp.take(i - 1));
        assert(dp[i - 1] == ps[i]);
        lemma_frames_bytes_take_succ(w, offset + fs0, dp, i - 1);
        assert(frames_bytes(w, offset, ps.take(i + 1)) =~= frames_bytes(w, offset, ps.take(i))
            + frame_bytes(w, offset + frames_size(w, ps.take(i)), ps[i]));
    }
}

/// After the first `i` frames, the rest of the stream is again a stream of
/// frames, laid down from the cumulative offset.
pub proof fn lemma_frames_bytes_skip(w: nat, offset: nat, ps: Seq<Seq<u8>>, i: int)
    requires
        0 <= i <= ps.len(),
    ensures
        frames_bytes(w, offset, ps).skip(frames_size(w, ps.take(i)) as int) == frames_bytes(
            w,
            offset + frames_size(w, ps.take(i)),
            ps.skip(i),
        ),
    decreases i,
{
    if i == 0 {
        assert(ps.take(0) =~= Seq::<Seq<u8>>::empty());
        assert(ps.skip(0) =~= ps);
        assert(frames_bytes(w, offset, ps).skip(0) =~= frames_bytes(w, offset, ps));
    } else {
        let fs0 = frame_size(w, ps[0].len());
        let f0 = frame_bytes(w, offset, ps[0]);
        let dp = ps.drop_first();
        let rest = frames_bytes(w, offset + fs0, dp);
        lemma_frame_bytes_len(w, offset, ps[0]);
        lemma_frames_bytes_len(w, offset + fs0, dp);
        assert(ps.take(i).drop_first() =~= dp.take(i - 1));
        assert(ps.take(i)[0] == ps[0]);
        assert(ps.skip(i) =~= dp.skip(i - 1));
        lemma_frames_bytes_skip(w, offset + fs0, dp, i - 1);
        let k = frames_size(w, dp.take(i - 1)) as int;
        assert(frames_size(w, ps.take(i)) == fs0 + k);
        lemma_frames_size_split(w, dp, i - 1);
        assert(k <= rest.len());
        assert((f0 + rest).skip(fs0 + k) =~= rest.skip(k));
    }
}

/// The i-th record of a stream of frames reads back as exactly the i-th
/// payload: at its position the stream holds a whole frame whose length fields
/// agree and whose payload is `ps[i]`. The stream's total length is the sum of
/// the frame sizes, so after the last record it is fully consumed.
pub proof fn lemma_stream_decodes(w: nat, offset: nat, ps: Seq<Seq<u8>>, i: int)
    requires
        w == 4 || w == 8,
        0 <= i < ps.len(),
        forall|j: int| 0 <= j < ps.len() ==> #[trigger] ps[j].len() <= u32::MAX,
    ensures
        frames_bytes(w, offset, ps).len() == frames_size(w, ps),
        ({
            let s = frames_bytes(w, offset, ps).skip(frames_size(w, ps.take(i)) as int);
            &&& has_whole_frame(w, s)
            &&& frame_lengths_match(w, s)
            &&& frame_payload(s) == ps[i]
        }),
{
    lemma_frames_bytes_len(w, offset, ps);
    lemma_frames_bytes_skip(w, offset, ps, i);
    let off_i = offset + frames_size(w, ps.take(i));
    let tailp = ps.skip(i);
    assert(tailp[0] == ps[i]);
    assert(frames_bytes(w, off_i, tailp) == frame_bytes(w, off_i, ps[i]) + frames_bytes(
        w,
        off_i + frame_size(w, ps[i].len()),
        tailp.drop_first(),
    ));
    lemma_frame_decodes(
        w,
        off_i,
        ps[i],
        frames_bytes(w, off_i + frame_size(w, ps[i].len()), tailp.drop_first()),
    );
}

/// Records appended after arbitrary existing bytes read back intact: viewed
/// from the i-th appended record's byte offset, the log holds a whole,
/// well-formed frame carrying exactly the i-th payload. Appends lay down
/// exactly these bytes and assign exactly these offsets, and a read decodes
/// exactly this view, so reading any appended record's offset returns that
/// record's payload.
pub proof fn lemma_log_decodes_at(w: nat, base: Seq<u8>, ps: Seq<Seq<u8>>, i: int)
    requires
        w == 4 || w == 8,
        0 <= i < ps.len(),
        forall|j: int| 0 <= j < ps.len() ==> #[trigger] ps[j].len() <= u32::MAX,
    ensures
        ({
            let s = (base + frames_bytes(w, base.len(), ps)).skip(
                base.len() + frames_size(w, ps.take(i)) as int,
            );
            &&& has_whole_frame(w, s)
            &&& frame_lengths_match(w, s)
            &&& frame_payload(s) == ps[i]
        }),
{
    lemma_stream_decodes(w, base.len(), ps, i);
    let fb = frames_bytes(w, base.len(), ps);
    let k = frames_size(w, ps.take(i)) as int;
    lemma_frames_size_split(w, ps, i);
    lemma_frames_bytes_len(w, base.len(), ps);
    assert((base + fb).skip(base.len() + k) =~= fb.skip(k));
}

} // verus!
