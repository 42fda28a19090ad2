//! The offset log: a byte-addressed, append-only record store.
//!
//! Each record is framed by its length both before and after the payload,
//! followed by the absolute offset of the next record, `W` bytes wide
//! (`W` is 4 or 8; all records of one log use the same width).

use vstd::prelude::*;

use crate::frame::{
    be_val, claimed_len, frame_bytes, frame_lengths_match, frame_payload, frame_size,
    frames_bytes, frames_size, has_whole_frame, lemma_frame_bytes_len, lemma_frames_bytes_len,
    lemma_frames_bytes_take_succ, lemma_frames_size_split, lemma_frames_size_take_succ,
    lemma_pow256_mono, lemma_pow256_values, pow256,
};
use crate::frame::be_bytes;

verus! {

/// A record's stable identifier: the byte position of its first byte.
pub type Sequence = u64;

#[derive(Clone, Copy, Debug, PartialEq, Eq, Structural)]
pub enum FlumeOffsetLogError {
    /// The two length fields of a frame disagree; the log file is corrupt.
    CorruptLogFile,
    /// The buffer handed to a read did not hold a whole frame.
    DecodeBufferSizeTooSmall,
    /// A payload longer than a 4-byte length field can state.
    PayloadTooBig,
}

/// Appends the `w`-byte big-endian encoding of `n` (high bytes beyond `w` are
/// discarded, as the spec-side `be_bytes` does).
fn push_be(dest: &mut Vec<u8>, n: u64, w: usize)
    ensures
        final(dest)@ == old(dest)@ + be_bytes(n as nat, w as nat),
    decreases w,
{
    if w == 0 {
        assert(old(dest)@ + be_bytes(n as nat, 0) =~= old(dest)@);
        return ;
    }
    push_be(dest, n / 256, w - 1);
    dest.push((n % 256) as u8);
    assert(dest@ =~= old(dest)@ + be_bytes(n as nat, w as nat));
}

/// Reads the `w`-byte big-endian integer at `start`.
fn read_be_val(buf: &[u8], start: usize, w: usize) -> (r: u64)
    requires
        start + w <= buf@.len(),
        w <= 8,
    ensures
        r == be_val(buf@.subrange(start as int, start as int + w)),
        r < pow256(w as nat),
{
    proof {
        lemma_pow256_values();
    }
    let blen = buf.len();
    let mut acc: u64 = 0;
    let mut i: usize = 0;
    while i < w
        invariant
            i <= w,
            w <= 8,
            start + w <= blen == buf@.len(),
            acc == be_val(buf@.subrange(start as int, start as int + i)),
            acc < pow256(i as nat),
            pow256(8) == 0x1_0000_0000_0000_0000,
        decreases w - i,
    {
        let b = buf[start + i];
        proof {
            assert(pow256((i + 1) as nat) == 256 * pow256(i as nat));
            lemma_pow256_mono((i + 1) as nat, 8);
            assert(acc * 256 + 256 <= 256 * pow256(i as nat)) by (nonlinear_arith)
                requires
                    acc < pow256(i as nat),
            ;
            let s1 = buf@.subrange(start as int, start as int + i + 1);
            assert(s1.drop_last() =~= buf@.subrange(start as int, start as int + i));
            assert(s1.last() == buf@[start as int + i]);
        }
        acc = acc * 256 + b as u64;
        i += 1;
    }
    acc
}

/// A fresh copy of `buf[from..to]`.
fn copy_range(buf: &[u8], from: usize, to: usize) -> (r: Vec<u8>)
    requires
        from <= to <= buf@.len(),
    ensures
        r@ == buf@.subrange(from as int, to as int),
{
    let mut out: Vec<u8> = Vec::new();
    let mut i: usize = from;
    while i < to
        invariant
            from <= i <= to <= buf@.len(),
            out@ == buf@.subrange(from as int, i as int),
        decreases to - i,
    {
        let b = buf[i];
        out.push(b);
        assert(out@ =~= buf@.subrange(from as int, i + 1));
        i += 1;
    }
    out
}

/// Bytes of framing around every payload: two 4-byte length fields plus the
/// `W`-byte trailing offset.
pub fn size_of_framing_bytes<const W: usize>() -> (r: usize)
    requires
        W == 4 || W == 8,
    ensures
        r == 8 + W,
{
    8 + W
}

/// Whether the length field repeated after `data_size` payload bytes agrees
/// with `data_size`.
pub fn is_valid_frame(buf: &[u8], data_size: usize) -> (r: bool)
    requires
        data_size + 8 <= buf@.len(),
    ensures
        r == (be_val(buf@.subrange(4 + data_size, 8 + data_size)) == data_size),
{
    let blen = buf.len();
    assert(data_size + 8 <= blen);
    let second = read_be_val(buf, data_size + 4, 4);
    second == data_size as u64
}

/// Appends one frame for `item` to `dest`, where `offset` is the byte position
/// the frame will occupy in the log. Returns the offset of the byte right
/// after the frame, which is also written as the frame's trailing field.
/// Fails only if the payload is too long for a 4-byte length field.
pub fn encode<const W: usize>(offset: u64, item: &[u8], dest: &mut Vec<u8>) -> (r: Result<
    u64,
    FlumeOffsetLogError,
>)
    requires
        W == 4 || W == 8,
        item@.len() <= u32::MAX ==> offset + frame_size(W as nat, item@.len()) < pow256(W as nat),
    ensures
        item@.len() > u32::MAX ==> r == Err::<u64, _>(FlumeOffsetLogError::PayloadTooBig)
            && final(dest)@ == old(dest)@,
        item@.len() <= u32::MAX ==> (r matches Ok(o) && o == offset + frame_size(
            W as nat,
            item@.len(),
        ) && final(dest)@ == old(dest)@ + frame_bytes(W as nat, offset as nat, item@)),
{
    proof {
        lemma_pow256_values();
    }
    if item.len() > (u32::MAX as usize) {
        return Err(FlumeOffsetLogError::PayloadTooBig);
    }
    let len64: u64 = item.len() as u64;
    push_be(dest, len64, 4);
    dest.extend_from_slice(item);
    push_be(dest, len64, 4);
    let new_offset: u64 = offset + (8 + W as u64) + len64;
    push_be(dest, new_offset, W);
    assert(dest@ =~= old(dest)@ + frame_bytes(W as nat, offset as nat, item@));
    Ok(new_offset)
}

/// Reads the frame at the start of `buf`.
///
/// Returns `Ok(None)` when `buf` is too short to hold the whole frame ("need
/// more data"), `Err(CorruptLogFile)` exactly when a whole frame is there but
/// its two length fields disagree, and the payload otherwise.
pub fn decode<const W: usize>(buf: &[u8]) -> (r: Result<Option<Vec<u8>>, FlumeOffsetLogError>)
    requires
        W == 4 || W == 8,
    ensures
        !has_whole_frame(W as nat, buf@) ==> (r matches Ok(p) && p is None),
        has_whole_frame(W as nat, buf@) && !frame_lengths_match(W as nat, buf@) ==> r
            == Err::<Option<Vec<u8>>, _>(FlumeOffsetLogError::CorruptLogFile),
        has_whole_frame(W as nat, buf@) && frame_lengths_match(W as nat, buf@) ==> (r matches Ok(p)
            && p matches Some(v) && v@ == frame_payload(buf@)),
{
    proof {
        lemma_pow256_values();
    }
    if buf.len() < 4 {
        return Ok(None);
    }
    let data_size64 = read_be_val(buf, 0, 4);
    let framed_size: u64 = data_size64 + (8 + W as u64);
    if (buf.len() as u64) < framed_size {
        return Ok(None);
    }
    let data_size: usize = data_size64 as usize;
    if !is_valid_frame(buf, data_size) {
        return Err(FlumeOffsetLogError::CorruptLogFile);
    }
    let payload = copy_range(buf, 4, 4 + data_size);
    Ok(Some(payload))
}

/// One decoded record: its payload and the byte offset it was read from.
#[derive(Debug)]
pub struct Data {
    pub data_buffer: Vec<u8>,
    pub id: u64,
}

/// Spec-level outcome of reading the frame at the head of `s`.
pub open spec fn frame_read_result(w: nat, s: Seq<u8>) -> Result<Seq<u8>, FlumeOffsetLogError> {
    if !has_whole_frame(w, s) {
        Err(FlumeOffsetLogError::DecodeBufferSizeTooSmall)
    } else if !frame_lengths_match(w, s) {
        Err(FlumeOffsetLogError::CorruptLogFile)
    } else {
        Ok(frame_payload(s))
    }
}

/// The bytes of `s` from `pos` on; empty when `pos` is past the end.
pub open spec fn tail_from(s: Seq<u8>, pos: nat) -> Seq<u8> {
    if pos <= s.len() {
        s.skip(pos as int)
    } else {
        Seq::empty()
    }
}

/// The views of a sequence of byte vectors.
pub open spec fn seq_views(bs: Seq<Vec<u8>>) -> Seq<Seq<u8>> {
    bs.map_values(|b: Vec<u8>| b@)
}

/// For any run of appends, reading at the i-th appended record's offset
/// returns exactly the i-th payload: a log whose bytes are `base` followed by
/// the frames of `ps` (what appending each payload of `ps` in turn lays down,
/// by `append`'s and `append_batch`'s contracts) reads back `ps[i]` at the
/// offset those appends assigned (`base.len()` plus the sizes of the frames
/// before it), which is what `get` returns there by its contract.
pub proof fn lemma_get_returns_appended(w: nat, base: Seq<u8>, ps: Seq<Seq<u8>>, i: int)
    requires
        w == 4 || w == 8,
        0 <= i < ps.len(),
        forall|j: int| 0 <= j < ps.len() ==> #[trigger] ps[j].len() <= u32::MAX,
    ensures
        frame_read_result(
            w,
            tail_from(
                base + frames_bytes(w, base.len(), ps),
                (base.len() + frames_size(w, ps.take(i))) as nat,
            ),
        ) == Ok::<Seq<u8>, FlumeOffsetLogError>(ps[i]),
{
    crate::frame::lemma_log_decodes_at(w, base, ps, i);
    lemma_frames_bytes_len(w, base.len(), ps);
    lemma_frames_size_split(w, ps, i);
}

/// Streaming codec state: `length` is the cumulative offset the next frame is
/// encoded at, `last_valid_offset` the byte position the next decoded frame is
/// assigned.
#[derive(Clone, Copy, Debug, Eq, PartialEq, Ord, PartialOrd, Hash)]
pub struct OffsetCodec<const W: usize> {
    pub last_valid_offset: u64,
    pub length: u64,
}

impl<const W: usize> OffsetCodec<W> {
    pub fn new() -> (r: OffsetCodec<W>)
        ensures
            r.last_valid_offset == 0,
            r.length == 0,
    {
        OffsetCodec { last_valid_offset: 0, length: 0 }
    }

    pub fn with_length(length: u64) -> (r: OffsetCodec<W>)
        ensures
            r.last_valid_offset == 0,
            r.length == length,
    {
        OffsetCodec { last_valid_offset: 0, length }
    }

    /// Appends one frame for `item` to `dest` at the cumulative offset and
    /// advances it.
    pub fn encode(&mut self, item: &[u8], dest: &mut Vec<u8>) -> (r: Result<
        (),
        FlumeOffsetLogError,
    >)
        requires
            W == 4 || W == 8,
            item@.len() <= u32::MAX ==> old(self).length + frame_size(W as nat, item@.len())
                < pow256(W as nat),
        ensures
            final(self).last_valid_offset == old(self).last_valid_offset,
            item@.len() > u32::MAX ==> r == Err::<(), _>(FlumeOffsetLogError::PayloadTooBig)
                && final(dest)@ == old(dest)@ && final(self).length == old(self).length,
            item@.len() <= u32::MAX ==> (r matches Ok(u) && final(dest)@ == old(dest)@
                + frame_bytes(W as nat, old(self).length as nat, item@) && final(self).length
                == old(self).length + frame_size(W as nat, item@.len())),
    {
        match crate::offset_log::encode::<W>(self.length, item, dest) {
            Ok(new_length) => {
                self.length = new_length;
                Ok(())
            },
            Err(e) => Err(e),
        }
    }

    /// Decodes the frame at the head of `buf`, assigning it the tracked byte
    /// position and advancing that position past the frame.
    pub fn decode(&mut self, buf: &[u8]) -> (r: Result<Option<Data>, FlumeOffsetLogError>)
        requires
            W == 4 || W == 8,
            old(self).last_valid_offset + buf@.len() <= u64::MAX,
        ensures
            final(self).length == old(self).length,
            !has_whole_frame(W as nat, buf@) ==> (r matches Ok(d) && d is None
                && final(self).last_valid_offset == old(self).last_valid_offset),
            has_whole_frame(W as nat, buf@) && !frame_lengths_match(W as nat, buf@) ==> r
                == Err::<Option<Data>, _>(FlumeOffsetLogError::CorruptLogFile)
                && final(self).last_valid_offset == old(self).last_valid_offset,
            has_whole_frame(W as nat, buf@) && frame_lengths_match(W as nat, buf@) ==> (r matches Ok(d)
                && d matches Some(data) && data.data_buffer@ == frame_payload(buf@)
                && data.id == old(self).last_valid_offset
                && final(self).last_valid_offset == old(self).last_valid_offset
                    + frame_size(W as nat, claimed_len(buf@))),
    {
        match crate::offset_log::decode::<W>(buf) {
            Ok(Some(v)) => {
                let offset = self.last_valid_offset;
                let framing = size_of_framing_bytes::<W>();
                self.last_valid_offset = offset + (framing as u64 + v.len() as u64);
                Ok(Some(Data { data_buffer: v, id: offset }))
            },
            Ok(None) => Ok(None),
            Err(e) => Err(e),
        }
    }
}

/// The append-only log over its stored bytes. `length` is the total number of
/// bytes written (the offset the next append starts at); `last_valid_offset`
/// is the starting offset of the most recent record a read confirmed.
pub struct OffsetLog<const W: usize> {
    pub store: Vec<u8>,
    pub length: u64,
    pub last_valid_offset: u64,
}

impl<const W: usize> OffsetLog<W> {
    /// The log's write counter agrees with the stored bytes.
    pub open spec fn wf(self) -> bool {
        self.length == self.store@.len()
    }

    /// An empty log.
    pub fn new() -> (r: OffsetLog<W>)
        ensures
            r.wf(),
            r.store@ == Seq::<u8>::empty(),
            r.length == 0,
            r.last_valid_offset == 0,
    {
        OffsetLog { store: Vec::new(), length: 0, last_valid_offset: 0 }
    }

    /// A log over bytes already on hand (the content of a reopened log file).
    /// `length` starts as their total size, the way opening reads the file's
    /// size; the bytes themselves are not scanned for validity.
    pub fn with_bytes(bytes: Vec<u8>) -> (r: OffsetLog<W>)
        ensures
            r.wf(),
            r.store@ == bytes@,
            r.length == bytes@.len(),
            r.last_valid_offset == 0,
    {
        let length = bytes.len() as u64;
        OffsetLog { store: bytes, length, last_valid_offset: 0 }
    }

    /// Appends one record, returning its assigned offset (the log's previous
    /// length). Fails only if the payload is too long for a 4-byte length
    /// field, leaving the log unchanged.
    pub fn append(&mut self, buff: &[u8]) -> (r: Result<u64, FlumeOffsetLogError>)
        requires
            old(self).wf(),
            W == 4 || W == 8,
            buff@.len() <= u32::MAX ==> old(self).length + frame_size(W as nat, buff@.len())
                < pow256(W as nat),
        ensures
            final(self).wf(),
            final(self).last_valid_offset == old(self).last_valid_offset,
            buff@.len() > u32::MAX ==> r == Err::<u64, _>(FlumeOffsetLogError::PayloadTooBig)
                && final(self).store@ == old(self).store@
                && final(self).length == old(self).length,
            buff@.len() <= u32::MAX ==> (r matches Ok(o) && o == old(self).length
                && final(self).store@ == old(self).store@
                    + frame_bytes(W as nat, old(self).length as nat, buff@)
                && final(self).length == old(self).length + frame_size(W as nat, buff@.len())),
    {
        let offset = self.length;
        match crate::offset_log::encode::<W>(offset, buff, &mut self.store) {
            Ok(new_length) => {
                proof {
                    lemma_frame_bytes_len(W as nat, offset as nat, buff@);
                }
                self.length = new_length;
                Ok(offset)
            },
            Err(e) => Err(e),
        }
    }

    /// Appends every payload in order, all laid out as one run of frames, and
    /// returns the offsets assigned to them: each record starts where the one
    /// before it ended, `8 + W + payload length` bytes later. Fails only if
    /// some payload is too long for a 4-byte length field, leaving the log
    /// unchanged.
    pub fn append_batch(&mut self, buffs: &Vec<Vec<u8>>) -> (r: Result<
        Vec<u64>,
        FlumeOffsetLogError,
    >)
        requires
            old(self).wf(),
            W == 4 || W == 8,
            old(self).length + frames_size(W as nat, seq_views(buffs@)) < pow256(W as nat),
        ensures
            final(self).wf(),
            final(self).last_valid_offset == old(self).last_valid_offset,
            (exists|j: int|
                0 <= j < buffs@.len() && #[trigger] buffs@[j]@.len() > u32::MAX) ==> (r == Err::<
                Vec<u64>,
                _,
            >(FlumeOffsetLogError::PayloadTooBig) && final(self).store@ == old(self).store@
                && final(self).length == old(self).length),
            (forall|j: int| 0 <= j < buffs@.len() ==> #[trigger] buffs@[j]@.len() <= u32::MAX)
                ==> (r matches Ok(offsets) && offsets@.len() == buffs@.len() && (forall|j: int|
                0 <= j < buffs@.len() ==> #[trigger] offsets@[j] == old(self).length + frames_size(
                    W as nat,
                    seq_views(buffs@).take(j),
                )) && (forall|j: int|
                0 <= j && j + 1 < buffs@.len() ==> #[trigger] offsets@[j + 1] == offsets@[j]
                    + frame_size(W as nat, buffs@[j]@.len()))
                && final(self).store@ == old(self).store@
                    + frames_bytes(W as nat, old(self).length as nat, seq_views(buffs@))
                && final(self).length == old(self).length + frames_size(W as nat, seq_views(buffs@))),
    {
        let ghost views = seq_views(buffs@);
        let mut encoded: Vec<u8> = Vec::new();
        let mut offsets: Vec<u64> = Vec::new();
        let mut cur: u64 = self.length;
        let mut i: usize = 0;
        while i < buffs.len()
            invariant
                0 <= i <= buffs@.len(),
                W == 4 || W == 8,
                views == seq_views(buffs@),
                self.store@ == old(self).store@,
                self.length == old(self).length,
                self.last_valid_offset == old(self).last_valid_offset,
                old(self).wf(),
                old(self).length + frames_size(W as nat, views) < pow256(W as nat),
                forall|j: int| 0 <= j < i ==> #[trigger] views[j].len() <= u32::MAX,
                cur == old(self).length + frames_size(W as nat, views.take(i as int)),
                encoded@ == frames_bytes(W as nat, old(self).length as nat, views.take(i as int)),
                offsets@.len() == i,
                forall|j: int|
                    0 <= j < i ==> #[trigger] offsets@[j] == old(self).length + frames_size(
                        W as nat,
                        views.take(j),
                    ),
            decreases buffs@.len() - i,
        {
            proof {
                lemma_frames_size_take_succ(W as nat, views, i as int);
                lemma_frames_size_split(W as nat, views, i as int + 1);
            }
            offsets.push(cur);
            let item = &buffs[i];
            match crate::offset_log::encode::<W>(cur, item.as_slice(), &mut encoded) {
                Ok(o) => {
                    proof {
                        lemma_frames_bytes_take_succ(W as nat, old(self).length as nat, views, i as int);
                        assert(encoded@ =~= frames_bytes(
                            W as nat,
                            old(self).length as nat,
                            views.take(i as int + 1),
                        ));
                    }
                    cur = o;
                },
                Err(e) => {
                    assert(views[i as int] == buffs@[i as int]@);
                    assert(buffs@[i as int]@.len() > u32::MAX);
                    return Err(e);
                },
            }
            i += 1;
        }
        proof {
            assert(views.take(buffs@.len() as int) =~= views);
            lemma_frames_bytes_len(W as nat, old(self).length as nat, views);
            assert forall|j: int| 0 <= j < buffs@.len() implies #[trigger] buffs@[j]@.len()
                <= u32::MAX by {
                assert(views[j] == buffs@[j]@);
            }
        }
        self.store.extend_from_slice(encoded.as_slice());
        self.length = cur;
        proof {
            assert forall|j: int| 0 <= j && j + 1 < buffs@.len() implies #[trigger] offsets@[j + 1]
                == offsets@[j] + frame_size(W as nat, buffs@[j]@.len()) by {
                lemma_frames_size_take_succ(W as nat, views, j);
                assert(views[j] == buffs@[j]@);
            }
        }
        Ok(offsets)
    }

    /// Reads the record stored at byte offset `seq_num`: the result is exactly
    /// what decoding the log's bytes from that position yields. On success the
    /// offset is remembered as the most recently confirmed record.
    pub fn get(&mut self, seq_num: u64) -> (r: Result<Vec<u8>, FlumeOffsetLogError>)
        requires
            old(self).wf(),
            W == 4 || W == 8,
        ensures
            final(self).wf(),
            final(self).store@ == old(self).store@,
            final(self).length == old(self).length,
            ({
                let out = frame_read_result(W as nat, tail_from(old(self).store@, seq_num as nat));
                &&& (r matches Ok(v) ==> out == Ok::<Seq<u8>, FlumeOffsetLogError>(v@))
                &&& (r matches Err(e) ==> out == Err::<Seq<u8>, FlumeOffsetLogError>(e))
                &&& final(self).last_valid_offset == if out is Ok {
                    seq_num
                } else {
                    old(self).last_valid_offset
                }
            }),
    {
        proof {
            lemma_pow256_values();
        }
        let slen = self.store.len();
        if seq_num >= slen as u64 {
            return Err(FlumeOffsetLogError::DecodeBufferSizeTooSmall);
        }
        let pos = seq_num as usize;
        let ghost tail = self.store@.skip(pos as int);
        if slen - pos < 4 {
            return Err(FlumeOffsetLogError::DecodeBufferSizeTooSmall);
        }
        let data_size64 = read_be_val(self.store.as_slice(), pos, 4);
        proof {
            assert(tail.subrange(0, 4) =~= self.store@.subrange(pos as int, pos as int + 4));
        }
        let needed: u64 = data_size64 + (8 + W as u64);
        if ((slen - pos) as u64) < needed {
            return Err(FlumeOffsetLogError::DecodeBufferSizeTooSmall);
        }
        let frame_end = pos + needed as usize;
        let buf = copy_range(self.store.as_slice(), pos, frame_end);
        proof {
            let w = W as nat;
            assert(buf@ =~= tail.take(needed as int));
            assert(buf@.subrange(0, 4) =~= tail.subrange(0, 4));
            assert(claimed_len(buf@) == claimed_len(tail));
            let l = claimed_len(tail) as int;
            assert(has_whole_frame(w, buf@));
            assert(has_whole_frame(w, tail));
            assert(buf@.subrange(4 + l, 8 + l) =~= tail.subrange(4 + l, 8 + l));
            assert(frame_lengths_match(w, buf@) == frame_lengths_match(w, tail));
            assert(buf@.subrange(4, 4 + l) =~= tail.subrange(4, 4 + l));
        }
        match crate::offset_log::decode::<W>(buf.as_slice()) {
            Ok(Some(v)) => {
                self.last_valid_offset = seq_num;
                Ok(v)
            },
            Ok(None) => Err(FlumeOffsetLogError::DecodeBufferSizeTooSmall),
            Err(e) => Err(e),
        }
    }

    /// The starting offset of the most recently confirmed record, or 0 if none
    /// has been read yet.
    pub fn latest(&self) -> (r: u64)
        ensures
            r == self.last_valid_offset,
    {
        self.last_valid_offset
    }
}

/// A restartable forward scan over a log's bytes: yields each record together
/// with the byte offset assigned to it, and ends at the end of the bytes or at
/// the first frame that is incomplete or damaged.
pub struct OffsetLogIter<const W: usize> {
    pub bytes: Vec<u8>,
    pub position: usize,
    pub offset_codec: OffsetCodec<W>,
}

impl<const W: usize> OffsetLogIter<W> {
    /// The scan position lies within the bytes, and assigned offsets cannot
    /// overflow while scanning forward.
    pub open spec fn wf(self) -> bool {
        &&& self.position <= self.bytes@.len()
        &&& self.offset_codec.last_valid_offset + (self.bytes@.len() - self.position) <= u64::MAX
    }

    /// Scans from the start of the bytes, assigning offsets from 0.
    pub fn new(bytes: Vec<u8>) -> (r: OffsetLogIter<W>)
        ensures
            r.wf(),
            r.bytes@ == bytes@,
            r.position == 0,
            r.offset_codec.last_valid_offset == 0,
    {
        let _blen: usize = bytes.len();  // the byte count fits usize, so offsets fit u64
        OffsetLogIter { bytes, position: 0, offset_codec: OffsetCodec::new() }
    }

    /// Scans from byte position `starting_seq`, which the first record found
    /// there is assigned as its offset. A start past the end scans nothing.
    pub fn with_starting_offset(bytes: Vec<u8>, starting_seq: Sequence) -> (r: OffsetLogIter<W>)
        ensures
            r.wf(),
            r.bytes@ == bytes@,
            r.position == if starting_seq <= bytes@.len() {
                starting_seq as int
            } else {
                bytes@.len() as int
            },
            r.offset_codec.last_valid_offset == starting_seq,
    {
        let blen = bytes.len();
        let position = if starting_seq <= blen as u64 {
            starting_seq as usize
        } else {
            blen
        };
        OffsetLogIter {
            bytes,
            position,
            offset_codec: OffsetCodec { last_valid_offset: starting_seq, length: 0 },
        }
    }

    /// Decodes the record at the scan position: yields it with its assigned
    /// offset and moves past its frame; yields nothing when the remaining
    /// bytes hold no whole frame or the frame's length fields disagree, and
    /// then changes nothing.
    pub fn next(&mut self) -> (r: Option<Data>)
        requires
            old(self).wf(),
            W == 4 || W == 8,
        ensures
            final(self).wf(),
            final(self).bytes@ == old(self).bytes@,
            ({
                let s = old(self).bytes@.skip(old(self).position as int);
                let w = W as nat;
                if has_whole_frame(w, s) && frame_lengths_match(w, s) {
                    r matches Some(d) && d.id == old(self).offset_codec.last_valid_offset
                        && d.data_buffer@ == frame_payload(s)
                        && final(self).position == old(self).position + frame_size(w, claimed_len(s))
                        && final(self).offset_codec.last_valid_offset
                            == old(self).offset_codec.last_valid_offset + frame_size(w, claimed_len(s))
                } else {
                    r is None && final(self).position == old(self).position
                        && final(self).offset_codec == old(self).offset_codec
                }
            }),
    {
        let blen = self.bytes.len();
        let tail = copy_range(self.bytes.as_slice(), self.position, blen);
        match self.offset_codec.decode(tail.as_slice()) {
            Ok(Some(data)) => {
                let advance = size_of_framing_bytes::<W>() + data.data_buffer.len();
                self.position = self.position + advance;
                Some(data)
            },
            Ok(None) => None,
            Err(_) => None,
        }
    }
}

} // verus!
