//! The encoder's bitstream: frames of quantized values are Rice-coded into an
//! in-memory stream, and saving puts the header in front of them.

use vstd::prelude::*;
use std::collections::VecDeque;
use std::ops::Range;
use crate::bitstream::{
    BitSink, align_pad, byte_align, into_bytes, le_bits, lemma_align_pad, zero_bits, lemma_unpack_pack, new_bit_writer,
    unary_bits, unpack_bytes, write_bits, write_bytes, write_unary1, written_bits,
};
use crate::error::{CodecError, write_outcome};
use crate::format::{
    BAND_COUNT, FRAME_LEN, HeaderFields, band_bits, band_edge, band_table, band_values, bands_bits,
    encoded_file, file_bits, frame_bits, frames_bits, header_bits, lemma_parse_header_roundtrip, index_rows_valid, is_band_table, lemma_file_roundtrip,
    parse_frames, parse_header, rows_as_nat, samples_in_range,
};
use crate::header::{CodecHeaderManager, indices_fit};
use crate::queue::take_front;
use crate::rice::{pow2_u32, remainder_len, units_bits, zigzag, zigzag_sum};

verus! {

/// Takes the samples of the next frame, the first 512 waiting, from the
/// front of `samples_cache`; fails with `NotEnoughSamples`, taking nothing,
/// when fewer are waiting.
pub fn try_pop_frame<T>(samples_cache: &mut VecDeque<T>) -> (r: Result<Vec<T>, CodecError>)
    ensures
        old(samples_cache)@.len() >= FRAME_LEN ==> ({
            &&& r matches Ok(frame)
            &&& frame@ == old(samples_cache)@.take(FRAME_LEN as int)
            &&& final(samples_cache)@ == old(samples_cache)@.skip(FRAME_LEN as int)
        }),
        old(samples_cache)@.len() < FRAME_LEN ==> r is Err && r->Err_0 == CodecError::NotEnoughSamples
            && final(samples_cache)@ == old(samples_cache)@,
{
    if samples_cache.len() < FRAME_LEN {
        return Err(CodecError::NotEnoughSamples);
    }
    Ok(take_front(samples_cache, FRAME_LEN))
}

/// The encoder's bitstream state.
pub struct TinyEncoder {
    bands: Vec<Range<usize>>,
    file_bit_writer: Option<BitSink>,
    frames: u64,
    indices: Vec<Vec<u8>>,
    header_manager: CodecHeaderManager,
    sample_rate: u32,
    channels: u8,
    coded: Ghost<Seq<Seq<i32>>>,
}

impl TinyEncoder {
    /// The encoder's invariant: its stream, while open, holds the bits of
    /// the frames coded since the last reset; each frame has one row of
    /// nine delta-table indices below 64.
    pub closed spec fn wf(&self) -> bool {
        &&& is_band_table(self.bands@)
        &&& self.frames == self.coded@.len()
        &&& self.indices.deep_view().len() == self.coded@.len()
        &&& index_rows_valid(self.indices.deep_view())
        &&& forall|i: int| 0 <= i < self.coded@.len() ==> (#[trigger] self.coded@[i]).len() == FRAME_LEN
        &&& (self.file_bit_writer matches Some(w) ==> written_bits(w) == frames_bits(self.coded@))
    }

    /// Whether the stream is open.
    pub closed spec fn has_writer(&self) -> bool {
        self.file_bit_writer is Some
    }

    /// The frames coded since the last reset.
    pub closed spec fn coded_frames(&self) -> Seq<Seq<i32>> {
        self.coded@
    }

    /// The delta-table indices of the coded frames.
    pub closed spec fn delta_rows(&self) -> Seq<Seq<u8>> {
        self.indices.deep_view()
    }

    /// The sample rate that the header records.
    pub closed spec fn rate(&self) -> nat {
        self.sample_rate as nat
    }

    /// The channel count that the header records.
    pub closed spec fn channel_count(&self) -> nat {
        self.channels as nat
    }

    /// An encoder for the given sample rate and channel count, with no open
    /// stream.
    pub fn new(sample_rate: u32, channels: u8) -> (e: Self)
        ensures
            e.wf(),
            !e.has_writer(),
            e.coded_frames() == Seq::<Seq<i32>>::empty(),
            e.delta_rows() == Seq::<Seq<u8>>::empty(),
            e.rate() == sample_rate,
            e.channel_count() == channels,
    {
        let e = Self {
            bands: band_table(),
            file_bit_writer: None,
            frames: 0,
            indices: Vec::new(),
            header_manager: CodecHeaderManager::new(),
            sample_rate,
            channels,
            coded: Ghost(Seq::empty()),
        };
        assert(e.indices.deep_view() =~= Seq::<Seq<u8>>::empty());
        e
    }

    /// Opens a new, empty stream and forgets the frames coded so far.
    pub fn reset_encoder(&mut self)
        requires
            old(self).wf(),
        ensures
            final(self).wf(),
            final(self).has_writer(),
            final(self).coded_frames() == Seq::<Seq<i32>>::empty(),
            final(self).delta_rows() == Seq::<Seq<u8>>::empty(),
            final(self).rate() == old(self).rate(),
            final(self).channel_count() == old(self).channel_count(),
    {
        self.file_bit_writer = Some(new_bit_writer());
        self.frames = 0;
        self.indices.clear();
        self.coded = Ghost(Seq::empty());
        assert(self.indices.deep_view() =~= Seq::<Seq<u8>>::empty());
    }

    /// The band that holds value index `count % 512`.
    pub fn _find_band_idx(&self, count: usize) -> (b: usize)
        ensures
            b < BAND_COUNT,
            band_edge(b as int) <= count % 512 < band_edge(b as int + 1),
            b == 0 <==> count % 512 < 2,
            b > 0 ==> vstd::arithmetic::power2::pow2(b as nat) <= count % 512 < vstd::arithmetic::power2::pow2(
                b as nat + 1,
            ),
    {
        proof {
            vstd::arithmetic::power2::lemma2_to64();
        }
        let c = count % 512;
        if c < 2 {
            0
        } else if c < 4 {
            1
        } else if c < 8 {
            2
        } else if c < 16 {
            3
        } else if c < 32 {
            4
        } else if c < 64 {
            5
        } else if c < 128 {
            6
        } else if c < 256 {
            7
        } else {
            8
        }
    }

    /// The number of frames coded since the last reset.
    pub fn frames(&self) -> (n: u64)
        requires
            self.wf(),
        ensures
            n == self.coded_frames().len(),
    {
        self.frames
    }

    /// The sample rate that the header records.
    pub fn sample_rate(&self) -> (r: u32)
        ensures
            r == self.rate(),
    {
        self.sample_rate
    }

    /// The channel count that the header records.
    pub fn channels(&self) -> (c: u8)
        ensures
            c == self.channel_count(),
    {
        self.channels
    }

    /// Appends the Rice code of one frame of quantized values to the open
    /// stream: for each band its remainder length in four bits, then each
    /// value's zigzag code as a unary quotient and a remainder of that many
    /// bits.
    fn rice_compress(&mut self, frame_quantized: &Vec<i32>) -> (r: Result<(), CodecError>)
        requires
            is_band_table(old(self).bands@),
            frame_quantized@.len() == FRAME_LEN,
        ensures
            final(self).bands == old(self).bands,
            final(self).frames == old(self).frames,
            final(self).indices == old(self).indices,
            final(self).sample_rate == old(self).sample_rate,
            final(self).channels == old(self).channels,
            final(self).coded == old(self).coded,
            old(self).file_bit_writer is None ==> r == Err::<(), CodecError>(CodecError::NoWriter)
                && final(self).file_bit_writer is None,
            old(self).file_bit_writer matches Some(w0) ==> ({
                &&& r is Ok
                &&& final(self).file_bit_writer matches Some(w1)
                &&& written_bits(w1) == written_bits(w0) + frame_bits(frame_quantized@)
            }),
    {
        let mut w = match self.file_bit_writer.take() {
            Some(w) => w,
            None => return Err(CodecError::NoWriter),
        };
        let ghost base = written_bits(w);
        let ghost q = frame_quantized@;
        let mut b: usize = 0;
        while b < BAND_COUNT
            invariant
                b <= BAND_COUNT,
                is_band_table(self.bands@),
                q == frame_quantized@,
                q.len() == FRAME_LEN,
                written_bits(w) == base + bands_bits(q, b as nat),
            decreases BAND_COUNT - b,
        {
            let lo = self.bands[b].start;
            let hi = self.bands[b].end;
            assert(lo == band_edge(b as int) && hi == band_edge(b as int + 1));
            let mut sum: u64 = 0;
            let mut i: usize = lo;
            while i < hi
                invariant
                    lo <= i <= hi,
                    lo == band_edge(b as int),
                    hi == band_edge(b as int + 1),
                    b < BAND_COUNT,
                    q == frame_quantized@,
                    q.len() == FRAME_LEN,
                    sum as nat == zigzag_sum(q.subrange(lo as int, i as int)),
                    sum <= (i - lo) * 0xFFFF_FFFF,
                decreases hi - i,
            {
                let u = zigzag(frame_quantized[i]);
                assert(q.subrange(lo as int, i as int + 1).drop_last() =~= q.subrange(lo as int, i as int));
                sum = sum + u as u64;
                i = i + 1;
            }
            let ghost vals = band_values(q, b as int);
            assert(q.subrange(lo as int, hi as int) =~= vals);
            let k = remainder_len(sum, (hi - lo) as u64);
            self.header_manager.write_remainder_len(&mut w, k)?;
            let ghost band_base = written_bits(w);
            assert(band_base == base + bands_bits(q, b as nat) + le_bits(k as nat, 4));
            let p = pow2_u32(k);
            proof {
                vstd::arithmetic::power2::lemma_pow2_pos(k as nat);
            }
            let mut i: usize = lo;
            while i < hi
                invariant
                    lo <= i <= hi,
                    lo == band_edge(b as int),
                    hi == band_edge(b as int + 1),
                    b < BAND_COUNT,
                    q == frame_quantized@,
                    q.len() == FRAME_LEN,
                    k <= 8,
                    p > 0,
                    p as nat == vstd::arithmetic::power2::pow2(k as nat),
                    written_bits(w) == band_base + units_bits(q.subrange(lo as int, i as int), k as nat),
                decreases hi - i,
            {
                let u = zigzag(frame_quantized[i]);
                write_outcome(write_unary1(&mut w, u / p))?;
                write_outcome(write_bits(&mut w, k, u % p))?;
                let ghost pre = q.subrange(lo as int, i as int);
                let ghost post = q.subrange(lo as int, i as int + 1);
                assert(post.drop_last() =~= pre);
                assert(post.last() == q[i as int]);
                assert(units_bits(post, k as nat) =~= units_bits(pre, k as nat) + (unary_bits((u / p) as nat)
                    + le_bits((u % p) as nat, k as nat)));
                i = i + 1;
            }
            assert(band_bits(vals) =~= le_bits(k as nat, 4) + units_bits(vals, k as nat));
            assert(bands_bits(q, b as nat + 1) =~= bands_bits(q, b as nat) + band_bits(vals));
            b = b + 1;
        }
        self.file_bit_writer = Some(w);
        Ok(())
    }

    /// Codes one frame of 512 quantized values with the delta-table index of
    /// each of its nine bands. Without an open stream this fails with
    /// `NoWriter` and changes nothing.
    pub fn encode_frame(&mut self, quantized: Vec<i32>, delta_indices: Vec<usize>) -> (r: Result<(), CodecError>)
        requires
            old(self).wf(),
            quantized@.len() == FRAME_LEN,
            delta_indices@.len() == BAND_COUNT,
            forall|b: int| 0 <= b < BAND_COUNT ==> #[trigger] delta_indices@[b] < 64,
            old(self).coded_frames().len() < u64::MAX,
        ensures
            final(self).wf(),
            final(self).rate() == old(self).rate(),
            final(self).channel_count() == old(self).channel_count(),
            final(self).has_writer() == old(self).has_writer(),
            !old(self).has_writer() ==> r == Err::<(), CodecError>(CodecError::NoWriter)
                && final(self).coded_frames() == old(self).coded_frames()
                && final(self).delta_rows() == old(self).delta_rows(),
            old(self).has_writer() ==> r is Ok
                && final(self).coded_frames() == old(self).coded_frames().push(quantized@)
                && final(self).delta_rows() == old(self).delta_rows().push(
                    delta_indices@.map_values(|d: usize| d as u8),
                ),
    {
        self.rice_compress(&quantized)?;
        let mut row: Vec<u8> = Vec::new();
        let mut b: usize = 0;
        while b < delta_indices.len()
            invariant
                b <= delta_indices@.len(),
                delta_indices@.len() == BAND_COUNT,
                forall|c: int| 0 <= c < BAND_COUNT ==> #[trigger] delta_indices@[c] < 64,
                row@ == delta_indices@.take(b as int).map_values(|d: usize| d as u8),
            decreases delta_indices@.len() - b,
        {
            row.push(delta_indices[b] as u8);
            assert(delta_indices@.take(b as int + 1).map_values(|d: usize| d as u8) =~= delta_indices@.take(
                b as int,
            ).map_values(|d: usize| d as u8).push(delta_indices[b as int] as u8));
            b = b + 1;
        }
        assert(delta_indices@.take(b as int) =~= delta_indices@);
        let ghost old_rows = self.indices.deep_view();
        let ghost old_vec = self.indices@;
        assert(row.deep_view() =~= row@);
        self.indices.push(row);
        assert(self.indices@ == old_vec.push(row));
        assert(self.indices.deep_view() =~= old_rows.push(delta_indices@.map_values(|d: usize| d as u8)));
        self.frames = self.frames + 1;
        let ghost old_coded = self.coded@;
        self.coded = Ghost(self.coded@.push(quantized@));
        assert(self.coded@.drop_last() =~= old_coded);
        assert(index_rows_valid(self.indices.deep_view())) by {
            let rows = self.indices.deep_view();
            assert forall|f: int| 0 <= f < rows.len() implies (#[trigger] rows[f]).len() == BAND_COUNT
                && forall|c: int| 0 <= c < BAND_COUNT ==> #[trigger] rows[f][c] < 64 by {
                if f < rows.len() - 1 {
                    assert(rows[f] == old_rows[f]);
                }
            }
        }
        Ok(())
    }

    /// The bytes that `save_file` returns decode to what was coded: the
    /// header holds the frame count, sample rate, channel count and
    /// delta-table indices, and reading that many frames after it gives the
    /// coded frames in order. This holds for fewer than `2^32` frames whose
    /// values lie in `[-2^30, 2^30)`.
    pub proof fn lemma_saved_file_decodes(self)
        requires
            self.wf(),
            self.coded_frames().len() < 0x1_0000_0000,
            forall|i: int| 0 <= i < self.coded_frames().len() ==> samples_in_range(#[trigger] self.coded_frames()[i]),
        ensures
            ({
                let bytes = encoded_file(self.rate(), self.channel_count(), self.delta_rows(), self.coded_frames());
                &&& parse_header(unpack_bytes(bytes)) matches Some((h, rest))
                &&& h == (HeaderFields {
                    frames_len: self.coded_frames().len(),
                    sample_rate: self.rate(),
                    channels: self.channel_count(),
                    delta_indices: rows_as_nat(self.delta_rows()),
                })
                &&& parse_frames(rest, h.frames_len) matches Some((got, _))
                &&& got == self.coded_frames()
            }),
    {
        lemma_file_roundtrip(self.sample_rate, self.channels, self.indices.deep_view(), self.coded@);
    }

    /// What the encoder's invariant gives its users: one row of nine
    /// delta-table indices below 64 for each coded frame, and frames of 512
    /// values.
    pub proof fn lemma_wf_rows(self)
        requires
            self.wf(),
        ensures
            index_rows_valid(self.delta_rows()),
            self.delta_rows().len() == self.coded_frames().len(),
            forall|i: int| 0 <= i < self.coded_frames().len() ==> (#[trigger] self.coded_frames()[i]).len() == FRAME_LEN,
    {
    }

    /// The header of the bytes that `save_file` returns reads back as it was
    /// written, whatever values were coded: the frame count, sample rate,
    /// channel count and delta-table indices, followed by the bits of the
    /// coded frames and at most fifteen zero bits of padding. This holds for
    /// fewer than `2^32` frames.
    pub proof fn lemma_saved_header_reads_back(self)
        requires
            self.wf(),
            self.coded_frames().len() < 0x1_0000_0000,
        ensures
            ({
                let bytes = encoded_file(self.rate(), self.channel_count(), self.delta_rows(), self.coded_frames());
                let frames = frames_bits(self.coded_frames());
                &&& parse_header(unpack_bytes(bytes)) matches Some((h, rest))
                &&& h == (HeaderFields {
                    frames_len: self.coded_frames().len(),
                    sample_rate: self.rate(),
                    channels: self.channel_count(),
                    delta_indices: rows_as_nat(self.delta_rows()),
                })
                &&& rest.len() < frames.len() + 16
                &&& rest == frames + zero_bits((rest.len() - frames.len()) as nat)
            }),
    {
        let rows = self.indices.deep_view();
        let fs = self.coded@;
        let frames = frames_bits(fs);
        let pad1 = zero_bits(align_pad(frames.len()));
        let hb = header_bits(fs.len(), self.sample_rate as nat, self.channels as nat, rows);
        let body = hb + (frames + pad1);
        let pad2 = zero_bits(align_pad(body.len()));
        lemma_align_pad(body);
        lemma_align_pad(frames);
        lemma_unpack_pack(body + pad2);
        assert(file_bits(self.sample_rate as nat, self.channels as nat, rows, fs) == body + pad2);
        let rest = frames + (pad1 + pad2);
        assert(body + pad2 =~= hb + rest);
        lemma_parse_header_roundtrip(fs.len(), self.sample_rate, self.channels, rows, rest);
        assert(pad1 + pad2 =~= zero_bits((rest.len() - frames.len()) as nat));
    }

    /// Closes the stream and returns the bytes of the coded file: the header
    /// (frame count, sample rate, channel count, delta-table indices), then
    /// the coded frames, each part padded to a whole byte. Without an open
    /// stream this fails with `NoWriter` and changes nothing.
    pub fn save_file(&mut self) -> (r: Result<Vec<u8>, CodecError>)
        requires
            old(self).wf(),
        ensures
            final(self).wf(),
            !final(self).has_writer(),
            final(self).coded_frames() == old(self).coded_frames(),
            final(self).delta_rows() == old(self).delta_rows(),
            final(self).rate() == old(self).rate(),
            final(self).channel_count() == old(self).channel_count(),
            !old(self).has_writer() ==> r == Err::<Vec<u8>, CodecError>(CodecError::NoWriter),
            old(self).has_writer() ==> ({
                &&& r matches Ok(bytes)
                &&& bytes@ == encoded_file(
                    old(self).rate(),
                    old(self).channel_count(),
                    old(self).delta_rows(),
                    old(self).coded_frames(),
                )
            }),
    {
        let mut data = match self.file_bit_writer.take() {
            Some(w) => w,
            None => return Err(CodecError::NoWriter),
        };
        let ghost d = written_bits(data);
        write_outcome(byte_align(&mut data))?;
        let data_bytes = into_bytes(data);
        proof {
            lemma_align_pad(d);
            lemma_unpack_pack(written_bits(data));
        }
        let mut out = new_bit_writer();
        self.header_manager.write_frames_len(&mut out, self.frames)?;
        self.header_manager.write_sample_rate(&mut out, self.sample_rate)?;
        self.header_manager.write_channels(&mut out, self.channels)?;
        assert(indices_fit(self.indices.deep_view())) by {
            let rows = self.indices.deep_view();
            assert forall|f: int, c: int| 0 <= f < rows.len() && 0 <= c < rows[f].len() implies #[trigger] rows[f][c] < 64 by {
                assert(rows[f].len() == BAND_COUNT);
            }
        }
        self.header_manager.write_delta_indices(&mut out, &self.indices)?;
        write_outcome(write_bytes(&mut out, data_bytes.as_slice()))?;
        write_outcome(byte_align(&mut out))?;
        let bytes = into_bytes(out);
        Ok(bytes)
    }
}

} // verus!
