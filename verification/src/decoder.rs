//! The decoder's bitstream: the header of a coded file, then its frames one
//! at a time.

use vstd::prelude::*;
use std::ops::Range;
use crate::bitstream::{
    BitSource, LONG_ZERO_RUN, has_long_zero_run, zero_window, leading_zeros, lemma_leading_zeros_le_len, lemma_runs_after_read,
    lemma_runs_after_unary, lemma_short_zero_runs, new_bit_reader, read_bits, read_unary1, unpack_bytes,
    unread_bits, zero_runs_bounded,
};
use crate::error::{CodecError, read_outcome};
use crate::format::{
    BAND_COUNT, HeaderFields, band_len, band_table, is_band_table, lemma_parse_frames_step,
    lemma_prepend_prepend, parse_band, parse_bands, parse_frame, parse_frames, parse_header, parse_unit,
    parse_units, prepend, prepend_frames,
};
use crate::header::{CodecHeaderManager, FileHeader, usize_rows_as_nat};
use crate::rice::{pow2_u32, unzigzag};

verus! {

/// Whether coded bytes can be set as a decoder's input: they hold no
/// `LONG_ZERO_RUN` consecutive zero bytes, so no run of zero bits in them is
/// too long for the bit reader to count.
pub fn readable_input(bytes: &[u8]) -> (ok: bool)
    ensures
        ok == !has_long_zero_run(bytes@),
        ok ==> zero_runs_bounded(unpack_bytes(bytes@)),
{
    let mut run: usize = 0;
    let mut i: usize = 0;
    while i < bytes.len()
        invariant
            i <= bytes@.len(),
            run <= i,
            run < LONG_ZERO_RUN,
            forall|k: int| i - run <= k < i ==> #[trigger] bytes@[k] == 0,
            run < i ==> bytes@[i - run - 1] != 0,
            forall|j: int| 0 <= j && j + LONG_ZERO_RUN <= i ==> !#[trigger] zero_window(bytes@, j),
        decreases bytes.len() - i,
    {
        let ghost before = run;
        if bytes[i] == 0 {
            run = run + 1;
            if run == LONG_ZERO_RUN {
                assert(zero_window(bytes@, i + 1 - LONG_ZERO_RUN));
                return false;
            }
        } else {
            run = 0;
        }
        assert forall|j: int| 0 <= j && j + LONG_ZERO_RUN <= i + 1 implies !#[trigger] zero_window(bytes@, j) by {
            if j + LONG_ZERO_RUN == i + 1 && zero_window(bytes@, j) {
                assert(bytes@[i as int] == 0);
                assert(before < i);
                assert(bytes@[i - before - 1] == 0);
            }
        }
        i = i + 1;
    }
    proof {
        lemma_short_zero_runs(bytes@);
    }
    true
}

/// The decoder's bitstream state.
pub struct TinyDecoder {
    bands: Vec<Range<usize>>,
    file_bit_reader: Option<BitSource>,
    codec_header_manager: CodecHeaderManager,
    file_header: FileHeader,
    decoded_frame_len: u32,
}

impl TinyDecoder {
    /// The decoder's invariant: no run of zero bits in its input, if any, is
    /// too long for the bit reader to count.
    pub closed spec fn wf(&self) -> bool {
        &&& is_band_table(self.bands@)
        &&& (self.file_bit_reader matches Some(r) ==> zero_runs_bounded(unread_bits(r)))
    }

    /// The bits of the input not read yet, or `None` without input.
    pub closed spec fn unread(&self) -> Option<Seq<bool>> {
        match self.file_bit_reader {
            Some(r) => Some(unread_bits(r)),
            None => None,
        }
    }

    /// The header read last.
    pub closed spec fn header(&self) -> HeaderFields {
        self.file_header.fields()
    }

    /// The number of frames decoded since the input was set.
    pub closed spec fn decoded(&self) -> nat {
        self.decoded_frame_len as nat
    }

    /// A decoder without input, whose header announces no frames.
    pub fn new() -> (d: Self)
        ensures
            d.wf(),
            d.unread() is None,
            d.header() == (HeaderFields {
                frames_len: 0,
                sample_rate: 0,
                channels: 0,
                delta_indices: Seq::empty(),
            }),
            d.decoded() == 0,
    {
        let no_rows: Vec<Vec<usize>> = Vec::new();
        assert(usize_rows_as_nat(no_rows.deep_view()) =~= Seq::<Seq<nat>>::empty());
        let d = Self {
            bands: band_table(),
            file_bit_reader: None,
            codec_header_manager: CodecHeaderManager::new(),
            file_header: FileHeader::new(0, 0, 0, no_rows),
            decoded_frame_len: 0,
        };
        d
    }

    /// Sets the bytes of a coded file as the input and starts counting frames
    /// from zero; the header stays as it was until it is read. The bit
    /// reader counts the zero bits of a unary code in 32 bits, so no run of
    /// zero bits in the input may be longer; `readable_input` tells whether
    /// bytes meet this.
    pub fn reset_input_file(&mut self, bytes: Vec<u8>)
        requires
            old(self).wf(),
            zero_runs_bounded(unpack_bytes(bytes@)),
        ensures
            final(self).wf(),
            final(self).unread() == Some(unpack_bytes(bytes@)),
            final(self).header() == old(self).header(),
            final(self).decoded() == 0,
    {
        self.file_bit_reader = Some(new_bit_reader(bytes));
        self.decoded_frame_len = 0;
    }

    /// The header read last.
    pub fn file_header(&self) -> (h: &FileHeader)
        ensures
            h.fields() == self.header(),
    {
        &self.file_header
    }

    /// The number of frames decoded since the input was set.
    pub fn decoded_frame_len(&self) -> (n: u32)
        ensures
            n == self.decoded(),
    {
        self.decoded_frame_len
    }

    fn read_header_fields(&self, br: &mut BitSource) -> (r: Result<FileHeader, CodecError>)
        requires
            is_band_table(self.bands@),
        ensures
            unread_bits(*final(br)).len() <= unread_bits(*old(br)).len(),
            r is Ok <==> parse_header(unread_bits(*old(br))) is Some,
            r is Err ==> r == Err::<FileHeader, CodecError>(CodecError::UnexpectedEnd),
            r matches Ok(h) ==> parse_header(unread_bits(*old(br))) == Some((h.fields(), unread_bits(*final(br)))),
            zero_runs_bounded(unread_bits(*old(br))) ==> zero_runs_bounded(unread_bits(*final(br))),
    {
        let ghost s = unread_bits(*br);
        let frames_len = self.codec_header_manager.read_frames_len(br)?;
        let sample_rate = self.codec_header_manager.read_sample_rate(br)?;
        assert(s.skip(32).skip(32) =~= s.skip(64));
        let channels = self.codec_header_manager.read_channels(br)?;
        assert(s.skip(64).skip(8) =~= s.skip(72));
        let delta_indices = self.codec_header_manager.read_delta_indices(frames_len, br, self.bands.as_slice())?;
        assert(s.skip(72).skip(54 * frames_len) =~= s.skip(72 + 54 * frames_len));
        Ok(FileHeader::new(frames_len, sample_rate, channels, delta_indices))
    }

    /// Reads the header at the front of the unread input: the frame count,
    /// the sample rate, the channel count and the delta-table indices. When
    /// the input ends first, the header stays as it was.
    pub fn read_file_header(&mut self) -> (r: Result<(), CodecError>)
        requires
            old(self).wf(),
        ensures
            final(self).wf(),
            final(self).decoded() == old(self).decoded(),
            old(self).unread() is None ==> r == Err::<(), CodecError>(CodecError::NoReader)
                && final(self).unread() is None && final(self).header() == old(self).header(),
            old(self).unread() matches Some(s) ==> ({
                &&& final(self).unread() matches Some(t)
                &&& t.len() <= s.len()
                &&& match parse_header(s) {
                    None => r == Err::<(), CodecError>(CodecError::UnexpectedEnd) && final(self).header()
                        == old(self).header(),
                    Some((h, rest)) => r is Ok && final(self).header() == h && t == rest,
                }
            }),
    {
        let mut br = match self.file_bit_reader.take() {
            Some(r) => r,
            None => return Err(CodecError::NoReader),
        };
        let res = self.read_header_fields(&mut br);
        self.file_bit_reader = Some(br);
        match res {
            Ok(h) => {
                self.file_header = h;
                Ok(())
            },
            Err(e) => Err(e),
        }
    }

    /// Reads one coded value with remainder length `remainder_bits_len`: a
    /// unary quotient and a remainder, joined into a 32-bit code, which is
    /// read back to a sample.
    fn read_unit_data(bit_reader: &mut BitSource, remainder_bits_len: u32) -> (r: Result<i32, CodecError>)
        requires
            remainder_bits_len < 16,
            zero_runs_bounded(unread_bits(*old(bit_reader))),
        ensures
            unread_bits(*final(bit_reader)).len() <= unread_bits(*old(bit_reader)).len(),
            zero_runs_bounded(unread_bits(*final(bit_reader))),
            r is Ok <==> parse_unit(unread_bits(*old(bit_reader)), remainder_bits_len as nat) is Some,
            r is Err ==> r == Err::<i32, CodecError>(CodecError::UnexpectedEnd),
            r matches Ok(v) ==> parse_unit(unread_bits(*old(bit_reader)), remainder_bits_len as nat) == Some(
                (v, unread_bits(*final(bit_reader))),
            ),
    {
        let ghost s = unread_bits(*bit_reader);
        let ghost k = remainder_bits_len as nat;
        proof {
            assert(s.skip(0) =~= s);
            assert(leading_zeros(s.skip(0)) <= u32::MAX);
            lemma_leading_zeros_le_len(s);
        }
        let unary = read_unary1(bit_reader);
        proof {
            let q: nat = match unary {
                Ok(q) => q as nat,
                Err(_) => 0,
            };
            lemma_runs_after_unary(s, unread_bits(*bit_reader), q, unary is Ok);
        }
        let quotient = read_outcome(unary)?;
        let ghost mid = unread_bits(*bit_reader);
        let rem = read_bits(bit_reader, remainder_bits_len);
        proof {
            lemma_runs_after_read(mid, unread_bits(*bit_reader), k, rem is Ok);
        }
        let remainder = read_outcome(rem)?;
        let ghost z = quotient as nat;
        assert(s.skip(z + 1int).take(k as int) =~= s.subrange(z + 1int, z + 1int + k));
        assert(s.skip(z + 1int).skip(k as int) =~= s.skip(z + 1int + k));
        let p = pow2_u32(remainder_bits_len);
        proof {
            vstd::arithmetic::power2::lemma2_to64();
            vstd::arithmetic::power2::lemma_pow2_strictly_increases(k, 16);
            assert(quotient as u64 * p as u64 <= 0xFFFF_FFFF * 0x1_0000) by (nonlinear_arith)
                requires
                    quotient <= 0xFFFF_FFFF,
                    p <= 0x1_0000,
            ;
        }
        let combined = ((quotient as u64 * p as u64 + remainder as u64) % 0x1_0000_0000) as u32;
        let v = unzigzag(combined);
        Ok(v)
    }

    /// Reads the values of one frame, band after band.
    fn read_frame(&self, br: &mut BitSource) -> (r: Result<Vec<i32>, CodecError>)
        requires
            is_band_table(self.bands@),
            zero_runs_bounded(unread_bits(*old(br))),
        ensures
            unread_bits(*final(br)).len() <= unread_bits(*old(br)).len(),
            zero_runs_bounded(unread_bits(*final(br))),
            r is Ok <==> parse_frame(unread_bits(*old(br))) is Some,
            r is Err ==> r == Err::<Vec<i32>, CodecError>(CodecError::UnexpectedEnd),
            r matches Ok(v) ==> parse_frame(unread_bits(*old(br))) == Some((v@, unread_bits(*final(br)))),
    {
        let ghost s0 = unread_bits(*br);
        let mut values: Vec<i32> = Vec::new();
        let mut b: usize = 0;
        assert(prepend(values@, parse_bands(s0, 0)) == parse_frame(s0)) by {
            match parse_bands(s0, 0) {
                None => {},
                Some((vs, rest)) => {
                    assert(values@ + vs =~= vs);
                },
            }
        }
        while b < BAND_COUNT
            invariant
                b <= BAND_COUNT,
                is_band_table(self.bands@),
                s0 == unread_bits(*old(br)),
                unread_bits(*br).len() <= s0.len(),
                zero_runs_bounded(unread_bits(*br)),
                parse_frame(s0) == prepend(values@, parse_bands(unread_bits(*br), b as nat)),
            decreases BAND_COUNT - b,
        {
            let ghost cur_b = unread_bits(*br);
            let ghost vb = values@;
            let k = match self.codec_header_manager.read_remainder_len(br) {
                Ok(k) => k,
                Err(e) => {
                    return Err(e);
                },
            };
            let lo = self.bands[b].start;
            let hi = self.bands[b].end;
            let ghost n = band_len(b as int);
            assert(hi - lo == n);
            let ghost band_start = unread_bits(*br);
            assert(parse_band(cur_b, n) == parse_units(band_start, k as nat, n));
            assert(values@.skip(vb.len() as int) =~= Seq::<i32>::empty());
            assert(parse_units(band_start, k as nat, n) == prepend(values@.skip(vb.len() as int), parse_units(band_start, k as nat, n))) by {
                match parse_units(band_start, k as nat, n) {
                    None => {},
                    Some((vs, rest)) => {
                        assert(values@.skip(vb.len() as int) + vs =~= vs);
                    },
                }
            }
            let mut i: usize = lo;
            while i < hi
                invariant
                    lo <= i <= hi,
                    hi - lo == n,
                    n == band_len(b as int),
                    k < 16,
                    b < BAND_COUNT,
                    is_band_table(self.bands@),
                    s0 == unread_bits(*old(br)),
                    unread_bits(*br).len() <= s0.len(),
                    zero_runs_bounded(unread_bits(*br)),
                    parse_frame(s0) == prepend(vb, parse_bands(cur_b, b as nat)),
                    parse_band(cur_b, n) == parse_units(band_start, k as nat, n),
                    values@.len() >= vb.len(),
                    values@.take(vb.len() as int) == vb,
                    parse_units(band_start, k as nat, n) == prepend(
                        values@.skip(vb.len() as int),
                        parse_units(unread_bits(*br), k as nat, (n - (i - lo)) as nat),
                    ),
                decreases hi - i,
            {
                let ghost cur = unread_bits(*br);
                let ghost m = (n - (i - lo)) as nat;
                let v = match Self::read_unit_data(br, k) {
                    Ok(v) => v,
                    Err(e) => {
                        assert(parse_units(cur, k as nat, m) is None);
                        assert(parse_units(band_start, k as nat, n) is None);
                        assert(parse_band(cur_b, band_len(b as int)) is None);
                        assert(parse_bands(cur_b, b as nat) is None);
                        return Err(e);
                    },
                };
                let ghost rest = unread_bits(*br);
                assert(parse_units(cur, k as nat, m) == prepend(seq![v], parse_units(rest, k as nat, (m - 1) as nat)));
                let ghost before = values@.skip(vb.len() as int);
                values.push(v);
                proof {
                    lemma_prepend_prepend(before, seq![v], parse_units(rest, k as nat, (m - 1) as nat));
                }
                assert(values@.skip(vb.len() as int) =~= before + seq![v]);
                assert(values@.take(vb.len() as int) =~= vb);
                i = i + 1;
            }
            let ghost band_vals = values@.skip(vb.len() as int);
            let ghost after = unread_bits(*br);
            assert(parse_units(after, k as nat, 0) == Some((Seq::<i32>::empty(), after)));
            assert(band_vals + Seq::<i32>::empty() =~= band_vals);
            assert(parse_band(cur_b, n) == Some((band_vals, after)));
            assert(parse_bands(cur_b, b as nat) == prepend(band_vals, parse_bands(after, b as nat + 1)));
            proof {
                lemma_prepend_prepend(vb, band_vals, parse_bands(after, b as nat + 1));
            }
            assert(vb + band_vals =~= values@);
            b = b + 1;
        }
        let ghost end = unread_bits(*br);
        assert(parse_bands(end, BAND_COUNT as nat) == Some((Seq::<i32>::empty(), end)));
        assert(values@ + Seq::<i32>::empty() =~= values@);
        Ok(values)
    }

    /// Decodes every frame that the header announces and that is not decoded
    /// yet, in order. Without input this fails with `NoReader`, and when the
    /// input ends inside a frame, with `UnexpectedEnd`. After success every
    /// announced frame is decoded, so the next `pop_frame` fails with
    /// `Finished`.
    pub fn pop_remaining_frames(&mut self) -> (r: Result<Vec<Vec<i32>>, CodecError>)
        requires
            old(self).wf(),
        ensures
            final(self).wf(),
            final(self).header() == old(self).header(),
            old(self).header().frames_len <= old(self).decoded() ==> ({
                &&& r matches Ok(v)
                &&& v.deep_view() == Seq::<Seq<i32>>::empty()
                &&& final(self).unread() == old(self).unread()
                &&& final(self).decoded() == old(self).decoded()
            }),
            old(self).decoded() < old(self).header().frames_len && old(self).unread() is None ==> r == Err::<
                Vec<Vec<i32>>,
                CodecError,
            >(CodecError::NoReader) && final(self).unread() is None,
            old(self).decoded() < old(self).header().frames_len ==> (old(self).unread() matches Some(s) ==> match parse_frames(
                s,
                (old(self).header().frames_len - old(self).decoded()) as nat,
            ) {
                None => r == Err::<Vec<Vec<i32>>, CodecError>(CodecError::UnexpectedEnd),
                Some((fs, rest)) => {
                    &&& r matches Ok(v)
                    &&& v.deep_view() == fs
                    &&& final(self).unread() == Some(rest)
                    &&& final(self).decoded() == old(self).header().frames_len
                },
            }),
    {
        let mut frames: Vec<Vec<i32>> = Vec::new();
        let ghost n0: nat = if self.decoded() < self.header().frames_len {
            (self.header().frames_len - self.decoded()) as nat
        } else {
            0
        };
        proof {
            if let Some(s) = self.unread() {
                if let Some((qs, rest)) = parse_frames(s, n0) {
                    assert(frames.deep_view() + qs =~= qs);
                }
            }
        }
        while self.decoded_frame_len < self.file_header.frames_len()
            invariant
                self.wf(),
                self.header() == old(self).header(),
                old(self).decoded() <= self.decoded(),
                self.decoded() - old(self).decoded() == frames.deep_view().len(),
                old(self).decoded() < old(self).header().frames_len ==> self.decoded() <= self.header().frames_len,
                old(self).header().frames_len <= old(self).decoded() ==> self.unread() == old(self).unread()
                    && self.decoded() == old(self).decoded(),
                old(self).unread() is None ==> self.unread() is None && self.decoded() == old(self).decoded(),
                old(self).unread() is Some ==> self.unread() is Some,
                old(self).unread() is Some && old(self).decoded() < old(self).header().frames_len ==> parse_frames(
                    old(self).unread().unwrap(),
                    (old(self).header().frames_len - old(self).decoded()) as nat,
                ) == prepend_frames(
                    frames.deep_view(),
                    parse_frames(self.unread().unwrap(), (self.header().frames_len - self.decoded()) as nat),
                ),
            decreases self.header().frames_len - self.decoded(),
        {
            let ghost cur = self.unread();
            let ghost left = (self.header().frames_len - self.decoded() - 1) as nat;
            let ghost before = frames.deep_view();
            proof {
                if cur is Some {
                    lemma_parse_frames_step(before, cur.unwrap(), left);
                }
            }
            let frame = self.pop_frame()?;
            let ghost fv = frame@;
            let ghost old_vec = frames@;
            assert(frame.deep_view() =~= fv);
            frames.push(frame);
            assert(frames@ == old_vec.push(frame));
            assert(frames.deep_view() =~= before.push(fv));
        }
        Ok(frames)
    }

    /// Decodes the next frame's values. When every frame the header
    /// announces is decoded this fails with `Finished`; without input, with
    /// `NoReader`; when the input ends inside the frame, with
    /// `UnexpectedEnd`, and the count of decoded frames stays.
    pub fn pop_frame(&mut self) -> (r: Result<Vec<i32>, CodecError>)
        requires
            old(self).wf(),
        ensures
            final(self).wf(),
            final(self).header() == old(self).header(),
            old(self).header().frames_len <= old(self).decoded() ==> r == Err::<Vec<i32>, CodecError>(CodecError::Finished)
                && final(self).unread() == old(self).unread() && final(self).decoded() == old(self).decoded(),
            old(self).decoded() < old(self).header().frames_len && old(self).unread() is None ==> r == Err::<Vec<i32>, CodecError>(
                CodecError::NoReader,
            ) && final(self).unread() is None && final(self).decoded() == old(self).decoded(),
            old(self).decoded() < old(self).header().frames_len ==> (old(self).unread() matches Some(s) ==> ({
                &&& final(self).unread() matches Some(t)
                &&& t.len() <= s.len()
                &&& match parse_frame(s) {
                    None => r == Err::<Vec<i32>, CodecError>(CodecError::UnexpectedEnd) && final(self).decoded()
                        == old(self).decoded(),
                    Some((q, rest)) => r matches Ok(v) && v@ == q && t == rest && final(self).decoded()
                        == old(self).decoded() + 1,
                }
            })),
    {
        if self.file_header.frames_len() <= self.decoded_frame_len {
            return Err(CodecError::Finished);
        }
        let mut br = match self.file_bit_reader.take() {
            Some(r) => r,
            None => return Err(CodecError::NoReader),
        };
        let res = self.read_frame(&mut br);
        self.file_bit_reader = Some(br);
        match res {
            Ok(frame) => {
                self.decoded_frame_len = self.decoded_frame_len + 1;
                Ok(frame)
            },
            Err(e) => Err(e),
        }
    }
}

} // verus!
