//! The fields of a coded file and their reading and writing.

use vstd::prelude::*;
use vstd::arithmetic::power2::lemma2_to64;
use std::ops::Range;
use crate::bitstream::{
    BitSink, BitSource, bits_value, le_bits, lemma_bits_value_bound, lemma_runs_after_read,
    lemma_runs_bounded_skip, read_bits, unread_bits, zero_runs_bounded,
    write_bit, write_bits, written_bits,
};
use crate::error::{CodecError, read_outcome, write_outcome};
use crate::format::{
    BAND_COUNT, DELTA_INDEX_BITS, HeaderFields, MAX_K_BITS_LEN, index_row_bits, index_rows_bits,
    index_rows_from,
};

verus! {

/// The bits of rows of flags, row after row.
pub open spec fn flag_rows_bits(rows: Seq<Seq<bool>>) -> Seq<bool>
    decreases rows.len(),
{
    if rows.len() == 0 {
        Seq::empty()
    } else {
        flag_rows_bits(rows.drop_last()) + rows.last()
    }
}

/// Whether every index in `rows` is below 64.
pub open spec fn indices_fit(rows: Seq<Seq<u8>>) -> bool {
    forall|f: int, b: int| 0 <= f < rows.len() && 0 <= b < rows[f].len() ==> #[trigger] rows[f][b] < 64
}

/// Delta-table indices held as `usize`, as numbers.
pub open spec fn usize_rows_as_nat(rows: Seq<Seq<usize>>) -> Seq<Seq<nat>> {
    rows.map_values(|row: Seq<usize>| row.map_values(|x: usize| x as nat))
}

/// Writes and reads the fields of a coded file.
pub struct CodecHeaderManager {}

impl CodecHeaderManager {
    /// A header manager.
    pub fn new() -> (m: Self) {
        CodecHeaderManager {  }
    }

    /// Writes the number of rows of `skip_flags` (modulo `2^32`) in 32 bits,
    /// then every flag as one bit, row after row.
    pub fn _write_skip_table(&self, bw: &mut BitSink, skip_flags: &[Vec<bool>]) -> (r: Result<(), CodecError>)
        ensures
            r is Ok,
            written_bits(*final(bw)) == written_bits(*old(bw)) + le_bits(skip_flags@.len() % 0x1_0000_0000, 32)
                + flag_rows_bits(skip_flags@.map_values(|v: Vec<bool>| v@)),
    {
        proof {
            lemma2_to64();
        }
        let count = (skip_flags.len() as u64 % 0x1_0000_0000) as u32;
        write_outcome(write_bits(bw, 32, count))?;
        let ghost base = written_bits(*bw);
        let ghost rows = skip_flags@.map_values(|v: Vec<bool>| v@);
        let mut f: usize = 0;
        while f < skip_flags.len()
            invariant
                f <= skip_flags@.len(),
                rows == skip_flags@.map_values(|v: Vec<bool>| v@),
                written_bits(*bw) == base + flag_rows_bits(rows.take(f as int)),
            decreases skip_flags@.len() - f,
        {
            let flags = &skip_flags[f];
            let mut b: usize = 0;
            while b < flags.len()
                invariant
                    f < skip_flags@.len(),
                    b <= flags@.len(),
                    flags@ == rows[f as int],
                    written_bits(*bw) == base + flag_rows_bits(rows.take(f as int)) + flags@.take(b as int),
                decreases flags@.len() - b,
            {
                write_outcome(write_bit(bw, flags[b]))?;
                assert(flags@.take(b as int).push(flags@[b as int]) =~= flags@.take(b as int + 1));
                b = b + 1;
            }
            assert(rows.take(f as int + 1).drop_last() =~= rows.take(f as int));
            assert(flags@.take(b as int) =~= flags@);
            f = f + 1;
        }
        assert(rows.take(f as int) =~= rows);
        Ok(())
    }

    /// Writes the frame count, modulo `2^32`, in 32 bits.
    pub fn write_frames_len(&self, bw: &mut BitSink, frames_len: u64) -> (r: Result<(), CodecError>)
        ensures
            r is Ok,
            written_bits(*final(bw)) == written_bits(*old(bw)) + le_bits(frames_len as nat % 0x1_0000_0000, 32),
    {
        proof {
            lemma2_to64();
        }
        write_outcome(write_bits(bw, 32, (frames_len % 0x1_0000_0000) as u32))
    }

    /// Writes the delta-table indices of every frame, six bits each, frame
    /// after frame. An index of 64 or more does not fit in six bits: the
    /// write then fails with `ExcessiveValue`.
    pub fn write_delta_indices(&self, bw: &mut BitSink, delta_indices: &Vec<Vec<u8>>) -> (r: Result<(), CodecError>)
        ensures
            r is Ok <==> indices_fit(delta_indices.deep_view()),
            r is Err ==> r == Err::<(), CodecError>(CodecError::ExcessiveValue),
            r is Ok ==> written_bits(*final(bw)) == written_bits(*old(bw)) + index_rows_bits(delta_indices.deep_view()),
    {
        proof {
            lemma2_to64();
        }
        let ghost base = written_bits(*bw);
        let ghost rows = delta_indices.deep_view();
        let mut f: usize = 0;
        while f < delta_indices.len()
            invariant
                f <= delta_indices@.len(),
                rows == delta_indices.deep_view(),
                rows.len() == delta_indices@.len(),
                written_bits(*bw) == base + index_rows_bits(rows.take(f as int)),
                forall|g: int, b: int| 0 <= g < f && 0 <= b < rows[g].len() ==> #[trigger] rows[g][b] < 64,
            decreases delta_indices@.len() - f,
        {
            let row = &delta_indices[f];
            assert(row@ == rows[f as int]);
            let mut b: usize = 0;
            while b < row.len()
                invariant
                    f < delta_indices@.len(),
                    rows == delta_indices.deep_view(),
                    rows.len() == delta_indices@.len(),
                    b <= row@.len(),
                    row@ == rows[f as int],
                    written_bits(*bw) == base + index_rows_bits(rows.take(f as int)) + index_row_bits(row@.take(b as int)),
                    forall|g: int, c: int| 0 <= g < f && 0 <= c < rows[g].len() ==> #[trigger] rows[g][c] < 64,
                    forall|c: int| 0 <= c < b ==> #[trigger] row@[c] < 64,
                decreases row@.len() - b,
            {
                proof {
                    lemma2_to64();
                }
                let idx = row[b];
                if idx >= 64 {
                    assert(rows[f as int][b as int] >= 64);
                    return Err(CodecError::ExcessiveValue);
                }
                write_outcome(write_bits(bw, DELTA_INDEX_BITS, idx as u32))?;
                assert(row@.take(b as int + 1).drop_last() =~= row@.take(b as int));
                b = b + 1;
            }
            assert(row@.take(b as int) =~= row@);
            assert(rows.take(f as int + 1).drop_last() =~= rows.take(f as int));
            assert forall|g: int, c: int| 0 <= g < f + 1 && 0 <= c < rows[g].len() implies #[trigger] rows[g][c] < 64 by {
                if g == f {
                    assert(rows[g][c] == row@[c]);
                }
            }
            f = f + 1;
        }
        assert(rows.take(f as int) =~= rows);
        Ok(())
    }

    /// Writes the sample rate in 32 bits.
    pub fn write_sample_rate(&self, bw: &mut BitSink, rate: u32) -> (r: Result<(), CodecError>)
        ensures
            r is Ok,
            written_bits(*final(bw)) == written_bits(*old(bw)) + le_bits(rate as nat, 32),
    {
        proof {
            lemma2_to64();
        }
        write_outcome(write_bits(bw, 32, rate))
    }

    /// Writes the channel count in 8 bits.
    pub fn write_channels(&self, bw: &mut BitSink, channels: u8) -> (r: Result<(), CodecError>)
        ensures
            r is Ok,
            written_bits(*final(bw)) == written_bits(*old(bw)) + le_bits(channels as nat, 8),
    {
        proof {
            lemma2_to64();
        }
        write_outcome(write_bits(bw, 8, channels as u32))
    }

    /// Reads the frame count: the next 32 bits.
    pub fn read_frames_len(&self, br: &mut BitSource) -> (r: Result<u32, CodecError>)
        ensures
            unread_bits(*final(br)).len() <= unread_bits(*old(br)).len(),
            r is Ok <==> 32 <= unread_bits(*old(br)).len(),
            r is Err ==> r == Err::<u32, CodecError>(CodecError::UnexpectedEnd),
            r matches Ok(v) ==> v as nat == bits_value(unread_bits(*old(br)).take(32))
                && unread_bits(*final(br)) == unread_bits(*old(br)).skip(32),
            zero_runs_bounded(unread_bits(*old(br))) ==> zero_runs_bounded(unread_bits(*final(br))),
    {
        let res = read_bits(br, 32);
        proof {
            lemma_runs_after_read(unread_bits(*old(br)), unread_bits(*br), 32, res is Ok);
        }
        read_outcome(res)
    }

    /// Reads the sample rate: the next 32 bits.
    pub fn read_sample_rate(&self, br: &mut BitSource) -> (r: Result<u32, CodecError>)
        ensures
            unread_bits(*final(br)).len() <= unread_bits(*old(br)).len(),
            r is Ok <==> 32 <= unread_bits(*old(br)).len(),
            r is Err ==> r == Err::<u32, CodecError>(CodecError::UnexpectedEnd),
            r matches Ok(v) ==> v as nat == bits_value(unread_bits(*old(br)).take(32))
                && unread_bits(*final(br)) == unread_bits(*old(br)).skip(32),
            zero_runs_bounded(unread_bits(*old(br))) ==> zero_runs_bounded(unread_bits(*final(br))),
    {
        let res = read_bits(br, 32);
        proof {
            lemma_runs_after_read(unread_bits(*old(br)), unread_bits(*br), 32, res is Ok);
        }
        read_outcome(res)
    }

    /// Reads the channel count: the next 8 bits.
    pub fn read_channels(&self, br: &mut BitSource) -> (r: Result<u8, CodecError>)
        ensures
            unread_bits(*final(br)).len() <= unread_bits(*old(br)).len(),
            r is Ok <==> 8 <= unread_bits(*old(br)).len(),
            r is Err ==> r == Err::<u8, CodecError>(CodecError::UnexpectedEnd),
            r matches Ok(v) ==> v as nat == bits_value(unread_bits(*old(br)).take(8))
                && unread_bits(*final(br)) == unread_bits(*old(br)).skip(8),
            zero_runs_bounded(unread_bits(*old(br))) ==> zero_runs_bounded(unread_bits(*final(br))),
    {
        let res = read_bits(br, 8);
        proof {
            lemma_runs_after_read(unread_bits(*old(br)), unread_bits(*br), 8, res is Ok);
        }
        let v = read_outcome(res)?;
        proof {
            lemma2_to64();
            lemma_bits_value_bound(unread_bits(*old(br)).take(8));
        }
        Ok(v as u8)
    }

    /// Reads the delta-table indices of `frame_len` frames, one index of six
    /// bits for each of the bands, frame after frame.
    pub fn read_delta_indices(&self, frame_len: u32, br: &mut BitSource, bands: &[Range<usize>]) -> (r: Result<Vec<Vec<usize>>, CodecError>)
        requires
            bands@.len() == BAND_COUNT,
        ensures
            unread_bits(*final(br)).len() <= unread_bits(*old(br)).len(),
            r is Ok <==> 54 * frame_len <= unread_bits(*old(br)).len(),
            r is Err ==> r == Err::<Vec<Vec<usize>>, CodecError>(CodecError::UnexpectedEnd),
            r matches Ok(rows) ==> usize_rows_as_nat(rows.deep_view()) == index_rows_from(unread_bits(*old(br)), frame_len as nat)
                && unread_bits(*final(br)) == unread_bits(*old(br)).skip(54 * frame_len),
            zero_runs_bounded(unread_bits(*old(br))) ==> zero_runs_bounded(unread_bits(*final(br))),
    {
        let ghost s = unread_bits(*br);
        let mut rows: Vec<Vec<usize>> = Vec::new();
        let mut f: u32 = 0;
        while f < frame_len
            invariant
                f <= frame_len,
                bands@.len() == BAND_COUNT,
                s == unread_bits(*old(br)),
                54 * f <= s.len(),
                unread_bits(*br) == s.skip(54 * f),
                rows@.len() == f,
                forall|g: int| 0 <= g < f ==> (#[trigger] rows@[g])@.len() == BAND_COUNT,
                forall|g: int, b: int|
                    0 <= g < f && 0 <= b < BAND_COUNT ==> (#[trigger] rows@[g]@[b]) as nat == bits_value(
                        s.subrange(54 * g + 6 * b, 54 * g + 6 * b + 6),
                    ),
            decreases frame_len - f,
        {
            let mut row: Vec<usize> = Vec::new();
            let mut b: usize = 0;
            while b < bands.len()
                invariant
                    f < frame_len,
                    bands@.len() == BAND_COUNT,
                    s == unread_bits(*old(br)),
                    b <= BAND_COUNT,
                    54 * f + 6 * b <= s.len(),
                    unread_bits(*br) == s.skip(54 * f + 6 * b),
                    row@.len() == b,
                    forall|c: int|
                        0 <= c < b ==> (#[trigger] row@[c]) as nat == bits_value(
                            s.subrange(54 * f + 6 * c, 54 * f + 6 * c + 6),
                        ),
                decreases BAND_COUNT - b,
            {
                let ghost cur = unread_bits(*br);
                let res = read_bits(br, DELTA_INDEX_BITS);
                proof {
                    lemma_runs_after_read(cur, unread_bits(*br), 6, res is Ok);
                    if zero_runs_bounded(s) {
                        lemma_runs_bounded_skip(s, 54 * f + 6 * b);
                    }
                }
                let v = read_outcome(res)?;
                assert(cur.take(6) =~= s.subrange(54 * f + 6 * b, 54 * f + 6 * b + 6));
                assert(cur.skip(6) =~= s.skip(54 * f + 6 * b + 6));
                row.push(v as usize);
                b = b + 1;
            }
            rows.push(row);
            f = f + 1;
        }
        let ghost got = usize_rows_as_nat(rows.deep_view());
        let ghost want = index_rows_from(s, frame_len as nat);
        assert forall|g: int| 0 <= g < frame_len implies #[trigger] got[g] =~= want[g] by {
            assert(rows@[g]@.len() == BAND_COUNT);
            assert forall|b: int| 0 <= b < BAND_COUNT implies #[trigger] got[g][b] == want[g][b] by {
                assert(rows@[g]@[b] as nat == bits_value(s.subrange(54 * g + 6 * b, 54 * g + 6 * b + 6)));
            }
        }
        assert(got =~= want);
        proof {
            if zero_runs_bounded(s) {
                lemma_runs_bounded_skip(s, 54 * frame_len);
            }
        }
        Ok(rows)
    }

    /// Writes a band's remainder length in four bits.
    pub fn write_remainder_len(&self, bw: &mut BitSink, remainder_len: u32) -> (r: Result<(), CodecError>)
        requires
            remainder_len < 16,
        ensures
            r is Ok,
            written_bits(*final(bw)) == written_bits(*old(bw)) + le_bits(remainder_len as nat, MAX_K_BITS_LEN as nat),
    {
        proof {
            lemma2_to64();
        }
        write_outcome(write_bits(bw, MAX_K_BITS_LEN, remainder_len))
    }

    /// Reads a band's remainder length: the next four bits.
    pub fn read_remainder_len(&self, br: &mut BitSource) -> (r: Result<u32, CodecError>)
        ensures
            unread_bits(*final(br)).len() <= unread_bits(*old(br)).len(),
            r is Ok <==> MAX_K_BITS_LEN <= unread_bits(*old(br)).len(),
            r is Err ==> r == Err::<u32, CodecError>(CodecError::UnexpectedEnd),
            r matches Ok(v) ==> v as nat == bits_value(unread_bits(*old(br)).take(MAX_K_BITS_LEN as int))
                && v < 16
                && unread_bits(*final(br)) == unread_bits(*old(br)).skip(MAX_K_BITS_LEN as int),
            zero_runs_bounded(unread_bits(*old(br))) ==> zero_runs_bounded(unread_bits(*final(br))),
    {
        let res = read_bits(br, MAX_K_BITS_LEN);
        proof {
            lemma_runs_after_read(unread_bits(*old(br)), unread_bits(*br), 4, res is Ok);
        }
        let v = read_outcome(res)?;
        proof {
            lemma2_to64();
            lemma_bits_value_bound(unread_bits(*old(br)).take(MAX_K_BITS_LEN as int));
        }
        Ok(v)
    }
}

/// The header of a coded file as the decoder read it.
#[derive(Debug)]
pub struct FileHeader {
    frames_len: u32,
    sample_rate: u32,
    channels: u8,
    delta_indices: Vec<Vec<usize>>,
}

impl FileHeader {
    /// The fields of the header as numbers.
    pub closed spec fn fields(&self) -> HeaderFields {
        HeaderFields {
            frames_len: self.frames_len as nat,
            sample_rate: self.sample_rate as nat,
            channels: self.channels as nat,
            delta_indices: usize_rows_as_nat(self.delta_indices.deep_view()),
        }
    }

    /// A header with the given fields.
    pub fn new(frames_len: u32, sample_rate: u32, channels: u8, delta_indices: Vec<Vec<usize>>) -> (h: Self)
        ensures
            h.fields() == (HeaderFields {
                frames_len: frames_len as nat,
                sample_rate: sample_rate as nat,
                channels: channels as nat,
                delta_indices: usize_rows_as_nat(delta_indices.deep_view()),
            }),
    {
        Self { frames_len, sample_rate, channels, delta_indices }
    }

    /// The number of channels.
    pub fn channels(&self) -> (c: u8)
        ensures
            c as nat == self.fields().channels,
    {
        self.channels
    }

    /// The sample rate.
    pub fn sample_rate(&self) -> (r: u32)
        ensures
            r as nat == self.fields().sample_rate,
    {
        self.sample_rate
    }

    /// The number of frames.
    pub fn frames_len(&self) -> (n: u32)
        ensures
            n as nat == self.fields().frames_len,
    {
        self.frames_len
    }

    /// The delta-table indices of each frame's bands.
    pub fn delta_indices(&self) -> (rows: &Vec<Vec<usize>>)
        ensures
            usize_rows_as_nat(rows.deep_view()) == self.fields().delta_indices,
    {
        &self.delta_indices
    }
}

} // verus!
