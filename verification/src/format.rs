//! The coded frame format: the band layout of a frame, the bits that code a
//! frame, and how the decoder reads frames back from bits.

use vstd::prelude::*;
use vstd::arithmetic::power2::pow2;
use std::ops::Range;
use crate::bitstream::{
    align_pad, bits_value, le_bits, leading_zeros, lemma_align_pad, lemma_bits_value_le_bits,
    lemma_le_bits_len, lemma_leading_zeros_unary, lemma_take_prefix, lemma_unpack_pack, pack_bytes,
    unary_bits, unpack_bytes, zero_bits,
};
use crate::rice::{
    lemma_remainder_len_of, lemma_unit_value_zigzag, remainder_len_of, unit_bits, unit_value,
    units_bits, zigzag_code, zigzag_sum,
};

verus! {

/// Samples in one time-domain frame of the transform.
pub const DATA_FRAME_SIZE: usize = 1024;

/// Quantized spectral values in one coded frame.
pub const FRAME_LEN: usize = 512;

/// Bands in one coded frame.
pub const BAND_COUNT: usize = 9;

/// Bits that hold the remainder length of a band.
pub const MAX_K_BITS_LEN: u32 = 4;

/// The index of the first value of band `b`; band `b` holds the values from
/// `band_edge(b)` up to `band_edge(b + 1)`: `0..2, 2..4, 4..8, ..., 256..512`.
pub open spec fn band_edge(b: int) -> int {
    if b <= 0 {
        0
    } else if b == 1 {
        2
    } else if b == 2 {
        4
    } else if b == 3 {
        8
    } else if b == 4 {
        16
    } else if b == 5 {
        32
    } else if b == 6 {
        64
    } else if b == 7 {
        128
    } else if b == 8 {
        256
    } else {
        512
    }
}

/// The number of values in band `b`.
pub open spec fn band_len(b: int) -> nat {
    (band_edge(b + 1) - band_edge(b)) as nat
}

/// Whether every value of `q` lies in `[-2^30, 2^30)`, where coding and
/// decoding agree.
pub open spec fn samples_in_range(q: Seq<i32>) -> bool {
    forall|i: int| 0 <= i < q.len() ==> -0x4000_0000 <= #[trigger] q[i] < 0x4000_0000
}

/// The range of value indices that band `b` covers.
pub fn band_range(b: usize) -> (r: Range<usize>)
    requires
        b < BAND_COUNT,
    ensures
        r.start == band_edge(b as int),
        r.end == band_edge(b as int + 1),
        r.start == (if b == 0 { 0 } else { pow2(b as nat) }),
        r.end == pow2(b as nat + 1),
{
    proof {
        vstd::arithmetic::power2::lemma2_to64();
    }
    match b {
        0 => 0..2,
        1 => 2..4,
        2 => 4..8,
        3 => 8..16,
        4 => 16..32,
        5 => 32..64,
        6 => 64..128,
        7 => 128..256,
        _ => 256..512,
    }
}

/// The band layout in plain arithmetic: band 0 covers `0..2` and band `b`
/// from 1 to 8 covers `2^b .. 2^(b+1)`, so every band but the first holds
/// as many values as all bands before it, and the bands fill `0..512`.
pub proof fn lemma_band_layout()
    ensures
        band_edge(0) == 0,
        forall|b: int| 1 <= b <= BAND_COUNT ==> #[trigger] band_edge(b) == pow2(b as nat),
        forall|b: int| 1 <= b < BAND_COUNT ==> #[trigger] band_len(b) == band_edge(b),
        band_len(0) == 2,
        band_edge(BAND_COUNT as int) == FRAME_LEN,
{
    vstd::arithmetic::power2::lemma2_to64();
    assert forall|b: int| 1 <= b <= BAND_COUNT implies #[trigger] band_edge(b) == pow2(b as nat) by {
        vstd::arithmetic::power2::lemma2_to64();
    }
}

/// Whether `bands` lists the ranges of all bands, in order.
pub open spec fn is_band_table(bands: Seq<Range<usize>>) -> bool {
    &&& bands.len() == BAND_COUNT
    &&& forall|b: int|
        0 <= b < BAND_COUNT ==> (#[trigger] bands[b]).start == band_edge(b) && bands[b].end
            == band_edge(b + 1)
}

/// The ranges of all bands, in order.
pub fn band_table() -> (bands: Vec<Range<usize>>)
    ensures
        is_band_table(bands@),
{
    let mut bands: Vec<Range<usize>> = Vec::new();
    let mut b: usize = 0;
    while b < BAND_COUNT
        invariant
            b <= BAND_COUNT,
            bands@.len() == b,
            forall|j: int|
                0 <= j < b ==> (#[trigger] bands@[j]).start == band_edge(j) && bands@[j].end
                    == band_edge(j + 1),
        decreases BAND_COUNT - b,
    {
        bands.push(band_range(b));
        b = b + 1;
    }
    bands
}

// ---------------------------------------------------------------------------
// Coding a frame
// ---------------------------------------------------------------------------

/// The values of band `b` of frame `q`.
pub open spec fn band_values(q: Seq<i32>, b: int) -> Seq<i32> {
    q.subrange(band_edge(b), band_edge(b + 1))
}

/// The bits of one band: its remainder length in four bits, then each value
/// Rice-coded with that length.
pub open spec fn band_bits(vals: Seq<i32>) -> Seq<bool> {
    let k = remainder_len_of(zigzag_sum(vals), vals.len());
    le_bits(k, MAX_K_BITS_LEN as nat) + units_bits(vals, k)
}

/// The bits of the first `b` bands of frame `q`.
pub open spec fn bands_bits(q: Seq<i32>, b: nat) -> Seq<bool>
    decreases b,
{
    if b == 0 {
        Seq::empty()
    } else {
        bands_bits(q, (b - 1) as nat) + band_bits(band_values(q, b - 1))
    }
}

/// The bits of the bands of frame `q` from band `b` on.
pub open spec fn bands_bits_from(q: Seq<i32>, b: nat) -> Seq<bool>
    decreases BAND_COUNT - b,
{
    if b >= BAND_COUNT {
        Seq::empty()
    } else {
        band_bits(band_values(q, b as int)) + bands_bits_from(q, b + 1)
    }
}

/// The bits that code frame `q`.
pub open spec fn frame_bits(q: Seq<i32>) -> Seq<bool> {
    bands_bits(q, BAND_COUNT as nat)
}

/// The bits that code the frames `fs`, one after another.
pub open spec fn frames_bits(fs: Seq<Seq<i32>>) -> Seq<bool>
    decreases fs.len(),
{
    if fs.len() == 0 {
        Seq::empty()
    } else {
        frames_bits(fs.drop_last()) + frame_bits(fs.last())
    }
}

// ---------------------------------------------------------------------------
// Reading frames back
// ---------------------------------------------------------------------------


/// `r` with `front` put before the values it holds.
pub open spec fn prepend<T>(front: Seq<i32>, r: Option<(Seq<i32>, T)>) -> Option<(Seq<i32>, T)> {
    match r {
        None => None,
        Some((vs, rest)) => Some((front + vs, rest)),
    }
}

/// Putting two runs of values in front, one after the other, puts their
/// concatenation in front.
pub proof fn lemma_prepend_prepend<T>(a: Seq<i32>, b: Seq<i32>, r: Option<(Seq<i32>, T)>)
    ensures
        prepend(a, prepend(b, r)) == prepend(a + b, r),
{
    match r {
        None => {},
        Some((vs, rest)) => {
            assert(a + (b + vs) =~= (a + b) + vs);
        },
    }
}

/// The decoder's reading of one value with remainder length `k` from the
/// front of `s`: a unary quotient, then `k` remainder bits, joined into a
/// 32-bit code. `None` when the bits run out first.
pub open spec fn parse_unit(s: Seq<bool>, k: nat) -> Option<(i32, Seq<bool>)> {
    let z = leading_zeros(s);
    if z + 1 + k <= s.len() {
        let r = bits_value(s.subrange(z + 1int, z + 1int + k));
        Some((unit_value((z * pow2(k) + r) % 0x1_0000_0000) as i32, s.skip(z + 1int + k)))
    } else {
        None
    }
}

/// The decoder's reading of `n` values with remainder length `k`.
pub open spec fn parse_units(s: Seq<bool>, k: nat, n: nat) -> Option<(Seq<i32>, Seq<bool>)>
    decreases n,
{
    if n == 0 {
        Some((Seq::empty(), s))
    } else {
        match parse_unit(s, k) {
            None => None,
            Some((v, rest)) => match parse_units(rest, k, (n - 1) as nat) {
                None => None,
                Some((vs, rest2)) => Some((seq![v] + vs, rest2)),
            },
        }
    }
}

/// The decoder's reading of a band of `n` values: a four-bit remainder
/// length, then the values.
pub open spec fn parse_band(s: Seq<bool>, n: nat) -> Option<(Seq<i32>, Seq<bool>)> {
    if s.len() < MAX_K_BITS_LEN {
        None
    } else {
        parse_units(s.skip(MAX_K_BITS_LEN as int), bits_value(s.take(MAX_K_BITS_LEN as int)), n)
    }
}

/// The decoder's reading of the bands of a frame from band `b` on.
pub open spec fn parse_bands(s: Seq<bool>, b: nat) -> Option<(Seq<i32>, Seq<bool>)>
    decreases BAND_COUNT - b,
{
    if b >= BAND_COUNT {
        Some((Seq::empty(), s))
    } else {
        match parse_band(s, band_len(b as int)) {
            None => None,
            Some((vs, rest)) => match parse_bands(rest, b + 1) {
                None => None,
                Some((ws, rest2)) => Some((vs + ws, rest2)),
            },
        }
    }
}

/// The decoder's reading of one frame from the front of `s`.
pub open spec fn parse_frame(s: Seq<bool>) -> Option<(Seq<i32>, Seq<bool>)> {
    parse_bands(s, 0)
}

/// The decoder's reading of `n` frames from the front of `s`.
pub open spec fn parse_frames(s: Seq<bool>, n: nat) -> Option<(Seq<Seq<i32>>, Seq<bool>)>
    decreases n,
{
    if n == 0 {
        Some((Seq::empty(), s))
    } else {
        match parse_frame(s) {
            None => None,
            Some((q, rest)) => match parse_frames(rest, (n - 1) as nat) {
                None => None,
                Some((qs, rest2)) => Some((seq![q] + qs, rest2)),
            },
        }
    }
}

/// `r` with the frames `front` put before the frames it holds.
pub open spec fn prepend_frames(front: Seq<Seq<i32>>, r: Option<(Seq<Seq<i32>>, Seq<bool>)>) -> Option<(Seq<Seq<i32>>, Seq<bool>)> {
    match r {
        None => None,
        Some((qs, rest)) => Some((front + qs, rest)),
    }
}

/// Reading `n + 1` frames is reading one, then `n` more after it.
pub proof fn lemma_parse_frames_step(front: Seq<Seq<i32>>, s: Seq<bool>, n: nat)
    ensures
        parse_frame(s) matches Some((q, rest)) ==> prepend_frames(front, parse_frames(s, n + 1))
            == prepend_frames(front.push(q), parse_frames(rest, n)),
        parse_frame(s) is None ==> parse_frames(s, n + 1) is None,
{
    match parse_frame(s) {
        None => {},
        Some((q, rest)) => {
            match parse_frames(rest, n) {
                None => {},
                Some((qs, rest2)) => {
                    assert(front + (seq![q] + qs) =~= front.push(q) + qs);
                },
            }
        },
    }
}

// ---------------------------------------------------------------------------
// The file header
// ---------------------------------------------------------------------------

/// Bits that hold one delta-table index.
pub const DELTA_INDEX_BITS: u32 = 6;

/// What a file header holds: the number of frames, the sample rate, the
/// number of channels, and for each frame the delta-table index of each band.
pub struct HeaderFields {
    pub frames_len: nat,
    pub sample_rate: nat,
    pub channels: nat,
    pub delta_indices: Seq<Seq<nat>>,
}

/// The bits of one frame's delta-table indices, six bits each.
pub open spec fn index_row_bits(row: Seq<u8>) -> Seq<bool>
    decreases row.len(),
{
    if row.len() == 0 {
        Seq::empty()
    } else {
        index_row_bits(row.drop_last()) + le_bits(row.last() as nat, DELTA_INDEX_BITS as nat)
    }
}

/// The bits of the delta-table indices of all frames, frame after frame.
pub open spec fn index_rows_bits(rows: Seq<Seq<u8>>) -> Seq<bool>
    decreases rows.len(),
{
    if rows.len() == 0 {
        Seq::empty()
    } else {
        index_rows_bits(rows.drop_last()) + index_row_bits(rows.last())
    }
}

/// The bits of a file header: the frame count (modulo `2^32`) in 32 bits,
/// the sample rate in 32 bits, the channel count in 8 bits, then the
/// delta-table indices.
pub open spec fn header_bits(frames: nat, sample_rate: nat, channels: nat, rows: Seq<Seq<u8>>) -> Seq<bool> {
    le_bits(frames % 0x1_0000_0000, 32) + le_bits(sample_rate, 32) + le_bits(channels, 8)
        + index_rows_bits(rows)
}

/// The delta-table indices of `n` frames as the decoder reads them from the
/// front of `s`, six bits each, nine to a frame.
pub open spec fn index_rows_from(s: Seq<bool>, n: nat) -> Seq<Seq<nat>> {
    Seq::new(
        n,
        |f: int|
            Seq::new(
                BAND_COUNT as nat,
                |b: int| bits_value(s.subrange(54 * f + 6 * b, 54 * f + 6 * b + 6)),
            ),
    )
}

/// The decoder's reading of a file header from the front of `s`; `None`
/// when the bits run out first.
pub open spec fn parse_header(s: Seq<bool>) -> Option<(HeaderFields, Seq<bool>)> {
    if s.len() < 72 {
        None
    } else {
        let n = bits_value(s.take(32));
        if s.len() < 72 + 54 * n {
            None
        } else {
            Some(
                (
                    HeaderFields {
                        frames_len: n,
                        sample_rate: bits_value(s.skip(32).take(32)),
                        channels: bits_value(s.skip(64).take(8)),
                        delta_indices: index_rows_from(s.skip(72), n),
                    },
                    s.skip(72 + 54 * n as int),
                ),
            )
        }
    }
}

/// The delta-table indices `rows` as numbers.
pub open spec fn rows_as_nat(rows: Seq<Seq<u8>>) -> Seq<Seq<nat>> {
    rows.map_values(|row: Seq<u8>| row.map_values(|x: u8| x as nat))
}

/// Whether each row of `rows` holds nine indices below 64.
pub open spec fn index_rows_valid(rows: Seq<Seq<u8>>) -> bool {
    forall|f: int|
        0 <= f < rows.len() ==> (#[trigger] rows[f]).len() == BAND_COUNT && forall|b: int|
            0 <= b < BAND_COUNT ==> #[trigger] rows[f][b] < 64
}

proof fn lemma_subrange_of_concat(a: Seq<bool>, b: Seq<bool>, i: int, j: int)
    requires
        0 <= i <= j,
    ensures
        j <= a.len() ==> (a + b).subrange(i, j) == a.subrange(i, j),
        a.len() <= i && j <= a.len() + b.len() ==> (a + b).subrange(i, j) == b.subrange(
            i - a.len(),
            j - a.len(),
        ),
{
    if j <= a.len() {
        assert((a + b).subrange(i, j) =~= a.subrange(i, j));
    }
    if a.len() <= i && j <= a.len() + b.len() {
        assert((a + b).subrange(i, j) =~= b.subrange(i - a.len(), j - a.len()));
    }
}

/// Index `b` of a row sits in bits `6b .. 6b + 6` of the row's bits.
pub proof fn lemma_index_row_bits_at(row: Seq<u8>, b: int)
    requires
        0 <= b < row.len(),
    ensures
        index_row_bits(row).len() == 6 * row.len(),
        index_row_bits(row).subrange(6 * b, 6 * b + 6) == le_bits(row[b] as nat, 6),
    decreases row.len(),
{
    lemma_index_row_bits_len(row);
    let init = row.drop_last();
    lemma_index_row_bits_len(init);
    lemma_le_bits_len(row.last() as nat, 6);
    if b < row.len() - 1 {
        lemma_index_row_bits_at(init, b);
        lemma_subrange_of_concat(index_row_bits(init), le_bits(row.last() as nat, 6), 6 * b, 6 * b + 6);
    } else {
        lemma_subrange_of_concat(index_row_bits(init), le_bits(row.last() as nat, 6), 6 * b, 6 * b + 6);
        assert(le_bits(row.last() as nat, 6).subrange(0, 6) =~= le_bits(row.last() as nat, 6));
    }
}

/// The bits of a row are six per index.
pub proof fn lemma_index_row_bits_len(row: Seq<u8>)
    ensures
        index_row_bits(row).len() == 6 * row.len(),
    decreases row.len(),
{
    if row.len() > 0 {
        lemma_index_row_bits_len(row.drop_last());
        lemma_le_bits_len(row.last() as nat, 6);
    }
}

/// The bits of valid rows are 54 per row.
pub proof fn lemma_index_rows_bits_len(rows: Seq<Seq<u8>>)
    requires
        index_rows_valid(rows),
    ensures
        index_rows_bits(rows).len() == 54 * rows.len(),
    decreases rows.len(),
{
    if rows.len() > 0 {
        let init = rows.drop_last();
        assert(index_rows_valid(init)) by {
            assert forall|f: int| 0 <= f < init.len() implies (#[trigger] init[f]).len() == BAND_COUNT && forall|b: int|
                0 <= b < BAND_COUNT ==> #[trigger] init[f][b] < 64 by {
                assert(init[f] == rows[f]);
            }
        }
        lemma_index_rows_bits_len(init);
        lemma_index_row_bits_len(rows.last());
        assert(rows[rows.len() - 1].len() == BAND_COUNT);
    }
}

/// Index `b` of frame `f` sits in bits `54f + 6b .. 54f + 6b + 6`.
pub proof fn lemma_index_rows_bits_at(rows: Seq<Seq<u8>>, f: int, b: int)
    requires
        index_rows_valid(rows),
        0 <= f < rows.len(),
        0 <= b < BAND_COUNT,
    ensures
        index_rows_bits(rows).subrange(54 * f + 6 * b, 54 * f + 6 * b + 6) == le_bits(rows[f][b] as nat, 6),
    decreases rows.len(),
{
    let init = rows.drop_last();
    assert(index_rows_valid(init)) by {
        assert forall|g: int| 0 <= g < init.len() implies (#[trigger] init[g]).len() == BAND_COUNT && forall|c: int|
            0 <= c < BAND_COUNT ==> #[trigger] init[g][c] < 64 by {
            assert(init[g] == rows[g]);
        }
    }
    lemma_index_rows_bits_len(init);
    assert(rows[rows.len() - 1].len() == BAND_COUNT);
    lemma_index_row_bits_len(rows.last());
    if f < rows.len() - 1 {
        lemma_index_rows_bits_at(init, f, b);
        lemma_subrange_of_concat(index_rows_bits(init), index_row_bits(rows.last()), 54 * f + 6 * b, 54 * f + 6 * b + 6);
        assert(init[f] == rows[f]);
    } else {
        lemma_subrange_of_concat(index_rows_bits(init), index_row_bits(rows.last()), 54 * f + 6 * b, 54 * f + 6 * b + 6);
        lemma_index_row_bits_at(rows.last(), b);
    }
}

/// Reading a header back gives what was written, when the frame count fits
/// in 32 bits and each frame has nine indices below 64.
pub proof fn lemma_parse_header_roundtrip(
    frames: nat,
    sample_rate: u32,
    channels: u8,
    rows: Seq<Seq<u8>>,
    rest: Seq<bool>,
)
    requires
        frames < 0x1_0000_0000,
        rows.len() == frames,
        index_rows_valid(rows),
    ensures
        parse_header(header_bits(frames, sample_rate as nat, channels as nat, rows) + rest) == Some(
            (
                HeaderFields {
                    frames_len: frames,
                    sample_rate: sample_rate as nat,
                    channels: channels as nat,
                    delta_indices: rows_as_nat(rows),
                },
                rest,
            ),
        ),
{
    vstd::arithmetic::power2::lemma2_to64();
    vstd::arithmetic::div_mod::lemma_small_mod(frames, 0x1_0000_0000);
    let fb = le_bits(frames, 32);
    let rb = le_bits(sample_rate as nat, 32);
    let cb = le_bits(channels as nat, 8);
    let ib = index_rows_bits(rows);
    lemma_le_bits_len(frames, 32);
    lemma_le_bits_len(sample_rate as nat, 32);
    lemma_le_bits_len(channels as nat, 8);
    lemma_index_rows_bits_len(rows);
    lemma_bits_value_le_bits(frames, 32);
    lemma_bits_value_le_bits(sample_rate as nat, 32);
    lemma_bits_value_le_bits(channels as nat, 8);
    let s = header_bits(frames, sample_rate as nat, channels as nat, rows) + rest;
    assert(s =~= fb + (rb + (cb + (ib + rest))));
    assert(s.take(32) =~= fb);
    assert(s.skip(32).take(32) =~= rb);
    assert(s.skip(64).take(8) =~= cb);
    let t = s.skip(72);
    assert(t =~= ib + rest);
    assert(s.skip(72 + 54 * frames as int) =~= rest);
    let got = index_rows_from(t, frames);
    let want = rows_as_nat(rows);
    assert forall|f: int| 0 <= f < frames implies #[trigger] got[f] =~= want[f] by {
        assert(rows[f].len() == BAND_COUNT);
        assert forall|b: int| 0 <= b < BAND_COUNT implies got[f][b] == #[trigger] want[f][b] by {
            lemma_index_rows_bits_at(rows, f, b);
            lemma_subrange_of_concat(ib, rest, 54 * f + 6 * b, 54 * f + 6 * b + 6);
            assert(rows[f][b] < 64);
            lemma_bits_value_le_bits(rows[f][b] as nat, 6);
        }
    }
    assert(got =~= want);
}

// ---------------------------------------------------------------------------
// Round trip
// ---------------------------------------------------------------------------

/// The first coded value of a band comes first in its bits.
pub proof fn lemma_units_bits_front(s: Seq<i32>, k: nat)
    requires
        s.len() > 0,
    ensures
        units_bits(s, k) == unit_bits(zigzag_code(s[0] as int), k) + units_bits(s.drop_first(), k),
    decreases s.len(),
{
    if s.len() > 1 {
        lemma_units_bits_front(s.drop_last(), k);
        assert(s.drop_last().drop_first() =~= s.drop_first().drop_last());
        assert(s.drop_first().last() == s.last());
        assert(s.drop_last()[0] == s[0]);
    } else {
        assert(s.drop_first() =~= Seq::<i32>::empty());
        assert(s.drop_last() =~= Seq::<i32>::empty());
    }
}

/// Reading the code of one value gives the value back.
pub proof fn lemma_parse_unit_roundtrip(x: i32, k: nat, rest: Seq<bool>)
    requires
        -0x4000_0000 <= x < 0x4000_0000,
        k <= 16,
    ensures
        parse_unit(unit_bits(zigzag_code(x as int), k) + rest, k) == Some((x, rest)),
{
    let u = zigzag_code(x as int);
    lemma_unit_value_zigzag(x as int);
    vstd::arithmetic::power2::lemma_pow2_pos(k);
    let p = pow2(k);
    let qt = u / p;
    let r = u % p;
    let tail = le_bits(r, k) + rest;
    let s = unit_bits(u, k) + rest;
    assert(s =~= unary_bits(qt) + tail);
    lemma_leading_zeros_unary(qt, tail);
    lemma_le_bits_len(r, k);
    lemma_take_prefix(le_bits(r, k), rest);
    assert(s.subrange(qt + 1int, qt + 1int + k) =~= tail.take(k as int));
    assert(s.skip(qt + 1int + k) =~= tail.skip(k as int));
    lemma_bits_value_le_bits(r, k);
    vstd::arithmetic::div_mod::lemma_fundamental_div_mod(u as int, p as int);
    assert(qt * p + r == u) by (nonlinear_arith)
        requires
            u == p * (u / p) + u % p,
            qt == u / p,
            r == u % p,
    ;
    vstd::arithmetic::div_mod::lemma_small_mod(u, 0x1_0000_0000);
}

/// Reading the codes of band values gives the values back.
pub proof fn lemma_parse_units_roundtrip(s: Seq<i32>, k: nat, rest: Seq<bool>)
    requires
        samples_in_range(s),
        k <= 16,
    ensures
        parse_units(units_bits(s, k) + rest, k, s.len()) == Some((s, rest)),
    decreases s.len(),
{
    if s.len() > 0 {
        lemma_units_bits_front(s, k);
        let t = s.drop_first();
        assert(samples_in_range(t)) by {
            assert forall|i: int| 0 <= i < t.len() implies -0x4000_0000 <= #[trigger] t[i] < 0x4000_0000 by {
                assert(t[i] == s[i + 1]);
            }
        }
        assert(-0x4000_0000 <= s[0] < 0x4000_0000);
        let tail = units_bits(t, k) + rest;
        assert(units_bits(s, k) + rest =~= unit_bits(zigzag_code(s[0] as int), k) + tail);
        lemma_parse_unit_roundtrip(s[0], k, tail);
        lemma_parse_units_roundtrip(t, k, rest);
        assert(seq![s[0]] + t =~= s);
    } else {
        assert(units_bits(s, k) + rest =~= rest);
        assert(s =~= Seq::<i32>::empty());
    }
}

/// Reading the bits of a band gives its values back.
pub proof fn lemma_parse_band_roundtrip(vals: Seq<i32>, rest: Seq<bool>)
    requires
        samples_in_range(vals),
        vals.len() > 0,
    ensures
        parse_band(band_bits(vals) + rest, vals.len()) == Some((vals, rest)),
{
    let k = remainder_len_of(zigzag_sum(vals), vals.len());
    lemma_remainder_len_of(zigzag_sum(vals), vals.len());
    vstd::arithmetic::power2::lemma2_to64();
    let kb = le_bits(k, MAX_K_BITS_LEN as nat);
    lemma_le_bits_len(k, MAX_K_BITS_LEN as nat);
    lemma_bits_value_le_bits(k, MAX_K_BITS_LEN as nat);
    let tail = units_bits(vals, k) + rest;
    let s = band_bits(vals) + rest;
    assert(s =~= kb + tail);
    lemma_take_prefix(kb, tail);
    lemma_parse_units_roundtrip(vals, k, rest);
}

/// The bits of a frame are those of its first `b` bands followed by those
/// of the rest.
pub proof fn lemma_bands_bits_split(q: Seq<i32>, b: nat)
    requires
        b <= BAND_COUNT,
    ensures
        frame_bits(q) == bands_bits(q, b) + bands_bits_from(q, b),
    decreases BAND_COUNT - b,
{
    if b < BAND_COUNT {
        lemma_bands_bits_split(q, b + 1);
        assert(bands_bits(q, b + 1) == bands_bits(q, b) + band_bits(band_values(q, b as int)));
        assert(bands_bits(q, b + 1) + bands_bits_from(q, b + 1) =~= bands_bits(q, b)
            + bands_bits_from(q, b));
    } else {
        assert(frame_bits(q) =~= bands_bits(q, b) + bands_bits_from(q, b));
    }
}

/// Reading the bits of the bands of a frame from band `b` on gives their values back.
pub proof fn lemma_parse_bands_roundtrip(q: Seq<i32>, b: nat, rest: Seq<bool>)
    requires
        q.len() == FRAME_LEN,
        samples_in_range(q),
        b <= BAND_COUNT,
    ensures
        parse_bands(bands_bits_from(q, b) + rest, b) == Some((q.subrange(band_edge(b as int), FRAME_LEN as int), rest)),
    decreases BAND_COUNT - b,
{
    if b < BAND_COUNT {
        let vals = band_values(q, b as int);
        assert(samples_in_range(vals)) by {
            assert forall|i: int| 0 <= i < vals.len() implies -0x4000_0000 <= #[trigger] vals[i] < 0x4000_0000 by {
                assert(vals[i] == q[band_edge(b as int) + i]);
            }
        }
        let tail = bands_bits_from(q, b + 1) + rest;
        assert(bands_bits_from(q, b) + rest =~= band_bits(vals) + tail);
        lemma_parse_band_roundtrip(vals, tail);
        lemma_parse_bands_roundtrip(q, b + 1, rest);
        assert(vals + q.subrange(band_edge(b + 1int), FRAME_LEN as int) =~= q.subrange(band_edge(b as int), FRAME_LEN as int));
    } else {
        assert(bands_bits_from(q, b) + rest =~= rest);
        assert(q.subrange(band_edge(b as int), FRAME_LEN as int) =~= Seq::<i32>::empty());
    }
}

/// Reading the bits of a frame gives the frame back, for frames of 512
/// values in `[-2^30, 2^30)`.
pub proof fn lemma_parse_frame_roundtrip(q: Seq<i32>, rest: Seq<bool>)
    requires
        q.len() == FRAME_LEN,
        samples_in_range(q),
    ensures
        parse_frame(frame_bits(q) + rest) == Some((q, rest)),
{
    lemma_bands_bits_split(q, 0);
    assert(bands_bits(q, 0) + bands_bits_from(q, 0) =~= bands_bits_from(q, 0));
    lemma_parse_bands_roundtrip(q, 0, rest);
    assert(q.subrange(0, FRAME_LEN as int) =~= q);
}

/// The first coded frame comes first in the bits of frames.
pub proof fn lemma_frames_bits_front(fs: Seq<Seq<i32>>)
    requires
        fs.len() > 0,
    ensures
        frames_bits(fs) == frame_bits(fs[0]) + frames_bits(fs.drop_first()),
    decreases fs.len(),
{
    if fs.len() > 1 {
        lemma_frames_bits_front(fs.drop_last());
        assert(fs.drop_last().drop_first() =~= fs.drop_first().drop_last());
        assert(fs.drop_first().last() == fs.last());
        assert(fs.drop_last()[0] == fs[0]);
    } else {
        assert(fs.drop_first() =~= Seq::<Seq<i32>>::empty());
        assert(fs.drop_last() =~= Seq::<Seq<i32>>::empty());
    }
}

/// Whether each of `fs` is a frame of 512 values in `[-2^30, 2^30)`.
pub open spec fn frames_in_range(fs: Seq<Seq<i32>>) -> bool {
    forall|i: int| 0 <= i < fs.len() ==> (#[trigger] fs[i]).len() == FRAME_LEN && samples_in_range(fs[i])
}

/// Reading as many frames as were coded gives them back.
pub proof fn lemma_parse_frames_roundtrip(fs: Seq<Seq<i32>>, rest: Seq<bool>)
    requires
        frames_in_range(fs),
    ensures
        parse_frames(frames_bits(fs) + rest, fs.len()) == Some((fs, rest)),
    decreases fs.len(),
{
    if fs.len() > 0 {
        lemma_frames_bits_front(fs);
        let t = fs.drop_first();
        assert(frames_in_range(t)) by {
            assert forall|i: int| 0 <= i < t.len() implies (#[trigger] t[i]).len() == FRAME_LEN && samples_in_range(t[i]) by {
                assert(t[i] == fs[i + 1]);
            }
        }
        assert(fs[0].len() == FRAME_LEN && samples_in_range(fs[0]));
        let tail = frames_bits(t) + rest;
        assert(frames_bits(fs) + rest =~= frame_bits(fs[0]) + tail);
        lemma_parse_frame_roundtrip(fs[0], tail);
        lemma_parse_frames_roundtrip(t, rest);
        assert(seq![fs[0]] + t =~= fs);
    } else {
        assert(frames_bits(fs) + rest =~= rest);
        assert(fs =~= Seq::<Seq<i32>>::empty());
    }
}

// ---------------------------------------------------------------------------
// The whole file
// ---------------------------------------------------------------------------

/// The bits of a coded file: the header, then the coded frames padded to a
/// whole byte, then padding to a whole byte.
pub open spec fn file_bits(sample_rate: nat, channels: nat, rows: Seq<Seq<u8>>, fs: Seq<Seq<i32>>) -> Seq<bool> {
    let frames = frames_bits(fs);
    let data = frames + zero_bits(align_pad(frames.len()));
    let body = header_bits(fs.len(), sample_rate, channels, rows) + data;
    body + zero_bits(align_pad(body.len()))
}

/// The bytes of a coded file of the frames `fs`, with delta-table indices
/// `rows`, at the given sample rate and channel count.
pub open spec fn encoded_file(sample_rate: nat, channels: nat, rows: Seq<Seq<u8>>, fs: Seq<Seq<i32>>) -> Seq<u8> {
    pack_bytes(file_bits(sample_rate, channels, rows, fs))
}

/// Decoding a coded file gives back its header and all its frames: the
/// header holds the frame count, sample rate, channel count and delta-table
/// indices that were coded, and reading that many frames after the header
/// gives the coded frames. This holds for fewer than `2^32` frames, each of
/// 512 values in `[-2^30, 2^30)`, with nine delta-table indices below 64 each.
pub proof fn lemma_file_roundtrip(sample_rate: u32, channels: u8, rows: Seq<Seq<u8>>, fs: Seq<Seq<i32>>)
    requires
        fs.len() < 0x1_0000_0000,
        rows.len() == fs.len(),
        index_rows_valid(rows),
        frames_in_range(fs),
    ensures
        ({
            &&& parse_header(unpack_bytes(encoded_file(sample_rate as nat, channels as nat, rows, fs))) matches Some((h, rest))
            &&& h == (HeaderFields {
                frames_len: fs.len(),
                sample_rate: sample_rate as nat,
                channels: channels as nat,
                delta_indices: rows_as_nat(rows),
            })
            &&& parse_frames(rest, h.frames_len) matches Some((got, _))
            &&& got == fs
        }),
{
    let frames = frames_bits(fs);
    let pad1 = zero_bits(align_pad(frames.len()));
    let hb = header_bits(fs.len(), sample_rate as nat, channels as nat, rows);
    let body = hb + (frames + pad1);
    let pad2 = zero_bits(align_pad(body.len()));
    lemma_align_pad(body);
    lemma_unpack_pack(body + pad2);
    assert(file_bits(sample_rate as nat, channels as nat, rows, fs) == body + pad2);
    let rest = frames + (pad1 + pad2);
    assert(body + pad2 =~= hb + rest);
    lemma_parse_header_roundtrip(fs.len(), sample_rate, channels, rows, rest);
    lemma_parse_frames_roundtrip(fs, pad1 + pad2);
}

} // verus!
