//! Bit sequences, their byte packing, and the bit reader and writer of
//! `bitstream_io` over in-memory buffers.

use vstd::prelude::*;
use vstd::arithmetic::power2::{lemma_pow2_unfold, pow2};
use bitstream_io::{BitReader, BitWriter, LittleEndian};
use std::collections::VecDeque;

verus! {

/// The `n` low bits of `v`, least significant bit first.
pub open spec fn le_bits(v: nat, n: nat) -> Seq<bool>
    decreases n,
{
    if n == 0 {
        Seq::empty()
    } else {
        seq![v % 2 == 1] + le_bits(v / 2, (n - 1) as nat)
    }
}

/// The number whose bits, least significant first, are `s`.
pub open spec fn bits_value(s: Seq<bool>) -> nat
    decreases s.len(),
{
    if s.len() == 0 {
        0
    } else {
        (if s[0] { 1nat } else { 0nat }) + 2 * bits_value(s.drop_first())
    }
}

/// `n` zero bits.
pub open spec fn zero_bits(n: nat) -> Seq<bool> {
    Seq::new(n, |i: int| false)
}

/// The unary code of `q`: `q` zero bits and a closing one bit.
pub open spec fn unary_bits(q: nat) -> Seq<bool> {
    zero_bits(q).push(true)
}

/// The number of zero bits that must follow `len` bits to reach a whole byte.
pub open spec fn align_pad(len: nat) -> nat {
    if len % 8 == 0 {
        0
    } else {
        (8 - len % 8) as nat
    }
}

/// The number of zero bits at the front of `s`.
pub open spec fn leading_zeros(s: Seq<bool>) -> nat
    decreases s.len(),
{
    if s.len() == 0 {
        0
    } else if s[0] {
        0
    } else {
        1 + leading_zeros(s.drop_first())
    }
}

/// The bytes that hold `s`, eight bits to a byte, the first bit in the
/// least significant place; a trailing partial byte is left out.
pub open spec fn pack_bytes(s: Seq<bool>) -> Seq<u8>
    decreases s.len(),
{
    if s.len() < 8 {
        Seq::empty()
    } else {
        seq![bits_value(s.take(8)) as u8] + pack_bytes(s.skip(8))
    }
}

/// The bits of `b`, byte after byte, each byte least significant bit first.
pub open spec fn unpack_bytes(b: Seq<u8>) -> Seq<bool>
    decreases b.len(),
{
    if b.len() == 0 {
        Seq::empty()
    } else {
        le_bits(b[0] as nat, 8) + unpack_bytes(b.drop_first())
    }
}


/// `le_bits(v, n)` has `n` bits.
pub proof fn lemma_le_bits_len(v: nat, n: nat)
    ensures
        le_bits(v, n).len() == n,
    decreases n,
{
    if n > 0 {
        lemma_le_bits_len(v / 2, (n - 1) as nat);
    }
}

/// Reading back the `n` low bits of a number below `2^n` gives the number.
pub proof fn lemma_bits_value_le_bits(v: nat, n: nat)
    requires
        v < pow2(n),
    ensures
        bits_value(le_bits(v, n)) == v,
    decreases n,
{
    if n == 0 {
        assert(pow2(0) == 1) by { lemma_pow2_unfold_zero(); }
    } else {
        lemma_pow2_unfold(n);
        let s = le_bits(v, n);
        let t = le_bits(v / 2, (n - 1) as nat);
        assert(s.drop_first() =~= t);
        lemma_bits_value_le_bits(v / 2, (n - 1) as nat);
    }
}

proof fn lemma_pow2_unfold_zero()
    ensures
        pow2(0) == 1,
{
    vstd::arithmetic::power2::lemma2_to64();
}

/// The value of `s` is below `2^s.len()`.
pub proof fn lemma_bits_value_bound(s: Seq<bool>)
    ensures
        bits_value(s) < pow2(s.len()),
    decreases s.len(),
{
    if s.len() == 0 {
        lemma_pow2_unfold_zero();
    } else {
        lemma_bits_value_bound(s.drop_first());
        lemma_pow2_unfold(s.len());
    }
}

/// The bits of the value of `s`, as many as `s` has, are `s`.
#[verifier::spinoff_prover]
pub proof fn lemma_le_bits_bits_value(s: Seq<bool>)
    ensures
        le_bits(bits_value(s), s.len()) == s,
    decreases s.len(),
{
    if s.len() > 0 {
        let v = bits_value(s);
        let r = s.drop_first();
        lemma_le_bits_bits_value(r);
        assert(v % 2 == (if s[0] { 1nat } else { 0nat }));
        assert(v / 2 == bits_value(r));
        assert(le_bits(v, s.len()) =~= seq![s[0]] + le_bits(bits_value(r), r.len()));
        assert(seq![s[0]] + r =~= s);
    }
}

/// The value of the first `a.len()` bits of `a + b` is that of `a`.
pub proof fn lemma_take_prefix(a: Seq<bool>, b: Seq<bool>)
    ensures
        (a + b).take(a.len() as int) == a,
        (a + b).skip(a.len() as int) == b,
{
    assert((a + b).take(a.len() as int) =~= a);
    assert((a + b).skip(a.len() as int) =~= b);
}

/// Bits packed into bytes and unpacked again are the bits, when they fill
/// whole bytes.
pub proof fn lemma_unpack_pack(s: Seq<bool>)
    requires
        s.len() % 8 == 0,
    ensures
        unpack_bytes(pack_bytes(s)) == s,
    decreases s.len(),
{
    if s.len() >= 8 {
        let head = s.take(8);
        let rest = s.skip(8);
        lemma_unpack_pack(rest);
        lemma_bits_value_bound(head);
        vstd::arithmetic::power2::lemma2_to64();
        let b = bits_value(head);
        let packed = pack_bytes(s);
        assert(packed == seq![b as u8] + pack_bytes(rest));
        assert(packed[0] == b as u8);
        assert(packed.drop_first() =~= pack_bytes(rest));
        lemma_le_bits_bits_value(head);
        assert(unpack_bytes(packed) == le_bits(b, 8) + unpack_bytes(pack_bytes(rest)));
        assert(head + rest =~= s);
    } else {
        assert(s.len() == 0);
        assert(s =~= Seq::<bool>::empty());
    }
}


/// Padding to a whole byte leaves a multiple of eight bits.
pub proof fn lemma_align_pad(s: Seq<bool>)
    ensures
        (s + zero_bits(align_pad(s.len()))).len() % 8 == 0,
        align_pad(s.len()) < 8,
{
}


/// Unpacked bytes are eight bits each.
pub proof fn lemma_unpack_bytes_len(b: Seq<u8>)
    ensures
        unpack_bytes(b).len() == 8 * b.len(),
    decreases b.len(),
{
    if b.len() > 0 {
        lemma_unpack_bytes_len(b.drop_first());
        lemma_le_bits_len(b[0] as nat, 8);
    }
}

/// A unary code followed by more bits starts with as many zeros as it codes.
pub proof fn lemma_leading_zeros_unary(q: nat, rest: Seq<bool>)
    ensures
        leading_zeros(unary_bits(q) + rest) == q,
        q < (unary_bits(q) + rest).len(),
        (unary_bits(q) + rest).skip(q + 1int) == rest,
    decreases q,
{
    let s = unary_bits(q) + rest;
    if q == 0 {
        assert(s[0]);
    } else {
        assert(!s[0]);
        assert(s.drop_first() =~= unary_bits((q - 1) as nat) + rest);
        lemma_leading_zeros_unary((q - 1) as nat, rest);
    }
    assert(s.skip(q + 1int) =~= rest);
}

/// Whether every run of zero bits in `s`, wherever it starts, has at most
/// `u32::MAX` bits: the bit reader counts such a run in 32 bits.
pub open spec fn zero_runs_bounded(s: Seq<bool>) -> bool {
    forall|i: int| 0 <= i <= s.len() ==> #[trigger] leading_zeros(s.skip(i)) <= u32::MAX
}

/// A sequence has no more leading zeros than bits.
pub proof fn lemma_leading_zeros_le_len(s: Seq<bool>)
    ensures
        leading_zeros(s) <= s.len(),
    decreases s.len(),
{
    if s.len() > 0 && !s[0] {
        lemma_leading_zeros_le_len(s.drop_first());
    }
}

/// The first `n` bits of a sequence with at least `n` leading zeros are zero.
pub proof fn lemma_leading_zeros_are_zero(s: Seq<bool>, n: nat)
    requires
        n <= leading_zeros(s),
    ensures
        n <= s.len(),
        forall|t: int| 0 <= t < n ==> !#[trigger] s[t],
    decreases n,
{
    lemma_leading_zeros_le_len(s);
    if n > 0 {
        assert(!s[0]);
        lemma_leading_zeros_are_zero(s.drop_first(), (n - 1) as nat);
        assert forall|t: int| 0 <= t < n implies !#[trigger] s[t] by {
            if t > 0 {
                assert(s[t] == s.drop_first()[t - 1]);
            }
        }
    }
}

/// Fewer than `2^32` bits hold no longer run of zeros.
pub proof fn lemma_runs_bounded_short(s: Seq<bool>)
    requires
        s.len() <= u32::MAX,
    ensures
        zero_runs_bounded(s),
{
    assert forall|i: int| 0 <= i <= s.len() implies #[trigger] leading_zeros(s.skip(i)) <= u32::MAX by {
        lemma_leading_zeros_le_len(s.skip(i));
    }
}

/// The bits after the first `j` keep the bound on runs of zeros.
pub proof fn lemma_runs_bounded_skip(s: Seq<bool>, j: int)
    requires
        zero_runs_bounded(s),
        0 <= j <= s.len(),
    ensures
        zero_runs_bounded(s.skip(j)),
{
    assert forall|i: int| 0 <= i <= s.skip(j).len() implies #[trigger] leading_zeros(s.skip(j).skip(i)) <= u32::MAX by {
        assert(s.skip(j).skip(i) =~= s.skip(j + i));
        assert(leading_zeros(s.skip(j + i)) <= u32::MAX);
    }
}

/// What a read of `count` bits leaves, `t` after `s`, keeps the bound on
/// runs of zeros: the bits after those read, or, when the read fails, fewer
/// bits than were asked for.
pub proof fn lemma_runs_after_read(s: Seq<bool>, t: Seq<bool>, count: nat, ok: bool)
    requires
        count <= 32,
        t.len() <= s.len(),
        ok ==> count <= s.len() && t == s.skip(count as int),
        !ok ==> s.len() < count,
    ensures
        zero_runs_bounded(s) ==> zero_runs_bounded(t),
{
    if ok {
        if zero_runs_bounded(s) {
            lemma_runs_bounded_skip(s, count as int);
        }
    } else {
        lemma_runs_bounded_short(t);
    }
}

/// What a read of a unary code leaves, `t` after `s`, keeps the bound on
/// runs of zeros: the bits after the code, or, when no one bit is left, no
/// more bits than there were.
pub proof fn lemma_runs_after_unary(s: Seq<bool>, t: Seq<bool>, q: nat, ok: bool)
    requires
        t.len() <= s.len(),
        ok ==> q + 1 <= s.len() && t == s.skip(q + 1int),
        !ok ==> s.len() <= leading_zeros(s),
    ensures
        zero_runs_bounded(s) ==> zero_runs_bounded(t),
{
    if zero_runs_bounded(s) {
        if ok {
            lemma_runs_bounded_skip(s, q + 1int);
        } else {
            assert(s.skip(0) =~= s);
            assert(leading_zeros(s.skip(0)) <= u32::MAX);
            lemma_runs_bounded_short(t);
        }
    }
}

/// The number of consecutive zero bytes from which on a coded input is
/// refused: a run of zero bits in fewer bytes than this fits in 32 bits.
pub const LONG_ZERO_RUN: usize = 0x1FFF_FFFF;

/// Whether the bytes of `b` from index `j` on, `LONG_ZERO_RUN` of them, are
/// all zero.
pub open spec fn zero_window(b: Seq<u8>, j: int) -> bool {
    forall|k: int| j <= k < j + LONG_ZERO_RUN ==> #[trigger] b[k] == 0
}

/// Whether `b` holds `LONG_ZERO_RUN` consecutive zero bytes.
pub open spec fn has_long_zero_run(b: Seq<u8>) -> bool {
    exists|j: int| 0 <= j && j + LONG_ZERO_RUN <= b.len() && #[trigger] zero_window(b, j)
}

/// Bit `c` of byte `j` of `b` is bit `8j + c` of its bits.
pub proof fn lemma_unpack_bytes_index(b: Seq<u8>, j: int, c: int)
    requires
        0 <= j < b.len(),
        0 <= c < 8,
    ensures
        unpack_bytes(b).len() == 8 * b.len(),
        unpack_bytes(b)[8 * j + c] == le_bits(b[j] as nat, 8)[c],
    decreases b.len(),
{
    lemma_unpack_bytes_len(b);
    lemma_le_bits_len(b[0] as nat, 8);
    lemma_unpack_bytes_len(b.drop_first());
    if j > 0 {
        lemma_unpack_bytes_index(b.drop_first(), j - 1, c);
        assert(b.drop_first()[j - 1] == b[j]);
    }
}

/// The value of bits that are all zero is zero.
pub proof fn lemma_bits_value_zero(s: Seq<bool>)
    requires
        forall|t: int| 0 <= t < s.len() ==> !#[trigger] s[t],
    ensures
        bits_value(s) == 0,
    decreases s.len(),
{
    if s.len() > 0 {
        assert forall|t: int| 0 <= t < s.drop_first().len() implies !#[trigger] s.drop_first()[t] by {
            assert(s.drop_first()[t] == s[t + 1]);
        }
        lemma_bits_value_zero(s.drop_first());
    }
}

/// Bytes without `LONG_ZERO_RUN` consecutive zero bytes have no run of zero
/// bits too long to count in 32 bits.
pub proof fn lemma_short_zero_runs(b: Seq<u8>)
    requires
        !has_long_zero_run(b),
    ensures
        zero_runs_bounded(unpack_bytes(b)),
{
    let u = unpack_bytes(b);
    lemma_unpack_bytes_len(b);
    assert forall|i: int| 0 <= i <= u.len() implies #[trigger] leading_zeros(u.skip(i)) <= u32::MAX by {
        if leading_zeros(u.skip(i)) > u32::MAX {
            let n: nat = 0x1_0000_0000;
            lemma_leading_zeros_are_zero(u.skip(i), n);
            let j = (i + 7) / 8;
            assert(8 * j >= i && 8 * j <= i + 7);
            assert(j + LONG_ZERO_RUN <= b.len());
            assert forall|k: int| j <= k < j + LONG_ZERO_RUN implies #[trigger] b[k] == 0 by {
                let le = le_bits(b[k] as nat, 8);
                lemma_le_bits_len(b[k] as nat, 8);
                assert forall|c: int| 0 <= c < le.len() implies !#[trigger] le[c] by {
                    lemma_unpack_bytes_index(b, k, c);
                    assert(u.skip(i)[8 * k + c - i] == u[8 * k + c]);
                }
                lemma_bits_value_zero(le);
                vstd::arithmetic::power2::lemma2_to64();
                lemma_bits_value_le_bits(b[k] as nat, 8);
            }
            assert(zero_window(b, j));
        }
    }
}

#[verifier::external_type_specification]
#[verifier::external_body]
pub struct ExIoError(std::io::Error);

/// A `bitstream_io` bit writer, little-endian bit order, whose bytes go to
/// a `Vec<u8>`.
#[verifier::external_body]
pub struct BitSink {
    inner: BitWriter<Vec<u8>, LittleEndian>,
}

/// A `bitstream_io` bit reader, little-endian bit order, whose bytes come
/// from a `VecDeque<u8>`.
#[verifier::external_body]
pub struct BitSource {
    inner: BitReader<VecDeque<u8>, LittleEndian>,
}

/// The bits that `w` has taken so far: those it has flushed to its buffer,
/// followed by those of its partial byte.
pub uninterp spec fn written_bits(w: BitSink) -> Seq<bool>;

/// The bits that `r` has not handed out yet: those of its partial byte,
/// followed by those of the bytes left in its buffer.
pub uninterp spec fn unread_bits(r: BitSource) -> Seq<bool>;

/// `BitWriter::new` over an empty `Vec<u8>`: a writer that holds no bits.
#[verifier::external_body]
pub(crate) fn new_bit_writer() -> (w: BitSink)
    ensures
        written_bits(w) == Seq::<bool>::empty(),
{
    BitSink { inner: BitWriter::new(Vec::new()) }
}

/// `BitWrite2::write::<u32>(count, value)` on a writer over a `Vec<u8>`:
/// appends the `count` low bits of `value`, least significant first
/// (little-endian bit order). The crate fails this call only when `count`
/// exceeds 32, when `value` does not fit in `count` bits, or when the
/// underlying writer fails; the first two are ruled out by `requires`, and
/// writing to a `Vec<u8>` appends to it.
#[verifier::external_body]
pub(crate) fn write_bits(w: &mut BitSink, count: u32, value: u32) -> (r: Result<(), std::io::Error>)
    requires
        count <= 32,
        value < pow2(count as nat),
    ensures
        r is Ok,
        written_bits(*final(w)) == written_bits(*old(w)) + le_bits(value as nat, count as nat),
{
    bitstream_io::BitWrite2::write(&mut w.inner, count, value)
}

/// `BitWrite2::write_bit` on a writer over a `Vec<u8>`: appends one bit.
#[verifier::external_body]
pub(crate) fn write_bit(w: &mut BitSink, bit: bool) -> (r: Result<(), std::io::Error>)
    ensures
        r is Ok,
        written_bits(*final(w)) == written_bits(*old(w)).push(bit),
{
    bitstream_io::BitWrite2::write_bit(&mut w.inner, bit)
}

/// `BitWrite2::write_unary1` on a writer over a `Vec<u8>`: appends `value`
/// zero bits and then a one bit.
#[verifier::external_body]
pub(crate) fn write_unary1(w: &mut BitSink, value: u32) -> (r: Result<(), std::io::Error>)
    ensures
        r is Ok,
        written_bits(*final(w)) == written_bits(*old(w)) + unary_bits(value as nat),
{
    bitstream_io::BitWrite2::write_unary1(&mut w.inner, value)
}

/// `BitWrite2::write_bytes` on a writer over a `Vec<u8>`: appends the eight
/// bits of each byte of `buf` in turn, each least significant first.
#[verifier::external_body]
pub(crate) fn write_bytes(w: &mut BitSink, buf: &[u8]) -> (r: Result<(), std::io::Error>)
    ensures
        r is Ok,
        written_bits(*final(w)) == written_bits(*old(w)) + unpack_bytes(buf@),
{
    bitstream_io::BitWrite2::write_bytes(&mut w.inner, buf)
}

/// `BitWrite2::byte_align` on a writer over a `Vec<u8>`: appends zero bits
/// until the number of bits held is a multiple of eight.
#[verifier::external_body]
pub(crate) fn byte_align(w: &mut BitSink) -> (r: Result<(), std::io::Error>)
    ensures
        r is Ok,
        written_bits(*final(w)) == written_bits(*old(w)) + zero_bits(align_pad(written_bits(*old(w)).len())),
{
    bitstream_io::BitWrite2::byte_align(&mut w.inner)
}

/// `BitWriter::into_writer`: the buffer of whole bytes written so far; the
/// bits of a partial byte are dropped.
#[verifier::external_body]
pub(crate) fn into_bytes(w: BitSink) -> (bytes: Vec<u8>)
    ensures
        bytes@ == pack_bytes(written_bits(w)),
{
    w.inner.into_writer()
}

/// `BitReader::new` over the bytes of `bytes`: a reader whose unread bits
/// are those of the bytes in order, each least significant bit first.
#[verifier::external_body]
pub(crate) fn new_bit_reader(bytes: Vec<u8>) -> (r: BitSource)
    ensures
        unread_bits(r) == unpack_bytes(bytes@),
{
    BitSource { inner: BitReader::new(VecDeque::from(bytes)) }
}

/// `BitRead2::read::<u32>(count)` on a reader over a `VecDeque<u8>`: takes
/// the next `count` bits and returns their value, the first bit least
/// significant. Reading from a `VecDeque<u8>` fails only at its end, so the
/// call fails exactly when fewer than `count` bits are left; what a failed
/// call leaves unread is not stated, beyond that nothing is added.
#[verifier::external_body]
pub(crate) fn read_bits(r: &mut BitSource, count: u32) -> (res: Result<u32, std::io::Error>)
    requires
        count <= 32,
    ensures
        unread_bits(*final(r)).len() <= unread_bits(*old(r)).len(),
        res is Ok <==> count <= unread_bits(*old(r)).len(),
        res matches Ok(v) ==> {
            &&& v as nat == bits_value(unread_bits(*old(r)).take(count as int))
            &&& unread_bits(*final(r)) == unread_bits(*old(r)).skip(count as int)
        },
{
    bitstream_io::BitRead2::read::<u32>(&mut r.inner, count)
}

/// `BitRead2::read_unary1` on a reader over a `VecDeque<u8>`: counts the zero
/// bits before the next one bit and takes them and the one bit. It fails
/// exactly when no one bit is left; what a failed call leaves unread is not
/// stated, beyond that nothing is added. The crate counts the zero bits in a
/// `u32`, so their number is bounded to keep the count from overflowing.
#[verifier::external_body]
pub(crate) fn read_unary1(r: &mut BitSource) -> (res: Result<u32, std::io::Error>)
    requires
        leading_zeros(unread_bits(*old(r))) <= u32::MAX,
    ensures
        unread_bits(*final(r)).len() <= unread_bits(*old(r)).len(),
        res is Ok <==> leading_zeros(unread_bits(*old(r))) < unread_bits(*old(r)).len(),
        res matches Ok(q) ==> {
            &&& q as nat == leading_zeros(unread_bits(*old(r)))
            &&& unread_bits(*final(r)) == unread_bits(*old(r)).skip(q + 1)
        },
{
    bitstream_io::BitRead2::read_unary1(&mut r.inner)
}

} // verus!
