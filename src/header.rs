//! The length header: a 64-bit byte count carried by the first
//! `HEADER_PIXELS` pixels of a grid, most-significant triple first.
//!
//! The encoder shifts its working value left by three bits before each
//! pixel and writes bits 63..61 of the result, so the first pixel carries
//! bits 60..58 of the count and the last two carry padding. The decoder
//! folds the 22 triples into a 64-bit register and drops the five low bits.
//! Together they carry the low 59 bits of the count.
use vstd::prelude::*;
use crate::triple::{lsb_filled, pixel_count, read_triple, triple_at, write_triple, lemma_fill_step, lemma_filled_triple};

verus! {

/// Pixels taken by the length header.
pub const HEADER_PIXELS: usize = 22;

/// Mask of the count bits that the header carries.
pub const HEADER_LEN_MASK: u64 = 0x07ff_ffff_ffff_ffff;

/// The encoder's working value after `n` shifts of three bits.
pub open spec fn shifted_len(len: u64, n: nat) -> u64 {
    if 3 * n < 64 {
        len << ((3 * n) as u64)
    } else {
        0
    }
}

/// The triple that header pixel `k` carries for the count `len`.
pub open spec fn header_triple(len: u64, k: int) -> int {
    (shifted_len(len, (k + 1) as nat) >> 61u64) as int
}

/// The header triples of `len`, pixel by pixel.
pub open spec fn header_triples(len: u64) -> spec_fn(int) -> int {
    |k: int| header_triple(len, k)
}

/// The register after folding the triples of the first `n` pixels.
pub open spec fn fold_triples(g: Seq<u8>, n: nat) -> u64
    decreases n,
{
    if n == 0 {
        0
    } else {
        (fold_triples(g, (n - 1) as nat) << 3u64) | (triple_at(g, n - 1) as u64)
    }
}

/// The count that the header of grid `g` holds.
pub open spec fn header_value(g: Seq<u8>) -> u64 {
    fold_triples(g, HEADER_PIXELS as nat) >> 5u64
}

/// The grid `g` with a header for `len` written over its first pixels.
pub open spec fn with_header(g: Seq<u8>, len: u64) -> Seq<u8> {
    lsb_filled(g, HEADER_PIXELS as int, header_triples(len))
}

proof fn lemma_shl_step(x: u64, a: u64)
    requires
        a + 3 < 64,
    ensures
        (x << a) << 3u64 == x << ((a + 3) as u64),
{
    assert((x << a) << 3u64 == x << ((a + 3) as u64)) by (bit_vector)
        requires
            a + 3 < 64,
    ;
}

proof fn lemma_shl_out(x: u64)
    ensures
        (x << 63u64) << 3u64 == 0,
{
    assert((x << 63u64) << 3u64 == 0) by (bit_vector);
}

proof fn lemma_top_triple(v: u64)
    ensures
        ((v >> 56u64) as u8) / 32 == v >> 61u64,
        v >> 61u64 < 8,
{
    assert(((v >> 56u64) as u8) / 32 == v >> 61u64 && v >> 61u64 < 8) by (bit_vector);
}

proof fn lemma_fold_step(x: u64, a: u64)
    requires
        a <= 57,
    ensures
        (((x & 0x1fff_ffff_ffff_ffff) >> ((61 - a) as u64)) << 3u64) | ((x << ((a + 3) as u64))
            >> 61u64) == (x & 0x1fff_ffff_ffff_ffff) >> ((58 - a) as u64),
{
    assert((((x & 0x1fff_ffff_ffff_ffff) >> ((61 - a) as u64)) << 3u64) | ((x << ((a + 3) as u64))
        >> 61u64) == (x & 0x1fff_ffff_ffff_ffff) >> ((58 - a) as u64)) by (bit_vector)
        requires
            a <= 57,
    ;
}

proof fn lemma_fold_tail(x: u64)
    ensures
        ((((((x & 0x1fff_ffff_ffff_ffff) >> 1u64) << 3u64) | ((x << 63u64) >> 61u64)) << 3u64)
            | 0u64) >> 5u64 == x & 0x07ff_ffff_ffff_ffff,
{
    assert(((((((x & 0x1fff_ffff_ffff_ffff) >> 1u64) << 3u64) | ((x << 63u64) >> 61u64)) << 3u64)
        | 0u64) >> 5u64 == x & 0x07ff_ffff_ffff_ffff) by (bit_vector);
}

/// Every header triple is a three-bit value.
pub proof fn lemma_header_triple_bound(len: u64, k: int)
    ensures
        0 <= header_triple(len, k) < 8,
{
    lemma_top_triple(shifted_len(len, (k + 1) as nat));
}

/// Folding the first `n <= 20` header triples of `len` gives the top `3n`
/// of the low 61 bits of `len`.
proof fn lemma_fold_prefix(g: Seq<u8>, len: u64, n: nat)
    requires
        n <= 20,
        pixel_count(g) >= HEADER_PIXELS,
    ensures
        fold_triples(with_header(g, len), n) == (len & 0x1fff_ffff_ffff_ffff) >> ((61 - 3 * n) as u64),
    decreases n,
{
    let h = with_header(g, len);
    if n == 0 {
        assert((len & 0x1fff_ffff_ffff_ffff) >> 61u64 == 0) by (bit_vector);
    } else {
        let m = (n - 1) as nat;
        lemma_fold_prefix(g, len, m);
        lemma_header_triple_bound(len, m as int);
        lemma_filled_triple(g, HEADER_PIXELS as int, header_triples(len), m as int);
        assert(triple_at(h, m as int) == header_triple(len, m as int));
        lemma_fold_step(len, (3 * m) as u64);
    }
}

/// The header carries the low 59 bits of the count it was written with.
pub proof fn lemma_header_value(g: Seq<u8>, len: u64)
    requires
        pixel_count(g) >= HEADER_PIXELS,
    ensures
        header_value(with_header(g, len)) == len & HEADER_LEN_MASK,
{
    let h = with_header(g, len);
    let t = header_triples(len);
    lemma_fold_prefix(g, len, 20);
    lemma_header_triple_bound(len, 20);
    lemma_header_triple_bound(len, 21);
    lemma_filled_triple(g, HEADER_PIXELS as int, t, 20);
    lemma_filled_triple(g, HEADER_PIXELS as int, t, 21);
    lemma_shl_out(len);
    assert(0u64 >> 61u64 == 0) by (bit_vector);
    assert(fold_triples(h, 21) == (((len & 0x1fff_ffff_ffff_ffff) >> 1u64) << 3u64) | ((len << 63u64) >> 61u64));
    lemma_fold_tail(len);
}

/// Header round trip: a count below 2^59 written into the header is read
/// back exactly.
pub proof fn lemma_header_round_trip(g: Seq<u8>, len: u64)
    requires
        pixel_count(g) >= HEADER_PIXELS,
        len < 0x0800_0000_0000_0000,
    ensures
        header_value(with_header(g, len)) == len,
{
    lemma_header_value(g, len);
    assert(len & HEADER_LEN_MASK == len) by (bit_vector)
        requires
            len < 0x0800_0000_0000_0000u64,
    ;
}

/// Writes the length header for `len` over the first `HEADER_PIXELS` pixels.
pub fn write_length_header(grid: &mut Vec<u8>, len: u64)
    requires
        pixel_count(old(grid)@) >= HEADER_PIXELS,
    ensures
        final(grid)@ == with_header(old(grid)@, len),
{
    let ghost g0 = grid@;
    let ghost t = header_triples(len);
    let mut v: u64 = len;
    let mut k: usize = 0;
    assert(grid@ =~= lsb_filled(g0, 0, t));
    assert(len << 0u64 == len) by (bit_vector);
    while k < HEADER_PIXELS
        invariant
            k <= HEADER_PIXELS,
            pixel_count(g0) >= HEADER_PIXELS,
            grid@ == lsb_filled(g0, k as int, t),
            v == shifted_len(len, k as nat),
            t == header_triples(len),
        decreases HEADER_PIXELS - k,
    {
        proof {
            if k < 21 {
                lemma_shl_step(len, (3 * k) as u64);
            } else {
                lemma_shl_out(len);
            }
        }
        v = v << 3;
        proof {
            lemma_top_triple(v);
            lemma_fill_step(g0, k as int, t);
        }
        assert(v == shifted_len(len, (k + 1) as nat));
        let top = #[verifier::truncate] ((v >> 56) as u8);
        assert(top / 32 == t(k as int));
        write_triple(grid, k, top);
        k = k + 1;
    }
}

/// Reads the count held by the length header of `grid`.
pub fn read_length_header(grid: &Vec<u8>) -> (r: u64)
    requires
        pixel_count(grid@) >= HEADER_PIXELS,
    ensures
        r == header_value(grid@),
{
    let mut acc: u64 = 0;
    let mut k: usize = 0;
    while k < HEADER_PIXELS
        invariant
            k <= HEADER_PIXELS,
            pixel_count(grid@) >= HEADER_PIXELS,
            acc == fold_triples(grid@, k as nat),
        decreases HEADER_PIXELS - k,
    {
        let t = read_triple(grid, k);
        acc = (acc << 3) | t;
        k = k + 1;
    }
    acc >> 5
}

} // verus!
