//! One pixel carries three bits: the least-significant bit of each of its
//! three colour channels. A pixel grid is the row-major sequence of channel
//! bytes, three per pixel.
use vstd::prelude::*;

verus! {

/// Number of whole pixels in a grid of channel bytes.
pub open spec fn pixel_count(g: Seq<u8>) -> nat {
    g.len() / 3
}

/// The least-significant bit of a channel byte.
pub open spec fn lsb(c: u8) -> int {
    (c % 2) as int
}

/// A channel byte with its least-significant bit replaced by `bit`.
pub open spec fn with_lsb(c: u8, bit: int) -> u8 {
    (c - c % 2 + bit) as u8
}

/// The three-bit value carried by pixel `p`: first channel highest.
pub open spec fn triple_at(g: Seq<u8>, p: int) -> int {
    4 * lsb(g[3 * p]) + 2 * lsb(g[3 * p + 1]) + lsb(g[3 * p + 2])
}

/// Bit `c` (0 = highest) of a three-bit value.
pub open spec fn triple_bit(t: int, c: int) -> int {
    if c == 0 {
        t / 4
    } else if c == 1 {
        (t / 2) % 2
    } else {
        t % 2
    }
}

/// The grid with pixel `p` carrying the three-bit value `t`.
pub open spec fn set_triple(g: Seq<u8>, p: int, t: int) -> Seq<u8> {
    g.update(3 * p, with_lsb(g[3 * p], triple_bit(t, 0))).update(
        3 * p + 1,
        with_lsb(g[3 * p + 1], triple_bit(t, 1)),
    ).update(3 * p + 2, with_lsb(g[3 * p + 2], triple_bit(t, 2)))
}

/// The grid with each pixel `p < n` carrying `t(p)`; every other channel
/// byte is left as it is.
pub open spec fn lsb_filled(g: Seq<u8>, n: int, t: spec_fn(int) -> int) -> Seq<u8> {
    Seq::new(
        g.len(),
        |j: int|
            if j / 3 < n && j / 3 < pixel_count(g) {
                with_lsb(g[j], triple_bit(t(j / 3), j % 3))
            } else {
                g[j]
            },
    )
}

/// Filling one more pixel is one more `set_triple`.
pub proof fn lemma_fill_step(g: Seq<u8>, n: int, t: spec_fn(int) -> int)
    requires
        0 <= n < pixel_count(g),
    ensures
        set_triple(lsb_filled(g, n, t), n, t(n)) == lsb_filled(g, n + 1, t),
{
    lemma_pixel_in_grid(g, n);
    let a = set_triple(lsb_filled(g, n, t), n, t(n));
    let b = lsb_filled(g, n + 1, t);
    assert forall|j: int| 0 <= j < g.len() implies a[j] == b[j] by {
        if j == 3 * n || j == 3 * n + 1 || j == 3 * n + 2 {
            assert(j / 3 == n);
        } else {
            assert(j / 3 != n);
        }
    }
    assert(a =~= b);
}

/// A filled pixel carries the value it was filled with, and no channel
/// changes beyond its least-significant bit.
pub proof fn lemma_filled_triple(g: Seq<u8>, n: int, t: spec_fn(int) -> int, p: int)
    requires
        0 <= p < n,
        p < pixel_count(g),
        0 <= t(p) < 8,
    ensures
        triple_at(lsb_filled(g, n, t), p) == t(p),
{
    lemma_pixel_in_grid(g, p);
    let f = lsb_filled(g, n, t);
    assert((3 * p) / 3 == p && (3 * p + 1) / 3 == p && (3 * p + 2) / 3 == p);
    assert((3 * p) % 3 == 0 && (3 * p + 1) % 3 == 1 && (3 * p + 2) % 3 == 2);
    lemma_with_lsb(g[3 * p], triple_bit(t(p), 0));
    lemma_with_lsb(g[3 * p + 1], triple_bit(t(p), 1));
    lemma_with_lsb(g[3 * p + 2], triple_bit(t(p), 2));
}

/// Replacing the least-significant bit keeps the other seven bits.
/// Pixel `p` of the grid lies wholly inside it.
pub proof fn lemma_pixel_in_grid(g: Seq<u8>, p: int)
    requires
        0 <= p < pixel_count(g),
    ensures
        3 * p + 2 < g.len(),
{
    let n = g.len() as int;
    assert(3 * p + 2 < n) by (nonlinear_arith)
        requires
            0 <= p < n / 3,
            0 <= n,
    ;
}

pub proof fn lemma_with_lsb(c: u8, bit: int)
    requires
        0 <= bit <= 1,
    ensures
        with_lsb(c, bit) / 2 == c / 2,
        lsb(with_lsb(c, bit)) == bit,
{
}

fn set_lsb(c: u8, bit: u8) -> (r: u8)
    requires
        bit <= 1,
    ensures
        r == with_lsb(c, bit as int),
{
    let r = (c & 0xFE) | bit;
    assert(r == c - c % 2 + bit) by (bit_vector)
        requires
            r == (c & 0xFE) | bit,
            bit <= 1,
    ;
    r
}

/// Writes the three most-significant bits of `value` into the
/// least-significant bits of pixel `p`, touching nothing else.
pub fn write_triple(grid: &mut Vec<u8>, p: usize, value: u8)
    requires
        p < pixel_count(old(grid)@),
    ensures
        final(grid)@ == set_triple(old(grid)@, p as int, (value / 32) as int),
{
    let n = grid.len();
    proof {
        lemma_pixel_in_grid(grid@, p as int);
    }
    assert(3 * p + 2 < n);
    let i = 3 * p;
    let hi = value >> 7;
    let mid = (value >> 6) & 1;
    let lo = (value >> 5) & 1;
    assert(hi == value / 128 && mid == (value / 64) % 2 && lo == (value / 32) % 2) by (bit_vector)
        requires
            hi == value >> 7,
            mid == (value >> 6) & 1,
            lo == (value >> 5) & 1,
    ;
    let c0 = set_lsb(grid[i], hi);
    grid.set(i, c0);
    let c1 = set_lsb(grid[i + 1], mid);
    grid.set(i + 1, c1);
    let c2 = set_lsb(grid[i + 2], lo);
    grid.set(i + 2, c2);
}

/// Reads the three-bit value carried by pixel `p`.
pub fn read_triple(grid: &Vec<u8>, p: usize) -> (r: u64)
    requires
        p < pixel_count(grid@),
    ensures
        r == triple_at(grid@, p as int),
        r < 8,
{
    let n = grid.len();
    proof {
        lemma_pixel_in_grid(grid@, p as int);
    }
    assert(3 * p + 2 < n);
    let i = 3 * p;
    let b0 = (grid[i] & 1) as u64;
    let b1 = (grid[i + 1] & 1) as u64;
    let b2 = (grid[i + 2] & 1) as u64;
    let (c0, c1, c2) = (grid[i], grid[i + 1], grid[i + 2]);
    assert(c0 & 1 == c0 % 2 && c1 & 1 == c1 % 2 && c2 & 1 == c2 % 2) by (bit_vector);
    let r = ((b0 << 1 | b1) << 1) | b2;
    assert(r == 4 * b0 + 2 * b1 + b2) by (bit_vector)
        requires
            r == ((b0 << 1 | b1) << 1) | b2,
            b0 <= 1,
            b1 <= 1,
            b2 <= 1,
    ;
    r
}

} // verus!
