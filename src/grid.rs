//! Embedding a secret into a pixel grid and extracting it again: the length
//! header first, then three pixels per payload byte.
use vstd::prelude::*;
use vstd::utf8::{decode_utf8, encode_utf8, valid_utf8, encode_utf8_valid_utf8, encode_utf8_decode_utf8};
use crate::triple::{lsb_filled, pixel_count, read_triple, triple_at, write_triple, lemma_fill_step, lemma_filled_triple};
use crate::header::{HEADER_PIXELS, HEADER_LEN_MASK, fold_triples, header_triple, header_triples, header_value, with_header, read_length_header, write_length_header, lemma_header_value, lemma_header_triple_bound};
use crate::text::utf8_to_string;

verus! {

/// Why a secret could not be embedded or extracted.
#[derive(Debug, Clone, Copy, PartialEq, Eq, Structural)]
pub enum StegError {
    /// The carrier has fewer pixels than the header and payload need.
    CapacityExceeded,
    /// The secret's bit count does not fit in 64 bits.
    LengthOverflow,
    /// The extracted payload is not valid UTF-8.
    InvalidUtf8,
    /// The image file is not an 8-bit RGB image that can be read or written.
    UnsupportedImage,
}

/// Pixels that a secret of `n` bytes needs: the header, then three per byte.
pub open spec fn pixels_needed(n: nat) -> nat {
    HEADER_PIXELS as nat + 3 * n
}

/// The triple that pixel `j` (0, 1 or 2) of a payload byte carries: bits
/// 7..5, bits 4..2, and bits 1..0 followed by a zero.
pub open spec fn payload_triple(b: u8, j: int) -> int {
    if j == 0 {
        (b / 32) as int
    } else if j == 1 {
        ((b / 4) % 8) as int
    } else {
        ((b % 4) * 2) as int
    }
}

/// The triple that pixel `p` carries once the secret bytes `s` are embedded.
pub open spec fn carrier_triple(s: Seq<u8>, p: int) -> int {
    if p < HEADER_PIXELS {
        header_triple(s.len() as u64, p)
    } else {
        payload_triple(s[(p - HEADER_PIXELS) / 3], (p - HEADER_PIXELS) % 3)
    }
}

/// The carrier triples of `s`, pixel by pixel.
pub open spec fn carrier_triples(s: Seq<u8>) -> spec_fn(int) -> int {
    |p: int| carrier_triple(s, p)
}

/// The grid `g` with the secret bytes `s` embedded.
pub open spec fn embedded(g: Seq<u8>, s: Seq<u8>) -> Seq<u8> {
    lsb_filled(g, pixels_needed(s.len()) as int, carrier_triples(s))
}

/// What embedding the secret bytes `s` into grid `g` gives.
pub open spec fn encode_result(g: Seq<u8>, s: Seq<u8>) -> Result<Seq<u8>, StegError> {
    if s.len() * 8 > u64::MAX {
        Err(StegError::LengthOverflow)
    } else if pixel_count(g) < pixels_needed(s.len()) {
        Err(StegError::CapacityExceeded)
    } else {
        Ok(embedded(g, s))
    }
}

/// Payload byte `i` as read back from grid `g`.
pub open spec fn decoded_byte(g: Seq<u8>, i: int) -> u8 {
    let p = HEADER_PIXELS + 3 * i;
    (triple_at(g, p) * 32 + triple_at(g, p + 1) * 4 + triple_at(g, p + 2) / 2) as u8
}

/// The payload bytes read back from grid `g`, as many as its header says.
pub open spec fn decoded_bytes(g: Seq<u8>) -> Seq<u8> {
    Seq::new(header_value(g) as nat, |i: int| decoded_byte(g, i))
}

/// What extracting a secret from grid `g` gives.
pub open spec fn decode_result(g: Seq<u8>) -> Result<Seq<char>, StegError> {
    if pixel_count(g) < HEADER_PIXELS || pixel_count(g) < pixels_needed(header_value(g) as nat) {
        Err(StegError::CapacityExceeded)
    } else if !valid_utf8(decoded_bytes(g)) {
        Err(StegError::InvalidUtf8)
    } else {
        Ok(decode_utf8(decoded_bytes(g)))
    }
}

proof fn lemma_payload_triples(b: u8)
    ensures
        ((b << 3u8) as u8) / 32 == (b / 4) % 8,
        ((b << 6u8) as u8) / 32 == (b % 4) * 2,
        (b / 32) * 32 + ((b / 4) % 8) * 4 + ((b % 4) * 2) / 2 == b,
{
    assert(((b << 3u8) as u8) / 32 == (b / 4) % 8) by (bit_vector);
    assert(((b << 6u8) as u8) / 32 == (b % 4) * 2) by (bit_vector);
}

proof fn lemma_shr5_bound(x: u64)
    ensures
        x >> 5u64 < 0x0800_0000_0000_0000,
{
    assert(x >> 5u64 < 0x0800_0000_0000_0000) by (bit_vector);
}

/// The fold of the first `n` triples depends on those triples alone.
proof fn lemma_fold_same(g1: Seq<u8>, g2: Seq<u8>, n: nat)
    requires
        forall|p: int| 0 <= p < n ==> triple_at(g1, p) == triple_at(g2, p),
    ensures
        fold_triples(g1, n) == fold_triples(g2, n),
    decreases n,
{
    if n > 0 {
        lemma_fold_same(g1, g2, (n - 1) as nat);
    }
}

/// A grid with `s` embedded holds the length of `s` in its header and the
/// bytes of `s` as its payload.
proof fn lemma_embedded_reads_back(g: Seq<u8>, s: Seq<u8>)
    requires
        pixel_count(g) >= pixels_needed(s.len()),
        s.len() < 0x0800_0000_0000_0000,
    ensures
        header_value(embedded(g, s)) == s.len(),
        decoded_bytes(embedded(g, s)) == s,
{
    let e = embedded(g, s);
    let n = pixels_needed(s.len()) as int;
    let len = s.len() as u64;
    let h = with_header(g, len);
    assert forall|p: int| 0 <= p < HEADER_PIXELS implies triple_at(e, p) == triple_at(h, p) by {
        lemma_header_triple_bound(len, p);
        lemma_filled_triple(g, n, carrier_triples(s), p);
        lemma_filled_triple(g, HEADER_PIXELS as int, header_triples(len), p);
    }
    lemma_fold_same(e, h, HEADER_PIXELS as nat);
    lemma_header_value(g, len);
    assert(len & HEADER_LEN_MASK == len) by (bit_vector)
        requires
            len < 0x0800_0000_0000_0000u64,
    ;
    assert forall|i: int| 0 <= i < s.len() implies decoded_byte(e, i) == s[i] by {
        let p = HEADER_PIXELS + 3 * i;
        assert((p - HEADER_PIXELS) / 3 == i && (p - HEADER_PIXELS) % 3 == 0);
        assert((p + 1 - HEADER_PIXELS) / 3 == i && (p + 1 - HEADER_PIXELS) % 3 == 1);
        assert((p + 2 - HEADER_PIXELS) / 3 == i && (p + 2 - HEADER_PIXELS) % 3 == 2);
        lemma_payload_triples(s[i]);
        lemma_filled_triple(g, n, carrier_triples(s), p);
        lemma_filled_triple(g, n, carrier_triples(s), p + 1);
        lemma_filled_triple(g, n, carrier_triples(s), p + 2);
    }
    assert(decoded_bytes(e) =~= s);
}

/// Round trip: a UTF-8 secret that fits in the grid is embedded, and
/// extracting it from the resulting grid gives the same secret back. The
/// length header carries 59 bits, so the secret is shorter than 2^59 bytes.
pub proof fn lemma_round_trip(g: Seq<u8>, s: Seq<char>)
    requires
        g.len() <= usize::MAX,
        encode_utf8(s).len() <= (pixel_count(g) - HEADER_PIXELS) / 3,
        encode_utf8(s).len() < 0x0800_0000_0000_0000,
    ensures
        encode_result(g, encode_utf8(s)) == Ok::<Seq<u8>, StegError>(embedded(g, encode_utf8(s))),
        decode_result(embedded(g, encode_utf8(s))) == Ok::<Seq<char>, StegError>(s),
{
    let b = encode_utf8(s);
    lemma_embedded_reads_back(g, b);
    encode_utf8_valid_utf8(s);
    encode_utf8_decode_utf8(s);
}

/// Capacity boundary: with `c = (pixel_count - 22) / 3`, a secret of exactly
/// `c` bytes is embedded, and one of `c + 1` bytes is refused for capacity.
pub proof fn lemma_capacity_boundary(g: Seq<u8>, s: Seq<u8>)
    requires
        g.len() <= usize::MAX,
    ensures
        s.len() == (pixel_count(g) - HEADER_PIXELS) / 3 ==> encode_result(g, s) is Ok,
        s.len() == (pixel_count(g) - HEADER_PIXELS) / 3 + 1 ==> encode_result(g, s)
            == Err::<Seq<u8>, StegError>(StegError::CapacityExceeded),
{
}

/// Embeds `secret` into the grid: its byte length in the header pixels,
/// then each byte in three further pixels. On any error the grid is left
/// as it was.
pub fn encode_secret(secret: &str, grid: &mut Vec<u8>) -> (r: Result<(), StegError>)
    ensures
        match encode_result(old(grid)@, encode_utf8(secret@)) {
            Ok(g) => r is Ok && final(grid)@ == g,
            Err(e) => r == Err::<(), StegError>(e) && final(grid)@ == old(grid)@,
        },
{
    let ghost g0 = grid@;
    let ghost s = encode_utf8(secret@);
    let total = grid.len();
    let bytes = secret.as_bytes();
    let n = bytes.len();
    if (n as u64).checked_mul(8).is_none() {
        return Err(StegError::LengthOverflow);
    }
    let pixels = (total / 3) as u64;
    if pixels < 22 + 3 * (n as u64) {
        return Err(StegError::CapacityExceeded);
    }
    write_length_header(grid, n as u64);
    assert(grid@ =~= lsb_filled(g0, HEADER_PIXELS as int, carrier_triples(s)));
    let mut i: usize = 0;
    while i < n
        invariant
            i <= n,
            n == s.len(),
            bytes@ == s,
            pixel_count(g0) >= pixels_needed(s.len()),
            g0.len() <= usize::MAX,
            grid@ == lsb_filled(g0, pixels_needed(i as nat) as int, carrier_triples(s)),
        decreases n - i,
    {
        let b = bytes[i];
        let p = 22 + 3 * i;
        let ghost c = carrier_triples(s);
        proof {
            lemma_payload_triples(b);
            assert((p - HEADER_PIXELS) / 3 == i && (p - HEADER_PIXELS) % 3 == 0);
            assert((p + 1 - HEADER_PIXELS) / 3 == i && (p + 1 - HEADER_PIXELS) % 3 == 1);
            assert((p + 2 - HEADER_PIXELS) / 3 == i && (p + 2 - HEADER_PIXELS) % 3 == 2);
            lemma_fill_step(g0, p as int, c);
            lemma_fill_step(g0, p + 1, c);
            lemma_fill_step(g0, p + 2, c);
        }
        write_triple(grid, p, b);
        write_triple(grid, p + 1, b << 3);
        write_triple(grid, p + 2, b << 6);
        i = i + 1;
    }
    Ok(())
}

/// Extracts the secret embedded in the grid.
pub fn decode_secret(grid: &Vec<u8>) -> (r: Result<String, StegError>)
    ensures
        match decode_result(grid@) {
            Ok(s) => r matches Ok(t) && t@ == s,
            Err(e) => r == Err::<String, StegError>(e),
        },
{
    let total = grid.len();
    let pixels = total / 3;
    if pixels < HEADER_PIXELS {
        return Err(StegError::CapacityExceeded);
    }
    let len = read_length_header(grid);
    proof {
        lemma_shr5_bound(fold_triples(grid@, HEADER_PIXELS as nat));
    }
    if (pixels as u64) < 22 + 3 * len {
        return Err(StegError::CapacityExceeded);
    }
    let n = len as usize;
    let mut bytes: Vec<u8> = Vec::new();
    let mut i: usize = 0;
    while i < n
        invariant
            i <= n,
            n == header_value(grid@),
            pixel_count(grid@) >= pixels_needed(n as nat),
            grid@.len() <= usize::MAX,
            bytes@ == decoded_bytes(grid@).subrange(0, i as int),
        decreases n - i,
    {
        let p = 22 + 3 * i;
        let a = read_triple(grid, p) as u8;
        let b = read_triple(grid, p + 1) as u8;
        let c = read_triple(grid, p + 2) as u8;
        let ch = ((a << 3) | b) << 2 | (c >> 1);
        assert(ch == a * 32 + b * 4 + c / 2) by (bit_vector)
            requires
                ch == ((a << 3u8) | b) << 2u8 | (c >> 1u8),
                a < 8,
                b < 8,
                c < 8,
        ;
        bytes.push(ch);
        i = i + 1;
        assert(bytes@ =~= decoded_bytes(grid@).subrange(0, i as int));
    }
    assert(bytes@ =~= decoded_bytes(grid@));
    match utf8_to_string(bytes.as_slice()) {
        Some(s) => Ok(s),
        None => Err(StegError::InvalidUtf8),
    }
}

} // verus!
