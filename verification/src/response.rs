use vstd::prelude::*;
use vstd::arithmetic::power::pow;
use vstd::arithmetic::power2::{pow2, lemma_pow2, lemma2_to64};

verus! {

/// Bytes clocked in while waiting for an R1 response.
pub const R1_READ_SIZE: usize = 10;
/// Bytes clocked in while waiting for an R3 or R7 response.
pub const R3R7_READ_SIZE: usize = 16;
/// Bytes clocked in while waiting for a single data block.
pub const ONE_BLOCK_READ_SIZE: usize = 900;
/// Bytes clocked in after CMD12: the byte to drop, then an R1 read.
pub const STOP_READ_SIZE: usize = 11;
/// Bytes in one data block.
pub const BLOCK_SIZE: usize = 512;

/// Raises `base` to the power `exp` with `u8::pow`.
///
/// Trusted: std documents `u8::pow` as raising `self` to the power `exp`;
/// the contract claims exactly that value, for the exponents where it fits
/// in a `u8` (elsewhere the call overflows).
#[verifier::external_body]
fn u8_pow(base: u8, exp: u32) -> (r: u8)
    requires
        pow(base as int, exp as nat) <= u8::MAX,
    ensures
        r as int == pow(base as int, exp as nat),
{
    base.pow(exp)
}

proof fn lemma_pow2_small(e: nat)
    requires
        e <= 8,
    ensures
        pow(2, e) == pow2(e),
        e == 0 ==> pow2(e) == 1,
        e == 1 ==> pow2(e) == 2,
        e == 2 ==> pow2(e) == 4,
        e == 3 ==> pow2(e) == 8,
        e == 4 ==> pow2(e) == 16,
        e == 5 ==> pow2(e) == 32,
        e == 6 ==> pow2(e) == 64,
        e == 7 ==> pow2(e) == 128,
        e == 8 ==> pow2(e) == 256,
{
    lemma_pow2(e);
    lemma2_to64();
}

/// A mask that keeps the `8 - num` low bits of a byte: `2^(8 - num) - 1`.
pub fn mask_zeros_from_msb_u8(num: u8) -> (m: u8)
    requires
        1 <= num <= 8,
    ensures
        m as int == pow2((8 - num) as nat) - 1,
        m == 0xffu8 >> num,
{
    proof {
        lemma_pow2_small((8 - num) as nat);
        assert(num == 1 ==> 0xffu8 >> num == 127u8) by (bit_vector);
        assert(num == 2 ==> 0xffu8 >> num == 63u8) by (bit_vector);
        assert(num == 3 ==> 0xffu8 >> num == 31u8) by (bit_vector);
        assert(num == 4 ==> 0xffu8 >> num == 15u8) by (bit_vector);
        assert(num == 5 ==> 0xffu8 >> num == 7u8) by (bit_vector);
        assert(num == 6 ==> 0xffu8 >> num == 3u8) by (bit_vector);
        assert(num == 7 ==> 0xffu8 >> num == 1u8) by (bit_vector);
        assert(num == 8 ==> 0xffu8 >> num == 0u8) by (bit_vector);
    }
    let base: u8 = 2;
    u8_pow(base, (8 - num) as u32) - 1
}


/// A mask that clears the `num` low bits of a byte: `0xff - (2^num - 1)`.
pub fn mask_zeros_from_lsb_u8(num: u8) -> (m: u8)
    requires
        num <= 7,
    ensures
        m as int == 0xff - (pow2(num as nat) - 1),
        m == 0xffu8 << num,
{
    proof {
        lemma_pow2_small(num as nat);
        assert(num == 0 ==> 0xffu8 << num == 255u8) by (bit_vector);
        assert(num == 1 ==> 0xffu8 << num == 254u8) by (bit_vector);
        assert(num == 2 ==> 0xffu8 << num == 252u8) by (bit_vector);
        assert(num == 3 ==> 0xffu8 << num == 248u8) by (bit_vector);
        assert(num == 4 ==> 0xffu8 << num == 240u8) by (bit_vector);
        assert(num == 5 ==> 0xffu8 << num == 224u8) by (bit_vector);
        assert(num == 6 ==> 0xffu8 << num == 192u8) by (bit_vector);
        assert(num == 7 ==> 0xffu8 << num == 128u8) by (bit_vector);
    }
    let base: u8 = 2;
    0xff - (u8_pow(base, num as u32) - 1)
}

/// The big-endian value of four bytes.
pub open spec fn be_u32(msb: u8, amsb: u8, alsb: u8, lsb: u8) -> int {
    msb * 0x100_0000 + amsb * 0x1_0000 + alsb * 0x100 + lsb
}

/// Concatenates four bytes, most significant first, into a `u32`.
pub fn four_u8_to_u32(msb: u8, amsb: u8, alsb: u8, lsb: u8) -> (r: u32)
    ensures
        r as int == be_u32(msb, amsb, alsb, lsb),
        r == ((msb as u32) << 24u32) | ((amsb as u32) << 16u32) | ((alsb as u32) << 8u32) | (lsb
            as u32),
{
    assert(((msb as u32) << 24u32) | ((amsb as u32) << 16u32) | ((alsb as u32) << 8u32) | (lsb
        as u32) == ((msb as u32) * 0x100_0000 + (amsb as u32) * 0x1_0000 + (alsb as u32) * 0x100
        + (lsb as u32)) as u32) by (bit_vector);
    let mut result: u32;
    assert((lsb as u32) << 0u32 == lsb as u32) by (bit_vector);
    assert((alsb as u32) << 8u32 == alsb as u32 * 0x100) by (bit_vector);
    assert((amsb as u32) << 16u32 == amsb as u32 * 0x1_0000) by (bit_vector);
    assert((msb as u32) << 24u32 == msb as u32 * 0x100_0000) by (bit_vector);
    result = (lsb as u32) << 0;
    result += (alsb as u32) << 8;
    result += (amsb as u32) << 16;
    result += (msb as u32) << 24;
    result
}


/// Bit `p` of the stream that `s` carries, most significant bit of each
/// byte first, is a zero.
pub open spec fn bit_is_zero(s: Seq<u8>, p: int) -> bool {
    (s[p / 8] >> ((7 - p % 8) as u8)) & 1u8 == 0u8
}

/// Every bit of the stream from position `lo` up to, not including, `hi`
/// is a one (the line idles high).
pub open spec fn all_ones(s: Seq<u8>, lo: int, hi: int) -> bool {
    forall|q: int| lo <= q < hi ==> !#[trigger] bit_is_zero(s, q)
}

/// `p` is the first zero bit of the stream at or after position `lo`.
pub open spec fn is_first_zero(s: Seq<u8>, lo: int, p: int) -> bool {
    &&& lo <= p
    &&& bit_is_zero(s, p)
    &&& all_ones(s, lo, p)
}

proof fn lemma_shifted_msb(b: u8, k: u8)
    requires
        k < 8,
    ensures
        (((b << k) & 0x80u8) == 0u8) <==> (((b >> (7 - k) as u8) & 1u8) == 0u8),
{
    assert(k < 8 ==> ((((b << k) & 0x80u8) == 0u8) <==> (((b >> (7 - k) as u8) & 1u8) == 0u8)))
        by (bit_vector);
}

/// Looks through bytes `from` up to, not including, `to` of `buf` for the
/// first zero bit, which starts a response: a card answers with a byte whose
/// most significant bit is 0 after some idle (all ones) bits.  Gives the byte
/// index and the bit offset in it (0 for the most significant bit).
pub fn find_start_bit(buf: &[u8], from: usize, to: usize) -> (r: Option<(usize, u8)>)
    requires
        from <= to <= buf@.len(),
    ensures
        match r {
            Some((i, k)) => from <= i < to && k < 8 && is_first_zero(buf@, 8 * from, 8 * i + k),
            None => all_ones(buf@, 8 * from, 8 * to),
        },
{
    let mut i: usize = from;
    while i < to
        invariant
            from <= i <= to,
            to <= buf@.len(),
            all_ones(buf@, 8 * from, 8 * i),
        decreases to - i,
    {
        let mut k: u8 = 0;
        while k < 8
            invariant
                from <= i < to,
                to <= buf@.len(),
                k <= 8,
                all_ones(buf@, 8 * from, 8 * i + k),
            decreases 8 - k,
        {
            let b: u8 = buf[i];
            proof {
                lemma_shifted_msb(b, k);
                assert((8 * i + k) / 8 == i as int);
                assert((8 * i + k) % 8 == k as int);
            }
            if ((b << k) & 0x80) == 0 {
                return Some((i, k));
            }
            k += 1;
        }
        i += 1;
    }
    None
}


/// The position of the first zero bit of the stream in `[lo, hi)`, if any.
pub open spec fn first_zero_in(s: Seq<u8>, lo: int, hi: int) -> Option<int> {
    if exists|p: int| p < hi && is_first_zero(s, lo, p) {
        Some(choose|p: int| p < hi && is_first_zero(s, lo, p))
    } else {
        None
    }
}

/// The eight bits of the stream that start at bit `p`, as a byte.
pub open spec fn byte_at_bit(s: Seq<u8>, p: int) -> u8 {
    ((((s[p / 8] as u16) << 8u16) | (s[p / 8 + 1] as u16)) >> ((8 - p % 8) as u16)) as u8
}

/// The R1 response that a buffer read after a command holds: the byte that
/// starts at the first zero bit among its first nine bytes, or `0xff` where
/// the card stayed idle.
pub open spec fn r1_in(s: Seq<u8>) -> u8 {
    match first_zero_in(s, 0, 72) {
        Some(p) => byte_at_bit(s, p),
        None => 0xff,
    }
}

/// Only one bit is the first zero.
pub proof fn lemma_first_zero_unique(s: Seq<u8>, lo: int, p: int, q: int)
    requires
        is_first_zero(s, lo, p),
        is_first_zero(s, lo, q),
    ensures
        p == q,
{
    if p < q {
        assert(!bit_is_zero(s, p));
    } else if q < p {
        assert(!bit_is_zero(s, q));
    }
}

/// What `find_start_bit` gives, read as `first_zero_in`.
proof fn lemma_found_is_first_zero(s: Seq<u8>, lo: int, hi: int, p: int)
    requires
        lo <= p < hi,
        is_first_zero(s, lo, p),
    ensures
        first_zero_in(s, lo, hi) == Some(p),
{
    let q = choose|q: int| q < hi && is_first_zero(s, lo, q);
    lemma_first_zero_unique(s, lo, p, q);
}

proof fn lemma_none_found(s: Seq<u8>, lo: int, hi: int)
    requires
        all_ones(s, lo, hi),
    ensures
        first_zero_in(s, lo, hi) is None,
{
    if exists|p: int| p < hi && is_first_zero(s, lo, p) {
        let p = choose|p: int| p < hi && is_first_zero(s, lo, p);
        assert(!bit_is_zero(s, p));
    }
}

/// A byte at an aligned position is the byte itself.
proof fn lemma_byte_at_aligned(s: Seq<u8>, i: int)
    requires
        0 <= i,
    ensures
        byte_at_bit(s, 8 * i) == s[i],
{
    let b0 = s[i];
    let b1 = s[i + 1];
    assert(((((b0 as u16) << 8u16) | (b1 as u16)) >> 8u16) as u8 == b0) by (bit_vector);
}

/// Joining the tail of one byte and the head of the next is the byte that
/// starts inside the first one.
proof fn lemma_join_bytes(b0: u8, b1: u8, k: u8)
    requires
        1 <= k <= 7,
    ensures
        ((b0 & (0xffu8 >> k)) << k) as int + ((b1 & (0xffu8 << (8 - k) as u8)) >> (8 - k) as u8) as int
            <= 0xff,
        (((b0 & (0xffu8 >> k)) << k) + ((b1 & (0xffu8 << (8 - k) as u8)) >> (8 - k) as u8)) as u8
            == ((((b0 as u16) << 8u16) | (b1 as u16)) >> (8 - k) as u16) as u8,
{
    assert(1 <= k <= 7 ==> ((b0 & (0xffu8 >> k)) << k) as int + ((b1 & (0xffu8 << (8 - k) as u8))
        >> (8 - k) as u8) as int <= 0xff) by (bit_vector);
    assert(1 <= k <= 7 ==> (((b0 & (0xffu8 >> k)) << k) + ((b1 & (0xffu8 << (8 - k) as u8)) >> (8
        - k) as u8)) as u8 == ((((b0 as u16) << 8u16) | (b1 as u16)) >> (8 - k) as u16) as u8)
        by (bit_vector);
}

/// Decodes the R1 response of a buffer clocked in after a command.  The
/// response starts at the first zero bit of the first nine bytes and may
/// straddle two bytes; where no bit is zero the card did not answer and
/// the result is `0xff`.
pub fn parse_r1(buf: &[u8; R1_READ_SIZE]) -> (r: u8)
    ensures
        r == r1_in(buf@),
{
    let s = buf.as_slice();
    match find_start_bit(s, 0, R1_READ_SIZE - 1) {
        None => {
            proof {
                lemma_none_found(buf@, 0, 72);
            }
            0xff
        },
        Some((i, k)) => {
            proof {
                lemma_found_is_first_zero(buf@, 0, 72, 8 * i + k);
                assert((8 * i + k) / 8 == i as int);
                assert((8 * i + k) % 8 == k as int);
            }
            if k == 0 {
                proof {
                    lemma_byte_at_aligned(buf@, i as int);
                }
                return s[i];
            }
            let b0 = s[i];
            let b1 = s[i + 1];
            proof {
                lemma_join_bytes(b0, b1, k);
            }
            let mut response: u8 = (b0 & mask_zeros_from_msb_u8(k)) << k;
            response += (b1 & mask_zeros_from_lsb_u8(8 - k)) >> (8 - k);
            response
        },
    }
}


/// The response in `[lo, hi)`, if any, starts on a byte boundary.
pub open spec fn start_is_aligned(s: Seq<u8>, lo: int, hi: int) -> bool {
    match first_zero_in(s, lo, hi) {
        Some(p) => p % 8 == 0,
        None => true,
    }
}

/// An R3 or R7 response can be taken from the buffer: it starts on a byte
/// boundary and its four data bytes lie inside the buffer.
pub open spec fn r3r7_decodable(s: Seq<u8>) -> bool {
    match first_zero_in(s, 0, 120) {
        Some(p) => p % 8 == 0 && p / 8 + 4 < 16,
        None => true,
    }
}

/// The R3 or R7 response a buffer holds: the R1 byte where the first zero
/// bit starts and the big-endian word of the four bytes after it, or
/// `(0xff, 0xff)` where the card stayed idle.
pub open spec fn r3r7_in(s: Seq<u8>) -> (u8, u32) {
    match first_zero_in(s, 0, 120) {
        Some(p) => {
            let i = p / 8;
            (s[i], be_u32(s[i + 1], s[i + 2], s[i + 3], s[i + 4]) as u32)
        },
        None => (0xff, 0xff),
    }
}

/// Whether `parse_r3r7` can decode `buf` (see `r3r7_decodable`).
pub fn r3r7_is_decodable(buf: &[u8; R3R7_READ_SIZE]) -> (r: bool)
    ensures
        r == r3r7_decodable(buf@),
{
    match find_start_bit(buf.as_slice(), 0, R3R7_READ_SIZE - 1) {
        None => {
            proof {
                lemma_none_found(buf@, 0, 120);
            }
            true
        },
        Some((i, k)) => {
            proof {
                lemma_found_is_first_zero(buf@, 0, 120, 8 * i + k);
                assert((8 * i + k) / 8 == i as int);
                assert((8 * i + k) % 8 == k as int);
            }
            k == 0 && i + 4 < R3R7_READ_SIZE
        },
    }
}

/// Decodes the R3 or R7 response of a buffer clocked in after CMD58 or
/// CMD8: the R1 byte and the 32-bit word that follows it.
pub fn parse_r3r7(buf: &[u8; R3R7_READ_SIZE]) -> (r: (u8, u32))
    requires
        r3r7_decodable(buf@),
    ensures
        r == r3r7_in(buf@),
{
    let s = buf.as_slice();
    match find_start_bit(s, 0, R3R7_READ_SIZE - 1) {
        None => {
            proof {
                lemma_none_found(buf@, 0, 120);
            }
            (0xff, 0xff)
        },
        Some((i, k)) => {
            proof {
                lemma_found_is_first_zero(buf@, 0, 120, 8 * i + k);
                assert((8 * i + k) / 8 == i as int);
                assert((8 * i + k) % 8 == k as int);
            }
            (s[i], four_u8_to_u32(s[i + 1], s[i + 2], s[i + 3], s[i + 4]))
        },
    }
}

/// The first index in `[lo, hi)` that holds the data token `0xfe`.
pub open spec fn first_token_in(s: Seq<u8>, lo: int, hi: int) -> Option<int> {
    if exists|j: int| lo <= j < hi && s[j] == 0xfe {
        Some(choose|j: int| lo <= j < hi && s[j] == 0xfe && forall|q: int| lo <= q < j ==> s[q] != 0xfe)
    } else {
        None
    }
}

/// Where the R1 response of a single block read starts, or `None`.
pub open spec fn block_r1_start(s: Seq<u8>) -> Option<int> {
    first_zero_in(s, 0, 7192)
}

/// Where the search for the data token starts: just after the R1 byte, or
/// at 1 where no response was found.
pub open spec fn token_search_start(s: Seq<u8>) -> int {
    match block_r1_start(s) {
        Some(p) => p / 8 + 1,
        None => 1,
    }
}

/// The data token of a single block read, if any.
pub open spec fn block_token(s: Seq<u8>) -> Option<int> {
    first_token_in(s, token_search_start(s), 899)
}

/// A single block read can be decoded: its R1 byte starts on a byte
/// boundary, and the 512 data bytes after the token lie inside the buffer.
pub open spec fn block_decodable(s: Seq<u8>) -> bool {
    &&& start_is_aligned(s, 0, 7192)
    &&& match block_token(s) {
        Some(j) => j + 512 < 900,
        None => true,
    }
}

/// The R1 byte and data block a single block read holds: the data is the
/// 512 bytes after the first `0xfe` token that follows the R1 byte; where
/// no token came, `0xff` and a block of `0xff`.
pub open spec fn block_in(s: Seq<u8>) -> (u8, Seq<u8>) {
    match block_token(s) {
        Some(j) => {
            let r1: u8 = match block_r1_start(s) {
                Some(p) => s[p / 8],
                None => 0,
            };
            (r1, s.subrange(j + 1, j + 513))
        },
        None => (0xff, Seq::new(512, |i: int| 0xffu8)),
    }
}

/// Looks through bytes `from` up to, not including, `to` for the data
/// token `0xfe`.
pub fn find_data_token(buf: &[u8], from: usize, to: usize) -> (r: Option<usize>)
    requires
        from <= to <= buf@.len(),
    ensures
        match r {
            Some(j) => first_token_in(buf@, from as int, to as int) == Some(j as int),
            None => first_token_in(buf@, from as int, to as int) is None,
        },
        r matches Some(j) ==> from <= j < to && buf@[j as int] == 0xfe,
{
    let mut i: usize = from;
    while i < to
        invariant
            from <= i <= to,
            to <= buf@.len(),
            forall|q: int| from <= q < i ==> buf@[q] != 0xfe,
        decreases to - i,
    {
        if buf[i] == 0xfe {
            proof {
                let c = choose|j: int|
                    from <= j < to && buf@[j] == 0xfe && forall|q: int| from <= q < j ==> buf@[q] != 0xfe;
                assert(c == i as int) by {
                    if c < i {
                        assert(buf@[c] != 0xfe);
                    } else if c > i {
                        assert(buf@[i as int] != 0xfe);
                    }
                }
            }
            return Some(i);
        }
        i += 1;
    }
    None
}


/// Whether `parse_single_block` can decode `buf` (see `block_decodable`).
pub fn block_is_decodable(buf: &[u8; ONE_BLOCK_READ_SIZE]) -> (r: bool)
    ensures
        r == block_decodable(buf@),
{
    let s = buf.as_slice();
    let mut r1_index: usize = 0;
    match find_start_bit(s, 0, ONE_BLOCK_READ_SIZE - 1) {
        None => {
            proof {
                lemma_none_found(buf@, 0, 7192);
            }
        },
        Some((i, k)) => {
            proof {
                lemma_found_is_first_zero(buf@, 0, 7192, 8 * i + k);
                assert((8 * i + k) / 8 == i as int);
                assert((8 * i + k) % 8 == k as int);
            }
            if k != 0 {
                return false;
            }
            r1_index = i;
        },
    }
    match find_data_token(s, r1_index + 1, ONE_BLOCK_READ_SIZE - 1) {
        Some(j) => j + BLOCK_SIZE < ONE_BLOCK_READ_SIZE,
        None => true,
    }
}

/// The `BLOCK_SIZE` bytes of `s` that start at `start`.
fn copy_block(s: &[u8], start: usize) -> (r: [u8; BLOCK_SIZE])
    requires
        start + BLOCK_SIZE <= s@.len(),
    ensures
        r@ == s@.subrange(start as int, start + BLOCK_SIZE),
{
    let mut data_block: [u8; BLOCK_SIZE] = [0x00; BLOCK_SIZE];
    let mut m: usize = 0;
    while m < BLOCK_SIZE
        invariant
            start + BLOCK_SIZE <= s.len(),
            m <= BLOCK_SIZE,
            data_block@.len() == BLOCK_SIZE,
            forall|t: int| 0 <= t < m ==> data_block@[t] == s@[start + t],
        decreases BLOCK_SIZE - m,
    {
        data_block[m] = s[start + m];
        m += 1;
    }
    assert(data_block@ =~= s@.subrange(start as int, start + BLOCK_SIZE));
    data_block
}

/// Decodes a single block read (the answer to CMD17): the R1 byte and the
/// 512 data bytes that follow the `0xfe` data token.
pub fn parse_single_block(buf: &[u8; ONE_BLOCK_READ_SIZE]) -> (r: (u8, [u8; BLOCK_SIZE]))
    requires
        block_decodable(buf@),
    ensures
        r.0 == block_in(buf@).0,
        r.1@ == block_in(buf@).1,
{
    let s = buf.as_slice();
    let mut r1: u8 = 0x00;
    let mut r1_index: usize = 0;
    match find_start_bit(s, 0, ONE_BLOCK_READ_SIZE - 1) {
        None => {
            proof {
                lemma_none_found(buf@, 0, 7192);
            }
        },
        Some((i, k)) => {
            proof {
                lemma_found_is_first_zero(buf@, 0, 7192, 8 * i + k);
                assert((8 * i + k) / 8 == i as int);
                assert((8 * i + k) % 8 == k as int);
            }
            r1 = s[i];
            r1_index = i;
        },
    }
    match find_data_token(s, r1_index + 1, ONE_BLOCK_READ_SIZE - 1) {
        Some(j) => {
            let data_block = copy_block(s, j + 1);
            (r1, data_block)
        },
        None => {
            let empty: [u8; BLOCK_SIZE] = [0xff; BLOCK_SIZE];
            assert(empty@ =~= Seq::new(512, |i: int| 0xffu8));
            (0xff, empty)
        },
    }
}


/// The answer to CMD12 that a buffer holds: the byte read just after the
/// command is dropped, and the response is the byte where the first zero bit
/// of the next nine bytes starts, or `0xff` where the card stayed idle.
pub open spec fn stop_response_in(s: Seq<u8>) -> u8 {
    match first_zero_in(s, 8, 80) {
        Some(p) => s[p / 8],
        None => 0xff,
    }
}

/// Whether `parse_stop_response` can decode `buf`: the response starts on
/// a byte boundary.
pub fn stop_response_is_decodable(buf: &[u8; STOP_READ_SIZE]) -> (r: bool)
    ensures
        r == start_is_aligned(buf@, 8, 80),
{
    match find_start_bit(buf.as_slice(), 1, R1_READ_SIZE) {
        None => {
            proof {
                lemma_none_found(buf@, 8, 80);
            }
            true
        },
        Some((i, k)) => {
            proof {
                lemma_found_is_first_zero(buf@, 8, 80, 8 * i + k);
                assert((8 * i + k) / 8 == i as int);
                assert((8 * i + k) % 8 == k as int);
            }
            k == 0
        },
    }
}

/// Decodes the R1 answer to CMD12 (stop transmission) from the buffer
/// clocked in after the command.
pub fn parse_stop_response(buf: &[u8; STOP_READ_SIZE]) -> (r: u8)
    requires
        start_is_aligned(buf@, 8, 80),
    ensures
        r == stop_response_in(buf@),
{
    let s = buf.as_slice();
    match find_start_bit(s, 1, R1_READ_SIZE) {
        None => {
            proof {
                lemma_none_found(buf@, 8, 80);
            }
            0xff
        },
        Some((i, k)) => {
            proof {
                lemma_found_is_first_zero(buf@, 8, 80, 8 * i + k);
                assert((8 * i + k) / 8 == i as int);
            }
            s[i]
        },
    }
}


/// An R1 response is found wherever it starts in the first nine bytes:
/// if the line idles high up to bit `p` and the eight bits from `p` form a
/// byte with its top bit clear (as every R1 response has), that byte is the
/// decoded response, aligned or straddling two bytes.
pub proof fn law_r1_found_after_idle(s: Seq<u8>, p: int)
    requires
        s.len() == R1_READ_SIZE,
        0 <= p < 72,
        all_ones(s, 0, p),
        byte_at_bit(s, p) < 0x80,
    ensures
        r1_in(s) == byte_at_bit(s, p),
{
    let q = p / 8;
    let k = p % 8;
    let b0 = s[q];
    let b1 = s[q + 1];
    let ku = k as u8;
    assert(ku < 8 ==> ((((((b0 as u16) << 8u16) | (b1 as u16)) >> (8 - ku) as u16) as u8) < 0x80u8
        <==> ((b0 >> (7 - ku) as u8) & 1u8) == 0u8)) by (bit_vector);
    assert(bit_is_zero(s, p));
    lemma_found_is_first_zero(s, 0, 72, p);
}

/// A buffer in which the card never answered decodes as idle everywhere:
/// R1 `0xff`, R3/R7 `(0xff, 0xff)`, CMD12 answer `0xff`, and a single block
/// read of `0xff` with a block of `0xff`.
pub proof fn law_idle_line(s: Seq<u8>)
    requires
        s.len() >= 11,
        forall|i: int| 0 <= i < s.len() ==> s[i] == 0xff,
    ensures
        r1_in(s) == 0xff,
        s.len() >= 16 ==> r3r7_in(s) == (0xffu8, 0xffu32),
        stop_response_in(s) == 0xff,
        s.len() >= 900 ==> block_in(s) == (0xffu8, Seq::new(512, |i: int| 0xffu8)),
{
    assert forall|q: int| 0 <= q < 8 * s.len() implies !#[trigger] bit_is_zero(s, q) by {
        let b = s[q / 8];
        let sh = (7 - q % 8) as u8;
        assert(b == 0xffu8 && sh < 8 ==> (b >> sh) & 1u8 == 1u8) by (bit_vector);
    }
    lemma_none_found(s, 0, 72);
    lemma_none_found(s, 8, 80);
    if s.len() >= 16 {
        lemma_none_found(s, 0, 120);
    }
    if s.len() >= 900 {
        assert(!exists|j: int| 1 <= j < 899 && s[j] == 0xfe);
    }
}

/// Joining four bytes loses nothing: the bytes come back from the word,
/// most significant first, and the bytes of any word join back to it.
pub proof fn law_four_bytes_round_trip(msb: u8, amsb: u8, alsb: u8, lsb: u8, x: u32)
    ensures
        (be_u32(msb, amsb, alsb, lsb) as u32 >> 24u32) as u8 == msb,
        (be_u32(msb, amsb, alsb, lsb) as u32 >> 16u32) as u8 == amsb,
        (be_u32(msb, amsb, alsb, lsb) as u32 >> 8u32) as u8 == alsb,
        be_u32(msb, amsb, alsb, lsb) as u32 as u8 == lsb,
        be_u32((x >> 24u32) as u8, (x >> 16u32) as u8, (x >> 8u32) as u8, x as u8) == x,
{
    let v = be_u32(msb, amsb, alsb, lsb);
    assert(0 <= v < 0x1_0000_0000) by (nonlinear_arith)
        requires
            v == msb * 0x100_0000 + amsb * 0x1_0000 + alsb * 0x100 + lsb,
            msb < 256, amsb < 256, alsb < 256, lsb < 256;
    let w = v as u32;
    assert(w == ((msb as u32) << 24u32) | ((amsb as u32) << 16u32) | ((alsb as u32) << 8u32) | (lsb
        as u32)) by {
        assert(((msb as u32) << 24u32) | ((amsb as u32) << 16u32) | ((alsb as u32) << 8u32) | (lsb
            as u32) == ((msb as u32) * 0x100_0000 + (amsb as u32) * 0x1_0000 + (alsb as u32) * 0x100
            + (lsb as u32)) as u32) by (bit_vector);
    }
    assert(w == ((msb as u32) << 24u32) | ((amsb as u32) << 16u32) | ((alsb as u32) << 8u32) | (lsb
        as u32) ==> (w >> 24u32) as u8 == msb && (w >> 16u32) as u8 == amsb && (w >> 8u32) as u8
        == alsb && w as u8 == lsb) by (bit_vector);
    assert(x == (((x >> 24u32) as u8) as u32) * 0x100_0000 + (((x >> 16u32) as u8) as u32)
        * 0x1_0000 + (((x >> 8u32) as u8) as u32) * 0x100 + ((x as u8) as u32)) by (bit_vector);
}

/// The two masks of a split response are complementary: the low `8 - k`
/// bits of the first byte and the high `k` bits of the next make a whole
/// byte, with no bit taken twice.
pub proof fn law_split_masks_complementary(k: u8)
    requires
        1 <= k <= 7,
    ensures
        (0xffu8 >> k) | (0xffu8 << (8 - k) as u8) == 0xffu8,
        (0xffu8 >> k) & (0xffu8 << (8 - k) as u8) == 0u8,
{
    assert(1 <= k <= 7 ==> (0xffu8 >> k) | (0xffu8 << (8 - k) as u8) == 0xffu8) by (bit_vector);
    assert(1 <= k <= 7 ==> (0xffu8 >> k) & (0xffu8 << (8 - k) as u8) == 0u8) by (bit_vector);
}


/// A byte with its top bit clear starts a response at its first bit.
proof fn lemma_top_bit_clear(s: Seq<u8>, i: int)
    requires
        0 <= i < s.len(),
        s[i] < 0x80,
    ensures
        bit_is_zero(s, 8 * i),
{
    let b = s[i];
    assert(8 * i / 8 == i);
    assert(b < 0x80u8 ==> (b >> 7u8) & 1u8 == 0u8) by (bit_vector);
}

/// Idle bytes carry only one bits.
proof fn lemma_idle_bytes(s: Seq<u8>, lo: int, hi: int)
    requires
        0 <= lo <= hi <= s.len(),
        forall|j: int| lo <= j < hi ==> s[j] == 0xff,
    ensures
        all_ones(s, 8 * lo, 8 * hi),
{
    assert forall|q: int| 8 * lo <= q < 8 * hi implies !#[trigger] bit_is_zero(s, q) by {
        let b = s[q / 8];
        let sh = (7 - q % 8) as u8;
        assert(b == 0xffu8 && sh < 8 ==> (b >> sh) & 1u8 == 1u8) by (bit_vector);
    }
}

/// An R1 response that starts on a byte boundary after idle (`0xff`)
/// bytes is that byte.
pub proof fn law_r1_aligned(s: Seq<u8>, i: int)
    requires
        s.len() == R1_READ_SIZE,
        0 <= i < 9,
        forall|j: int| 0 <= j < i ==> s[j] == 0xff,
        s[i] < 0x80,
    ensures
        r1_in(s) == s[i],
{
    lemma_idle_bytes(s, 0, i);
    lemma_top_bit_clear(s, i);
    lemma_found_is_first_zero(s, 0, 72, 8 * i);
    lemma_byte_at_aligned(s, i);
}

/// An R1 response that starts `k` bits into byte `q` (after idle bytes and
/// `k` idle bits) is the low `8 - k` bits of byte `q` followed by the high
/// `k` bits of byte `q + 1`.
pub proof fn law_r1_straddling(s: Seq<u8>, q: int, k: u8)
    requires
        s.len() == R1_READ_SIZE,
        0 <= q < 9,
        1 <= k <= 7,
        forall|j: int| 0 <= j < q ==> s[j] == 0xff,
        s[q] >> (8 - k) as u8 == 0xffu8 >> (8 - k) as u8,
        (s[q] << k) & 0x80u8 == 0u8,
    ensures
        r1_in(s) == ((s[q] << k) | (s[q + 1] >> (8 - k) as u8)) as u8,
{
    let b0 = s[q];
    let b1 = s[q + 1];
    let p = 8 * q + k;
    assert(p / 8 == q && p % 8 == k as int);
    lemma_straddling_start(s, 0, q, k);
    lemma_found_is_first_zero(s, 0, 72, p);
    assert(1 <= k <= 7 ==> ((((b0 as u16) << 8u16) | (b1 as u16)) >> (8 - k) as u16) as u8 == ((b0
        << k) | (b1 >> (8 - k) as u8)) as u8) by (bit_vector);
}

/// Where the first nine bytes are idle the card did not answer: `0xff`,
/// whatever the last byte holds.
pub proof fn law_r1_no_answer(s: Seq<u8>)
    requires
        s.len() == R1_READ_SIZE,
        forall|j: int| 0 <= j < 9 ==> s[j] == 0xff,
    ensures
        r1_in(s) == 0xff,
{
    lemma_idle_bytes(s, 0, 9);
    lemma_none_found(s, 0, 72);
}

/// An R3 or R7 response that follows idle bytes is decoded: its R1 byte
/// and the word whose bytes, most significant first, are the four bytes
/// after it.
pub proof fn law_r3r7_found_after_idle(s: Seq<u8>, i: int)
    requires
        s.len() == R3R7_READ_SIZE,
        0 <= i,
        i + 4 < 16,
        forall|j: int| 0 <= j < i ==> s[j] == 0xff,
        s[i] < 0x80,
    ensures
        r3r7_decodable(s),
        r3r7_in(s).0 == s[i],
        r3r7_in(s).1 == ((s[i + 1] as u32) << 24u32) | ((s[i + 2] as u32) << 16u32) | ((s[i + 3]
            as u32) << 8u32) | (s[i + 4] as u32),
{
    lemma_idle_bytes(s, 0, i);
    lemma_top_bit_clear(s, i);
    lemma_found_is_first_zero(s, 0, 120, 8 * i);
    let (a, b, c, d) = (s[i + 1], s[i + 2], s[i + 3], s[i + 4]);
    assert(((a as u32) << 24u32) | ((b as u32) << 16u32) | ((c as u32) << 8u32) | (d as u32) == ((a
        as u32) * 0x100_0000 + (b as u32) * 0x1_0000 + (c as u32) * 0x100 + (d as u32)) as u32)
        by (bit_vector);
    assert(0 <= be_u32(a, b, c, d) < 0x1_0000_0000) by (nonlinear_arith)
        requires
            be_u32(a, b, c, d) == a * 0x100_0000 + b * 0x1_0000 + c * 0x100 + d,
            a < 256, b < 256, c < 256, d < 256;
}

/// Where the first fifteen bytes are idle the card did not answer:
/// `(0xff, 0xff)`.
pub proof fn law_r3r7_no_answer(s: Seq<u8>)
    requires
        s.len() == R3R7_READ_SIZE,
        forall|j: int| 0 <= j < 15 ==> s[j] == 0xff,
    ensures
        r3r7_decodable(s),
        r3r7_in(s) == (0xffu8, 0xffu32),
{
    lemma_idle_bytes(s, 0, 15);
    lemma_none_found(s, 0, 120);
}

/// The byte right after CMD12 is dropped, whatever it holds; the answer is
/// the first later byte with its top bit clear after idle bytes.
pub proof fn law_stop_response_after_dropped_byte(s: Seq<u8>, i: int)
    requires
        s.len() == STOP_READ_SIZE,
        1 <= i <= 9,
        forall|j: int| 1 <= j < i ==> s[j] == 0xff,
        s[i] < 0x80,
    ensures
        start_is_aligned(s, 8, 80),
        stop_response_in(s) == s[i],
{
    lemma_idle_bytes(s, 1, i);
    lemma_top_bit_clear(s, i);
    lemma_found_is_first_zero(s, 8, 80, 8 * i);
}

/// Where bytes 1 to 9 after CMD12 are idle the card did not answer:
/// `0xff`, whatever the dropped byte and the last byte hold.
pub proof fn law_stop_no_answer(s: Seq<u8>)
    requires
        s.len() == STOP_READ_SIZE,
        forall|j: int| 1 <= j < 10 ==> s[j] == 0xff,
    ensures
        start_is_aligned(s, 8, 80),
        stop_response_in(s) == 0xff,
{
    lemma_idle_bytes(s, 1, 10);
    lemma_none_found(s, 8, 80);
}

/// A single block read in which the R1 byte follows idle bytes and the
/// data token follows it is decoded: that R1 byte and the 512 bytes after
/// the token.
pub proof fn law_block_found(s: Seq<u8>, i: int, j: int)
    requires
        s.len() == ONE_BLOCK_READ_SIZE,
        0 <= i < j,
        j + 512 < 900,
        forall|q: int| 0 <= q < i ==> s[q] == 0xff,
        s[i] < 0x80,
        s[j] == 0xfe,
        forall|q: int| i < q < j ==> s[q] != 0xfe,
    ensures
        block_decodable(s),
        block_in(s).0 == s[i],
        block_in(s).1.len() == 512,
        forall|m: int| 0 <= m < 512 ==> block_in(s).1[m] == s[j + 1 + m],
{
    lemma_idle_bytes(s, 0, i);
    lemma_top_bit_clear(s, i);
    lemma_found_is_first_zero(s, 0, 7192, 8 * i);
    assert(token_search_start(s) == i + 1);
    let c = choose|c: int| i + 1 <= c < 899 && s[c] == 0xfe && forall|q: int| i + 1 <= q < c ==> s[q] != 0xfe;
    assert(s[j] == 0xfe && i + 1 <= j < 899);
    assert(c == j) by {
        if c < j {
            assert(s[c] != 0xfe);
        } else if c > j {
            assert(s[j] != 0xfe);
        }
    }
}

/// A single block read in which the card answered (an R1 byte after idle
/// bytes) but no data token followed within the buffer is a failed read:
/// `0xff` and a block of `0xff`, whatever the R1 byte was.
pub proof fn law_block_without_token(s: Seq<u8>, i: int)
    requires
        s.len() == ONE_BLOCK_READ_SIZE,
        0 <= i < 899,
        forall|q: int| 0 <= q < i ==> s[q] == 0xff,
        s[i] < 0x80,
        forall|q: int| i < q < 899 ==> s[q] != 0xfe,
    ensures
        block_decodable(s),
        block_in(s).0 == 0xff,
        block_in(s).1.len() == 512,
        forall|m: int| 0 <= m < 512 ==> block_in(s).1[m] == 0xff,
{
    lemma_idle_bytes(s, 0, i);
    lemma_top_bit_clear(s, i);
    lemma_found_is_first_zero(s, 0, 7192, 8 * i);
    assert(token_search_start(s) == i + 1);
    assert(!exists|j: int| i + 1 <= j < 899 && s[j] == 0xfe);
}


/// A response start `k` bits into byte `q`, after idle bytes and `k` idle
/// bits, is the first zero bit of the stream from byte `lo` on.
proof fn lemma_straddling_start(s: Seq<u8>, lo: int, q: int, k: u8)
    requires
        0 <= lo <= q < s.len(),
        1 <= k <= 7,
        forall|j: int| lo <= j < q ==> s[j] == 0xff,
        s[q] >> (8 - k) as u8 == 0xffu8 >> (8 - k) as u8,
        (s[q] << k) & 0x80u8 == 0u8,
    ensures
        is_first_zero(s, 8 * lo, 8 * q + k),
{
    let b0 = s[q];
    let p = 8 * q + k;
    assert(p / 8 == q && p % 8 == k as int);
    lemma_idle_bytes(s, lo, q);
    assert forall|x: int| 8 * lo <= x < p implies !#[trigger] bit_is_zero(s, x) by {
        if x >= 8 * q {
            let j = (x - 8 * q) as u8;
            assert(x / 8 == q && x % 8 == j as int);
            assert(j < k && k <= 7 && b0 >> (8 - k) as u8 == 0xffu8 >> (8 - k) as u8 ==> (b0 >> (7
                - j) as u8) & 1u8 == 1u8) by (bit_vector);
        }
    }
    lemma_shifted_msb(b0, k);
}

/// An R3/R7 response that straddles two bytes, or whose four data bytes
/// would run past the buffer, cannot be decoded.
pub proof fn law_r3r7_not_decodable(s: Seq<u8>, q: int, k: u8)
    requires
        s.len() == R3R7_READ_SIZE,
        0 <= q < 15,
        k <= 7,
        forall|j: int| 0 <= j < q ==> s[j] == 0xff,
        s[q] >> (8 - k) as u8 == 0xffu8 >> (8 - k) as u8,
        (s[q] << k) & 0x80u8 == 0u8,
        k != 0 || q >= 12,
    ensures
        !r3r7_decodable(s),
{
    if k == 0 {
        lemma_idle_bytes(s, 0, q);
        let b = s[q];
        assert((b << 0u8) & 0x80u8 == 0u8 ==> b < 0x80u8) by (bit_vector);
        lemma_top_bit_clear(s, q);
        lemma_found_is_first_zero(s, 0, 120, 8 * q);
    } else {
        lemma_straddling_start(s, 0, q, k);
        lemma_found_is_first_zero(s, 0, 120, 8 * q + k);
        assert((8 * q + k) % 8 == k as int);
    }
}

/// An answer to CMD12 that straddles two bytes cannot be decoded.
pub proof fn law_stop_response_straddling_not_decodable(s: Seq<u8>, q: int, k: u8)
    requires
        s.len() == STOP_READ_SIZE,
        1 <= q <= 9,
        1 <= k <= 7,
        forall|j: int| 1 <= j < q ==> s[j] == 0xff,
        s[q] >> (8 - k) as u8 == 0xffu8 >> (8 - k) as u8,
        (s[q] << k) & 0x80u8 == 0u8,
    ensures
        !start_is_aligned(s, 8, 80),
{
    lemma_straddling_start(s, 1, q, k);
    lemma_found_is_first_zero(s, 8, 80, 8 * q + k);
    assert((8 * q + k) % 8 == k as int);
}

/// A single block read whose R1 byte straddles two bytes cannot be decoded.
pub proof fn law_block_straddling_not_decodable(s: Seq<u8>, q: int, k: u8)
    requires
        s.len() == ONE_BLOCK_READ_SIZE,
        0 <= q < 899,
        1 <= k <= 7,
        forall|j: int| 0 <= j < q ==> s[j] == 0xff,
        s[q] >> (8 - k) as u8 == 0xffu8 >> (8 - k) as u8,
        (s[q] << k) & 0x80u8 == 0u8,
    ensures
        !block_decodable(s),
{
    lemma_straddling_start(s, 0, q, k);
    lemma_found_is_first_zero(s, 0, 7192, 8 * q + k);
    assert((8 * q + k) % 8 == k as int);
}

/// A single block read whose data token comes too late for 512 data bytes
/// to follow it inside the buffer cannot be decoded.
pub proof fn law_block_token_too_late(s: Seq<u8>, i: int, j: int)
    requires
        s.len() == ONE_BLOCK_READ_SIZE,
        0 <= i < j < 899,
        j + 512 >= 900,
        forall|q: int| 0 <= q < i ==> s[q] == 0xff,
        s[i] < 0x80,
        s[j] == 0xfe,
        forall|q: int| i < q < j ==> s[q] != 0xfe,
    ensures
        !block_decodable(s),
{
    lemma_idle_bytes(s, 0, i);
    lemma_top_bit_clear(s, i);
    lemma_found_is_first_zero(s, 0, 7192, 8 * i);
    assert(token_search_start(s) == i + 1);
    let c = choose|c: int| i + 1 <= c < 899 && s[c] == 0xfe && forall|q: int| i + 1 <= q < c ==> s[q] != 0xfe;
    assert(s[j] == 0xfe && i + 1 <= j < 899);
    assert(c == j) by {
        if c < j {
            assert(s[c] != 0xfe);
        } else if c > j {
            assert(s[j] != 0xfe);
        }
    }
}

} // verus!
