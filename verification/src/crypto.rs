//! Trusted bindings to the digest and hex crates, and verified helpers on
//! their results.

use sha2::Digest;
use vstd::prelude::*;
use vstd::string::StringSliceAdditionalSpecFns;
use vstd::string::StrSliceExecFns;

verus! {

/// The SHA-224 digest of a byte sequence.  The digest depends on the input
/// bytes alone, so it is given a name here rather than an algorithm.
pub uninterp spec fn sha224_of(data: Seq<u8>) -> Seq<u8>;

/// Relies on sha2::Sha224 (through Digest::digest): the digest is a pure
/// function of the input bytes, and is always 28 bytes long.
#[verifier::external_body]
pub fn sha224_digest(data: &Vec<u8>) -> (r: Vec<u8>)
    ensures
        r@ == sha224_of(data@),
        r@.len() == 28,
{
    sha2::Sha224::digest(data.as_slice()).to_vec()
}

/// The lower-case hex digit (as an ASCII byte) for a value below 16.
pub open spec fn hex_digit_byte(n: u8) -> u8 {
    if n < 10 {
        (0x30 + n) as u8
    } else {
        (0x57 + n) as u8
    }
}

/// The lower-case hex encoding of a byte sequence, as ASCII bytes: two
/// digits per input byte, high nibble first.
pub open spec fn hex_bytes_of(s: Seq<u8>) -> Seq<u8> {
    Seq::new(
        2 * s.len(),
        |i: int|
            if i % 2 == 0 {
                hex_digit_byte(s[i / 2] / 16)
            } else {
                hex_digit_byte((s[i / 2] % 16) as u8)
            },
    )
}

/// The same encoding viewed as characters.
pub open spec fn hex_chars_of(s: Seq<u8>) -> Seq<char> {
    hex_bytes_of(s).map_values(|b: u8| b as char)
}

/// Relies on hex::encode: the lower-case hex form of the input bytes, two
/// digits per byte, high nibble first; an ASCII string.
#[verifier::external_body]
pub fn hex_encode(data: &Vec<u8>) -> (r: String)
    ensures
        r@ == hex_chars_of(data@),
        vstd::string::string_is_ascii(&r),
{
    hex::encode(data.as_slice())
}

/// The ASCII bytes of a string whose characters are all ASCII.
pub fn ascii_string_bytes(s: &String) -> (r: Vec<u8>)
    requires
        vstd::string::string_is_ascii(s),
    ensures
        r@ == Seq::new(s@.len(), |i: int| s@[i] as u8),
{
    broadcast use vstd::string::is_ascii_spec_bytes;

    let st = s.as_str();
    assert(vstd::string::is_ascii(st));
    let r = st.as_bytes_vec();
    assert(r@ == st.spec_bytes());
    assert(r@ =~= Seq::new(s@.len(), |i: int| s@[i] as u8));
    r
}

/// Every character of a hex encoding is ASCII, so its bytes are its
/// characters read as bytes.
pub proof fn lemma_hex_chars_bytes(s: Seq<u8>)
    ensures
        Seq::new(hex_chars_of(s).len(), |i: int| hex_chars_of(s)[i] as u8) == hex_bytes_of(s),
{
    assert(Seq::new(hex_chars_of(s).len(), |i: int| hex_chars_of(s)[i] as u8) =~= hex_bytes_of(
        s,
    ));
}

/// The hex form of a byte vector, handed back as ASCII bytes.
pub fn hex_encode_bytes(data: &Vec<u8>) -> (r: Vec<u8>)
    ensures
        r@ == hex_bytes_of(data@),
{
    let s = hex_encode(data);
    let r = ascii_string_bytes(&s);
    proof {
        lemma_hex_chars_bytes(data@);
    }
    assert(r@ =~= hex_bytes_of(data@));
    r
}


/// The reflected CRC-32 generator polynomial.
pub const CRC32_POLY: u32 = 0xedb8_8320;

/// One bit step of the reflected CRC-32: shift right, folding the
/// polynomial in when a one bit falls out.
pub open spec fn crc32_step_bit(c: u32) -> u32 {
    if c & 1 == 1 {
        (c >> 1) ^ CRC32_POLY
    } else {
        c >> 1
    }
}

/// `k` bit steps in a row.
pub open spec fn crc32_step_bits(c: u32, k: nat) -> u32
    decreases k,
{
    if k == 0 {
        c
    } else {
        crc32_step_bits(crc32_step_bit(c), (k - 1) as nat)
    }
}

/// Folding one byte into the running CRC-32 state.
pub open spec fn crc32_step_byte(c: u32, b: u8) -> u32 {
    crc32_step_bits(c ^ (b as u32), 8)
}

/// The CRC-32 state after folding in a byte sequence.
pub open spec fn crc32_acc(s: Seq<u8>, c: u32) -> u32
    decreases s.len(),
{
    if s.len() == 0 {
        c
    } else {
        crc32_acc(s.drop_first(), crc32_step_byte(c, s[0]))
    }
}

/// The CRC-32 checksum of a byte sequence: all-ones preset, reflected
/// polynomial, final complement.
pub open spec fn crc32_of(s: Seq<u8>) -> u32 {
    crc32_acc(s, 0xffff_ffff) ^ 0xffff_ffff
}

/// Computes the CRC-32 checksum of a byte vector.
pub fn crc32(data: &Vec<u8>) -> (r: u32)
    ensures
        r == crc32_of(data@),
{
    let n = data.len();
    assert(data@.skip(0) =~= data@);
    let mut c: u32 = 0xffff_ffff;
    let mut i: usize = 0;
    while i < n
        invariant
            n == data@.len(),
            0 <= i <= n,
            crc32_acc(data@, 0xffff_ffff) == crc32_acc(data@.skip(i as int), c),
        decreases n - i,
    {
        assert(data@.skip(i as int).drop_first() =~= data@.skip(i + 1));
        assert(data@.skip(i as int)[0] == data@[i as int]);
        c = c ^ (data[i] as u32);
        let mut k: u64 = 0;
        let ghost c0 = c;
        while k < 8
            invariant
                0 <= k <= 8,
                c == crc32_step_bits(c0, k as nat),
            decreases 8 - k,
        {
            proof {
                lemma_crc32_step_bits_snoc(c0, k as nat);
            }
            if c & 1 == 1 {
                c = (c >> 1) ^ CRC32_POLY;
            } else {
                c = c >> 1;
            }
            k = k + 1;
        }
        i = i + 1;
    }
    assert(data@.skip(n as int) =~= Seq::<u8>::empty());
    c ^ 0xffff_ffff
}

/// Bit steps compose one step at a time from the front.
proof fn lemma_crc32_step_bits_snoc(c: u32, k: nat)
    ensures
        crc32_step_bits(c, (k + 1) as nat) == crc32_step_bit(crc32_step_bits(c, k)),
    decreases k,
{
    if k == 0 {
        assert(crc32_step_bits(c, 1) == crc32_step_bits(crc32_step_bit(c), 0));
        assert(crc32_step_bits(crc32_step_bit(c), 0) == crc32_step_bit(c));
        assert(crc32_step_bits(c, 0) == c);
    } else {
        lemma_crc32_step_bits_snoc(crc32_step_bit(c), (k - 1) as nat);
        assert(crc32_step_bits(c, (k + 1) as nat) == crc32_step_bits(crc32_step_bit(c), k));
        assert(crc32_step_bits(c, k) == crc32_step_bits(crc32_step_bit(c), (k - 1) as nat));
    }
}

/// The four big-endian bytes of a 32-bit checksum.
pub open spec fn u32_be_bytes(x: u32) -> Seq<u8> {
    seq![(x >> 24) as u8, (x >> 16) as u8, (x >> 8) as u8, x as u8]
}

/// Writes a 32-bit checksum as four big-endian bytes.
pub fn push_u32_be(out: &mut Vec<u8>, x: u32)
    ensures
        final(out)@ == old(out)@ + u32_be_bytes(x),
{
    out.push((x >> 24) as u8);
    out.push((x >> 16) as u8);
    out.push((x >> 8) as u8);
    out.push(x as u8);
    assert(out@ =~= old(out)@ + u32_be_bytes(x));
}

} // verus!
