//! The digest side-channel: a cryptographic digest per archived file,
//! rendered as a lowercase-hex text line.

use vstd::prelude::*;

verus! {

/// The SHA-512 digest of a byte sequence. The value is fixed by the input
/// alone; its definition is the sha2 crate's.
pub uninterp spec fn sha512_of(data: Seq<u8>) -> Seq<u8>;

/// Relies on sha2's `Sha512::digest`: the 64-byte SHA-512 digest of the
/// input, depending on the input bytes alone.
#[verifier::external_body]
pub fn sha512_digest(data: &Vec<u8>) -> (r: Vec<u8>)
    ensures
        r@ == sha512_of(data@),
        r@.len() == 64,
{
    <sha2::Sha512 as sha2::Digest>::digest(data.as_slice()).to_vec()
}

/// The lowercase ASCII hex digit for a value below 16.
pub open spec fn hex_digit(v: u8) -> u8 {
    if v < 10 {
        (48 + v) as u8
    } else {
        (87 + v) as u8
    }
}

/// Lowercase hex encoding: two digits per input byte, high nibble first.
pub open spec fn hex_of(data: Seq<u8>) -> Seq<u8>
    decreases data.len(),
{
    if data.len() == 0 {
        Seq::<u8>::empty()
    } else {
        seq![hex_digit(data.first() / 16), hex_digit(data.first() % 16)]
            + hex_of(data.drop_first())
    }
}

/// The lowercase ASCII hex digit of a nibble.
fn hex_digit_of(v: u8) -> (r: u8)
    requires
        v < 16,
    ensures
        r == hex_digit(v),
{
    if v < 10 {
        48 + v
    } else {
        87 + v
    }
}

/// The lowercase hex encoding of a byte string, two digits per byte, high
/// nibble first.
pub fn hex_encode(data: &Vec<u8>) -> (r: Vec<u8>)
    ensures
        r@ == hex_of(data@),
{
    let mut r: Vec<u8> = Vec::new();
    let n = data.len();
    let mut i: usize = 0;
    assert(data@.skip(0) =~= data@);
    while i < n
        invariant
            n == data@.len(),
            i <= n,
            hex_of(data@) =~= r@ + hex_of(data@.skip(i as int)),
        decreases n - i,
    {
        let b = data[i];
        r.push(hex_digit_of(b / 16));
        r.push(hex_digit_of(b % 16));
        i = i + 1;
        proof {
            assert(data@.skip(i - 1).drop_first() =~= data@.skip(i as int));
            assert(data@.skip(i - 1).first() == data@[i - 1]);
            assert(hex_of(data@) =~= r@ + hex_of(data@.skip(i as int)));
        }
    }
    assert(hex_of(data@.skip(n as int)) =~= Seq::<u8>::empty());
    assert(r@ =~= hex_of(data@));
    r
}

/// One line of the digest listing: the hex digest of the file's content,
/// two spaces, the archive-internal member name, a newline.
pub open spec fn digest_line(content: Seq<u8>, name: Seq<u8>) -> Seq<u8> {
    hex_of(sha512_of(content)) + seq![32u8, 32u8] + name + seq![10u8]
}

} // verus!
