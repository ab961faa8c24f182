//! Digests and hex representation.
//!
//! Stored revocations are identified by a short hash of their signature
//! bytes, and detached signatures bind the digest of the signed text.

use vstd::prelude::*;

verus! {

/// The SHA-256 digest of a byte sequence.  The function of the bytes alone;
/// its value is not spelled out here.
pub uninterp spec fn sha256_of(data: Seq<u8>) -> Seq<u8>;

/// Relies on sha2's `Sha256`: the digest depends on the input bytes alone
/// and is 32 bytes long.
#[verifier::external_body]
pub fn sha256(data: &Vec<u8>) -> (r: Vec<u8>)
    ensures
        r@ == sha256_of(data@),
        r@.len() == 32,
{
    <sha2::Sha256 as sha2::Digest>::digest(data.as_slice()).to_vec()
}

/// The upper-case hex character for a value below 16.
pub open spec fn hex_digit(d: u8) -> char {
    if d == 0 { '0' } else if d == 1 { '1' } else if d == 2 { '2' }
    else if d == 3 { '3' } else if d == 4 { '4' } else if d == 5 { '5' }
    else if d == 6 { '6' } else if d == 7 { '7' } else if d == 8 { '8' }
    else if d == 9 { '9' } else if d == 10 { 'A' } else if d == 11 { 'B' }
    else if d == 12 { 'C' } else if d == 13 { 'D' } else if d == 14 { 'E' }
    else { 'F' }
}

/// Upper-case hex spelling of a byte sequence, two characters per byte.
pub open spec fn hex_of(data: Seq<u8>) -> Seq<char> {
    Seq::new(2 * data.len(), |i: int|
        if i % 2 == 0 {
            hex_digit(data[i / 2] / 16)
        } else {
            hex_digit(data[i / 2] % 16)
        })
}

/// A one-character string holding the hex character for `d`.
pub fn hex_digit_str(d: u8) -> (r: &'static str)
    requires
        d < 16,
    ensures
        r@ =~= seq![hex_digit(d)],
{
    proof {
        reveal_strlit("0"); reveal_strlit("1"); reveal_strlit("2");
        reveal_strlit("3"); reveal_strlit("4"); reveal_strlit("5");
        reveal_strlit("6"); reveal_strlit("7"); reveal_strlit("8");
        reveal_strlit("9"); reveal_strlit("A"); reveal_strlit("B");
        reveal_strlit("C"); reveal_strlit("D"); reveal_strlit("E");
        reveal_strlit("F");
    }
    match d {
        0 => "0",
        1 => "1",
        2 => "2",
        3 => "3",
        4 => "4",
        5 => "5",
        6 => "6",
        7 => "7",
        8 => "8",
        9 => "9",
        10 => "A",
        11 => "B",
        12 => "C",
        13 => "D",
        14 => "E",
        _ => "F",
    }
}

/// Spells `data` as upper-case hex, two characters per byte.
pub fn to_hex(data: &Vec<u8>) -> (r: String)
    ensures
        r@ == hex_of(data@),
{
    let mut res = String::new();
    let n = data.len();
    for i in 0..n
        invariant
            n == data@.len(),
            res@ =~= hex_of(data@).take(2 * i),
    {
        let b = data[i];
        res.append(hex_digit_str(b / 16));
        res.append(hex_digit_str(b % 16));
        assert(res@ =~= hex_of(data@).take(2 * (i + 1)));
    }
    assert(hex_of(data@).take(2 * (n as int)) =~= hex_of(data@));
    res
}

} // verus!
