//! Decimal and hexadecimal rendering of integers as ASCII bytes.
use vstd::prelude::*;

verus! {

/// The decimal digits of `n`, most significant first, without leading zeros.
pub open spec fn dec_digits(n: nat) -> Seq<u8>
    decreases n,
{
    if n < 10 {
        seq![(48 + n) as u8]
    } else {
        dec_digits(n / 10).push((48 + n % 10) as u8)
    }
}

/// Renders `n` in decimal.
pub fn decimal_bytes(n: u64) -> (r: Vec<u8>)
    ensures
        r@ == dec_digits(n as nat),
    decreases n,
{
    if n < 10 {
        let mut v: Vec<u8> = Vec::new();
        v.push((48 + n) as u8);
        assert(v@ =~= seq![(48 + n) as u8]);
        v
    } else {
        let mut v = decimal_bytes(n / 10);
        v.push((48 + n % 10) as u8);
        v
    }
}

/// The ASCII character of a hexadecimal digit, uppercase.
pub open spec fn hex_char(d: nat) -> u8 {
    if d < 10 {
        (48 + d) as u8
    } else {
        (55 + d) as u8
    }
}

/// `n` in exactly `width` uppercase hexadecimal digits (the low `width`
/// digits when `n` needs more).
pub open spec fn hex_digits(n: nat, width: nat) -> Seq<u8>
    decreases width,
{
    if width == 0 {
        seq![]
    } else {
        hex_digits(n / 16, (width - 1) as nat).push(hex_char(n % 16))
    }
}

/// Renders `n` as `width` uppercase hexadecimal digits, zero-padded.
pub fn hex_bytes(n: u64, width: usize) -> (r: Vec<u8>)
    ensures
        r@ == hex_digits(n as nat, width as nat),
    decreases width,
{
    if width == 0 {
        let v: Vec<u8> = Vec::new();
        assert(v@ =~= seq![]);
        v
    } else {
        let mut v = hex_bytes(n / 16, width - 1);
        let d = n % 16;
        let c: u8 = if d < 10 {
            (48 + d) as u8
        } else {
            (55 + d) as u8
        };
        v.push(c);
        v
    }
}


/// `n` in exactly `width` binary digits (the low `width` digits).
pub open spec fn bin_digits(n: nat, width: nat) -> Seq<u8>
    decreases width,
{
    if width == 0 {
        seq![]
    } else {
        bin_digits(n / 2, (width - 1) as nat).push((48 + n % 2) as u8)
    }
}

/// Renders `n` as `width` binary digits, zero-padded.
pub fn bin_bytes(n: u64, width: usize) -> (r: Vec<u8>)
    ensures
        r@ == bin_digits(n as nat, width as nat),
    decreases width,
{
    if width == 0 {
        let v: Vec<u8> = Vec::new();
        assert(v@ =~= seq![]);
        v
    } else {
        let mut v = bin_bytes(n / 2, width - 1);
        v.push((48 + n % 2) as u8);
        v
    }
}

/// Every byte is ASCII.
pub open spec fn is_ascii_bytes(s: Seq<u8>) -> bool {
    forall|i: int| 0 <= i < s.len() ==> s[i] < 128
}

pub proof fn lemma_ascii_concat(a: Seq<u8>, b: Seq<u8>)
    requires
        is_ascii_bytes(a),
        is_ascii_bytes(b),
    ensures
        is_ascii_bytes(a + b),
{
    assert forall|i: int| 0 <= i < (a + b).len() implies (a + b)[i] < 128 by {
        if i < a.len() {
            assert((a + b)[i] == a[i]);
        } else {
            assert((a + b)[i] == b[i - a.len()]);
        }
    }
}

pub proof fn lemma_digits_ascii(n: nat, width: nat)
    ensures
        is_ascii_bytes(dec_digits(n)),
        is_ascii_bytes(hex_digits(n, width)),
        is_ascii_bytes(bin_digits(n, width)),
    decreases n + width,
{
    if n >= 10 {
        lemma_digits_ascii(n / 10, width);
    }
    if width > 0 {
        lemma_digits_ascii(n / 16, (width - 1) as nat);
        lemma_digits_ascii(n / 2, (width - 1) as nat);
    }
}

/// The characters of ASCII bytes.
pub open spec fn ascii_chars(s: Seq<u8>) -> Seq<char> {
    s.map_values(|b: u8| b as char)
}

/// Relies on `String::from_utf8_lossy`: valid UTF-8, which ASCII is, comes
/// back unchanged, one character per ASCII byte.
#[verifier::external_body]
pub fn ascii_string(b: &[u8]) -> (r: String)
    requires
        is_ascii_bytes(b@),
    ensures
        r@ == ascii_chars(b@),
{
    String::from_utf8_lossy(b).into_owned()
}

} // verus!
