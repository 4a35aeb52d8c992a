//! Colon-separated and compact hexadecimal forms of hardware addresses.
use vstd::prelude::*;

use crate::error::MigrateError;

verus! {

/// Number of bytes in a hardware address.
pub const MAC_LEN: usize = 6;

/// Lower-case hexadecimal digit for a value below 16.
pub open spec fn hex_char(n: u8) -> char {
    if n == 0 { '0' } else if n == 1 { '1' } else if n == 2 { '2' } else if n == 3 { '3' }
    else if n == 4 { '4' } else if n == 5 { '5' } else if n == 6 { '6' } else if n == 7 { '7' }
    else if n == 8 { '8' } else if n == 9 { '9' } else if n == 10 { 'a' } else if n == 11 { 'b' }
    else if n == 12 { 'c' } else if n == 13 { 'd' } else if n == 14 { 'e' } else { 'f' }
}

/// A hexadecimal digit of either case.
pub open spec fn is_hex_digit(c: char) -> bool {
    ('0' <= c && c <= '9') || ('a' <= c && c <= 'f') || ('A' <= c && c <= 'F')
}

/// Value of a hexadecimal digit.
pub open spec fn hex_digit_value(c: char) -> int {
    if '0' <= c && c <= '9' {
        c as int - '0' as int
    } else if 'a' <= c && c <= 'f' {
        c as int - 'a' as int + 10
    } else {
        c as int - 'A' as int + 10
    }
}

/// Byte written by the two digits `hi`, `lo`.
pub open spec fn byte_of_digits(hi: char, lo: char) -> u8 {
    (hex_digit_value(hi) * 16 + hex_digit_value(lo)) as u8
}

/// Two lower-case digits per byte, high nibble first.
pub open spec fn hex_encode(b: Seq<u8>) -> Seq<char> {
    Seq::new(
        2 * b.len(),
        |i: int| if i % 2 == 0 { hex_char(b[i / 2] / 16) } else { hex_char(b[i / 2] % 16) },
    )
}

/// Text that decodes as hexadecimal: an even number of hexadecimal digits.
pub open spec fn hex_decodable(s: Seq<char>) -> bool {
    &&& s.len() % 2 == 0
    &&& forall|i: int| 0 <= i < s.len() ==> is_hex_digit(#[trigger] s[i])
}

/// Bytes written by hexadecimal text, two digits each.
pub open spec fn hex_decode(s: Seq<char>) -> Seq<u8> {
    Seq::new(s.len() / 2, |k: int| byte_of_digits(s[2 * k], s[2 * k + 1]))
}

/// Colon-separated form: two lower-case digits per byte, a `:` between bytes.
pub open spec fn colon_hex(b: Seq<u8>) -> Seq<char> {
    Seq::new(
        if b.len() == 0 { 0 } else { (3 * b.len() - 1) as nat },
        |i: int|
            if i % 3 == 2 {
                ':'
            } else if i % 3 == 0 {
                hex_char(b[i / 3] / 16)
            } else {
                hex_char(b[i / 3] % 16)
            },
    )
}

/// Text of six two-digit hexadecimal tokens separated by `:`.
pub open spec fn colon_valid(s: Seq<char>) -> bool {
    &&& s.len() == 17
    &&& forall|i: int|
        0 <= i < 17 ==> if i % 3 == 2 {
            #[trigger] s[i] == ':'
        } else {
            is_hex_digit(s[i])
        }
}

/// Address written by colon-separated text.
pub open spec fn colon_decode(s: Seq<char>) -> Seq<u8> {
    Seq::new(6, |k: int| byte_of_digits(s[3 * k], s[3 * k + 1]))
}

/// Compact text of an address (twelve digits) read as an address, if it is one.
pub open spec fn compact_decode(s: Seq<char>) -> Option<Seq<u8>> {
    if hex_decodable(s) && s.len() == 12 {
        Some(hex_decode(s))
    } else {
        None
    }
}

proof fn lemma_hex_char(n: u8)
    requires
        n < 16,
    ensures
        is_hex_digit(hex_char(n)),
        hex_digit_value(hex_char(n)) == n as int,
{
}

proof fn lemma_byte_digits(b: u8)
    ensures
        byte_of_digits(hex_char(b / 16), hex_char(b % 16)) == b,
        is_hex_digit(hex_char(b / 16)),
        is_hex_digit(hex_char(b % 16)),
{
    lemma_hex_char(b / 16);
    lemma_hex_char(b % 16);
}

/// Reading back the colon-separated or the compact form of an address gives
/// the address again.
pub proof fn lemma_mac_round_trip(a: Seq<u8>)
    requires
        a.len() == 6,
    ensures
        colon_valid(colon_hex(a)),
        colon_decode(colon_hex(a)) == a,
        compact_decode(hex_encode(a)) == Some(a),
{
    let c = colon_hex(a);
    assert forall|i: int| 0 <= i < 17 implies if i % 3 == 2 {
        #[trigger] c[i] == ':'
    } else {
        is_hex_digit(c[i])
    } by {
        lemma_byte_digits(a[i / 3]);
    }
    assert forall|k: int| 0 <= k < 6 implies #[trigger] colon_decode(c)[k] == a[k] by {
        lemma_byte_digits(a[k]);
        assert((3 * k) / 3 == k);
        assert((3 * k + 1) / 3 == k);
    }
    assert(colon_decode(c) =~= a);
    let h = hex_encode(a);
    assert forall|i: int| 0 <= i < h.len() implies is_hex_digit(#[trigger] h[i]) by {
        lemma_byte_digits(a[i / 2]);
    }
    assert forall|k: int| 0 <= k < 6 implies #[trigger] hex_decode(h)[k] == a[k] by {
        lemma_byte_digits(a[k]);
        assert((2 * k) / 2 == k);
        assert((2 * k + 1) / 2 == k);
    }
    assert(hex_decode(h) =~= a);
}

/// Error of hex::decode, carried through unread.
#[verifier::external_type_specification]
#[verifier::external_body]
pub struct ExFromHexError(hex::FromHexError);

/// Relies on hex::encode: two lower-case digits for each byte, high nibble first.
#[verifier::external_body]
fn to_hex(b: &[u8]) -> (r: String)
    ensures
        r@ == hex_encode(b@),
{
    hex::encode(b)
}

/// Relies on hex::decode: an even number of digits of either case gives one
/// byte per pair; any other text is an error.
#[verifier::external_body]
pub(crate) fn from_hex(s: &str) -> (r: Result<Vec<u8>, hex::FromHexError>)
    ensures
        r is Ok <==> hex_decodable(s@),
        r matches Ok(v) ==> v@ == hex_decode(s@),
{
    hex::decode(s)
}

/// Parses the colon-separated form, six two-digit hexadecimal tokens.
pub fn read_mac(name: &str) -> (r: Result<Vec<u8>, MigrateError>)
    ensures
        r is Ok <==> colon_valid(name@),
        r matches Ok(v) ==> v@ == colon_decode(name@),
        r matches Err(e) ==> e == MigrateError::InvalidAddress,
{
    let n: usize = name.unicode_len();
    if n != 17 {
        return Err(MigrateError::InvalidAddress);
    }
    let mut out: Vec<u8> = Vec::new();
    let mut k: usize = 0;
    while k < 6
        invariant
            n == 17,
            name@.len() == 17,
            k <= 6,
            out@.len() == k,
            forall|j: int| 0 <= j < 17 && j < 3 * k ==> if j % 3 == 2 {
                #[trigger] name@[j] == ':'
            } else {
                is_hex_digit(name@[j])
            },
            forall|j: int| 0 <= j < k ==> #[trigger] out@[j] == colon_decode(name@)[j],
        decreases 6 - k,
    {
        let tok = name.substring_char(3 * k, 3 * k + 2);
        let sep_ok = k == 5 || name.get_char(3 * k + 2) == ':';
        let dec = from_hex(tok);
        match dec {
            Ok(v) => {
                if !sep_ok {
                    return Err(MigrateError::InvalidAddress);
                }
                assert(is_hex_digit(tok@[0]) && is_hex_digit(tok@[1]));
                out.push(v[0]);
                assert forall|j: int| 0 <= j < 17 && j < 3 * (k + 1) implies if j % 3 == 2 {
                    #[trigger] name@[j] == ':'
                } else {
                    is_hex_digit(name@[j])
                } by {
                    if 3 * k <= j < 3 * k + 2 {
                        assert(tok@[j - 3 * k] == name@[j]);
                    }
                }
            },
            Err(_) => {
                proof {
                    assert(tok@.len() == 2);
                    let bad: int = if is_hex_digit(tok@[0]) { 1 } else { 0 };
                    assert(!is_hex_digit(name@[3 * k + bad]));
                    assert((3 * k + bad) % 3 != 2);
                }
                return Err(MigrateError::InvalidAddress);
            },
        }
        k = k + 1;
    }
    assert(colon_decode(name@) =~= out@);
    Ok(out)
}

/// Colon-separated form of an address: `aa:bb:cc:dd:ee:ff`.
pub fn format_mac(bytes: &[u8]) -> (r: String)
    ensures
        r@ == colon_hex(bytes@),
{
    let mut out = String::new();
    let mut k: usize = 0;
    while k < bytes.len()
        invariant
            k <= bytes@.len(),
            out@ =~= colon_hex(bytes@.subrange(0, k as int)),
        decreases bytes@.len() - k,
    {
        let ghost prev = out@;
        if k > 0 {
            proof {
                reveal_strlit(":");
            }
            out.append(":");
        }
        let one: Vec<u8> = vec![bytes[k]];
        let h = to_hex(one.as_slice());
        out.append(h.as_str());
        proof {
            let b = bytes@.subrange(0, k + 1);
            assert forall|i: int| 0 <= i < out@.len() implies #[trigger] out@[i] == colon_hex(b)[i] by {
                if i < prev.len() {
                    assert(b[i / 3] == bytes@.subrange(0, k as int)[i / 3]);
                }
            }
        }
        k = k + 1;
    }
    assert(bytes@.subrange(0, bytes@.len() as int) =~= bytes@);
    out
}

/// Compact form of an address: twelve lower-case digits, no separators.
pub fn format_mac_win(mac: &[u8]) -> (r: Result<String, MigrateError>)
    ensures
        r is Ok <==> mac@.len() == MAC_LEN,
        r matches Ok(s) ==> s@ == hex_encode(mac@) && s@.len() == 12,
        r matches Err(e) ==> e == MigrateError::InvalidAddress,
{
    if mac.len() != MAC_LEN {
        return Err(MigrateError::InvalidAddress);
    }
    Ok(to_hex(mac))
}

/// Reads the compact form of an address.
pub fn parse_mac_win(mac: &str) -> (r: Result<Vec<u8>, MigrateError>)
    ensures
        r is Ok <==> compact_decode(mac@) is Some,
        r matches Ok(v) ==> Some(v@) == compact_decode(mac@),
        r matches Err(e) ==> e == MigrateError::InvalidAddress,
{
    match from_hex(mac) {
        Ok(v) => {
            if v.len() != MAC_LEN {
                return Err(MigrateError::InvalidAddress);
            }
            Ok(v)
        },
        Err(_) => Err(MigrateError::InvalidAddress),
    }
}

} // verus!
