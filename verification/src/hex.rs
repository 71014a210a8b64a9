//! ASCII-hex to byte translation, the universal primitive of the wire format:
//! every logical octet of a PDU is exactly two hex characters, read
//! case-insensitively and written with uppercase digits.

use vstd::prelude::*;
use crate::errors::Error;

verus! {

/// Is `c` an ASCII decimal digit?
pub open spec fn is_ascii_digit(c: u8) -> bool {
    48 <= c <= 57
}

/// Is `c` an ASCII hex digit (either case)?
pub open spec fn is_hex_digit(c: u8) -> bool {
    is_ascii_digit(c) || (65 <= c <= 70) || (97 <= c <= 102)
}

/// The value of the hex digit `c`; any other byte maps to 0 (that is how the
/// timezone characters are read, where no error is ever raised).
pub open spec fn hex_val(c: u8) -> u8 {
    if is_ascii_digit(c) {
        (c - 48) as u8
    } else if 65 <= c <= 70 {
        (c - 55) as u8
    } else if 97 <= c <= 102 {
        (c - 87) as u8
    } else {
        0
    }
}

/// The uppercase hex digit character for a nibble value.
pub open spec fn hex_upper(n: u8) -> u8
    recommends
        n < 16,
{
    if n < 10 {
        (48 + n) as u8
    } else {
        (55 + n) as u8
    }
}

/// The two-character wire rendering of one byte: high nibble first, uppercase.
pub open spec fn spec_encode_octet(b: u8) -> Seq<u8> {
    seq![hex_upper(b / 16), hex_upper(b % 16)]
}

/// Reading one octet (two hex characters) at `pos`: needs two more bytes,
/// both must be hex digits.
pub open spec fn spec_read_octet(d: Seq<u8>, pos: int) -> Result<u8, Error> {
    if pos + 2 > d.len() {
        Err(Error::Incomplete)
    } else if !is_hex_digit(d[pos]) || !is_hex_digit(d[pos + 1]) {
        Err(Error::MalformedHex)
    } else {
        Ok((hex_val(d[pos]) * 16 + hex_val(d[pos + 1])) as u8)
    }
}

/// The value of the hex digit `data`, or 0 for any byte that is not a hex
/// digit; never an error.
pub fn parse_ascii_hex_number(data: u8) -> (r: i32)
    ensures
        r == hex_val(data) as i32,
        0 <= r < 16,
{
    if 48 <= data && data <= 57 {
        (data - 48) as i32
    } else if 65 <= data && data <= 70 {
        (data - 55) as i32
    } else if 97 <= data && data <= 102 {
        (data - 87) as i32
    } else {
        0
    }
}

/// The uppercase hex digit character for a nibble.
pub fn u4_to_hex(data: u8) -> (r: u8)
    requires
        data <= 15,
    ensures
        r == hex_upper(data),
{
    if data < 10 {
        48 + data
    } else {
        55 + data
    }
}

/// Encode one byte as two hex characters: the high nibble's digit, then the
/// low nibble's digit, uppercase.
pub fn encode_octet(data: u8) -> (r: (u8, u8))
    ensures
        seq![r.0, r.1] == spec_encode_octet(data),
        is_hex_digit(r.0) && is_hex_digit(r.1),
{
    let hi: u8 = data >> 4;
    let lo: u8 = data & 0x0f;
    assert(data >> 4 == data / 16 && data & 0x0f == data % 16) by (bit_vector);
    let c0 = u4_to_hex(hi);
    let c1 = u4_to_hex(lo);
    assert(seq![c0, c1] =~= spec_encode_octet(data));
    (c0, c1)
}

/// Append the two-character hex rendering of one byte to `output`.
pub fn u8_to_hex(data: u8, output: &mut Vec<u8>)
    ensures
        final(output)@ == old(output)@ + spec_encode_octet(data),
{
    let (c0, c1) = encode_octet(data);
    output.push(c0);
    output.push(c1);
    assert(output@ =~= old(output)@ + spec_encode_octet(data));
}

/// Decode two hex characters into one byte, case-insensitively; either
/// character not being a hex digit is a malformed-hex failure.
pub fn decode_octet(hi: u8, lo: u8) -> (r: Result<u8, Error>)
    ensures
        r is Ok <==> is_hex_digit(hi) && is_hex_digit(lo),
        r is Ok ==> r->Ok_0 == hex_val(hi) * 16 + hex_val(lo),
        r is Err ==> r->Err_0 == Error::MalformedHex,
{
    let h = parse_ascii_hex_number(hi);
    let l = parse_ascii_hex_number(lo);
    let hi_ok = (48 <= hi && hi <= 57) || (65 <= hi && hi <= 70) || (97 <= hi && hi <= 102);
    let lo_ok = (48 <= lo && lo <= 57) || (65 <= lo && lo <= 70) || (97 <= lo && lo <= 102);
    if hi_ok && lo_ok {
        Ok((h * 16 + l) as u8)
    } else {
        Err(Error::MalformedHex)
    }
}

/// Decode a two-character hex field into a byte.
pub fn u8_from_hex_str(data: &[u8]) -> (r: Result<u8, Error>)
    requires
        data@.len() == 2,
    ensures
        r is Ok <==> is_hex_digit(data@[0]) && is_hex_digit(data@[1]),
        r is Ok ==> r->Ok_0 == hex_val(data@[0]) * 16 + hex_val(data@[1]),
        r is Err ==> r->Err_0 == Error::MalformedHex,
{
    decode_octet(data[0], data[1])
}

/// Decode a four-character hex field into a big-endian 16-bit value.
pub fn u16_from_hex_str(data: &[u8]) -> (r: Result<u16, Error>)
    requires
        data@.len() == 4,
    ensures
        r is Ok <==> (forall|i: int| 0 <= i < 4 ==> is_hex_digit(data@[i])),
        r is Ok ==> r->Ok_0 == (hex_val(data@[0]) * 16 + hex_val(data@[1])) * 256 + hex_val(
            data@[2],
        ) * 16 + hex_val(data@[3]),
        r is Err ==> r->Err_0 == Error::MalformedHex,
{
    let hi = decode_octet(data[0], data[1]);
    let lo = decode_octet(data[2], data[3]);
    match (hi, lo) {
        (Ok(h), Ok(l)) => Ok((h as u16) * 256 + (l as u16)),
        _ => Err(Error::MalformedHex),
    }
}

/// Read one octet (two hex characters) of `data` at `pos`.
pub fn read_octet(data: &Vec<u8>, pos: usize) -> (r: Result<u8, Error>)
    ensures
        r == spec_read_octet(data@, pos as int),
{
    if pos >= data.len() || data.len() - pos < 2 {
        Err(Error::Incomplete)
    } else {
        decode_octet(data[pos], data[pos + 1])
    }
}

/// The wire rendering of a byte sequence: two hex characters per byte.
pub open spec fn hex_bytes_wire(bytes: Seq<u8>) -> Seq<u8>
    decreases bytes.len(),
{
    if bytes.len() == 0 {
        seq![]
    } else {
        spec_encode_octet(bytes[0]) + hex_bytes_wire(bytes.skip(1))
    }
}

/// Reading `n` octets (two hex characters each) at `pos` as a byte sequence.
pub open spec fn spec_read_hex_bytes(d: Seq<u8>, pos: int, n: int) -> Result<Seq<u8>, Error> {
    if pos + 2 * n > d.len() {
        Err(Error::Incomplete)
    } else if exists|i: int| pos <= i < pos + 2 * n && !is_hex_digit(d[i]) {
        Err(Error::MalformedHex)
    } else {
        Ok(
            Seq::new(
                n as nat,
                |k: int| (hex_val(d[pos + 2 * k]) * 16 + hex_val(d[pos + 2 * k + 1])) as u8,
            ),
        )
    }
}

/// Read `n` octets at `pos` as a byte vector.
pub fn read_hex_bytes(data: &Vec<u8>, pos: usize, n: usize) -> (r: Result<Vec<u8>, Error>)
    ensures
        r is Ok <==> spec_read_hex_bytes(data@, pos as int, n as int) is Ok,
        r is Ok ==> r->Ok_0@ == spec_read_hex_bytes(data@, pos as int, n as int)->Ok_0,
        r is Err ==> r->Err_0 == spec_read_hex_bytes(data@, pos as int, n as int)->Err_0,
{
    let len = data.len();
    if pos > len {
        return Err(Error::Incomplete);
    }
    let avail = len - pos;
    proof {
        assert(avail == 2 * (avail / 2) + avail % 2 && 0 <= avail % 2 < 2) by (nonlinear_arith);
    }
    if avail / 2 < n {
        return Err(Error::Incomplete);
    }
    let mut bytes: Vec<u8> = Vec::new();
    let mut k: usize = 0;
    while k < n
        invariant
            pos + 2 * n <= data@.len(),
            data@.len() <= usize::MAX,
            k <= n,
            bytes@.len() == k as int,
            forall|j: int|
                0 <= j < k ==> bytes@[j] == (hex_val(data@[pos + 2 * j]) * 16 + hex_val(
                    data@[pos + 2 * j + 1],
                )) as u8,
            forall|i: int| pos <= i < pos + 2 * k ==> is_hex_digit(data@[i]),
        decreases n - k,
    {
        let p = pos + 2 * k;
        let b = match read_octet(data, p) {
            Ok(b) => b,
            Err(_) => {
                proof {
                    if !is_hex_digit(data@[p as int]) {
                        assert(pos <= p as int && (p as int) < pos + 2 * n && !is_hex_digit(
                            data@[p as int],
                        ));
                    } else {
                        assert(pos <= p as int + 1 && (p as int + 1) < pos + 2 * n
                            && !is_hex_digit(data@[p as int + 1]));
                    }
                }
                return Err(Error::MalformedHex);
            },
        };
        bytes.push(b);
        k = k + 1;
    }
    proof {
        assert(bytes@ =~= spec_read_hex_bytes(data@, pos as int, n as int)->Ok_0);
    }
    Ok(bytes)
}

/// Reading back the wire rendering of a byte sequence yields those bytes.
pub proof fn lemma_hex_bytes_round_trip(bytes: Seq<u8>)
    ensures
        hex_bytes_wire(bytes).len() == 2 * bytes.len(),
        spec_read_hex_bytes(hex_bytes_wire(bytes), 0, bytes.len() as int) == Ok::<Seq<u8>, Error>(
            bytes,
        ),
        forall|i: int|
            0 <= i < 2 * bytes.len() ==> is_hex_digit(#[trigger] hex_bytes_wire(bytes)[i]),
    decreases bytes.len(),
{
    let w = hex_bytes_wire(bytes);
    if bytes.len() == 0 {
        assert(w =~= Seq::<u8>::empty());
        assert(spec_read_hex_bytes(w, 0, 0)->Ok_0 =~= bytes);
    } else {
        lemma_hex_octet_round_trip(bytes[0]);
        lemma_hex_bytes_round_trip(bytes.skip(1));
        let rest_w = hex_bytes_wire(bytes.skip(1));
        assert(w =~= spec_encode_octet(bytes[0]) + rest_w);
        assert(forall|i: int| 0 <= i < 2 * (bytes.len() - 1) ==> #[trigger] rest_w[i] == w[i + 2]);
        assert(forall|i: int| 0 <= i < 2 * bytes.len() ==> is_hex_digit(#[trigger] w[i])) by {
            assert forall|i: int| 0 <= i < 2 * bytes.len() implies is_hex_digit(
                #[trigger] w[i],
            ) by {
                if i >= 2 {
                    assert(w[i] == rest_w[i - 2]);
                    assert(is_hex_digit(rest_w[i - 2]));
                }
            }
        }
        assert(spec_read_hex_bytes(w, 0, bytes.len() as int)->Ok_0 =~= bytes) by {
            assert forall|k: int| 0 <= k < bytes.len() implies (hex_val(w[2 * k]) * 16 + hex_val(
                w[2 * k + 1],
            )) as u8 == bytes[k] by {
                if k == 0 {
                } else {
                    assert(w[2 * k] == rest_w[2 * (k - 1)] && w[2 * k + 1] == rest_w[2 * (k - 1)
                        + 1]);
                    assert(spec_read_hex_bytes(rest_w, 0, bytes.len() - 1)->Ok_0[k - 1]
                        == bytes.skip(1)[k - 1]);
                }
            }
        }
    }
}

/// The character count spanned by a length octet: two hex characters per
/// octet.
pub fn parse_length(data: &[u8]) -> (r: Result<usize, Error>)
    requires
        data@.len() == 2,
    ensures
        r is Ok <==> is_hex_digit(data@[0]) && is_hex_digit(data@[1]),
        r is Ok ==> r->Ok_0 == 2 * (hex_val(data@[0]) * 16 + hex_val(data@[1])),
        r is Err ==> r->Err_0 == Error::MalformedHex,
{
    match u8_from_hex_str(data) {
        Ok(l) => Ok(2 * (l as usize)),
        Err(e) => Err(e),
    }
}

/// The hex primitive round trip: re-reading the two characters that encode a
/// byte yields that byte, for every byte value.
pub proof fn lemma_hex_octet_round_trip(b: u8)
    ensures
        is_hex_digit(spec_encode_octet(b)[0]),
        is_hex_digit(spec_encode_octet(b)[1]),
        hex_val(spec_encode_octet(b)[0]) * 16 + hex_val(spec_encode_octet(b)[1]) == b,
{
    assert(b / 16 < 16 && b % 16 < 16 && b == (b / 16) * 16 + b % 16) by (bit_vector);
}

} // verus!
