//! The two text alphabets of the user data body: the packed 7-bit alphabet
//! (decode only) and the 16-bit code-unit encoding (decode and encode).

use vstd::prelude::*;
use crate::errors::Error;
use crate::hex::{hex_val, is_hex_digit, spec_read_octet, spec_encode_octet, read_octet};
use crate::text::chars_to_string;

verus! {

broadcast use vstd::utf8::char_is_scalar, vstd::utf8::char_u32_cast;

/// The fixed 128-entry character table of the packed 7-bit alphabet,
/// indexed by septet value; values above 127 cannot arise from the masking
/// and fall back to the first entry.
pub open spec fn gsm_char(septet: u8) -> char {
    match septet {
        0u8 => '@',
        1u8 => '\u{a3}',
        2u8 => '$',
        3u8 => '\u{a5}',
        4u8 => '\u{e8}',
        5u8 => '\u{e9}',
        6u8 => '\u{f9}',
        7u8 => '\u{ec}',
        8u8 => '\u{f2}',
        9u8 => '\u{c7}',
        10u8 => '\n',
        11u8 => '\u{d8}',
        12u8 => '\u{f8}',
        13u8 => '\r',
        14u8 => '\u{c5}',
        15u8 => '\u{e5}',
        16u8 => '\u{394}',
        17u8 => '_',
        18u8 => '\u{3a6}',
        19u8 => '\u{393}',
        20u8 => '\u{39b}',
        21u8 => '\u{3a9}',
        22u8 => '\u{3a0}',
        23u8 => '\u{3a8}',
        24u8 => '\u{3a3}',
        25u8 => '\u{398}',
        26u8 => '\u{39e}',
        27u8 => '?',
        28u8 => '\u{c6}',
        29u8 => '\u{e6}',
        30u8 => '\u{df}',
        31u8 => '\u{c9}',
        32u8 => ' ',
        33u8 => '!',
        34u8 => '"',
        35u8 => '#',
        36u8 => '\u{a4}',
        37u8 => '%',
        38u8 => '&',
        39u8 => '\'',
        40u8 => '(',
        41u8 => ')',
        42u8 => '*',
        43u8 => '+',
        44u8 => ',',
        45u8 => '-',
        46u8 => '.',
        47u8 => '/',
        48u8 => '0',
        49u8 => '1',
        50u8 => '2',
        51u8 => '3',
        52u8 => '4',
        53u8 => '5',
        54u8 => '6',
        55u8 => '7',
        56u8 => '8',
        57u8 => '9',
        58u8 => ':',
        59u8 => ';',
        60u8 => '<',
        61u8 => '=',
        62u8 => '>',
        63u8 => '?',
        64u8 => '\u{a1}',
        65u8 => 'A',
        66u8 => 'B',
        67u8 => 'C',
        68u8 => 'D',
        69u8 => 'E',
        70u8 => 'F',
        71u8 => 'G',
        72u8 => 'H',
        73u8 => 'I',
        74u8 => 'J',
        75u8 => 'K',
        76u8 => 'L',
        77u8 => 'M',
        78u8 => 'N',
        79u8 => 'O',
        80u8 => 'P',
        81u8 => 'Q',
        82u8 => 'R',
        83u8 => 'S',
        84u8 => 'T',
        85u8 => 'U',
        86u8 => 'V',
        87u8 => 'W',
        88u8 => 'X',
        89u8 => 'Y',
        90u8 => 'Z',
        91u8 => '\u{c4}',
        92u8 => '\u{d6}',
        93u8 => '\u{d1}',
        94u8 => '\u{dc}',
        95u8 => '\u{a7}',
        96u8 => '\u{bf}',
        97u8 => 'a',
        98u8 => 'b',
        99u8 => 'c',
        100u8 => 'd',
        101u8 => 'e',
        102u8 => 'f',
        103u8 => 'g',
        104u8 => 'h',
        105u8 => 'i',
        106u8 => 'j',
        107u8 => 'k',
        108u8 => 'l',
        109u8 => 'm',
        110u8 => 'n',
        111u8 => 'o',
        112u8 => 'p',
        113u8 => 'q',
        114u8 => 'r',
        115u8 => 's',
        116u8 => 't',
        117u8 => 'u',
        118u8 => 'v',
        119u8 => 'w',
        120u8 => 'x',
        121u8 => 'y',
        122u8 => 'z',
        123u8 => '\u{e4}',
        124u8 => '\u{f6}',
        125u8 => '\u{f1}',
        126u8 => '\u{fc}',
        127u8 => '\u{e0}',
        _ => '@',
    }
}

/// Look one septet value up in the 7-bit alphabet table.
pub fn gsm_char_lookup(septet: u8) -> (c: char)
    ensures
        c == gsm_char(septet),
{
    match septet {
        0u8 => '@',
        1u8 => '\u{a3}',
        2u8 => '$',
        3u8 => '\u{a5}',
        4u8 => '\u{e8}',
        5u8 => '\u{e9}',
        6u8 => '\u{f9}',
        7u8 => '\u{ec}',
        8u8 => '\u{f2}',
        9u8 => '\u{c7}',
        10u8 => '\n',
        11u8 => '\u{d8}',
        12u8 => '\u{f8}',
        13u8 => '\r',
        14u8 => '\u{c5}',
        15u8 => '\u{e5}',
        16u8 => '\u{394}',
        17u8 => '_',
        18u8 => '\u{3a6}',
        19u8 => '\u{393}',
        20u8 => '\u{39b}',
        21u8 => '\u{3a9}',
        22u8 => '\u{3a0}',
        23u8 => '\u{3a8}',
        24u8 => '\u{3a3}',
        25u8 => '\u{398}',
        26u8 => '\u{39e}',
        27u8 => '?',
        28u8 => '\u{c6}',
        29u8 => '\u{e6}',
        30u8 => '\u{df}',
        31u8 => '\u{c9}',
        32u8 => ' ',
        33u8 => '!',
        34u8 => '"',
        35u8 => '#',
        36u8 => '\u{a4}',
        37u8 => '%',
        38u8 => '&',
        39u8 => '\'',
        40u8 => '(',
        41u8 => ')',
        42u8 => '*',
        43u8 => '+',
        44u8 => ',',
        45u8 => '-',
        46u8 => '.',
        47u8 => '/',
        48u8 => '0',
        49u8 => '1',
        50u8 => '2',
        51u8 => '3',
        52u8 => '4',
        53u8 => '5',
        54u8 => '6',
        55u8 => '7',
        56u8 => '8',
        57u8 => '9',
        58u8 => ':',
        59u8 => ';',
        60u8 => '<',
        61u8 => '=',
        62u8 => '>',
        63u8 => '?',
        64u8 => '\u{a1}',
        65u8 => 'A',
        66u8 => 'B',
        67u8 => 'C',
        68u8 => 'D',
        69u8 => 'E',
        70u8 => 'F',
        71u8 => 'G',
        72u8 => 'H',
        73u8 => 'I',
        74u8 => 'J',
        75u8 => 'K',
        76u8 => 'L',
        77u8 => 'M',
        78u8 => 'N',
        79u8 => 'O',
        80u8 => 'P',
        81u8 => 'Q',
        82u8 => 'R',
        83u8 => 'S',
        84u8 => 'T',
        85u8 => 'U',
        86u8 => 'V',
        87u8 => 'W',
        88u8 => 'X',
        89u8 => 'Y',
        90u8 => 'Z',
        91u8 => '\u{c4}',
        92u8 => '\u{d6}',
        93u8 => '\u{d1}',
        94u8 => '\u{dc}',
        95u8 => '\u{a7}',
        96u8 => '\u{bf}',
        97u8 => 'a',
        98u8 => 'b',
        99u8 => 'c',
        100u8 => 'd',
        101u8 => 'e',
        102u8 => 'f',
        103u8 => 'g',
        104u8 => 'h',
        105u8 => 'i',
        106u8 => 'j',
        107u8 => 'k',
        108u8 => 'l',
        109u8 => 'm',
        110u8 => 'n',
        111u8 => 'o',
        112u8 => 'p',
        113u8 => 'q',
        114u8 => 'r',
        115u8 => 's',
        116u8 => 't',
        117u8 => 'u',
        118u8 => 'v',
        119u8 => 'w',
        120u8 => 'x',
        121u8 => 'y',
        122u8 => 'z',
        123u8 => '\u{e4}',
        124u8 => '\u{f6}',
        125u8 => '\u{f1}',
        126u8 => '\u{fc}',
        127u8 => '\u{e0}',
        _ => '@',
    }
}

/// The low-bit mask applied to the octet consumed at step `stage`:
/// its low `7 - stage` bits belong to the character emitted at this step.
pub open spec fn gsm_mask(stage: u8) -> u8
    recommends
        stage <= 6,
{
    match stage {
        0u8 => 0x7f,
        1u8 => 0x3f,
        2u8 => 0x1f,
        3u8 => 0x0f,
        4u8 => 0x07,
        5u8 => 0x03,
        6u8 => 0x01,
        _ => 0xff,
    }
}

/// Look the per-step mask up.
pub fn gsm_mask_lookup(stage: u8) -> (m: u8)
    requires
        stage <= 6,
    ensures
        m == gsm_mask(stage),
{
    match stage {
        0u8 => 0x7f,
        1u8 => 0x3f,
        2u8 => 0x1f,
        3u8 => 0x0f,
        4u8 => 0x07,
        5u8 => 0x03,
        6u8 => 0x01,
        _ => 0xff,
    }
}

/// Decoding `remaining` more characters of the packed 7-bit alphabet from the
/// hex characters of `d` starting at `pos`, with `carry` bits left over from
/// the previous octet and the step counter at `stage`. At step 7 a character
/// is emitted from the carry alone and no octet is consumed; at any other
/// step the next octet is consumed, its low `7 - stage` bits are shifted up
/// by `stage` and joined with the carry to form the septet, and its remaining
/// high bits become the new carry. Yields the characters and the position
/// after the consumed octets.
pub open spec fn spec_gsm_decode(
    d: Seq<u8>,
    pos: int,
    remaining: nat,
    stage: u8,
    carry: u8,
) -> Result<(Seq<char>, int), Error>
    decreases remaining,
{
    if remaining == 0 {
        Ok((seq![], pos))
    } else if stage == 7 {
        match spec_gsm_decode(d, pos, (remaining - 1) as nat, 0, 0) {
            Ok((cs, end)) => Ok((seq![gsm_char(carry)] + cs, end)),
            Err(e) => Err(e),
        }
    } else {
        match spec_read_octet(d, pos) {
            Err(e) => Err(e),
            Ok(b) => {
                let septet = ((b & gsm_mask(stage)) << stage) | carry;
                let next_carry = (b & !gsm_mask(stage)) >> ((7 - stage) as u8);
                match spec_gsm_decode(d, pos + 2, (remaining - 1) as nat, (stage + 1) as u8, next_carry) {
                    Ok((cs, end)) => Ok((seq![gsm_char(septet)] + cs, end)),
                    Err(e) => Err(e),
                }
            },
        }
    }
}

/// Prefixing the characters of a decode outcome.
pub open spec fn prepend_chars(prefix: Seq<char>, r: Result<(Seq<char>, int), Error>) -> Result<
    (Seq<char>, int),
    Error,
> {
    match r {
        Ok((cs, end)) => Ok((prefix + cs, end)),
        Err(e) => Err(e),
    }
}

proof fn lemma_prepend_chars_assoc(
    p: Seq<char>,
    q: Seq<char>,
    r: Result<(Seq<char>, int), Error>,
)
    ensures
        prepend_chars(p, prepend_chars(q, r)) == prepend_chars(p + q, r),
{
    match r {
        Ok((cs, end)) => {
            assert(p + (q + cs) =~= (p + q) + cs);
        },
        Err(_) => {},
    }
}

proof fn lemma_prepend_chars_empty(r: Result<(Seq<char>, int), Error>)
    ensures
        prepend_chars(Seq::<char>::empty(), r) == r,
{
    match r {
        Ok((cs, end)) => {
            assert(Seq::<char>::empty() + cs =~= cs);
        },
        Err(_) => {},
    }
}

/// Decode `count` characters of the packed 7-bit alphabet starting at `pos`;
/// returns the text and the position after the consumed octets.
pub fn parse_gsm_alphabet(data: &Vec<u8>, pos: usize, count: usize) -> (r: Result<
    (String, usize),
    Error,
>)
    ensures
        r is Ok <==> spec_gsm_decode(data@, pos as int, count as nat, 0, 0) is Ok,
        r is Ok ==> r->Ok_0.0@ == spec_gsm_decode(data@, pos as int, count as nat, 0, 0)->Ok_0.0
            && r->Ok_0.1 == spec_gsm_decode(data@, pos as int, count as nat, 0, 0)->Ok_0.1,
        r is Err ==> r->Err_0 == spec_gsm_decode(data@, pos as int, count as nat, 0, 0)->Err_0,
{
    let ghost full = spec_gsm_decode(data@, pos as int, count as nat, 0, 0);
    let mut out: Vec<char> = Vec::new();
    let mut cur: usize = pos;
    let mut stage: u8 = 0;
    let mut carry: u8 = 0;
    let mut remaining: usize = count;
    let _buffer_len = data.len();
    proof {
        assert(out@ =~= Seq::<char>::empty());
        lemma_prepend_chars_empty(full);
    }
    while remaining > 0
        invariant
            stage <= 7,
            data@.len() <= usize::MAX,
            full == spec_gsm_decode(data@, pos as int, count as nat, 0, 0),
            prepend_chars(
                out@,
                spec_gsm_decode(data@, cur as int, remaining as nat, stage, carry),
            ) == full,
        decreases remaining,
    {
        let ghost rest = spec_gsm_decode(data@, cur as int, remaining as nat, stage, carry);
        if stage == 7 {
            let c = gsm_char_lookup(carry);
            proof {
                lemma_prepend_chars_assoc(
                    out@,
                    seq![gsm_char(carry)],
                    spec_gsm_decode(data@, cur as int, (remaining - 1) as nat, 0, 0),
                );
                assert(out@ + seq![gsm_char(carry)] =~= out@.push(c));
            }
            out.push(c);
            stage = 0;
            carry = 0;
            remaining = remaining - 1;
        } else {
            match read_octet(data, cur) {
                Err(e) => {
                    proof {
                        assert(rest == Err::<(Seq<char>, int), Error>(e));
                    }
                    return Err(e);
                },
                Ok(b) => {
                    let mask = gsm_mask_lookup(stage);
                    let septet = ((b & mask) << stage) | carry;
                    let next_carry = (b & !mask) >> (7 - stage);
                    let c = gsm_char_lookup(septet);
                    proof {
                        lemma_prepend_chars_assoc(
                            out@,
                            seq![gsm_char(septet)],
                            spec_gsm_decode(
                                data@,
                                cur as int + 2,
                                (remaining - 1) as nat,
                                (stage + 1) as u8,
                                next_carry,
                            ),
                        );
                        assert(out@ + seq![gsm_char(septet)] =~= out@.push(c));
                    }
                    out.push(c);
                    cur = cur + 2;
                    stage = stage + 1;
                    carry = next_carry;
                    remaining = remaining - 1;
                },
            }
        }
    }
    proof {
        assert(spec_gsm_decode(data@, cur as int, 0, stage, carry) == Ok::<(Seq<char>, int), Error>(
            (seq![], cur as int),
        ));
        assert(out@ + seq![] =~= out@);
    }
    let text = chars_to_string(&out);
    Ok((text, cur))
}

/// The value of the big-endian 16-bit unit written as four hex characters at `p`.
pub open spec fn utf16_unit_val(d: Seq<u8>, p: int) -> u16
    recommends
        0 <= p,
        p + 4 <= d.len(),
{
    (hex_val(d[p]) * 4096 + hex_val(d[p + 1]) * 256 + hex_val(d[p + 2]) * 16 + hex_val(
        d[p + 3],
    )) as u16
}

/// Reading `n` big-endian 16-bit units, four hex characters each, at `pos`.
pub open spec fn spec_read_utf16_units(d: Seq<u8>, pos: int, n: nat) -> Result<Seq<u16>, Error> {
    if pos + 4 * n > d.len() {
        Err(Error::Incomplete)
    } else if exists|i: int| pos <= i < pos + 4 * n && !is_hex_digit(d[i]) {
        Err(Error::MalformedHex)
    } else {
        Ok(Seq::new(n, |k: int| utf16_unit_val(d, pos + 4 * k)))
    }
}

/// The characters denoted by a 16-bit code-unit sequence, read as UTF-16:
/// a unit outside the surrogate range stands alone; a high surrogate
/// followed by a low surrogate forms one supplementary character; anything
/// else is invalid text.
pub open spec fn spec_utf16_chars(units: Seq<u16>) -> Result<Seq<char>, Error>
    decreases units.len(),
{
    if units.len() == 0 {
        Ok(seq![])
    } else {
        let u = units[0];
        if u < 0xD800 || u >= 0xE000 {
            match spec_utf16_chars(units.skip(1)) {
                Ok(cs) => Ok(seq![(u as u32) as char] + cs),
                Err(e) => Err(e),
            }
        } else if u < 0xDC00 && units.len() >= 2 && 0xDC00 <= units[1] < 0xE000 {
            let v = (0x10000 + (u - 0xD800) * 0x400 + (units[1] - 0xDC00)) as u32;
            match spec_utf16_chars(units.skip(2)) {
                Ok(cs) => Ok(seq![v as char] + cs),
                Err(e) => Err(e),
            }
        } else {
            Err(Error::InvalidText)
        }
    }
}

/// Decoding a 16-bit-encoded body of `octet_count` octets at `pos`: read
/// `octet_count / 2` big-endian units and interpret them as UTF-16. An odd
/// octet count cannot hold whole units and is invalid text.
pub open spec fn spec_parse_utf16(d: Seq<u8>, pos: int, octet_count: nat) -> Result<
    (Seq<char>, int),
    Error,
> {
    if octet_count % 2 != 0 {
        Err(Error::InvalidText)
    } else {
        match spec_read_utf16_units(d, pos, octet_count / 2) {
            Err(e) => Err(e),
            Ok(units) => match spec_utf16_chars(units) {
                Ok(cs) => Ok((cs, pos + 2 * octet_count)),
                Err(e) => Err(e),
            },
        }
    }
}

/// Read the `n` 16-bit units, four hex characters each, at `pos`.
fn read_utf16_units(data: &Vec<u8>, pos: usize, n: usize) -> (r: Result<Vec<u16>, Error>)
    requires
        n <= 127,
    ensures
        r is Ok <==> spec_read_utf16_units(data@, pos as int, n as nat) is Ok,
        r is Ok ==> r->Ok_0@ == spec_read_utf16_units(data@, pos as int, n as nat)->Ok_0,
        r is Err ==> r->Err_0 == spec_read_utf16_units(data@, pos as int, n as nat)->Err_0,
{
    let len = data.len();
    if pos > len {
        return Err(Error::Incomplete);
    }
    let avail = len - pos;
    proof {
        assert(avail == 4 * (avail / 4) + avail % 4 && 0 <= avail % 4 < 4) by (nonlinear_arith);
    }
    if avail / 4 < n {
        return Err(Error::Incomplete);
    }
    let mut units: Vec<u16> = Vec::new();
    let mut k: usize = 0;
    while k < n
        invariant
            pos + 4 * n <= data@.len(),
            data@.len() <= usize::MAX,
            k <= n,
            units@.len() == k as int,
            forall|j: int| 0 <= j < k ==> units@[j] == utf16_unit_val(data@, pos + 4 * j),
            forall|i: int| pos <= i < pos + 4 * k ==> is_hex_digit(data@[i]),
        decreases n - k,
    {
        let p = pos + 4 * k;
        let hi = match read_octet(data, p) {
            Ok(b) => b,
            Err(_) => {
                proof {
                    if !is_hex_digit(data@[p as int]) {
                        assert(pos <= p as int && (p as int) < pos + 4 * n && !is_hex_digit(data@[p as int]));
                    } else {
                        assert(pos <= p as int + 1 && (p as int + 1) < pos + 4 * n && !is_hex_digit(
                            data@[p as int + 1],
                        ));
                    }
                }
                return Err(Error::MalformedHex);
            },
        };
        let lo = match read_octet(data, p + 2) {
            Ok(b) => b,
            Err(_) => {
                proof {
                    if !is_hex_digit(data@[p as int + 2]) {
                        assert(pos <= p as int + 2 && (p as int + 2) < pos + 4 * n && !is_hex_digit(
                            data@[p as int + 2],
                        ));
                    } else {
                        assert(pos <= p as int + 3 && (p as int + 3) < pos + 4 * n && !is_hex_digit(
                            data@[p as int + 3],
                        ));
                    }
                }
                return Err(Error::MalformedHex);
            },
        };
        units.push((hi as u16) * 256 + (lo as u16));
        k = k + 1;
    }
    proof {
        assert(spec_read_utf16_units(data@, pos as int, n as nat)
            == Ok::<Seq<u16>, Error>(Seq::new(n as nat, |j: int| utf16_unit_val(data@, pos + 4 * j))));
        assert(units@ =~= Seq::new(n as nat, |j: int| utf16_unit_val(data@, pos + 4 * j)));
    }
    Ok(units)
}

/// Decode a 16-bit-encoded body of `octet_count` octets at `pos`; returns the
/// text and the position after the consumed hex characters.
#[verifier::rlimit(100)]
pub fn parse_utf16(data: &Vec<u8>, pos: usize, octet_count: usize) -> (r: Result<
    (String, usize),
    Error,
>)
    requires
        octet_count <= 255,
    ensures
        r is Ok <==> spec_parse_utf16(data@, pos as int, octet_count as nat) is Ok,
        r is Ok ==> r->Ok_0.0@ == spec_parse_utf16(data@, pos as int, octet_count as nat)->Ok_0.0
            && r->Ok_0.1 == spec_parse_utf16(data@, pos as int, octet_count as nat)->Ok_0.1,
        r is Err ==> r->Err_0 == spec_parse_utf16(data@, pos as int, octet_count as nat)->Err_0,
{
    if octet_count % 2 != 0 {
        return Err(Error::InvalidText);
    }
    let buffer_len = data.len();
    let n = octet_count / 2;
    proof {
        assert(octet_count == 2 * (octet_count / 2) + octet_count % 2 && 0 <= octet_count % 2
            < 2) by (nonlinear_arith);
    }
    let units = match read_utf16_units(data, pos, n) {
        Ok(u) => u,
        Err(e) => {
            return Err(e);
        },
    };
    let ghost full = spec_utf16_chars(units@);
    let mut out: Vec<char> = Vec::new();
    let mut k: usize = 0;
    proof {
        assert(units@.skip(0) =~= units@);
        assert(out@ =~= Seq::<char>::empty());
        lemma_prepend_utf16_empty(full);
    }
    while k < units.len()
        invariant
            k <= units@.len(),
            octet_count % 2 == 0,
            n == octet_count / 2,
            spec_read_utf16_units(data@, pos as int, n as nat) == Ok::<Seq<u16>, Error>(units@),
            full == spec_utf16_chars(units@),
            prepend_utf16(out@, spec_utf16_chars(units@.skip(k as int))) == full,
        decreases units@.len() - k,
    {
        let ghost suffix = units@.skip(k as int);
        proof {
            assert(suffix[0] == units@[k as int]);
        }
        let u = units[k];
        if u < 0xD800 || u >= 0xE000 {
            let c = match char::from_u32(u as u32) {
                Some(c) => c,
                None => {
                    proof {
                        assert(false);
                    }
                    return Err(Error::InvalidText);
                },
            };
            proof {
                vstd::utf8::char_u32_cast(c, u as u32);
                assert(suffix.skip(1) =~= units@.skip(k as int + 1));
                lemma_prepend_utf16_assoc(
                    out@,
                    seq![(u as u32) as char],
                    spec_utf16_chars(units@.skip(k as int + 1)),
                );
                assert(out@ + seq![(u as u32) as char] =~= out@.push(c));
            }
            out.push(c);
            k = k + 1;
        } else if u < 0xDC00 && k + 1 < units.len() && 0xDC00 <= units[k + 1] && units[k + 1]
            < 0xE000 {
            let u2 = units[k + 1];
            let v: u32 = 0x10000 + ((u as u32) - 0xD800) * 0x400 + ((u2 as u32) - 0xDC00);
            let c = match char::from_u32(v) {
                Some(c) => c,
                None => {
                    proof {
                        assert(false);
                    }
                    return Err(Error::InvalidText);
                },
            };
            proof {
                vstd::utf8::char_u32_cast(c, v);
                assert(suffix.len() >= 2 && suffix[1] == units@[k as int + 1]);
                assert(suffix.skip(2) =~= units@.skip(k as int + 2));
                lemma_prepend_utf16_assoc(
                    out@,
                    seq![v as char],
                    spec_utf16_chars(units@.skip(k as int + 2)),
                );
                assert(out@ + seq![v as char] =~= out@.push(c));
            }
            out.push(c);
            k = k + 2;
        } else {
            proof {
                assert(suffix.len() > 0 && suffix[0] == units@[k as int]);
                if suffix.len() >= 2 {
                    assert(suffix[1] == units@[k as int + 1]);
                }
                assert(spec_utf16_chars(suffix) == Err::<Seq<char>, Error>(Error::InvalidText));
            }
            return Err(Error::InvalidText);
        }
    }
    proof {
        assert(units@.skip(units@.len() as int) =~= Seq::<u16>::empty());
    }
    proof {
        assert(pos + 4 * (n as int) <= buffer_len);
    }
    let text = chars_to_string(&out);
    Ok((text, pos + 2 * octet_count))
}

/// Prefixing the characters of a text-decode outcome.
pub open spec fn prepend_utf16(prefix: Seq<char>, r: Result<Seq<char>, Error>) -> Result<
    Seq<char>,
    Error,
> {
    match r {
        Ok(cs) => Ok(prefix + cs),
        Err(e) => Err(e),
    }
}

proof fn lemma_prepend_utf16_assoc(p: Seq<char>, q: Seq<char>, r: Result<Seq<char>, Error>)
    ensures
        prepend_utf16(p, prepend_utf16(q, r)) == prepend_utf16(p + q, r),
{
    match r {
        Ok(cs) => {
            assert(p + (q + cs) =~= (p + q) + cs);
        },
        Err(_) => {},
    }
}

proof fn lemma_prepend_utf16_empty(r: Result<Seq<char>, Error>)
    ensures
        prepend_utf16(Seq::<char>::empty(), r) == r,
{
    match r {
        Ok(cs) => {
            assert(Seq::<char>::empty() + cs =~= cs);
        },
        Err(_) => {},
    }
}

/// The 16-bit code units of one character: one unit below 0x10000, else a
/// surrogate pair.
pub open spec fn utf16_units_of_char(c: char) -> Seq<u16> {
    let v = c as u32;
    if v < 0x10000 {
        seq![v as u16]
    } else {
        seq![(0xD800 + (v - 0x10000) / 0x400) as u16, (0xDC00 + (v - 0x10000) % 0x400) as u16]
    }
}

/// The 16-bit code units of a character sequence.
pub open spec fn utf16_units(s: Seq<char>) -> Seq<u16>
    decreases s.len(),
{
    if s.len() == 0 {
        seq![]
    } else {
        utf16_units_of_char(s[0]) + utf16_units(s.skip(1))
    }
}

/// Appending one character appends its units.
pub proof fn lemma_utf16_units_push(s: Seq<char>, c: char)
    ensures
        utf16_units(s.push(c)) == utf16_units(s) + utf16_units_of_char(c),
    decreases s.len(),
{
    if s.len() == 0 {
        assert(s.push(c)[0] == c);
        assert(s.push(c).skip(1) =~= Seq::<char>::empty());
        assert(utf16_units(Seq::<char>::empty()) == Seq::<u16>::empty());
        assert(utf16_units(s.push(c)) =~= utf16_units_of_char(c));
        assert(utf16_units(s) + utf16_units_of_char(c) =~= utf16_units_of_char(c));
    } else {
        assert(s.push(c)[0] == s[0]);
        assert(s.push(c).skip(1) =~= s.skip(1).push(c));
        lemma_utf16_units_push(s.skip(1), c);
        assert(utf16_units_of_char(s[0]) + (utf16_units(s.skip(1)) + utf16_units_of_char(c))
            =~= (utf16_units_of_char(s[0]) + utf16_units(s.skip(1))) + utf16_units_of_char(c));
    }
}

/// Compute the 16-bit code units of a string.
pub fn utf16_encode_units(s: &str) -> (units: Vec<u16>)
    ensures
        units@ == utf16_units(s@),
{
    let n = s.unicode_len();
    let mut units: Vec<u16> = Vec::new();
    let mut i: usize = 0;
    proof {
        assert(s@.take(0) =~= Seq::<char>::empty());
    }
    while i < n
        invariant
            n == s@.len(),
            i <= n,
            units@ == utf16_units(s@.take(i as int)),
        decreases n - i,
    {
        let c = s.get_char(i);
        let v = c as u32;
        if v < 0x10000 {
            units.push(v as u16);
            proof {
                lemma_utf16_units_push(s@.take(i as int), c);
                assert(utf16_units(s@.take(i as int)).push((v as u16))
                    =~= utf16_units(s@.take(i as int)) + utf16_units_of_char(c));
                assert(s@.take(i as int).push(c) =~= s@.take(i as int + 1));
            }
        } else {
            let w: u32 = v - 0x10000;
            assert(w >> 10 == w / 0x400 && (w & 0x3FF) == w % 0x400 && w >> 10 <= 0x3FFFFF && (w
                & 0x3FF) <= 0x3FF) by (bit_vector);
            let hi_unit: u32 = 0xD800 + (w >> 10);
            let lo_unit: u32 = 0xDC00 + (w & 0x3FF);
            units.push(hi_unit as u16);
            units.push(lo_unit as u16);
            proof {
                lemma_utf16_units_push(s@.take(i as int), c);
                assert(utf16_units(s@.take(i as int)).push((hi_unit as u16)).push((lo_unit as u16))
                    =~= utf16_units(s@.take(i as int)) + utf16_units_of_char(c));
                assert(s@.take(i as int).push(c) =~= s@.take(i as int + 1));
            }
        }
        i = i + 1;
    }
    proof {
        assert(s@.take(n as int) =~= s@);
    }
    units
}

/// The wire rendering of a 16-bit unit sequence: each unit as two hex
/// octets, high byte first.
pub open spec fn utf16_wire(units: Seq<u16>) -> Seq<u8>
    decreases units.len(),
{
    if units.len() == 0 {
        seq![]
    } else {
        spec_encode_octet((units[0] / 256) as u8) + spec_encode_octet((units[0] % 256) as u8)
            + utf16_wire(units.skip(1))
    }
}


/// Reading back the wire rendering of a 16-bit unit sequence yields those
/// units.
pub proof fn lemma_utf16_wire_round_trip(units: Seq<u16>)
    ensures
        utf16_wire(units).len() == 4 * units.len(),
        spec_read_utf16_units(utf16_wire(units), 0, units.len() as nat) == Ok::<Seq<u16>, Error>(
            units,
        ),
        forall|i: int|
            0 <= i < 4 * units.len() ==> is_hex_digit(#[trigger] utf16_wire(units)[i]),
    decreases units.len(),
{
    let w = utf16_wire(units);
    if units.len() == 0 {
        assert(w =~= Seq::<u8>::empty());
        assert(spec_read_utf16_units(w, 0, 0)->Ok_0 =~= units);
    } else {
        let u = units[0];
        let hi = (u / 256) as u8;
        let lo = (u % 256) as u8;
        crate::hex::lemma_hex_octet_round_trip(hi);
        crate::hex::lemma_hex_octet_round_trip(lo);
        lemma_utf16_wire_round_trip(units.skip(1));
        let rest_w = utf16_wire(units.skip(1));
        assert(w =~= (spec_encode_octet(hi) + spec_encode_octet(lo)) + rest_w);
        assert(forall|i: int| 0 <= i < 4 * (units.len() - 1) ==> #[trigger] rest_w[i] == w[i + 4]);
        assert(forall|i: int| 0 <= i < 4 * units.len() ==> is_hex_digit(#[trigger] w[i])) by {
            assert forall|i: int| 0 <= i < 4 * units.len() implies is_hex_digit(
                #[trigger] w[i],
            ) by {
                if i >= 4 {
                    assert(w[i] == rest_w[i - 4]);
                    assert(is_hex_digit(rest_w[i - 4]));
                }
            }
        }
        assert(hi as int == u / 256 && lo as int == u % 256 && (u / 256) * 256 + u % 256 == u);
        assert(spec_read_utf16_units(w, 0, units.len() as nat)->Ok_0 =~= units) by {
            assert forall|k: int| 0 <= k < units.len() implies utf16_unit_val(w, 4 * k)
                == units[k] by {
                if k == 0 {
                } else {
                    assert(w[4 * k] == rest_w[4 * (k - 1)] && w[4 * k + 1] == rest_w[4 * (k - 1)
                        + 1] && w[4 * k + 2] == rest_w[4 * (k - 1) + 2] && w[4 * k + 3] == rest_w[4
                        * (k - 1) + 3]);
                    assert(spec_read_utf16_units(rest_w, 0, (units.len() - 1) as nat)->Ok_0[k - 1]
                        == units.skip(1)[k - 1]);
                }
            }
        }
    }
}

/// The 16-bit text round trip, character level: a text whose characters
/// each fit a single code unit encodes to one unit per character, and that
/// unit sequence reads back as exactly the original text.
pub proof fn lemma_utf16_chars_round_trip(s: Seq<char>)
    requires
        forall|i: int| 0 <= i < s.len() ==> (#[trigger] s[i] as u32) < 0x10000,
    ensures
        utf16_units(s).len() == s.len(),
        spec_utf16_chars(utf16_units(s)) == Ok::<Seq<char>, Error>(s),
    decreases s.len(),
{
    let units = utf16_units(s);
    if s.len() == 0 {
        assert(units =~= Seq::<u16>::empty());
        assert(spec_utf16_chars(units)->Ok_0 =~= s);
    } else {
        let c = s[0];
        let v = c as u32;
        vstd::utf8::char_is_scalar(c);
        let u = (v as u16);
        assert((v as u16) as u32 == v) by (bit_vector)
            requires
                v < 0x10000,
        ;
        assert(utf16_units_of_char(c) =~= seq![u]);
        assert(forall|i: int|
            0 <= i < s.skip(1).len() ==> (#[trigger] s.skip(1)[i] as u32) < 0x10000) by {
            assert forall|i: int| 0 <= i < s.skip(1).len() implies (#[trigger] s.skip(1)[i] as u32)
                < 0x10000 by {
                assert(s.skip(1)[i] == s[i + 1]);
            }
        }
        lemma_utf16_chars_round_trip(s.skip(1));
        assert(units =~= seq![u] + utf16_units(s.skip(1)));
        assert(units[0] == u);
        assert(units.skip(1) =~= utf16_units(s.skip(1)));
        vstd::utf8::char_u32_cast(c, v);
        assert((u as u32) as char == c);
        assert(spec_utf16_chars(units)->Ok_0 =~= s);
    }
}

/// The 16-bit text round trip, wire level: the encoded body of a text of
/// single-unit characters is read back, over the octet count the encoder
/// announces (two per code unit), as exactly the original text.
pub proof fn lemma_utf16_round_trip(s: Seq<char>)
    requires
        forall|i: int| 0 <= i < s.len() ==> (#[trigger] s[i] as u32) < 0x10000,
    ensures
        utf16_units(s).len() == s.len(),
        spec_parse_utf16(utf16_wire(utf16_units(s)), 0, (2 * s.len()) as nat) == Ok::<
            (Seq<char>, int),
            Error,
        >((s, 4 * s.len() as int)),
{
    lemma_utf16_chars_round_trip(s);
    lemma_utf16_wire_round_trip(utf16_units(s));
}

} // verus!
